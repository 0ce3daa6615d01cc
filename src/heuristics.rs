//! Sandwich detection by pattern and confidence heuristics.
use vstd::prelude::*;
use crate::pattern::{find_sandwich_triples, is_sandwich_triple, is_triple_listing, DetectionPolicy};
use crate::scoring::{calculate_sandwich_confidence, confidence, flags_of, ConfidenceFlags, ScoringVariant};
use crate::transactions::{
    flags_duplicates, group_transactions_by_block, is_block_grouping, strictly_ordered,
    BlockTransactions, SwapTransaction,
};

verus! {

/// A front-run, victim and back-run, with the confidence (in millionths)
/// that they form an intentional attack.
#[derive(Debug, Clone)]
pub struct SandwichAttack {
    pub front_run_tx: SwapTransaction,
    pub victim_tx: SwapTransaction,
    pub back_run_tx: SwapTransaction,
    pub confidence_score: u64,
    pub confidence_flags: ConfidenceFlags,
}

/// Why a block, or a candidate within it, produced no finding.
#[derive(Debug, Clone, Copy, PartialEq, Eq, Structural)]
pub enum DetectionIssue {
    /// The block holds fewer than three transactions.
    InsufficientTransactions { block_number: u64 },
    /// Two transactions of the block share a position, so its order is ambiguous.
    DuplicatePosition { block_number: u64, position: u32 },
    /// No initial state was supplied for the victim's pool.
    PoolNotFound { block_number: u64, victim_position: u32 },
    /// No transaction of the block went through the victim's pool.
    NoPoolTransactions { block_number: u64, victim_position: u32 },
    /// Replaying the block does not reproduce the victim's recorded output.
    SimulationMismatch { block_number: u64, victim_position: u32 },
    /// A replayed swap outputs a token the pool does not hold, or a
    /// replayed reserve does not fit in 64 bits.
    CannotSimulate { block_number: u64, victim_position: u32 },
}

/// The findings of a heuristic run, and the blocks it skipped.
#[derive(Debug, Clone)]
pub struct HeuristicReport {
    pub attacks: Vec<SandwichAttack>,
    pub issues: Vec<DetectionIssue>,
}

/// A block holds fewer transactions than a sandwich needs.
#[derive(Debug, Clone, Copy, PartialEq, Eq, Structural)]
pub struct InsufficientTransactions;

/// `a` records the triple `t` of `block`, scored under `variant`.
pub open spec fn is_attack_record(
    variant: ScoringVariant,
    block: Seq<SwapTransaction>,
    t: (usize, usize, usize),
    a: SandwichAttack,
) -> bool {
    &&& a.front_run_tx == block[t.0 as int]
    &&& a.victim_tx == block[t.1 as int]
    &&& a.back_run_tx == block[t.2 as int]
    &&& a.confidence_flags == flags_of(a.front_run_tx, a.victim_tx, a.back_run_tx)
    &&& a.confidence_score == confidence(variant, a.confidence_flags)
}

/// `attacks` records, in some order, every sandwich triple of `block` once.
pub open spec fn records_block(
    policy: DetectionPolicy,
    variant: ScoringVariant,
    block: Seq<SwapTransaction>,
    attacks: Seq<SandwichAttack>,
) -> bool {
    exists|t: Seq<(usize, usize, usize)>|
        is_triple_listing(policy, block, t) && t.len() == attacks.len() && forall|m: int|
            0 <= m < t.len() ==> is_attack_record(variant, block, t[m], #[trigger] attacks[m])
}

/// A block is searched when it has at least three transactions, all at
/// distinct positions.
pub open spec fn is_searched(group: BlockTransactions) -> bool {
    group.transactions@.len() >= 3 && strictly_ordered(group.transactions@)
}

/// The reason `group` is not searched: fewer than three transactions, or
/// two of them at one position; `None` when it is searched.
pub fn block_issue(group: &BlockTransactions) -> (r: Option<DetectionIssue>)
    requires
        flags_duplicates(*group),
    ensures
        r is None <==> is_searched(*group),
        r matches Some(issue) ==> is_block_issue(*group, issue),
{
    if group.transactions.len() < 3 {
        Some(DetectionIssue::InsufficientTransactions { block_number: group.block_number })
    } else {
        match group.duplicate_position {
            Some(position) => Some(DetectionIssue::DuplicatePosition { block_number: group.block_number, position }),
            None => None,
        }
    }
}

/// `issue` is the reason the detectors skip `group`.
pub open spec fn is_block_issue(group: BlockTransactions, issue: DetectionIssue) -> bool {
    let s = group.transactions@;
    match issue {
        DetectionIssue::InsufficientTransactions { block_number } => block_number == group.block_number
            && s.len() < 3,
        DetectionIssue::DuplicatePosition { block_number, position } => {
            &&& block_number == group.block_number
            &&& s.len() >= 3
            &&& exists|i: int|
                0 <= i < s.len() - 1 && #[trigger] s[i].tx_position_in_block == position
                    && s[i + 1].tx_position_in_block == position
        },
        _ => false,
    }
}

/// What the heuristics report for one group: the records of a searched
/// group's sandwich triples and no issue, or no record and the one reason
/// the group was skipped.
pub open spec fn reports_group(
    policy: DetectionPolicy,
    variant: ScoringVariant,
    group: BlockTransactions,
    found: Seq<SandwichAttack>,
    skipped: Seq<DetectionIssue>,
) -> bool {
    if is_searched(group) {
        records_block(policy, variant, group.transactions@, found) && skipped.len() == 0
    } else {
        found.len() == 0 && skipped.len() == 1 && is_block_issue(group, skipped[0])
    }
}

/// `attacks` and `issues` are the concatenation, group by group in order,
/// of what each group reports (`found[g]` and `skipped[g]` for group `g`).
pub open spec fn reports_groups_by(
    policy: DetectionPolicy,
    variant: ScoringVariant,
    groups: Seq<BlockTransactions>,
    found: Seq<Seq<SandwichAttack>>,
    skipped: Seq<Seq<DetectionIssue>>,
    attacks: Seq<SandwichAttack>,
    issues: Seq<DetectionIssue>,
) -> bool {
    &&& found.len() == groups.len()
    &&& skipped.len() == groups.len()
    &&& attacks == found.flatten()
    &&& issues == skipped.flatten()
    &&& forall|g: int| 0 <= g < groups.len() ==> reports_group(policy, variant, groups[g], #[trigger] found[g], skipped[g])
}

/// `attacks` and `issues` are the heuristic findings over `groups`: each
/// searched group's sandwich triples, each recorded once, and the reason
/// each other group was skipped, concatenated group by group.
pub open spec fn reports_groups(
    policy: DetectionPolicy,
    variant: ScoringVariant,
    groups: Seq<BlockTransactions>,
    attacks: Seq<SandwichAttack>,
    issues: Seq<DetectionIssue>,
) -> bool {
    exists|found: Seq<Seq<SandwichAttack>>, skipped: Seq<Seq<DetectionIssue>>|
        reports_groups_by(policy, variant, groups, found, skipped, attacks, issues)
}

/// All sandwiches in one block's transactions, given in execution order
/// (strictly increasing positions, so index order is position order), each
/// with its confidence score; blocks of fewer than three transactions are
/// refused.
pub fn find_sandwiches_in_block(
    policy: DetectionPolicy,
    variant: ScoringVariant,
    transactions: &[SwapTransaction],
) -> (r: Result<Vec<SandwichAttack>, InsufficientTransactions>)
    requires
        strictly_ordered(transactions@),
    ensures
        r is Err <==> transactions@.len() < 3,
        r matches Ok(v) ==> records_block(policy, variant, transactions@, v@),
        r matches Ok(v) ==> forall|m: int| 0 <= m < v@.len() ==> {
            &&& (#[trigger] v@[m]).front_run_tx.tx_position_in_block < v@[m].victim_tx.tx_position_in_block
            &&& v@[m].victim_tx.tx_position_in_block < v@[m].back_run_tx.tx_position_in_block
        },
{
    if transactions.len() < 3 {
        return Err(InsufficientTransactions);
    }
    let triples = find_sandwich_triples(policy, transactions);
    let mut attacks: Vec<SandwichAttack> = Vec::new();
    let mut m: usize = 0;
    while m < triples.len()
        invariant
            m <= triples@.len(),
            attacks@.len() == m,
            forall|a: int| 0 <= a < triples@.len() ==> is_sandwich_triple(policy, transactions@, #[trigger] triples@[a]),
            forall|a: int| 0 <= a < m ==> is_attack_record(variant, transactions@, triples@[a], #[trigger] attacks@[a]),
        decreases triples@.len() - m,
    {
        let (i, j, k) = triples[m];
        assert(is_sandwich_triple(policy, transactions@, triples@[m as int]));
        let front = &transactions[i];
        let victim = &transactions[j];
        let back = &transactions[k];
        let (confidence_score, confidence_flags) = calculate_sandwich_confidence(variant, front, victim, back);
        attacks.push(SandwichAttack {
            front_run_tx: front.duplicate(),
            victim_tx: victim.duplicate(),
            back_run_tx: back.duplicate(),
            confidence_score,
            confidence_flags,
        });
        m = m + 1;
    }
    assert(is_triple_listing(policy, transactions@, triples@));
    Ok(attacks)
}

/// Sandwich attacks in a batch of transactions: the batch is grouped by
/// block, and each block with at least three transactions at distinct
/// positions is searched; the other blocks are reported as issues.
pub fn detect_by_heuristics(
    policy: DetectionPolicy,
    variant: ScoringVariant,
    transactions: &[SwapTransaction],
) -> (r: HeuristicReport)
    ensures
        exists|groups: Seq<BlockTransactions>|
            is_block_grouping(transactions@, groups) && reports_groups(
                policy,
                variant,
                groups,
                r.attacks@,
                r.issues@,
            ),
{
    let groups = group_transactions_by_block(transactions);
    let mut attacks: Vec<SandwichAttack> = Vec::new();
    let mut issues: Vec<DetectionIssue> = Vec::new();
    let ghost mut found: Seq<Seq<SandwichAttack>> = Seq::empty();
    let ghost mut skipped: Seq<Seq<DetectionIssue>> = Seq::empty();
    let mut g: usize = 0;
    assert(found.flatten() =~= Seq::<SandwichAttack>::empty());
    assert(skipped.flatten() =~= Seq::<DetectionIssue>::empty());
    while g < groups.len()
        invariant
            g <= groups@.len(),
            is_block_grouping(transactions@, groups@),
            reports_groups_by(policy, variant, groups@.take(g as int), found, skipped, attacks@, issues@),
        decreases groups@.len() - g,
    {
        let group = &groups[g];
        let ghost old_attacks = attacks@;
        let ghost old_issues = issues@;
        let ghost mut block_found: Seq<SandwichAttack> = Seq::empty();
        let ghost mut block_skipped: Seq<DetectionIssue> = Seq::empty();
        match block_issue(group) {
            Some(issue) => {
                issues.push(issue);
                proof {
                    block_skipped = seq![issue];
                }
            },
            None => {
                match find_sandwiches_in_block(policy, variant, group.transactions.as_slice()) {
                    Ok(mut block_attacks) => {
                        proof {
                            block_found = block_attacks@;
                        }
                        attacks.append(&mut block_attacks);
                    },
                    Err(_) => {},
                }
            },
        }
        proof {
            assert(reports_group(policy, variant, groups@[g as int], block_found, block_skipped));
            assert(attacks@ =~= old_attacks + block_found);
            assert(issues@ =~= old_issues + block_skipped);
            let before = groups@.take(g as int);
            let after = groups@.take(g + 1);
            assert(after =~= before.push(groups@[g as int]));
            let old_found = found;
            let old_skipped = skipped;
            found = found.push(block_found);
            skipped = skipped.push(block_skipped);
            old_found.lemma_flatten_push(block_found);
            old_skipped.lemma_flatten_push(block_skipped);
            assert forall|h: int| 0 <= h < after.len() implies reports_group(policy, variant, after[h], #[trigger] found[h], skipped[h]) by {
                if h < g {
                    assert(found[h] == old_found[h]);
                    assert(skipped[h] == old_skipped[h]);
                }
            }
        }
        g = g + 1;
    }
    assert(groups@.take(groups@.len() as int) =~= groups@);
    assert(reports_groups_by(policy, variant, groups@, found, skipped, attacks@, issues@));
    HeuristicReport { attacks, issues }
}

/// Sandwich attacks under the equivalence-aware shape, scored with
/// proportional sizing and price impact.
pub fn find_same_block_sandwiches(transactions: &[SwapTransaction]) -> (r: HeuristicReport)
    ensures
        exists|groups: Seq<BlockTransactions>|
            is_block_grouping(transactions@, groups) && reports_groups(
                DetectionPolicy { token_equivalence: true, strict_pool: false },
                ScoringVariant::SizeAndImpact,
                groups,
                r.attacks@,
                r.issues@,
            ),
{
    detect_by_heuristics(DetectionPolicy::equivalence_aware(), ScoringVariant::SizeAndImpact, transactions)
}

/// Sandwich attacks under the strict shape (literal tokens, one pool),
/// scored with the basic signals.
pub fn find_sandwiches(transactions: &[SwapTransaction]) -> (r: HeuristicReport)
    ensures
        exists|groups: Seq<BlockTransactions>|
            is_block_grouping(transactions@, groups) && reports_groups(
                DetectionPolicy { token_equivalence: false, strict_pool: true },
                ScoringVariant::Basic,
                groups,
                r.attacks@,
                r.issues@,
            ),
{
    detect_by_heuristics(DetectionPolicy::strict(), ScoringVariant::Basic, transactions)
}

} // verus!
