//! Validation of candidate sandwiches by replaying their block against a
//! pool, and the victim's loss attributable to the front-run.
use vstd::prelude::*;
use crate::fixed::SCALE;
use crate::heuristics::{block_issue, is_block_issue, is_searched, DetectionIssue};
use crate::pattern::{find_sandwich_triples, is_sandwich_triple, is_triple_listing, DetectionPolicy};
use crate::pool::{pool_after, can_simulate, tokens_received, Pool};
use crate::tokens::same_text;
use crate::transactions::{
    group_transactions_by_block, is_block_grouping, strictly_ordered, BlockTransactions,
    SwapTransaction,
};

verus! {

/// A candidate sandwich confirmed by simulation, with the victim's loss in
/// millionths of a percent of its recorded output.
#[derive(Debug, Clone)]
pub struct SandwichAttackBySimulation {
    pub front_run_tx: SwapTransaction,
    pub victim_tx: SwapTransaction,
    pub back_run_tx: SwapTransaction,
    pub victim_loss_percentage: u128,
}

/// Why a candidate could not be confirmed by simulation.
#[derive(Debug, Clone, Copy, PartialEq, Eq, Structural)]
pub enum SimulationError {
    /// No transaction of the block went through the victim's pool.
    NoPoolTransactions,
    /// Replaying the block does not reproduce the victim's recorded output.
    SimulationMismatch,
    /// A replayed swap outputs a token the pool does not hold, or a
    /// replayed reserve does not fit in 64 bits.
    CannotSimulate,
}

/// The findings of a simulation run, and what it skipped.
#[derive(Debug, Clone)]
pub struct SimulationReport {
    pub attacks: Vec<SandwichAttackBySimulation>,
    pub issues: Vec<DetectionIssue>,
}

/// `tx` is replayed ahead of `victim`: it goes through the victim's pool,
/// comes before it, and is not the excluded position.
pub open spec fn is_replayed(tx: SwapTransaction, victim: SwapTransaction, excluded: Option<u32>) -> bool {
    &&& tx.pool_address@ == victim.pool_address@
    &&& tx.tx_position_in_block < victim.tx_position_in_block
    &&& excluded != Some(tx.tx_position_in_block)
}

/// The pool after the replayed transactions of `txs`, in order; `None` when
/// a swap cannot be simulated.
pub open spec fn replay(pool: Pool, txs: Seq<SwapTransaction>, victim: SwapTransaction, excluded: Option<u32>) -> Option<Pool>
    decreases txs.len(),
{
    if txs.len() == 0 {
        Some(pool)
    } else {
        match replay(pool, txs.drop_last(), victim, excluded) {
            None => None,
            Some(p) => if !is_replayed(txs.last(), victim, excluded) {
                Some(p)
            } else if can_simulate(p, txs.last()) {
                Some(pool_after(p, txs.last()))
            } else {
                None
            },
        }
    }
}

/// What the victim's trade yields after the replay; `None` when a swap cannot be simulated.
pub open spec fn victim_output(pool: Pool, txs: Seq<SwapTransaction>, victim: SwapTransaction, excluded: Option<u32>) -> Option<int> {
    match replay(pool, txs, victim, excluded) {
        None => None,
        Some(p) => if can_simulate(p, victim) { Some(tokens_received(p, victim)) } else { None },
    }
}

pub open spec fn abs_diff(a: int, b: int) -> int {
    if a >= b { a - b } else { b - a }
}

/// The recorded output is positive and the simulated one differs from it
/// by at most 1%.
pub open spec fn matches_reality(actual: int, simulated: int) -> bool {
    actual > 0 && 100 * abs_diff(actual, simulated) <= actual
}

/// `|actual - counterfactual| / actual`, in millionths of a percent.
pub open spec fn loss_percentage(actual: int, counterfactual: int) -> int {
    (abs_diff(actual, counterfactual) * 100 * SCALE) / actual
}

/// The result of simulating the candidate `(front, victim, back)`.
pub open spec fn simulation_outcome(
    pool: Pool,
    txs: Seq<SwapTransaction>,
    front: SwapTransaction,
    victim: SwapTransaction,
) -> Result<int, SimulationError> {
    if !(exists|i: int| 0 <= i < txs.len() && #[trigger] txs[i].pool_address@ == victim.pool_address@) {
        Err(SimulationError::NoPoolTransactions)
    } else {
        match victim_output(pool, txs, victim, None) {
            None => Err(SimulationError::CannotSimulate),
            Some(simulated) => if !matches_reality(victim.amount_out as int, simulated) {
                Err(SimulationError::SimulationMismatch)
            } else {
                match victim_output(pool, txs, victim, Some(front.tx_position_in_block)) {
                    None => Err(SimulationError::CannotSimulate),
                    Some(counterfactual) => Ok(loss_percentage(victim.amount_out as int, counterfactual)),
                }
            },
        }
    }
}

/// A replay that reproduces the victim's recorded, positive output never
/// fails the reality check, whatever the front-run.
pub proof fn lemma_faithful_replay_matches_reality(
    pool: Pool,
    txs: Seq<SwapTransaction>,
    front: SwapTransaction,
    victim: SwapTransaction,
)
    requires
        victim.amount_out > 0,
        victim_output(pool, txs, victim, None) == Some(victim.amount_out as int),
    ensures
        matches_reality(victim.amount_out as int, victim.amount_out as int),
        simulation_outcome(pool, txs, front, victim) != Err::<int, SimulationError>(SimulationError::SimulationMismatch),
{
}

/// Replays, against `initial_pool` and in order, every transaction of
/// `transactions` that goes through the victim's pool before the victim,
/// leaving out the one at position `excluded`.
pub fn replay_pool(
    initial_pool: &Pool,
    transactions: &[SwapTransaction],
    victim: &SwapTransaction,
    excluded: Option<u32>,
) -> (r: Option<Pool>)
    ensures
        r == replay(*initial_pool, transactions@, *victim, excluded),
{
    let mut current = Pool {
        token_a_reserve: initial_pool.token_a_reserve,
        token_b_reserve: initial_pool.token_b_reserve,
        token_a_address: initial_pool.token_a_address.clone(),
        token_b_address: initial_pool.token_b_address.clone(),
    };
    let mut i: usize = 0;
    while i < transactions.len()
        invariant
            i <= transactions@.len(),
            replay(*initial_pool, transactions@.take(i as int), *victim, excluded) == Some(current),
        decreases transactions@.len() - i,
    {
        let tx = &transactions[i];
        assert(transactions@.take(i + 1).drop_last() =~= transactions@.take(i as int));
        let replayed = same_text(tx.pool_address.as_str(), victim.pool_address.as_str())
            && tx.tx_position_in_block < victim.tx_position_in_block
            && match excluded {
            Some(p) => p != tx.tx_position_in_block,
            None => true,
        };
        if replayed {
            if !current.can_simulate(tx) {
                proof {
                    lemma_replay_stays_failed(*initial_pool, transactions@, *victim, excluded, i as int + 1);
                }
                return None;
            }
            current = current.simulate_swap(tx).new_pool_state;
        }
        i = i + 1;
    }
    assert(transactions@.take(transactions@.len() as int) =~= transactions@);
    Some(current)
}

/// Once the replay of a prefix fails, the replay of every longer prefix does.
proof fn lemma_replay_stays_failed(
    pool: Pool,
    txs: Seq<SwapTransaction>,
    victim: SwapTransaction,
    excluded: Option<u32>,
    n: int,
)
    requires
        0 <= n <= txs.len(),
        replay(pool, txs.take(n), victim, excluded) is None,
    ensures
        replay(pool, txs, victim, excluded) is None,
    decreases txs.len() - n,
{
    if n < txs.len() {
        assert(txs.take(n + 1).drop_last() =~= txs.take(n));
        lemma_replay_stays_failed(pool, txs, victim, excluded, n + 1);
    } else {
        assert(txs.take(n) =~= txs);
    }
}

/// The victim's output when its trade follows the replay; `None` when a swap cannot be simulated.
pub fn simulate_victim(
    initial_pool: &Pool,
    transactions: &[SwapTransaction],
    victim: &SwapTransaction,
    excluded: Option<u32>,
) -> (r: Option<u64>)
    ensures
        r matches Some(v) ==> victim_output(*initial_pool, transactions@, *victim, excluded) == Some(v as int),
        r is None ==> victim_output(*initial_pool, transactions@, *victim, excluded) is None,
{
    match replay_pool(initial_pool, transactions, victim, excluded) {
        None => None,
        Some(pool) => if pool.can_simulate(victim) {
            Some(pool.simulate_swap(victim).tokens_received)
        } else {
            None
        },
    }
}

/// Whether replaying the block before the victim reproduces the victim's
/// recorded output within 1%; `None` when a swap cannot be simulated.
pub fn check_simulation_is_like_reality(
    initial_pool: &Pool,
    transactions: &[SwapTransaction],
    victim: &SwapTransaction,
) -> (r: Option<bool>)
    ensures
        r matches Some(b) ==> exists|s: int| victim_output(*initial_pool, transactions@, *victim, None) == Some(s)
            && b == matches_reality(victim.amount_out as int, s),
        r is None ==> victim_output(*initial_pool, transactions@, *victim, None) is None,
{
    match simulate_victim(initial_pool, transactions, victim, None) {
        None => None,
        Some(simulated) => Some(within_one_percent(victim.amount_out, simulated)),
    }
}

fn within_one_percent(actual: u64, simulated: u64) -> (r: bool)
    ensures
        r == matches_reality(actual as int, simulated as int),
{
    let diff = if actual >= simulated { actual - simulated } else { simulated - actual };
    actual > 0 && 100 * (diff as u128) <= actual as u128
}

/// The victim's loss, in millionths of a percent of its recorded output,
/// against a replay without the front-run; `None` when a swap cannot be
/// simulated.
pub fn simulate_without_attacker(
    initial_pool: &Pool,
    transactions: &[SwapTransaction],
    front: &SwapTransaction,
    victim: &SwapTransaction,
) -> (r: Option<u128>)
    requires
        victim.amount_out > 0,
    ensures
        r matches Some(l) ==> exists|c: int|
            victim_output(*initial_pool, transactions@, *victim, Some(front.tx_position_in_block)) == Some(c)
                && l == loss_percentage(victim.amount_out as int, c),
        r is None ==> victim_output(*initial_pool, transactions@, *victim, Some(front.tx_position_in_block)) is None,
{
    match simulate_victim(initial_pool, transactions, victim, Some(front.tx_position_in_block)) {
        None => None,
        Some(counterfactual) => Some(loss_in_millionths(victim.amount_out, counterfactual)),
    }
}

fn loss_in_millionths(actual: u64, counterfactual: u64) -> (r: u128)
    requires
        actual > 0,
    ensures
        r == loss_percentage(actual as int, counterfactual as int),
{
    let diff = if actual >= counterfactual { actual - counterfactual } else { counterfactual - actual };
    assert(diff as int * 100 * 1_000_000 <= u64::MAX as int * 100_000_000) by (nonlinear_arith)
        requires diff <= u64::MAX;
    (diff as u128 * 100 * SCALE as u128) / actual as u128
}

/// Confirms the candidate `(front, victim, back)` by simulation: the replay
/// must reproduce the victim's recorded output within 1%, and the victim's
/// loss is measured against the same replay without the front-run.
pub fn simulate_sandwich_attack(
    initial_pool: &Pool,
    front: &SwapTransaction,
    victim: &SwapTransaction,
    back: &SwapTransaction,
    transactions: &[SwapTransaction],
) -> (r: Result<SandwichAttackBySimulation, SimulationError>)
    ensures
        r matches Ok(a) ==> simulation_outcome(*initial_pool, transactions@, *front, *victim) == Ok::<int, SimulationError>(a.victim_loss_percentage as int)
            && a.front_run_tx == *front && a.victim_tx == *victim && a.back_run_tx == *back,
        r matches Err(e) ==> simulation_outcome(*initial_pool, transactions@, *front, *victim) == Err::<int, SimulationError>(e),
{
    let mut found = false;
    let mut i: usize = 0;
    while i < transactions.len() && !found
        invariant
            i <= transactions@.len(),
            found <==> exists|j: int| 0 <= j < i && #[trigger] transactions@[j].pool_address@ == victim.pool_address@,
        decreases transactions@.len() - i,
    {
        if same_text(transactions[i].pool_address.as_str(), victim.pool_address.as_str()) {
            found = true;
        }
        i = i + 1;
    }
    if !found {
        return Err(SimulationError::NoPoolTransactions);
    }
    match check_simulation_is_like_reality(initial_pool, transactions, victim) {
        None => Err(SimulationError::CannotSimulate),
        Some(false) => Err(SimulationError::SimulationMismatch),
        Some(true) => match simulate_without_attacker(initial_pool, transactions, front, victim) {
            None => Err(SimulationError::CannotSimulate),
            Some(loss) => Ok(SandwichAttackBySimulation {
                front_run_tx: front.duplicate(),
                victim_tx: victim.duplicate(),
                back_run_tx: back.duplicate(),
                victim_loss_percentage: loss,
            }),
        },
    }
}

} // verus!

verus! {

/// The shape the simulation detector searches for: equivalent tokens, and
/// a back-run that may exit through another pool.
pub open spec fn simulation_policy() -> DetectionPolicy {
    DetectionPolicy { token_equivalence: true, strict_pool: false }
}

/// `i` is the first entry of `pools` for `address`.
pub open spec fn is_first_entry(pools: Seq<(String, Pool)>, address: Seq<char>, i: int) -> bool {
    &&& 0 <= i < pools.len()
    &&& pools[i].0@ == address
    &&& forall|j: int| 0 <= j < i ==> (#[trigger] pools[j]).0@ != address
}

pub open spec fn has_entry(pools: Seq<(String, Pool)>, address: Seq<char>) -> bool {
    exists|i: int| 0 <= i < pools.len() && (#[trigger] pools[i]).0@ == address
}

/// The initial state supplied for the pool at `address`.
pub open spec fn pool_at(pools: Seq<(String, Pool)>, address: Seq<char>) -> Pool {
    pools[choose|i: int| is_first_entry(pools, address, i)].1
}

pub open spec fn issue_for(e: SimulationError, victim: SwapTransaction) -> DetectionIssue {
    let (block_number, victim_position) = (victim.block_number, victim.tx_position_in_block);
    match e {
        SimulationError::NoPoolTransactions => DetectionIssue::NoPoolTransactions { block_number, victim_position },
        SimulationError::SimulationMismatch => DetectionIssue::SimulationMismatch { block_number, victim_position },
        SimulationError::CannotSimulate => DetectionIssue::CannotSimulate { block_number, victim_position },
    }
}

/// The outcome for the triple `t` of `block`: the victim's loss, or why
/// the candidate is skipped.
pub open spec fn candidate_result(
    pools: Seq<(String, Pool)>,
    block: Seq<SwapTransaction>,
    t: (usize, usize, usize),
) -> Result<int, DetectionIssue> {
    let (front, victim) = (block[t.0 as int], block[t.1 as int]);
    if !has_entry(pools, front.pool_address@) {
        Err(DetectionIssue::PoolNotFound {
            block_number: victim.block_number,
            victim_position: victim.tx_position_in_block,
        })
    } else {
        match simulation_outcome(pool_at(pools, front.pool_address@), block, front, victim) {
            Ok(loss) => Ok(loss),
            Err(e) => Err(issue_for(e, victim)),
        }
    }
}

/// The finding for the triple `t` of `block`, with the victim's loss.
pub open spec fn finding_for(
    block: Seq<SwapTransaction>,
    t: (usize, usize, usize),
    loss: int,
) -> SandwichAttackBySimulation {
    SandwichAttackBySimulation {
        front_run_tx: block[t.0 as int],
        victim_tx: block[t.1 as int],
        back_run_tx: block[t.2 as int],
        victim_loss_percentage: loss as u128,
    }
}

/// The findings of the confirmed candidates of `listing`, in its order.
pub open spec fn findings(
    pools: Seq<(String, Pool)>,
    block: Seq<SwapTransaction>,
    listing: Seq<(usize, usize, usize)>,
) -> Seq<SandwichAttackBySimulation>
    decreases listing.len(),
{
    if listing.len() == 0 {
        Seq::empty()
    } else {
        let earlier = findings(pools, block, listing.drop_last());
        match candidate_result(pools, block, listing.last()) {
            Ok(loss) => earlier.push(finding_for(block, listing.last(), loss)),
            Err(_) => earlier,
        }
    }
}

/// The issues of the candidates of `listing` that are not confirmed, in
/// its order.
pub open spec fn candidate_issues(
    pools: Seq<(String, Pool)>,
    block: Seq<SwapTransaction>,
    listing: Seq<(usize, usize, usize)>,
) -> Seq<DetectionIssue>
    decreases listing.len(),
{
    if listing.len() == 0 {
        Seq::empty()
    } else {
        let earlier = candidate_issues(pools, block, listing.drop_last());
        match candidate_result(pools, block, listing.last()) {
            Ok(_) => earlier,
            Err(issue) => earlier.push(issue),
        }
    }
}

/// For some listing of the sandwich triples of `block`, each once, `found`
/// holds the findings of its confirmed candidates and `problems` the issues
/// of the others, both in the listing's order.
pub open spec fn simulates_block(
    pools: Seq<(String, Pool)>,
    block: Seq<SwapTransaction>,
    found: Seq<SandwichAttackBySimulation>,
    problems: Seq<DetectionIssue>,
) -> bool {
    exists|listing: Seq<(usize, usize, usize)>|
        is_triple_listing(simulation_policy(), block, listing) && found == findings(pools, block, listing)
            && problems == candidate_issues(pools, block, listing)
}

/// The index of the first entry of `pools` for `address`.
fn find_pool(pools: &[(String, Pool)], address: &str) -> (r: Option<usize>)
    ensures
        r is None <==> !has_entry(pools@, address@),
        r matches Some(i) ==> is_first_entry(pools@, address@, i as int),
{
    let mut i: usize = 0;
    while i < pools.len()
        invariant
            i <= pools@.len(),
            forall|j: int| 0 <= j < i ==> (#[trigger] pools@[j]).0@ != address@,
        decreases pools@.len() - i,
    {
        if same_text(pools[i].0.as_str(), address) {
            return Some(i);
        }
        i = i + 1;
    }
    None
}

/// Every sandwich candidate of one block's transactions, given in execution
/// order (strictly increasing positions, so index order is position order),
/// each confirmed by simulation against the supplied pool states or
/// reported as an issue. A pool's state is the first entry of `pool_map`
/// for its address.
pub fn find_sandwiches_in_block_by_simulation(
    pool_map: &[(String, Pool)],
    transactions: &[SwapTransaction],
) -> (r: (Vec<SandwichAttackBySimulation>, Vec<DetectionIssue>))
    requires
        strictly_ordered(transactions@),
    ensures
        simulates_block(pool_map@, transactions@, r.0@, r.1@),
        forall|m: int| 0 <= m < r.0@.len() ==> {
            &&& (#[trigger] r.0@[m]).front_run_tx.tx_position_in_block < r.0@[m].victim_tx.tx_position_in_block
            &&& r.0@[m].victim_tx.tx_position_in_block < r.0@[m].back_run_tx.tx_position_in_block
        },
{
    let triples = find_sandwich_triples(DetectionPolicy::equivalence_aware(), transactions);
    let mut attacks: Vec<SandwichAttackBySimulation> = Vec::new();
    let mut issues: Vec<DetectionIssue> = Vec::new();
    let mut m: usize = 0;
    while m < triples.len()
        invariant
            m <= triples@.len(),
            is_triple_listing(simulation_policy(), transactions@, triples@),
            strictly_ordered(transactions@),
            attacks@ == findings(pool_map@, transactions@, triples@.take(m as int)),
            forall|a: int| 0 <= a < attacks@.len() ==> {
                &&& (#[trigger] attacks@[a]).front_run_tx.tx_position_in_block < attacks@[a].victim_tx.tx_position_in_block
                &&& attacks@[a].victim_tx.tx_position_in_block < attacks@[a].back_run_tx.tx_position_in_block
            },
            issues@ == candidate_issues(pool_map@, transactions@, triples@.take(m as int)),
        decreases triples@.len() - m,
    {
        let (i, j, k) = triples[m];
        let ghost t = triples@[m as int];
        assert(is_sandwich_triple(simulation_policy(), transactions@, t));
        let ghost done = triples@.take(m as int);
        let ghost next = triples@.take(m + 1);
        assert(next.drop_last() =~= done);
        assert(next.last() == t);
        let front = &transactions[i];
        let victim = &transactions[j];
        let back = &transactions[k];
        match find_pool(pool_map, front.pool_address.as_str()) {
            None => {
                issues.push(DetectionIssue::PoolNotFound {
                    block_number: victim.block_number,
                    victim_position: victim.tx_position_in_block,
                });
            },
            Some(p) => {
                proof {
                    assert(is_first_entry(pool_map@, front.pool_address@, p as int));
                    let c = choose|c: int| is_first_entry(pool_map@, front.pool_address@, c);
                    if c < p {
                        assert(pool_map@[c].0@ != front.pool_address@);
                    } else if p < c {
                        assert(pool_map@[p as int].0@ != front.pool_address@);
                    }
                    assert(pool_at(pool_map@, front.pool_address@) == pool_map@[p as int].1);
                }
                match simulate_sandwich_attack(&pool_map[p].1, front, victim, back, transactions) {
                    Ok(attack) => {
                        assert(attack == finding_for(transactions@, t, attack.victim_loss_percentage as int));
                        attacks.push(attack);
                    },
                    Err(e) => {
                        let issue = match e {
                            SimulationError::NoPoolTransactions => DetectionIssue::NoPoolTransactions {
                                block_number: victim.block_number,
                                victim_position: victim.tx_position_in_block,
                            },
                            SimulationError::SimulationMismatch => DetectionIssue::SimulationMismatch {
                                block_number: victim.block_number,
                                victim_position: victim.tx_position_in_block,
                            },
                            SimulationError::CannotSimulate => DetectionIssue::CannotSimulate {
                                block_number: victim.block_number,
                                victim_position: victim.tx_position_in_block,
                            },
                        };
                        assert(issue == issue_for(e, *victim));
                        issues.push(issue);
                    },
                }
            },
        }
        m = m + 1;
    }
    assert(triples@.take(triples@.len() as int) =~= triples@);
    (attacks, issues)
}

} // verus!

verus! {

/// What the simulation detector reports for one group: the findings and
/// issues of a searched group's candidates, or no finding and the one
/// reason the group was skipped.
pub open spec fn simulation_reports_group(
    pools: Seq<(String, Pool)>,
    group: BlockTransactions,
    found: Seq<SandwichAttackBySimulation>,
    problems: Seq<DetectionIssue>,
) -> bool {
    if is_searched(group) {
        simulates_block(pools, group.transactions@, found, problems)
    } else {
        found.len() == 0 && problems.len() == 1 && is_block_issue(group, problems[0])
    }
}

/// `attacks` and `issues` are the concatenation, group by group in order,
/// of what each group reports (`found[g]` and `problems[g]` for group `g`).
pub open spec fn simulation_reports_groups_by(
    pools: Seq<(String, Pool)>,
    groups: Seq<BlockTransactions>,
    found: Seq<Seq<SandwichAttackBySimulation>>,
    problems: Seq<Seq<DetectionIssue>>,
    attacks: Seq<SandwichAttackBySimulation>,
    issues: Seq<DetectionIssue>,
) -> bool {
    &&& found.len() == groups.len()
    &&& problems.len() == groups.len()
    &&& attacks == found.flatten()
    &&& issues == problems.flatten()
    &&& forall|g: int| 0 <= g < groups.len() ==> simulation_reports_group(pools, groups[g], #[trigger] found[g], problems[g])
}

/// `attacks` and `issues` are the simulation findings over `groups`: for
/// each searched group, every candidate once, confirmed or reported; for
/// each other group, the reason it was skipped; concatenated group by group.
pub open spec fn simulation_reports_groups(
    pools: Seq<(String, Pool)>,
    groups: Seq<BlockTransactions>,
    attacks: Seq<SandwichAttackBySimulation>,
    issues: Seq<DetectionIssue>,
) -> bool {
    exists|found: Seq<Seq<SandwichAttackBySimulation>>, problems: Seq<Seq<DetectionIssue>>|
        simulation_reports_groups_by(pools, groups, found, problems, attacks, issues)
}

/// Sandwich attacks confirmed by simulation: the batch is grouped by block;
/// in each block with at least three transactions at distinct positions,
/// every candidate of the equivalence-aware shape whose front-run pool has
/// a supplied initial state is replayed; candidates that fail, and blocks
/// that are not searched, are reported as issues. A pool's state is the
/// first entry of `pool_map` for its address.
pub fn find_sandwich_attacks_by_simulation(
    pool_map: &[(String, Pool)],
    transactions: &[SwapTransaction],
) -> (r: SimulationReport)
    ensures
        exists|groups: Seq<BlockTransactions>|
            is_block_grouping(transactions@, groups) && simulation_reports_groups(
                pool_map@,
                groups,
                r.attacks@,
                r.issues@,
            ),
{
    let groups = group_transactions_by_block(transactions);
    let mut attacks: Vec<SandwichAttackBySimulation> = Vec::new();
    let mut issues: Vec<DetectionIssue> = Vec::new();
    let ghost mut found: Seq<Seq<SandwichAttackBySimulation>> = Seq::empty();
    let ghost mut problems: Seq<Seq<DetectionIssue>> = Seq::empty();
    assert(found.flatten() =~= Seq::<SandwichAttackBySimulation>::empty());
    assert(problems.flatten() =~= Seq::<DetectionIssue>::empty());
    let mut g: usize = 0;
    while g < groups.len()
        invariant
            g <= groups@.len(),
            is_block_grouping(transactions@, groups@),
            simulation_reports_groups_by(pool_map@, groups@.take(g as int), found, problems, attacks@, issues@),
        decreases groups@.len() - g,
    {
        let group = &groups[g];
        let ghost old_attacks = attacks@;
        let ghost old_issues = issues@;
        let ghost mut block_found: Seq<SandwichAttackBySimulation> = Seq::empty();
        let ghost mut block_problems: Seq<DetectionIssue> = Seq::empty();
        match block_issue(group) {
            Some(issue) => {
                issues.push(issue);
                proof {
                    block_problems = seq![issue];
                }
            },
            None => {
                let (mut block_attacks, mut block_issues) = find_sandwiches_in_block_by_simulation(
                    pool_map,
                    group.transactions.as_slice(),
                );
                proof {
                    block_found = block_attacks@;
                    block_problems = block_issues@;
                }
                attacks.append(&mut block_attacks);
                issues.append(&mut block_issues);
            },
        }
        proof {
            assert(simulation_reports_group(pool_map@, groups@[g as int], block_found, block_problems));
            assert(attacks@ =~= old_attacks + block_found);
            assert(issues@ =~= old_issues + block_problems);
            let before = groups@.take(g as int);
            let after = groups@.take(g + 1);
            assert(after =~= before.push(groups@[g as int]));
            let old_found = found;
            let old_problems = problems;
            found = found.push(block_found);
            problems = problems.push(block_problems);
            old_found.lemma_flatten_push(block_found);
            old_problems.lemma_flatten_push(block_problems);
            assert forall|h: int| 0 <= h < after.len() implies simulation_reports_group(pool_map@, after[h], #[trigger] found[h], problems[h]) by {
                if h < g {
                    assert(found[h] == old_found[h]);
                    assert(problems[h] == old_problems[h]);
                }
            }
        }
        g = g + 1;
    }
    assert(groups@.take(groups@.len() as int) =~= groups@);
    assert(simulation_reports_groups_by(pool_map@, groups@, found, problems, attacks@, issues@));
    SimulationReport { attacks, issues }
}

} // verus!
