//! The sandwich shape: a front-run and a back-run by one actor around a
//! victim's trade in the same block.
use vstd::prelude::*;
use crate::tokens::{are_tokens_equivalent, equivalent, same_text};
use crate::transactions::SwapTransaction;

verus! {

/// How strictly tokens and pools must line up for a triple to match.
#[derive(Debug, Clone, Copy, PartialEq, Eq, Structural)]
pub struct DetectionPolicy {
    /// Tokens are compared by equivalence class rather than literally.
    pub token_equivalence: bool,
    /// All three legs must use one pool; otherwise only the front-run and
    /// the victim must, and the back-run may exit on another venue.
    pub strict_pool: bool,
}

impl DetectionPolicy {
    /// Literal tokens, one pool for all three legs.
    pub fn strict() -> (r: DetectionPolicy)
        ensures
            !r.token_equivalence,
            r.strict_pool,
    {
        DetectionPolicy { token_equivalence: false, strict_pool: true }
    }

    /// Equivalent tokens, and a back-run that may use another pool.
    pub fn equivalence_aware() -> (r: DetectionPolicy)
        ensures
            r.token_equivalence,
            !r.strict_pool,
    {
        DetectionPolicy { token_equivalence: true, strict_pool: false }
    }
}

pub open spec fn tokens_match(policy: DetectionPolicy, a: Seq<char>, b: Seq<char>) -> bool {
    if policy.token_equivalence {
        equivalent(a, b)
    } else {
        a == b
    }
}

/// The tokens of `b` are those of `a` the other way round, up to equivalence.
pub open spec fn tokens_reversed(a: SwapTransaction, b: SwapTransaction) -> bool {
    equivalent(a.token_in@, b.token_out@) && equivalent(a.token_out@, b.token_in@)
}

/// `front`, `victim` and `back`, in this order, form a sandwich.
pub open spec fn is_sandwich_shape(
    policy: DetectionPolicy,
    front: SwapTransaction,
    victim: SwapTransaction,
    back: SwapTransaction,
) -> bool {
    // one attacker, who is not the victim
    &&& front.from_address@ == back.from_address@
    &&& front.from_address@ != victim.from_address@
    // the attacker's round trip
    &&& tokens_match(policy, front.token_in@, back.token_out@)
    &&& tokens_match(policy, front.token_out@, back.token_in@)
    // the attacker buys ahead of the victim, in the same direction
    &&& tokens_match(policy, front.token_in@, victim.token_in@)
    &&& tokens_match(policy, front.token_out@, victim.token_out@)
    // and sells back the other way
    &&& !(tokens_match(policy, victim.token_in@, back.token_in@) && tokens_match(
        policy,
        victim.token_out@,
        back.token_out@,
    ))
    &&& front.pool_address@ == victim.pool_address@
    &&& policy.strict_pool ==> victim.pool_address@ == back.pool_address@
}

/// Indices `t` of a front-run, a victim and a back-run in `block`.
pub open spec fn is_sandwich_triple(
    policy: DetectionPolicy,
    block: Seq<SwapTransaction>,
    t: (usize, usize, usize),
) -> bool {
    &&& t.0 < t.1 < t.2 < block.len()
    &&& is_sandwich_shape(policy, block[t.0 as int], block[t.1 as int], block[t.2 as int])
}

/// `r` lists every sandwich triple of `block` exactly once.
pub open spec fn is_triple_listing(
    policy: DetectionPolicy,
    block: Seq<SwapTransaction>,
    r: Seq<(usize, usize, usize)>,
) -> bool {
    &&& forall|a: int, b: int| 0 <= a < b < r.len() ==> r[a] != r[b]
    &&& forall|m: int| 0 <= m < r.len() ==> is_sandwich_triple(policy, block, #[trigger] r[m])
    &&& forall|t: (usize, usize, usize)|
        is_sandwich_triple(policy, block, t) ==> #[trigger] r.contains(t)
}

fn tokens_agree(policy: DetectionPolicy, a: &String, b: &String) -> (r: bool)
    ensures
        r == tokens_match(policy, a@, b@),
{
    if policy.token_equivalence {
        are_tokens_equivalent(a.as_str(), b.as_str())
    } else {
        same_text(a.as_str(), b.as_str())
    }
}

/// Whether the tokens of `b` are those of `a` the other way round, up to
/// equivalence (buying first and selling second).
pub fn are_tokens_reversed(a: &SwapTransaction, b: &SwapTransaction) -> (r: bool)
    ensures
        r == tokens_reversed(*a, *b),
{
    are_tokens_equivalent(a.token_in.as_str(), b.token_out.as_str())
        && are_tokens_equivalent(a.token_out.as_str(), b.token_in.as_str())
}

/// Whether the three transactions have the sandwich shape under `policy`.
/// A match says nothing of profitability.
pub fn matches_sandwich_shape(
    policy: DetectionPolicy,
    front: &SwapTransaction,
    victim: &SwapTransaction,
    back: &SwapTransaction,
) -> (r: bool)
    ensures
        r == is_sandwich_shape(policy, *front, *victim, *back),
{
    if !same_text(front.pool_address.as_str(), victim.pool_address.as_str()) {
        return false;
    }
    if policy.strict_pool && !same_text(victim.pool_address.as_str(), back.pool_address.as_str()) {
        return false;
    }
    if !same_text(front.from_address.as_str(), back.from_address.as_str()) {
        return false;
    }
    if same_text(front.from_address.as_str(), victim.from_address.as_str()) {
        return false;
    }
    if !tokens_agree(policy, &front.token_in, &back.token_out)
        || !tokens_agree(policy, &front.token_out, &back.token_in) {
        return false;
    }
    if !tokens_agree(policy, &front.token_in, &victim.token_in)
        || !tokens_agree(policy, &front.token_out, &victim.token_out) {
        return false;
    }
    if tokens_agree(policy, &victim.token_in, &back.token_in)
        && tokens_agree(policy, &victim.token_out, &back.token_out) {
        return false;
    }
    true
}

/// Whether the three transactions have the sandwich shape, comparing tokens
/// by equivalence and letting the back-run use another pool.
pub fn is_sandwich_pattern(
    front: &SwapTransaction,
    victim: &SwapTransaction,
    back: &SwapTransaction,
) -> (r: bool)
    ensures
        r == is_sandwich_shape(
            DetectionPolicy { token_equivalence: true, strict_pool: false },
            *front,
            *victim,
            *back,
        ),
{
    matches_sandwich_shape(DetectionPolicy::equivalence_aware(), front, victim, back)
}

/// Every triple of indices `i < j < k` of `block` whose transactions form a
/// sandwich under `policy`; the victim need not be adjacent to either leg.
pub fn find_sandwich_triples(policy: DetectionPolicy, block: &[SwapTransaction]) -> (r: Vec<
    (usize, usize, usize),
>)
    ensures
        is_triple_listing(policy, block@, r@),
{
    let n = block.len();
    let mut r: Vec<(usize, usize, usize)> = Vec::new();
    let mut i: usize = 0;
    while i < n
        invariant
            n == block@.len(),
            i <= n,
            forall|a: int, b: int| 0 <= a < b < r@.len() ==> r@[a] != r@[b],
            forall|m: int| 0 <= m < r@.len() ==> is_sandwich_triple(policy, block@, #[trigger] r@[m]) && r@[m].0 < i,
            forall|t: (usize, usize, usize)|
                is_sandwich_triple(policy, block@, t) && t.0 < i ==> #[trigger] r@.contains(t),
        decreases n - i,
    {
        let mut k: usize = if n - i >= 2 {
            i + 2
        } else {
            n
        };
        while k < n
            invariant
                n == block@.len(),
                i < n,
                i + 2 <= k || k == n,
                forall|a: int, b: int| 0 <= a < b < r@.len() ==> r@[a] != r@[b],
                forall|m: int| 0 <= m < r@.len() ==> is_sandwich_triple(policy, block@, #[trigger] r@[m])
                    && (r@[m].0 < i || (r@[m].0 == i && r@[m].2 < k)),
                forall|t: (usize, usize, usize)|
                    is_sandwich_triple(policy, block@, t) && (t.0 < i || (t.0 == i && t.2 < k))
                        ==> #[trigger] r@.contains(t),
            decreases n - k,
        {
            let front = &block[i];
            let back = &block[k];
            if same_text(front.from_address.as_str(), back.from_address.as_str())
                && tokens_agree(policy, &front.token_in, &back.token_out)
                && tokens_agree(policy, &front.token_out, &back.token_in) {
                let mut j: usize = i + 1;
                while j < k
                    invariant
                        n == block@.len(),
                        i < j <= k,
                        k < n,
                        *front == block@[i as int],
                        *back == block@[k as int],
                        forall|a: int, b: int| 0 <= a < b < r@.len() ==> r@[a] != r@[b],
                        forall|m: int| 0 <= m < r@.len() ==> is_sandwich_triple(policy, block@, #[trigger] r@[m])
                            && (r@[m].0 < i || (r@[m].0 == i && (r@[m].2 < k || (r@[m].2 == k && r@[m].1 < j)))),
                        forall|t: (usize, usize, usize)|
                            is_sandwich_triple(policy, block@, t) && (t.0 < i || (t.0 == i && (t.2 < k || (
                            t.2 == k && t.1 < j)))) ==> #[trigger] r@.contains(t),
                    decreases k - j,
                {
                    let ghost old_r = r@;
                    if matches_sandwich_shape(policy, front, &block[j], back) {
                        assert(is_sandwich_triple(policy, block@, (i, j, k)));
                        r.push((i, j, k));
                        proof {
                            assert forall|m: int| 0 <= m < r@.len() implies is_sandwich_triple(policy, block@, #[trigger] r@[m])
                                && (r@[m].0 < i || (r@[m].0 == i && (r@[m].2 < k || (r@[m].2 == k && r@[m].1 < j + 1)))) by {
                                if m < old_r.len() {
                                    assert(r@[m] == old_r[m]);
                                }
                            }
                            assert forall|a: int, b: int| 0 <= a < b < r@.len() implies r@[a] != r@[b] by {
                                if b == old_r.len() {
                                    assert(r@[a] == old_r[a]);
                                    assert(is_sandwich_triple(policy, block@, old_r[a]));
                                } else {
                                    assert(r@[a] == old_r[a]);
                                    assert(r@[b] == old_r[b]);
                                }
                            }
                            assert forall|t: (usize, usize, usize)|
                                is_sandwich_triple(policy, block@, t) && (t.0 < i || (t.0 == i && (t.2 < k || (
                                t.2 == k && t.1 < j + 1)))) implies #[trigger] r@.contains(t) by {
                                if t == (i, j, k) {
                                    assert(r@[old_r.len() as int] == t);
                                } else {
                                    assert(old_r.contains(t));
                                    let m = choose|m: int| 0 <= m < old_r.len() && old_r[m] == t;
                                    assert(r@[m] == t);
                                }
                            }
                        }
                    } else {
                        assert(!is_sandwich_triple(policy, block@, (i, j, k)));
                    }
                    j = j + 1;
                }
            }
            k = k + 1;
        }
        i = i + 1;
    }
    r
}

/// No listed triple has the attacker trading as its own victim.
pub proof fn lemma_attacker_is_never_victim(
    policy: DetectionPolicy,
    block: Seq<SwapTransaction>,
    r: Seq<(usize, usize, usize)>,
)
    requires
        is_triple_listing(policy, block, r),
    ensures
        forall|m: int|
            0 <= m < r.len() ==> block[(#[trigger] r[m]).0 as int].from_address@ != block[r[m].1 as int].from_address@,
{
    assert forall|m: int| 0 <= m < r.len() implies block[(#[trigger] r[m]).0 as int].from_address@
        != block[r[m].1 as int].from_address@ by {
        assert(is_sandwich_triple(policy, block, r[m]));
    }
}

} // verus!
