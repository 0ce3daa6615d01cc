//! Confidence that a matched triple is an intentional attack.
use vstd::prelude::*;
use crate::fixed::{scaled_fraction, SCALE};
use crate::tokens::{are_tokens_equivalent, equivalent};
use crate::transactions::SwapTransaction;

verus! {

/// Which signals the score adds up.
#[derive(Debug, Clone, Copy, PartialEq, Eq, Structural)]
pub enum ScoringVariant {
    /// Base 0.5, with gas, contract-caller and profit signals.
    Basic,
    /// Base 0.3, adding proportional sizing and the victim's price impact.
    SizeAndImpact,
}

/// The signals behind a confidence score.
#[derive(Debug, Clone, Copy, PartialEq, Eq)]
pub struct ConfidenceFlags {
    pub higher_front_gas_price: bool,
    pub lower_back_gas_price: bool,
    pub front_is_contract: bool,
    pub back_is_contract: bool,
    pub is_profitable: bool,
    pub is_proportional: bool,
    /// The victim's price impact, in millionths.
    pub price_impact_score: u64,
    /// The attacker's net USD profit, in micro-dollars.
    pub total_profit_usd: i128,
}

pub const WEIGHT_FRONT_GAS: u64 = 200_000;
pub const WEIGHT_BACK_GAS: u64 = 100_000;
pub const WEIGHT_CONTRACT: u64 = 100_000;
pub const WEIGHT_PROFIT: u64 = 250_000;
pub const WEIGHT_PROPORTIONAL: u64 = 150_000;
pub const IMPACT_CAP: u64 = 250_000;

pub open spec fn base_confidence(variant: ScoringVariant) -> int {
    match variant {
        ScoringVariant::Basic => 500_000,
        ScoringVariant::SizeAndImpact => 300_000,
    }
}

/// The attacker's USD result: what the back-run returned, less what the
/// front-run spent and both legs' gas.
pub open spec fn profit(front: SwapTransaction, back: SwapTransaction) -> int {
    back.usd_value_out - front.usd_value_in - front.gas_cost_usd - back.gas_cost_usd
}

/// The front-run is 5% to 50% of the victim's USD size, and the back-run
/// between half and twice the front-run.
pub open spec fn proportional(front: SwapTransaction, victim: SwapTransaction, back: SwapTransaction) -> bool {
    let (f, v, b) = (front.usd_value_in as int, victim.usd_value_in as int, back.usd_value_in as int);
    &&& v > 0
    &&& 20 * f >= v
    &&& 2 * f <= v
    &&& 2 * b >= f
    &&& b <= 2 * f
}

/// How much worse the victim's USD rate was than the front-run's, relative
/// to the front-run's rate, in millionths; 0 when the victim did no worse,
/// when a rate is undefined, or when the two trade different directions.
pub open spec fn price_impact(front: SwapTransaction, victim: SwapTransaction) -> int {
    let (fi, fo) = (front.usd_value_in as int, front.usd_value_out as int);
    let (vi, vo) = (victim.usd_value_in as int, victim.usd_value_out as int);
    if !(equivalent(front.token_in@, victim.token_in@) && equivalent(front.token_out@, victim.token_out@)) {
        0
    } else if fi == 0 || vi == 0 || vo * fi >= fo * vi {
        0
    } else {
        (SCALE * (fo * vi - vo * fi)) / (fo * vi)
    }
}

pub open spec fn flags_of(front: SwapTransaction, victim: SwapTransaction, back: SwapTransaction) -> ConfidenceFlags {
    ConfidenceFlags {
        higher_front_gas_price: front.gas_price > victim.gas_price,
        lower_back_gas_price: back.gas_price < victim.gas_price,
        front_is_contract: front.is_contract_caller,
        back_is_contract: back.is_contract_caller,
        is_profitable: profit(front, back) > 0,
        is_proportional: proportional(front, victim, back),
        price_impact_score: price_impact(front, victim) as u64,
        total_profit_usd: profit(front, back) as i128,
    }
}

/// The score before the ceiling: the base plus each signal's weight.
pub open spec fn raw_confidence(variant: ScoringVariant, flags: ConfidenceFlags) -> int {
    base_confidence(variant)
        + (if flags.higher_front_gas_price { WEIGHT_FRONT_GAS as int } else { 0 })
        + (if flags.lower_back_gas_price { WEIGHT_BACK_GAS as int } else { 0 })
        + (if flags.front_is_contract { WEIGHT_CONTRACT as int } else { 0 })
        + (if flags.back_is_contract { WEIGHT_CONTRACT as int } else { 0 })
        + (if flags.is_profitable { WEIGHT_PROFIT as int } else { 0 })
        + (if variant == ScoringVariant::SizeAndImpact {
            (if flags.is_proportional { WEIGHT_PROPORTIONAL as int } else { 0 })
            + (if flags.price_impact_score < IMPACT_CAP { flags.price_impact_score as int } else { IMPACT_CAP as int })
        } else {
            0
        })
}

/// The score: the raw score, capped at 1.0.
pub open spec fn confidence(variant: ScoringVariant, flags: ConfidenceFlags) -> int {
    let raw = raw_confidence(variant, flags);
    if raw > SCALE { SCALE as int } else { raw }
}

/// Whether the front-run and back-run are sized in proportion to the victim.
pub fn is_proportional_sandwich(
    front: &SwapTransaction,
    victim: &SwapTransaction,
    back: &SwapTransaction,
) -> (r: bool)
    ensures
        r == proportional(*front, *victim, *back),
{
    let f = front.usd_value_in as u128;
    let v = victim.usd_value_in as u128;
    let b = back.usd_value_in as u128;
    v > 0 && 20 * f >= v && 2 * f <= v && 2 * b >= f && b <= 2 * f
}

/// The price impact the victim suffered relative to the front-run, in
/// millionths (0.05 is 50_000); never negative.
pub fn calculate_victim_price_impact(front: &SwapTransaction, victim: &SwapTransaction) -> (r: u64)
    ensures
        r as int == price_impact(*front, *victim),
        r <= SCALE,
{
    if !are_tokens_equivalent(front.token_in.as_str(), victim.token_in.as_str())
        || !are_tokens_equivalent(front.token_out.as_str(), victim.token_out.as_str()) {
        return 0;
    }
    if front.usd_value_in == 0 || victim.usd_value_in == 0 {
        return 0;
    }
    let fi = front.usd_value_in as u128;
    let fo = front.usd_value_out as u128;
    let vi = victim.usd_value_in as u128;
    let vo = victim.usd_value_out as u128;
    proof {
        assert(fo * vi <= u64::MAX as int * u64::MAX as int) by (nonlinear_arith)
            requires fo <= u64::MAX, vi <= u64::MAX;
        assert(vo * fi <= u64::MAX as int * u64::MAX as int) by (nonlinear_arith)
            requires vo <= u64::MAX, fi <= u64::MAX;
    }
    let front_side = fo * vi;
    let victim_side = vo * fi;
    if victim_side >= front_side {
        return 0;
    }
    let r = scaled_fraction(front_side - victim_side, front_side);
    proof {
        vstd::arithmetic::div_mod::lemma_div_is_ordered(
            (front_side - victim_side) as int * SCALE as int,
            front_side as int * SCALE as int,
            front_side as int,
        );
        vstd::arithmetic::div_mod::lemma_div_by_multiple(SCALE as int, front_side as int);
        assert((front_side - victim_side) as int * SCALE as int <= front_side as int * SCALE as int)
            by (nonlinear_arith) requires victim_side < front_side;
    }
    r
}

/// The confidence score of a matched triple, in millionths, with the
/// signals behind it.
pub fn calculate_sandwich_confidence(
    variant: ScoringVariant,
    front: &SwapTransaction,
    victim: &SwapTransaction,
    back: &SwapTransaction,
) -> (r: (u64, ConfidenceFlags))
    ensures
        r.1 == flags_of(*front, *victim, *back),
        r.0 as int == confidence(variant, r.1),
        base_confidence(variant) <= r.0 <= SCALE,
{
    let total_profit_usd: i128 = back.usd_value_out as i128 - front.usd_value_in as i128
        - front.gas_cost_usd as i128 - back.gas_cost_usd as i128;
    let flags = ConfidenceFlags {
        higher_front_gas_price: front.gas_price > victim.gas_price,
        lower_back_gas_price: back.gas_price < victim.gas_price,
        front_is_contract: front.is_contract_caller,
        back_is_contract: back.is_contract_caller,
        is_profitable: total_profit_usd > 0,
        is_proportional: is_proportional_sandwich(front, victim, back),
        price_impact_score: calculate_victim_price_impact(front, victim),
        total_profit_usd,
    };
    let mut score: u64 = match variant {
        ScoringVariant::Basic => 500_000,
        ScoringVariant::SizeAndImpact => 300_000,
    };
    if flags.higher_front_gas_price {
        score = score + WEIGHT_FRONT_GAS;
    }
    if flags.lower_back_gas_price {
        score = score + WEIGHT_BACK_GAS;
    }
    if flags.front_is_contract {
        score = score + WEIGHT_CONTRACT;
    }
    if flags.back_is_contract {
        score = score + WEIGHT_CONTRACT;
    }
    if flags.is_profitable {
        score = score + WEIGHT_PROFIT;
    }
    if variant == ScoringVariant::SizeAndImpact {
        if flags.is_proportional {
            score = score + WEIGHT_PROPORTIONAL;
        }
        if flags.price_impact_score < IMPACT_CAP {
            score = score + flags.price_impact_score;
        } else {
            score = score + IMPACT_CAP;
        }
    }
    if score > SCALE {
        score = SCALE;
    }
    (score, flags)
}

/// Every confidence score lies between the variant's base and 1.0.
pub proof fn lemma_confidence_is_bounded(variant: ScoringVariant, flags: ConfidenceFlags)
    ensures
        base_confidence(variant) <= confidence(variant, flags) <= SCALE,
{
}

/// The two sets of signals agree on everything but profit.
pub open spec fn same_signals_but_profit(a: ConfidenceFlags, b: ConfidenceFlags) -> bool {
    &&& a.higher_front_gas_price == b.higher_front_gas_price
    &&& a.lower_back_gas_price == b.lower_back_gas_price
    &&& a.front_is_contract == b.front_is_contract
    &&& a.back_is_contract == b.back_is_contract
    &&& a.is_proportional == b.is_proportional
    &&& a.price_impact_score == b.price_impact_score
}

/// A profitable triple scores strictly higher than an unprofitable one whose
/// other signals are the same, unless the latter already scores the maximum.
pub proof fn lemma_profit_raises_confidence(
    variant: ScoringVariant,
    front: SwapTransaction,
    victim: SwapTransaction,
    back: SwapTransaction,
    other_front: SwapTransaction,
    other_victim: SwapTransaction,
    other_back: SwapTransaction,
)
    requires
        profit(front, back) > 0,
        profit(other_front, other_back) <= 0,
        same_signals_but_profit(
            flags_of(front, victim, back),
            flags_of(other_front, other_victim, other_back),
        ),
        confidence(variant, flags_of(other_front, other_victim, other_back)) < SCALE,
    ensures
        confidence(variant, flags_of(front, victim, back)) > confidence(
            variant,
            flags_of(other_front, other_victim, other_back),
        ),
{
}

} // verus!
