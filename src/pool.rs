//! A constant-product liquidity pool and the swaps it executes.
use vstd::prelude::*;
use crate::tokens::{are_tokens_equivalent, equivalent, same_text};
use crate::transactions::SwapTransaction;

verus! {

/// Reserves of a two-token constant-product pool, in the tokens' base units.
#[derive(Debug, Clone)]
pub struct Pool {
    pub token_a_reserve: u64,
    pub token_b_reserve: u64,
    pub token_a_address: String,
    pub token_b_address: String,
}

/// An exact non-negative fraction.
#[derive(Debug, Clone, Copy, PartialEq, Eq, Structural)]
pub struct Fraction {
    pub numerator: u128,
    pub denominator: u128,
}

/// The outcome of one simulated swap.
#[derive(Debug, Clone)]
pub struct SwapSimulationResult {
    pub tokens_received: u64,
    /// Input paid per output token received; `None` when nothing is received.
    pub price_per_token: Option<Fraction>,
    /// Relative deviation of the execution price from the pre-trade price
    /// (1/100 is one percent); `None` when either price is undefined.
    pub slippage: Option<Fraction>,
    /// The pool after the swap.
    pub new_pool_state: Pool,
}

/// The swap buys token A of the pool: its output is token A, or, when it is
/// not literally token B, a token equivalent to A (WETH out of an ETH pool).
pub open spec fn buys_token_a(pool: Pool, swap: SwapTransaction) -> bool {
    swap.token_out@ == pool.token_a_address@ || (swap.token_out@ != pool.token_b_address@ && equivalent(
        swap.token_out@,
        pool.token_a_address@,
    ))
}

/// The swap's output is one of the pool's tokens, up to equivalence.
pub open spec fn pool_holds_output(pool: Pool, swap: SwapTransaction) -> bool {
    equivalent(swap.token_out@, pool.token_a_address@) || equivalent(swap.token_out@, pool.token_b_address@)
}

pub open spec fn input_reserve(pool: Pool, swap: SwapTransaction) -> int {
    if buys_token_a(pool, swap) { pool.token_b_reserve as int } else { pool.token_a_reserve as int }
}

pub open spec fn output_reserve(pool: Pool, swap: SwapTransaction) -> int {
    if buys_token_a(pool, swap) { pool.token_a_reserve as int } else { pool.token_b_reserve as int }
}

/// Output of a constant-product swap of `dx` into reserves `x` (input side)
/// and `y` (output side), rounded down.
pub open spec fn constant_product(x: int, y: int, dx: int) -> int {
    if x + dx == 0 { 0 } else { (y * dx) / (x + dx) }
}

pub open spec fn tokens_received(pool: Pool, swap: SwapTransaction) -> int {
    constant_product(input_reserve(pool, swap), output_reserve(pool, swap), swap.amount_in as int)
}

/// The pool holds the swap's output token, and the input reserve after the
/// swap still fits in 64 bits.
pub open spec fn can_simulate(pool: Pool, swap: SwapTransaction) -> bool {
    &&& pool_holds_output(pool, swap)
    &&& input_reserve(pool, swap) + swap.amount_in <= u64::MAX
}

/// The pool after the swap: the input added on one side, the output taken
/// from the other.
pub open spec fn pool_after(pool: Pool, swap: SwapTransaction) -> Pool {
    let out = tokens_received(pool, swap);
    if buys_token_a(pool, swap) {
        Pool {
            token_a_reserve: (pool.token_a_reserve - out) as u64,
            token_b_reserve: (pool.token_b_reserve + swap.amount_in) as u64,
            ..pool
        }
    } else {
        Pool {
            token_a_reserve: (pool.token_a_reserve + swap.amount_in) as u64,
            token_b_reserve: (pool.token_b_reserve - out) as u64,
            ..pool
        }
    }
}

/// `f` stands for the rational number `n / d`.
pub open spec fn is_fraction(f: Fraction, n: int, d: int) -> bool {
    f.numerator == n && f.denominator == d
}

/// The relative slippage `|e - i| / i` of execution price `e` against
/// initial price `i`, over a common denominator.
pub open spec fn slippage_of(initial: Fraction, execution: Fraction) -> Fraction {
    let lhs = execution.numerator * initial.denominator;
    let rhs = initial.numerator * execution.denominator;
    Fraction {
        numerator: (if lhs >= rhs { lhs - rhs } else { rhs - lhs }) as u128,
        denominator: (execution.denominator * initial.numerator) as u128,
    }
}

pub open spec fn fits_u64(f: Fraction) -> bool {
    f.numerator <= u64::MAX && f.denominator <= u64::MAX
}

impl Pool {
    pub fn new(
        token_a_reserve: u64,
        token_b_reserve: u64,
        token_a_address: String,
        token_b_address: String,
    ) -> (r: Pool)
        ensures
            r.token_a_reserve == token_a_reserve,
            r.token_b_reserve == token_b_reserve,
            r.token_a_address == token_a_address,
            r.token_b_address == token_b_address,
    {
        Pool { token_a_reserve, token_b_reserve, token_a_address, token_b_address }
    }

    /// The marginal price of token A in units of token B; `None` when the
    /// pool holds no token A.
    pub fn get_token_a_price(&self) -> (r: Option<Fraction>)
        ensures
            self.token_a_reserve == 0 <==> r is None,
            r matches Some(f) ==> is_fraction(f, self.token_b_reserve as int, self.token_a_reserve as int),
    {
        if self.token_a_reserve == 0 {
            None
        } else {
            Some(Fraction { numerator: self.token_b_reserve as u128, denominator: self.token_a_reserve as u128 })
        }
    }

    /// The marginal price of token B in units of token A; `None` when the
    /// pool holds no token B.
    pub fn get_token_b_price(&self) -> (r: Option<Fraction>)
        ensures
            self.token_b_reserve == 0 <==> r is None,
            r matches Some(f) ==> is_fraction(f, self.token_a_reserve as int, self.token_b_reserve as int),
    {
        if self.token_b_reserve == 0 {
            None
        } else {
            Some(Fraction { numerator: self.token_a_reserve as u128, denominator: self.token_b_reserve as u128 })
        }
    }

    /// `y * dx / (x + dx)`, rounded down: what `dx` buys from reserves `x`
    /// (input side) and `y` (output side).
    pub fn constant_product_formula(&self, x: u64, y: u64, dx: u64) -> (r: u64)
        requires
            x + dx > 0,
        ensures
            r as int == constant_product(x as int, y as int, dx as int),
            r <= y,
    {
        let den = x as u128 + dx as u128;
        proof {
            assert(y as int * dx as int <= u64::MAX as int * u64::MAX as int) by (nonlinear_arith)
                requires y <= u64::MAX, dx <= u64::MAX;
            assert(y as int * dx as int <= y as int * den as int) by (nonlinear_arith)
                requires dx <= den;
            vstd::arithmetic::div_mod::lemma_div_is_ordered(y as int * dx as int, y as int * den as int, den as int);
            vstd::arithmetic::div_mod::lemma_div_by_multiple(y as int, den as int);
        }
        ((y as u128 * dx as u128) / den) as u64
    }

    /// The relative deviation of `execution_price` from `initial_price`;
    /// `None` when the initial price is zero.
    pub fn calculate_slippage(&self, initial_price: Fraction, execution_price: Fraction) -> (r: Option<Fraction>)
        requires
            fits_u64(initial_price),
            fits_u64(execution_price),
        ensures
            initial_price.numerator == 0 || execution_price.denominator == 0 <==> r is None,
            r matches Some(f) ==> f == slippage_of(initial_price, execution_price),
    {
        if initial_price.numerator == 0 || execution_price.denominator == 0 {
            return None;
        }
        proof {
            let (a, b, c, d) = (execution_price.numerator as int, initial_price.denominator as int,
                initial_price.numerator as int, execution_price.denominator as int);
            assert(a * b <= u64::MAX as int * u64::MAX as int) by (nonlinear_arith)
                requires 0 <= a <= u64::MAX, 0 <= b <= u64::MAX;
            assert(c * d <= u64::MAX as int * u64::MAX as int) by (nonlinear_arith)
                requires 0 <= c <= u64::MAX, 0 <= d <= u64::MAX;
            assert(d * c <= u64::MAX as int * u64::MAX as int) by (nonlinear_arith)
                requires 0 <= c <= u64::MAX, 0 <= d <= u64::MAX;
        }
        let lhs = execution_price.numerator * initial_price.denominator;
        let rhs = initial_price.numerator * execution_price.denominator;
        let diff = if lhs >= rhs { lhs - rhs } else { rhs - lhs };
        Some(Fraction { numerator: diff, denominator: execution_price.denominator * initial_price.numerator })
    }

    /// Whether `swap` buys this pool's token A.
    pub fn buys_token_a(&self, swap: &SwapTransaction) -> (r: bool)
        ensures
            r == buys_token_a(*self, *swap),
    {
        same_text(swap.token_out.as_str(), self.token_a_address.as_str()) || (!same_text(
            swap.token_out.as_str(),
            self.token_b_address.as_str(),
        ) && are_tokens_equivalent(swap.token_out.as_str(), self.token_a_address.as_str()))
    }

    /// Whether the pool holds the output token of `swap` and its input
    /// reserve can take the swap without overflowing.
    pub fn can_simulate(&self, swap: &SwapTransaction) -> (r: bool)
        ensures
            r == can_simulate(*self, *swap),
    {
        if !are_tokens_equivalent(swap.token_out.as_str(), self.token_a_address.as_str())
            && !are_tokens_equivalent(swap.token_out.as_str(), self.token_b_address.as_str()) {
            return false;
        }
        let input = if self.buys_token_a(swap) {
            self.token_b_reserve
        } else {
            self.token_a_reserve
        };
        input as u128 + swap.amount_in as u128 <= u64::MAX as u128
    }

    /// Executes `swap` against the pool, which is left as it was: the pool
    /// after the swap is part of the result.
    pub fn simulate_swap(&self, swap: &SwapTransaction) -> (r: SwapSimulationResult)
        requires
            can_simulate(*self, *swap),
        ensures
            r.tokens_received as int == tokens_received(*self, *swap),
            r.new_pool_state == pool_after(*self, *swap),
            r.tokens_received == 0 <==> r.price_per_token is None,
            r.price_per_token matches Some(p) ==> is_fraction(p, swap.amount_in as int, r.tokens_received as int),
            r.slippage matches Some(s) ==> input_reserve(*self, *swap) > 0 && output_reserve(*self, *swap) > 0
                && r.tokens_received > 0 && s == slippage_of(
                Fraction {
                    numerator: input_reserve(*self, *swap) as u128,
                    denominator: output_reserve(*self, *swap) as u128,
                },
                Fraction { numerator: swap.amount_in as u128, denominator: r.tokens_received as u128 },
            ),
            r.slippage is None ==> input_reserve(*self, *swap) == 0 || output_reserve(*self, *swap) == 0
                || r.tokens_received == 0,
    {
        let is_buying_token_a = self.buys_token_a(swap);
        let initial_price = if is_buying_token_a {
            self.get_token_a_price()
        } else {
            self.get_token_b_price()
        };
        let (output_reserve, input_reserve) = if is_buying_token_a {
            (self.token_a_reserve, self.token_b_reserve)
        } else {
            (self.token_b_reserve, self.token_a_reserve)
        };
        let received = if input_reserve as u128 + swap.amount_in as u128 == 0 {
            0
        } else {
            self.constant_product_formula(input_reserve, output_reserve, swap.amount_in)
        };
        let price_per_token = if received == 0 {
            None
        } else {
            Some(Fraction { numerator: swap.amount_in as u128, denominator: received as u128 })
        };
        let slippage = match (initial_price, price_per_token) {
            (Some(initial), Some(execution)) => self.calculate_slippage(initial, execution),
            _ => None,
        };
        let (new_a, new_b) = if is_buying_token_a {
            (self.token_a_reserve - received, self.token_b_reserve + swap.amount_in)
        } else {
            (self.token_a_reserve + swap.amount_in, self.token_b_reserve - received)
        };
        SwapSimulationResult {
            tokens_received: received,
            price_per_token,
            slippage,
            new_pool_state: Pool {
                token_a_reserve: new_a,
                token_b_reserve: new_b,
                token_a_address: self.token_a_address.clone(),
                token_b_address: self.token_b_address.clone(),
            },
        }
    }
}

} // verus!

verus! {

/// Rounded-down division is monotone: `a / b <= c / d` when `a * d <= c * b`.
proof fn lemma_div_le_cross(a: int, b: int, c: int, d: int)
    requires
        a >= 0,
        c >= 0,
        b > 0,
        d > 0,
        a * d <= c * b,
    ensures
        a / b <= c / d,
{
    let q = a / b;
    vstd::arithmetic::div_mod::lemma_fundamental_div_mod(a, b);
    assert(q >= 0) by {
        vstd::arithmetic::div_mod::lemma_div_pos_is_pos(a, b);
    }
    assert(q * b <= a) by {
        vstd::arithmetic::div_mod::lemma_mod_pos_bound(a, b);
    }
    assert(q * b * d <= a * d) by (nonlinear_arith)
        requires q * b <= a, d > 0;
    assert(q * d * b <= c * b) by (nonlinear_arith)
        requires q * b * d <= a * d, a * d <= c * b;
    assert(q * d <= c) by (nonlinear_arith)
        requires q * d * b <= c * b, b > 0;
    vstd::arithmetic::div_mod::lemma_div_is_ordered(q * d, c, d);
    vstd::arithmetic::div_mod::lemma_div_by_multiple(q, d);
}

/// A front-run that buys the same token of the pool as the victim never
/// leaves the victim with more: the victim's output after the front-run is
/// at most its output without it.
pub proof fn lemma_front_run_never_helps_victim(pool: Pool, front: SwapTransaction, victim: SwapTransaction)
    requires
        can_simulate(pool, front),
        buys_token_a(pool, front) == buys_token_a(pool, victim),
    ensures
        tokens_received(pool_after(pool, front), victim) <= tokens_received(pool, victim),
{
    let after = pool_after(pool, front);
    let x = input_reserve(pool, front);
    let y = output_reserve(pool, front);
    let f = front.amount_in as int;
    let v = victim.amount_in as int;
    let o = tokens_received(pool, front);
    assert(0 <= o <= y) by {
        if x + f > 0 {
            assert(y * f <= y * (x + f)) by (nonlinear_arith)
                requires y >= 0, 0 <= f <= x + f;
            lemma_div_le_cross(y * f, x + f, y, 1);
            assert(y * f >= 0) by (nonlinear_arith)
                requires y >= 0, f >= 0;
            vstd::arithmetic::div_mod::lemma_div_pos_is_pos(y * f, x + f);
        }
    }
    assert(buys_token_a(after, victim) == buys_token_a(pool, victim));
    assert(input_reserve(after, victim) == x + f);
    assert(output_reserve(after, victim) == y - o);
    assert(input_reserve(pool, victim) == x);
    assert(output_reserve(pool, victim) == y);
    if x + v > 0 {
        assert((y - o) * v * (x + v) <= y * v * (x + f + v)) by (nonlinear_arith)
            requires 0 <= y - o <= y, v >= 0, x >= 0, f >= 0;
        assert((y - o) * v >= 0 && y * v >= 0) by (nonlinear_arith)
            requires 0 <= y - o <= y, v >= 0;
        lemma_div_le_cross((y - o) * v, x + f + v, y * v, x + v);
    } else {
        assert(v == 0);
        if x + f + v > 0 {
            assert((y - o) * v == 0) by (nonlinear_arith)
                requires v == 0;
        }
    }
}

} // verus!
