//! Fixed-point fractions in millionths.
use vstd::prelude::*;

verus! {

/// The fixed-point value that stands for 1.0.
pub const SCALE: u64 = 1_000_000;

pub open spec fn pow10(n: nat) -> int
    decreases n,
{
    if n == 0 {
        1
    } else {
        10 * pow10((n - 1) as nat)
    }
}

proof fn lemma_pow10_monotone(a: nat, b: nat)
    requires
        a <= b,
    ensures
        1 <= pow10(a) <= pow10(b),
    decreases b,
{
    if b > a {
        lemma_pow10_monotone(a, (b - 1) as nat);
    } else if a > 0 {
        lemma_pow10_monotone((a - 1) as nat, (a - 1) as nat);
    }
}

/// `(10 * rem) / den` and `(10 * rem) % den`, without overflow.
fn times_ten_divmod(rem: u128, den: u128) -> (r: (u64, u128))
    requires
        rem < den,
    ensures
        r.0 as int * den as int + r.1 as int == 10 * rem as int,
        r.1 < den,
        r.0 < 10,
{
    let mut acc: u128 = 0;
    let mut digit: u64 = 0;
    let mut m: u64 = 0;
    while m < 10
        invariant
            rem < den,
            m <= 10,
            acc < den,
            digit <= m,
            acc as int + digit as int * den as int == m as int * rem as int,
        decreases 10 - m,
    {
        let ghost a0 = acc as int;
        let ghost d0 = digit as int;
        if acc >= den - rem {
            acc = acc - (den - rem);
            digit = digit + 1;
        } else {
            acc = acc + rem;
        }
        proof {
            let (a1, d1) = (acc as int, digit as int);
            let (dn, rm, mm) = (den as int, rem as int, m as int);
            assert(a1 + d1 * dn == (mm + 1) * rm) by (nonlinear_arith)
                requires
                    a0 + d0 * dn == mm * rm,
                    (a1 == a0 + rm - dn && d1 == d0 + 1) || (a1 == a0 + rm && d1 == d0),
            ;
        }
        m = m + 1;
    }
    proof {
        if digit == 10 {
            assert(digit as int * den as int == 10 * den as int);
            assert(10 * rem as int >= 10 * den as int);
        }
    }
    (digit, acc)
}

/// `num / den` in millionths, rounded down.
pub fn scaled_fraction(num: u128, den: u128) -> (r: u64)
    requires
        num <= den,
        den > 0,
    ensures
        r as int == (num as int * SCALE as int) / den as int,
{
    let mut q: u64 = 0;
    let mut rem: u128 = num;
    if num == den {
        proof {
            vstd::arithmetic::div_mod::lemma_div_by_multiple(SCALE as int, den as int);
        }
        return SCALE;
    }
    let mut t: u64 = 0;
    while t < 6
        invariant
            num < den,
            t <= 6,
            rem < den,
            q < pow10(t as nat),
            q as int * den as int + rem as int == num as int * pow10(t as nat),
        decreases 6 - t,
    {
        let (digit, next) = times_ten_divmod(rem, den);
        proof {
            lemma_pow10_monotone(t as nat, 5);
            reveal_with_fuel(pow10, 6);
            assert(pow10(5) == 100000);
            assert(pow10((t + 1) as nat) == 10 * pow10(t as nat));
            assert((q as int * 10 + digit as int) * den as int + next as int
                == 10 * (q as int * den as int + rem as int)) by (nonlinear_arith)
                requires
                    digit as int * den as int + next as int == 10 * rem as int,
            ;
            assert(num as int * pow10((t + 1) as nat) == 10 * (num as int * pow10(t as nat)))
                by (nonlinear_arith)
                requires
                    pow10((t + 1) as nat) == 10 * pow10(t as nat),
            ;
            assert((q as int) * 10 + (digit as int) < pow10((t + 1) as nat));
        }
        q = q * 10 + digit;
        rem = next;
        t = t + 1;
    }
    proof {
        reveal_with_fuel(pow10, 7);
        assert(pow10(6) == SCALE as int);
        vstd::arithmetic::div_mod::lemma_fundamental_div_mod_converse(
            num as int * SCALE as int,
            den as int,
            q as int,
            rem as int,
        );
    }
    q
}

} // verus!
