//! Progress reporting for the one command that is slow: `catlas deepen`.
use crate::number::{decimal, decimal_usize, digits};
use vstd::arithmetic::power2::{lemma2_to64, lemma_pow2_adds, pow2};
use vstd::prelude::*;

verus! {

/// `a / b` as the nearest whole number, of two that are as near the even one.
pub open spec fn nearest(a: nat, b: nat) -> nat {
    let q = a / b;
    let r = a % b;
    if 2 * r < b {
        q
    } else if 2 * r > b {
        q + 1
    } else if q % 2 == 0 {
        q
    } else {
        q + 1
    }
}

/// How often `q` is halved until it has at most 53 binary digits.
pub open spec fn excess(q: nat) -> nat
    decreases q,
{
    if q < 0x20_0000_0000_0000 {
        0
    } else {
        1 + excess(q / 2)
    }
}

/// The whole number nearest to `a / b` among those with at most 53 significant binary
/// digits, of two that are as near the one with the even digits.
pub open spec fn significant(a: nat, b: nat) -> nat {
    let d = excess(a / b);
    nearest(a, b * pow2(d)) * pow2(d)
}

/// The tenths of thousands in `n`, computed as double precision does: `n` and its
/// thousandth, scaled by a power of two, are each held with 53 significant digits.
pub open spec fn tenths_of_thousands(n: nat) -> nat {
    let x = significant(n, 1);
    let y = significant(x * pow2(60), 1000);
    nearest(10 * y, pow2(60))
}

/// Token counts, abbreviated the way an operator reads them.
pub open spec fn tokens_text(n: nat) -> Seq<char> {
    if n >= 1000 {
        let t = tenths_of_thousands(n);
        digits(t / 10) + "."@ + digits(t % 10) + "k"@
    } else {
        digits(n)
    }
}

fn nearest_of(a: u128, b: u128) -> (r: u128)
    requires
        b > 0,
        b < 0x8000_0000_0000_0000_0000_0000_0000_0000,
        a < 0x8000_0000_0000_0000_0000_0000_0000_0000,
    ensures
        r == nearest(a as nat, b as nat),
        r <= a / b + 1,
{
    let q: u128 = a / b;
    let r: u128 = a % b;
    assert(q <= a) by (nonlinear_arith)
        requires
            q == a / b,
            b > 0,
    ;
    if 2 * r < b {
        q
    } else if 2 * r > b {
        q + 1
    } else if q % 2 == 0 {
        q
    } else {
        q + 1
    }
}

/// The power of two that brings `q` down to 53 digits.
fn excess_power(q: u128) -> (p: u128)
    requires
        q < 0x8_0000_0000_0000_0000_0000_0000_0000,
    ensures
        p == pow2(excess(q as nat)),
        1 <= p < 0x8000_0000_0000_0000,
{
    let mut p: u128 = 1;
    let mut x: u128 = q;
    let ghost mut d: nat = 0;
    proof {
        lemma2_to64();
    }
    while x >= 0x20_0000_0000_0000
        invariant
            p == pow2(d),
            p * x <= q,
            1 <= p < 0x8000_0000_0000_0000,
            q < 0x8_0000_0000_0000_0000_0000_0000_0000,
            excess(q as nat) == d + excess(x as nat),
        decreases x,
    {
        proof {
            assert(p * 0x20_0000_0000_0000 <= p * x) by (nonlinear_arith)
                requires
                    x >= 0x20_0000_0000_0000,
            ;
            assert(p < 0x4000_0000_0000_0000) by (nonlinear_arith)
                requires
                    p * 0x20_0000_0000_0000 <= q,
                    q < 0x8_0000_0000_0000_0000_0000_0000_0000,
            ;
            let y = x / 2;
            assert((2 * p) * y <= p * x) by (nonlinear_arith)
                requires
                    2 * y <= x,
            ;
            lemma_pow2_adds(1, d);
            lemma2_to64();
            d = d + 1;
        }
        p = p * 2;
        x = x / 2;
    }
    assert(excess(x as nat) == 0);
    p
}

/// The whole number nearest to `a / b` with at most 53 significant binary digits.
fn significant_of(a: u128, b: u128) -> (r: u128)
    requires
        1 <= b <= 1000,
        a <= 0x2000_0000_0000_0000_0000_0000_0000_0000,
        a / b < 0x8_0000_0000_0000_0000_0000_0000_0000,
    ensures
        r == significant(a as nat, b as nat),
        r <= a / b + 0x8000_0000_0000_0000,
{
    let q: u128 = a / b;
    let p: u128 = excess_power(q);
    assert(0 < b * p <= 1000 * 0x8000_0000_0000_0000) by (nonlinear_arith)
        requires
            1 <= b <= 1000,
            1 <= p < 0x8000_0000_0000_0000,
    ;
    let m: u128 = nearest_of(a, b * p);
    proof {
        let k = a as int / (b * p);
        assert(k * p <= q) by (nonlinear_arith)
            requires
                k == a as int / (b * p),
                q == a as int / (b as int),
                b >= 1,
                p >= 1,
                a >= 0,
        {
            vstd::arithmetic::div_mod::lemma_fundamental_div_mod(a as int, b * p);
            assert(k * (b * p) <= a);
            assert(k * (b * p) == (k * p) * b);
            vstd::arithmetic::div_mod::lemma_multiply_divide_le(k * p, b as int, a as int)
        }
        assert(m * p <= k * p + p) by (nonlinear_arith)
            requires
                m <= k + 1,
                p >= 1,
        ;
    }
    m * p
}

/// Token counts, abbreviated the way an operator reads them.
pub fn tokens(n: usize) -> (r: String)
    ensures
        r@ == tokens_text(n as nat),
{
    if n < 1000 {
        return decimal_usize(n);
    }
    let one: u128 = 0x1000_0000_0000_0000;
    proof {
        lemma2_to64();
        lemma_pow2_adds(30, 30);
        assert(pow2(60) == 0x1000_0000_0000_0000) by (nonlinear_arith)
            requires
                pow2(60) == pow2(30) * pow2(30),
                pow2(30) == 0x40000000,
        ;
    }
    let x: u128 = significant_of(n as u128, 1);
    assert(x <= 0x1_8000_0000_0000_0000);
    let scaled: u128 = x * one;
    let y: u128 = significant_of(scaled, 1000);
    let t: u128 = nearest_of(10 * y, one);
    let whole: u64 = (t / 10) as u64;
    let tenth: u64 = (t % 10) as u64;
    let mut s = decimal(whole);
    s.append(".");
    s.append(decimal(tenth).as_str());
    s.append("k");
    s
}

} // verus!
