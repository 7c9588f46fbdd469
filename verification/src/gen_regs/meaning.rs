//! What the generated statements mean.
//!
//! The expressions of the generated text are trees, each with its spelling and its value, so
//! that what the text computes can be told from how it is spelled.

use crate::numerals::decimal;
use vstd::arithmetic::power2::{lemma_pow2_adds, lemma_pow2_pos, lemma_pow2_unfold, pow2};
use vstd::prelude::*;

verus! {

// ---------------------------------------------------------------------------
// Bits of numbers
// ---------------------------------------------------------------------------

/// The bits that both numbers have.
pub open spec fn bit_and(a: nat, b: nat) -> nat
    decreases a,
{
    if a == 0 || b == 0 {
        0
    } else {
        2 * bit_and(a / 2, b / 2) + (a % 2) * (b % 2)
    }
}

/// The bits that one of the numbers has.
pub open spec fn bit_or(a: nat, b: nat) -> nat
    decreases a,
{
    if a == 0 {
        b
    } else if b == 0 {
        a
    } else {
        2 * bit_or(a / 2, b / 2) + (if a % 2 == 1 || b % 2 == 1 {
            1nat
        } else {
            0nat
        })
    }
}

/// The number of `n` bits from bit `lo` on.
pub open spec fn bits_at(x: nat, lo: nat, n: nat) -> nat {
    (x / pow2(lo)) % pow2(n)
}

pub proof fn lemma_pow2_step(n: nat)
    ensures
        pow2(n + 1) == 2 * pow2(n),
        pow2(n) > 0,
        pow2(0) == 1,
{
    lemma_pow2_unfold(n + 1);
    lemma_pow2_pos(n);
    vstd::arithmetic::power2::lemma2_to64();
}

proof fn lemma_and_zero(a: nat)
    ensures
        bit_and(a, 0) == 0,
        bit_and(0, a) == 0,
{
}

/// The low bits of a number are what is left of it.
pub proof fn lemma_and_low(x: nat, n: nat)
    ensures
        bit_and(x, (pow2(n) - 1) as nat) == x % pow2(n),
    decreases n,
{
    lemma_pow2_step(n);
    if n > 0 {
        let m = (n - 1) as nat;
        lemma_pow2_step(m);
        lemma_and_low(x / 2, m);
        let p = pow2(m);
        assert(pow2(n) == 2 * p);
        assert(((pow2(n) - 1) as nat) / 2 == (p - 1) as nat);
        assert(((pow2(n) - 1) as nat) % 2 == 1);
        assert(x % (2 * p) == 2 * ((x / 2) % p) + x % 2) by {
            let h = x / 2;
            vstd::arithmetic::div_mod::lemma_fundamental_div_mod(h as int, p as int);
            let q = (h / p) as int;
            let r = (h % p) as int;
            assert(h as int == p * q + r);
            assert(x as int == (2 * p) * q + (2 * r + x % 2)) by (nonlinear_arith)
                requires
                    x == 2 * h + x % 2,
                    h as int == p * q + r,
            ;
            vstd::arithmetic::div_mod::lemma_fundamental_div_mod_converse(
                x as int,
                (2 * p) as int,
                q,
                2 * r + x % 2,
            );
        }
        assert((x % 2) * 1 == x % 2);
        if x == 0 {
            assert(0nat % pow2(n) == 0);
        }
    } else {
        assert(x % 1 == 0);
    }
}

/// Bits below those of the other number do not count.
proof fn lemma_and_shifted(x: nat, m: nat, lo: nat)
    ensures
        bit_and(x, m * pow2(lo)) == bit_and(x / pow2(lo), m) * pow2(lo),
    decreases lo,
{
    lemma_pow2_step(lo);
    if lo > 0 {
        let k = (lo - 1) as nat;
        lemma_pow2_step(k);
        let p = pow2(k);
        lemma_and_shifted(x / 2, m, k);
        let y = m * pow2(lo);
        assert(y == 2 * (m * p)) by (nonlinear_arith)
            requires
                y == m * (2 * p),
        ;
        assert(y / 2 == m * p && y % 2 == 0);
        assert(x / pow2(lo) == (x / 2) / p) by {
            vstd::arithmetic::div_mod::lemma_div_denominator(x as int, 2, p as int);
        }
        let a = bit_and((x / 2) / p, m);
        assert(a * pow2(lo) == 2 * (a * p)) by (nonlinear_arith)
            requires
                pow2(lo) == 2 * p,
        ;
        assert((x % 2) * 0 == 0);
        if x == 0 {
            assert(0nat / pow2(lo) == 0) by {
                vstd::arithmetic::div_mod::lemma_basic_div(0, pow2(lo) as int);
            }
        }
        if y == 0 {
            assert(m == 0 || p == 0) by (nonlinear_arith)
                requires
                    m * p == 0,
            ;
        }
        if x != 0 && y != 0 {
            assert(bit_and(x, y) == 2 * bit_and(x / 2, y / 2) + (x % 2) * (y % 2));
        }
    } else {
        assert(m * 1 == m);
        assert(x / 1 == x);
        assert(bit_and(x, m) * 1 == bit_and(x, m));
    }
}

/// The bits that a number shares with another are no more than it has, and both are in it.
proof fn lemma_and_bound(a: nat, b: nat)
    ensures
        bit_and(a, b) <= a,
        bit_and(a, b) <= b,
    decreases a,
{
    if a != 0 && b != 0 {
        lemma_and_bound(a / 2, b / 2);
        assert((a % 2) * (b % 2) <= a % 2 && (a % 2) * (b % 2) <= b % 2) by (nonlinear_arith)
            requires
                0 <= a % 2 <= 1,
                0 <= b % 2 <= 1,
        ;
    }
}

/// Taking a number's bits away leaves the others.
proof fn lemma_and_complement(x: nat, m: nat, w: nat)
    requires
        x < pow2(w),
        m < pow2(w),
    ensures
        bit_and(x, (pow2(w) - 1 - m) as nat) == x - bit_and(x, m),
    decreases w,
{
    lemma_pow2_step(w);
    lemma_and_bound(x, m);
    if w == 0 {
        assert(x == 0 && m == 0);
    } else if x != 0 {
        let k = (w - 1) as nat;
        lemma_pow2_step(k);
        let p = pow2(k);
        let c = (pow2(w) - 1 - m) as nat;
        assert(c / 2 == (p - 1 - m / 2) as nat);
        assert(c % 2 == 1 - m % 2);
        lemma_and_complement(x / 2, m / 2, k);
        lemma_and_bound(x / 2, m / 2);
        assert((x % 2) * (c % 2) == x % 2 - (x % 2) * (m % 2)) by (nonlinear_arith)
            requires
                c % 2 == 1 - m % 2,
        ;
        if c == 0 {
            assert(m / 2 == p - 1 && m % 2 == 1);
            lemma_and_low(x / 2, k);
            assert((x / 2) % p == x / 2) by {
                vstd::arithmetic::div_mod::lemma_small_mod(x / 2, p);
            }
            assert((x % 2) * 1 == x % 2);
        }
        if m == 0 {
            lemma_and_low(x, w);
            vstd::arithmetic::div_mod::lemma_small_mod(x, pow2(w));
        }
    }
}

/// Numbers that share no bit are put together as they are added.
proof fn lemma_or_apart(a: nat, b: nat)
    requires
        bit_and(a, b) == 0,
    ensures
        bit_or(a, b) == a + b,
    decreases a,
{
    if a != 0 && b != 0 {
        assert((a % 2) * (b % 2) == 0 && bit_and(a / 2, b / 2) == 0) by {
            assert((a % 2) * (b % 2) >= 0) by (nonlinear_arith)
                requires
                    0 <= a % 2,
                    0 <= b % 2,
            ;
        }
        assert(a % 2 == 0 || b % 2 == 0) by (nonlinear_arith)
            requires
                (a % 2) * (b % 2) == 0,
        ;
        lemma_or_apart(a / 2, b / 2);
    }
}

/// A number of fewer than `k` bits and one without bits below `k` are put together as they are
/// added.
pub proof fn lemma_or_above(a: nat, b: nat, k: nat)
    requires
        a < pow2(k),
    ensures
        bit_or(a, b * pow2(k)) == a + b * pow2(k),
{
    lemma_and_shifted(a, b, k);
    lemma_pow2_step(k);
    assert(a / pow2(k) == 0) by {
        vstd::arithmetic::div_mod::lemma_basic_div(a as int, pow2(k) as int);
    }
    assert(0 * pow2(k) == 0);
    lemma_or_apart(a, b * pow2(k));
}

/// The number with the `n` bits from bit `lo` on replaced.
pub open spec fn with_bits(x: nat, lo: nat, n: nat, v: nat) -> int {
    x - bits_at(x, lo, n) * pow2(lo) + (v % pow2(n)) * pow2(lo)
}

/// Masking and shifting a field out gives its bits.
pub proof fn lemma_field_out(x: nat, lo: nat, n: nat)
    ensures
        bit_and(x, ((pow2(n) - 1) as nat) * pow2(lo)) == bits_at(x, lo, n) * pow2(lo),
        bit_and(x, ((pow2(n) - 1) as nat) * pow2(lo)) / pow2(lo) == bits_at(x, lo, n),
{
    lemma_pow2_step(n);
    lemma_pow2_step(lo);
    lemma_and_shifted(x, (pow2(n) - 1) as nat, lo);
    lemma_and_low(x / pow2(lo), n);
    let a = bits_at(x, lo, n);
    assert(a * pow2(lo) / pow2(lo) == a) by {
        vstd::arithmetic::div_mod::lemma_div_by_multiple(a as int, pow2(lo) as int);
    }
}

/// What a field's bits are at most.
pub proof fn lemma_mask_bound(lo: nat, n: nat, w: nat)
    requires
        lo + n <= w,
    ensures
        ((pow2(n) - 1) as nat) * pow2(lo) < pow2(w),
{
    lemma_pow2_step(n);
    lemma_pow2_step(lo);
    lemma_pow2_adds(n, lo);
    let a = pow2(n);
    let b = pow2(lo);
    assert(((a - 1) as nat) * b < a * b) by (nonlinear_arith)
        requires
            a > 0,
            b > 0,
    ;
    if n + lo < w {
        vstd::arithmetic::power2::lemma_pow2_strictly_increases(n + lo, w);
    }
}

/// Masking a field away and putting a value in replaces its bits and no others.
pub proof fn lemma_field_in(x: nat, v: nat, lo: nat, n: nat, w: nat)
    requires
        x < pow2(w),
        lo + n <= w,
    ensures
        ({
            let mask = ((pow2(n) - 1) as nat) * pow2(lo);
            let put = bit_and((v * pow2(lo)) % pow2(w), mask);
            &&& put == (v % pow2(n)) * pow2(lo)
            &&& bit_or(bit_and(x, (pow2(w) - 1 - mask) as nat), put) == with_bits(x, lo, n, v)
        }),
{
    let mask = ((pow2(n) - 1) as nat) * pow2(lo);
    let s = (v * pow2(lo)) % pow2(w);
    lemma_mask_bound(lo, n, w);
    lemma_pow2_step(w);
    lemma_pow2_step(lo);
    lemma_pow2_step(n);
    lemma_field_out(s, lo, n);
    lemma_field_out(x, lo, n);
    lemma_and_complement(x, mask, w);
    // The bits of the shifted value.
    let p = pow2(lo);
    let rest = pow2((w - lo) as nat);
    lemma_pow2_adds(lo, (w - lo) as nat);
    lemma_pow2_step((w - lo) as nat);
    assert(s == (v % rest) * p) by {
        vstd::arithmetic::div_mod::lemma_truncate_middle(v as int, p as int, rest as int);
        assert(p * v == v * p && p * (v % rest) == (v % rest) * p) by (nonlinear_arith);
    }
    assert(s / p == v % rest) by {
        vstd::arithmetic::div_mod::lemma_div_by_multiple((v % rest) as int, p as int);
    }
    assert((v % rest) % pow2(n) == v % pow2(n)) by {
        let over = (w - lo - n) as nat;
        lemma_pow2_adds(n, over);
        lemma_pow2_step(over);
        vstd::arithmetic::div_mod::lemma_mod_mod(v as int, pow2(n) as int, pow2(over) as int);
    }
    let put = bit_and(s, mask);
    assert(put == (v % pow2(n)) * p);
    // What is left has none of the field's bits.
    let keep = (x - bit_and(x, mask)) as nat;
    lemma_and_bound(x, mask);
    lemma_field_out(keep, lo, n);
    assert(bits_at(keep, lo, n) == 0) by {
        let q = x / p;
        let f = bits_at(x, lo, n);
        vstd::arithmetic::div_mod::lemma_fundamental_div_mod(x as int, p as int);
        vstd::arithmetic::div_mod::lemma_fundamental_div_mod(q as int, pow2(n) as int);
        let r = x % p;
        let big = q / pow2(n);
        assert(keep as int == p * (pow2(n) * big) + r) by (nonlinear_arith)
            requires
                keep == x - f * p,
                x as int == p * q + r,
                q as int == pow2(n) * big + f,
        ;
        vstd::arithmetic::div_mod::lemma_fundamental_div_mod_converse(
            keep as int,
            p as int,
            (pow2(n) * big) as int,
            r as int,
        );
        assert((pow2(n) * big) % pow2(n) == 0) by {
            vstd::arithmetic::div_mod::lemma_mod_multiples_basic(big as int, pow2(n) as int);
            assert(pow2(n) * big == big * pow2(n)) by (nonlinear_arith);
        }
    }
    assert(0 * p == 0);
    let t = v % pow2(n);
    lemma_and_shifted(keep, t, lo);
    assert(bit_and(keep / p, t) == 0) by {
        lemma_and_within(keep / p, t, n);
    }
    lemma_or_apart(keep, put);
}

/// Setting one bit of a number leaves every other bit as it was.
pub proof fn lemma_or_bit(x: nat, lo: nat)
    ensures
        bit_or(x, pow2(lo)) == with_bits(x, lo, 1, 1),
    decreases lo,
{
    lemma_pow2_step(lo);
    vstd::arithmetic::power2::lemma2_to64();
    let one = bits_at(x, lo, 1);
    if lo == 0 {
        assert(x / 1 == x);
        assert(one == x % 2);
        assert(bit_or(x / 2, 0) == x / 2) by {
            if x / 2 != 0 {
                assert(bit_or(x / 2, 0) == x / 2);
            }
        }
        assert(one * 1 == one && (1nat % 2) * 1 == 1);
    } else {
        let k = (lo - 1) as nat;
        lemma_pow2_step(k);
        let p = pow2(k);
        lemma_or_bit(x / 2, k);
        assert(pow2(lo) / 2 == p && pow2(lo) % 2 == 0);
        assert(x / pow2(lo) == (x / 2) / p) by {
            vstd::arithmetic::div_mod::lemma_div_denominator(x as int, 2, p as int);
        }
        assert(one == bits_at(x / 2, k, 1));
        let whole = pow2(lo);
        assert(one * whole == 2 * (one * p)) by (nonlinear_arith)
            requires
                whole == 2 * p,
        ;
        assert(1nat % pow2(1) == 1);
        assert(1 * whole == whole && 1 * p == p);
        if x == 0 {
            assert(one == 0) by {
                vstd::arithmetic::div_mod::lemma_basic_div(0, pow2(lo) as int);
            }
            assert(0 * pow2(lo) == 0);
            assert(1nat % pow2(1) == 1);
            assert(1 * pow2(lo) == pow2(lo));
        }
    }
}

/// A number whose low bits are zero shares none with a number of so many bits.
proof fn lemma_and_within(a: nat, t: nat, n: nat)
    requires
        t < pow2(n),
        a % pow2(n) == 0,
    ensures
        bit_and(a, t) == 0,
    decreases n,
{
    lemma_pow2_step(n);
    if n == 0 {
        assert(t == 0);
    } else if a != 0 && t != 0 {
        let k = (n - 1) as nat;
        lemma_pow2_step(k);
        let p = pow2(k);
        vstd::arithmetic::div_mod::lemma_fundamental_div_mod(a as int, (2 * p) as int);
        let q = (a / (2 * p)) as int;
        assert(a as int == 2 * (p * q)) by (nonlinear_arith)
            requires
                a as int == (2 * p) * q,
        ;
        assert(a / 2 == p * q && a % 2 == 0);
        assert((a / 2) % p == 0) by {
            vstd::arithmetic::div_mod::lemma_mod_multiples_basic(q, p as int);
            assert(p * q == q * p) by (nonlinear_arith);
        }
        lemma_and_within(a / 2, t / 2, k);
        assert(0 * (t % 2) == 0);
    }
}

// ---------------------------------------------------------------------------
// Expressions
// ---------------------------------------------------------------------------

/// An expression of the generated text.
pub enum Expr {
    /// A name, whatever it stands for.
    Name(Seq<char>),
    /// A number in base ten.
    Num(nat),
    /// A number, spelled as given.
    Spelled(Seq<char>, nat),
    Mul(Box<Expr>, Box<Expr>),
    Shl(Box<Expr>, Box<Expr>),
    Shr(Box<Expr>, Box<Expr>),
    And(Box<Expr>, Box<Expr>),
    Or(Box<Expr>, Box<Expr>),
    Not(Box<Expr>),
    /// The low bits, as many as given.
    Cast(Box<Expr>, nat),
    Paren(Box<Expr>),
}

/// How an expression is spelled.
pub open spec fn spelled(e: Expr) -> Seq<char>
    decreases e,
{
    match e {
        Expr::Name(s) => s,
        Expr::Num(n) => decimal(n),
        Expr::Spelled(s, _) => s,
        Expr::Mul(a, b) => spelled(*a) + " * "@ + spelled(*b),
        Expr::Shl(a, b) => spelled(*a) + " << "@ + spelled(*b),
        Expr::Shr(a, b) => spelled(*a) + " >> "@ + spelled(*b),
        Expr::And(a, b) => spelled(*a) + " & "@ + spelled(*b),
        Expr::Or(a, b) => spelled(*a) + " | "@ + spelled(*b),
        Expr::Not(a) => "!"@ + spelled(*a),
        Expr::Cast(a, w) => spelled(*a) + " as u"@ + decimal(w),
        Expr::Paren(a) => "("@ + spelled(*a) + ")"@,
    }
}

/// What an expression is, in numbers of `w` bits, given what the names stand for.
pub open spec fn value(e: Expr, env: Map<Seq<char>, nat>, w: nat) -> nat
    decreases e,
{
    match e {
        Expr::Name(s) => env[s],
        Expr::Num(n) => n,
        Expr::Spelled(_, n) => n,
        Expr::Mul(a, b) => value(*a, env, w) * value(*b, env, w),
        Expr::Shl(a, b) => (value(*a, env, w) * pow2(value(*b, env, w))) % pow2(w),
        Expr::Shr(a, b) => value(*a, env, w) / pow2(value(*b, env, w)),
        Expr::And(a, b) => bit_and(value(*a, env, w), value(*b, env, w)),
        Expr::Or(a, b) => bit_or(value(*a, env, w), value(*b, env, w)),
        Expr::Not(a) => (pow2(w) - 1 - value(*a, env, w)) as nat,
        Expr::Cast(a, to) => value(*a, env, w) % pow2(to),
        Expr::Paren(a) => value(*a, env, w),
    }
}

} // verus!
