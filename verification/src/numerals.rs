//! Numbers written out in base ten and sixteen.

use vstd::prelude::*;

verus! {

/// The digit that stands for `d`, which is below sixteen.
pub open spec fn digit_char(d: nat, upper: bool) -> char {
    if d < 10 {
        (48 + d) as char
    } else if upper {
        (55 + d) as char
    } else {
        (87 + d) as char
    }
}

/// `n` in base `radix`, without leading zeros.
pub open spec fn numeral(n: nat, radix: nat, upper: bool) -> Seq<char>
    decreases n,
{
    if radix < 2 || n < radix {
        seq![digit_char(n, upper)]
    } else {
        proof {
            vstd::arithmetic::div_mod::lemma_div_decreases(n as int, radix as int);
        }
        numeral(n / radix, radix, upper).push(digit_char(n % radix, upper))
    }
}

/// `n` in base ten.
pub open spec fn decimal(n: nat) -> Seq<char> {
    numeral(n, 10, false)
}

/// `n` in base sixteen with lower-case letters.
pub open spec fn hex(n: nat) -> Seq<char> {
    numeral(n, 16, false)
}

/// `n` in base sixteen with upper-case letters and leading zeros up to `width` digits.
pub open spec fn padded_hex(n: nat, width: nat) -> Seq<char> {
    let s = numeral(n, 16, true);
    if s.len() < width {
        Seq::new((width - s.len()) as nat, |i: int| '0') + s
    } else {
        s
    }
}

fn digit_of(d: u64, upper: bool) -> (c: char)
    requires
        d < 16,
    ensures
        c == digit_char(d as nat, upper),
{
    let code: u8 = if d < 10 {
        48 + d as u8
    } else if upper {
        55 + d as u8
    } else {
        87 + d as u8
    };
    code as char
}

/// The characters of `n` in base ten or sixteen.
pub fn numeral_chars(n: u64, radix: u64, upper: bool) -> (out: Vec<char>)
    requires
        radix == 10 || radix == 16,
    ensures
        out@ == numeral(n as nat, radix as nat, upper),
    decreases n,
{
    let mut out: Vec<char> = Vec::new();
    if n >= radix {
        let (head, last) = if radix == 16 {
            (n / 16, n % 16)
        } else {
            (n / 10, n % 10)
        };
        out = numeral_chars(head, radix, upper);
        out.push(digit_of(last, upper));
    } else {
        out.push(digit_of(n, upper));
    }
    out
}

/// `n` in base ten.
pub fn dec(n: u64) -> (out: String)
    ensures
        out@ == decimal(n as nat),
{
    let v = numeral_chars(n, 10, false);
    crate::text::string_of(&v)
}

/// `n` in base sixteen with lower-case letters.
pub fn hex_of(n: u64) -> (out: String)
    ensures
        out@ == hex(n as nat),
{
    let v = numeral_chars(n, 16, false);
    crate::text::string_of(&v)
}

/// `n` in base sixteen with upper-case letters and leading zeros up to `width` digits.
pub fn padded_hex_of(n: u64, width: usize) -> (out: String)
    ensures
        out@ == padded_hex(n as nat, width as nat),
{
    let v = numeral_chars(n, 16, true);
    let mut out: Vec<char> = Vec::new();
    let missing: usize = if v.len() < width {
        width - v.len()
    } else {
        0
    };
    let mut i: usize = 0;
    while i < missing
        invariant
            i <= missing,
            out@ == Seq::new(i as nat, |j: int| '0'),
        decreases missing - i,
    {
        out.push('0');
        i += 1;
    }
    let mut k: usize = 0;
    while k < v.len()
        invariant
            k <= v@.len(),
            out@ == Seq::new(missing as nat, |j: int| '0') + v@.take(k as int),
        decreases v@.len() - k,
    {
        out.push(v[k]);
        k += 1;
    }
    assert(v@.take(k as int) =~= v@);
    assert(Seq::new(0nat, |j: int| '0') + v@ =~= v@);
    crate::text::string_of(&out)
}

// ---------------------------------------------------------------------------
// Laws
// ---------------------------------------------------------------------------

proof fn lemma_digit(d: nat, radix: nat, upper: bool)
    requires
        radix == 10 || radix == 16,
        d < radix,
    ensures
        crate::text::digit_value(digit_char(d, upper), radix as int) == d,
        digit_char(d, upper) != '+',
        d > 0 ==> digit_char(d, upper) != '0',
{
}

/// What is written in base ten or sixteen reads back as the number: it is made of digits alone,
/// has no leading zero unless it is the zero, and writes the number.
pub proof fn lemma_numeral_back(n: nat, radix: nat, upper: bool)
    requires
        radix == 10 || radix == 16,
    ensures
        numeral(n, radix, upper).len() > 0,
        crate::text::all_digits(numeral(n, radix, upper), radix as int),
        crate::text::number_of(numeral(n, radix, upper), radix as int) == n,
        n > 0 ==> numeral(n, radix, upper)[0] != '0',
        numeral(n, radix, upper)[0] != '+',
    decreases n,
{
    reveal_with_fuel(crate::text::number_of, 2);
    let s = numeral(n, radix, upper);
    if n < radix {
        lemma_digit(n, radix, upper);
        assert(s.drop_last() =~= Seq::empty());
    } else {
        vstd::arithmetic::div_mod::lemma_div_decreases(n as int, radix as int);
        vstd::arithmetic::div_mod::lemma_fundamental_div_mod(n as int, radix as int);
        lemma_numeral_back(n / radix, radix, upper);
        lemma_digit(n % radix, radix, upper);
        let head = numeral(n / radix, radix, upper);
        assert(s.drop_last() =~= head);
        assert(s[0] == head[0]);
        assert(n / radix > 0) by {
            vstd::arithmetic::div_mod::lemma_div_non_zero(n as int, radix as int);
        }
        assert forall|i: int| 0 <= i < s.len() implies crate::text::digit_value(
            #[trigger] s[i],
            radix as int,
        ) >= 0 by {
            if i < head.len() {
                assert(s[i] == head[i]);
            }
        }
        assert((n / radix) * radix == radix * (n / radix)) by (nonlinear_arith);
    }
}

/// What `dec` and `hex_of` write, the readers of numbers read: it gives the number back.
pub proof fn lemma_written_then_read(n: nat, max: int)
    requires
        n <= max,
    ensures
        crate::text::unsigned_of(decimal(n), 10, max) == Some(n as int),
        crate::text::unsigned_of(hex(n), 16, max) == Some(n as int),
{
    lemma_numeral_back(n, 10, false);
    lemma_numeral_back(n, 16, false);
}

/// Different numbers are written differently.
pub proof fn lemma_decimal_distinct(a: nat, b: nat)
    requires
        decimal(a) == decimal(b),
    ensures
        a == b,
{
    lemma_numeral_back(a, 10, false);
    lemma_numeral_back(b, 10, false);
}

proof fn lemma_zeros(k: nat, s: Seq<char>)
    ensures
        crate::text::number_of(Seq::new(k, |i: int| '0') + s, 16) == crate::text::number_of(s, 16),
    decreases s.len(), k,
{
    reveal_with_fuel(crate::text::number_of, 2);
    let z = Seq::new(k, |i: int| '0');
    let t = z + s;
    if s.len() == 0 {
        assert(t =~= z);
        if k > 0 {
            let less = Seq::new((k - 1) as nat, |i: int| '0');
            assert(z.drop_last() =~= less);
            lemma_zeros((k - 1) as nat, s);
            assert(less + s =~= less);
        }
    } else {
        assert(t.drop_last() =~= z + s.drop_last());
        lemma_zeros(k, s.drop_last());
    }
}

/// Leading zeros fill a number up to the width asked for and leave its value as it is.
pub proof fn lemma_padded_hex(n: nat, width: nat)
    ensures
        padded_hex(n, width).len() >= width,
        crate::text::number_of(padded_hex(n, width), 16) == n,
        crate::text::all_digits(padded_hex(n, width), 16),
{
    lemma_numeral_back(n, 16, true);
    let s = numeral(n, 16, true);
    if s.len() < width {
        lemma_zeros((width - s.len()) as nat, s);
        let z = Seq::new((width - s.len()) as nat, |i: int| '0');
        assert forall|i: int| 0 <= i < (z + s).len() implies crate::text::digit_value(
            #[trigger] (z + s)[i],
            16,
        ) >= 0 by {
            if i >= z.len() {
                assert((z + s)[i] == s[i - z.len()]);
            }
        }
    }
}

} // verus!
