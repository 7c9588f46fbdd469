//! What the accessors of fields, and the writes of registers, do.

use super::accessors::{read_expr, stored};
use super::emit::int_type;
use super::meaning::{
    bit_and, bit_or, bits_at, lemma_and_low, lemma_field_in, lemma_field_out, lemma_mask_bound,
    lemma_or_above, lemma_pow2_step, spelled, value, with_bits, Expr,
};
use super::model::{field_mask, is_width, Endian, Field, Register, RegisterKind};
use super::newtypes::{
    bits, bool_field_text, enum_field_text, mask_name, scalar_field_text, shift_name,
};
use crate::letter_case::pascal;
use crate::numerals::decimal;
use vstd::arithmetic::power2::pow2;
use vstd::prelude::*;

verus! {

// ---------------------------------------------------------------------------
// Fields
// ---------------------------------------------------------------------------

/// Whether a field lies within a register of `width` bits.
pub open spec fn lies_in(b: (u8, u8), width: u8) -> bool {
    is_width(width) && b.1 <= b.0 < width
}

/// The mask of a field is one for each of its bits and zero for every other.
pub proof fn lemma_mask(b: (u8, u8), width: u8)
    requires
        lies_in(b, width),
    ensures
        field_mask(b, width) == ((pow2((b.0 - b.1 + 1) as nat) - 1) as nat) * pow2(b.1 as nat),
{
    vstd::arithmetic::power2::lemma2_to64();
    let n = (b.0 - b.1 + 1) as nat;
    if n >= width {
        assert(b.1 == 0 && n == width);
        assert(((pow2(n) - 1) as nat) * 1 == (pow2(n) - 1) as nat);
    }
}

/// The word of a register, as its type holds it.
pub open spec fn word() -> Expr {
    Expr::Name("self.0"@)
}

/// The constant with a field's mask.
pub open spec fn mask_const(f: Field) -> Expr {
    Expr::Name("Self::"@ + mask_name(f))
}

/// The constant with the number of bits below a field.
pub open spec fn shift_const(f: Field) -> Expr {
    Expr::Name("Self::"@ + shift_name(f))
}

/// What the reader of a field computes.
pub open spec fn field_get(f: Field) -> Expr {
    Expr::Shr(
        Box::new(Expr::Paren(Box::new(Expr::And(Box::new(word()), Box::new(mask_const(f)))))),
        Box::new(shift_const(f)),
    )
}

/// The word without the bits of a field.
pub open spec fn field_gone(f: Field) -> Expr {
    Expr::And(Box::new(word()), Box::new(Expr::Not(Box::new(mask_const(f)))))
}

/// What the setter of a field that holds a number computes.
pub open spec fn field_set(f: Field) -> Expr {
    Expr::Or(
        Box::new(Expr::Paren(Box::new(field_gone(f)))),
        Box::new(
            Expr::Paren(
                Box::new(
                    Expr::And(
                        Box::new(
                            Expr::Paren(
                                Box::new(
                                    Expr::Shl(
                                        Box::new(Expr::Name("v"@)),
                                        Box::new(shift_const(f)),
                                    ),
                                ),
                            ),
                        ),
                        Box::new(mask_const(f)),
                    ),
                ),
            ),
        ),
    )
}

/// What the setter of a field with named values computes.
pub open spec fn field_set_named(f: Field, width: u8) -> Expr {
    Expr::Or(
        Box::new(Expr::Paren(Box::new(field_gone(f)))),
        Box::new(
            Expr::Paren(
                Box::new(
                    Expr::Shl(
                        Box::new(
                            Expr::Paren(
                                Box::new(
                                    Expr::Cast(
                                        Box::new(Expr::Name("v.into_bits()"@)),
                                        width as nat,
                                    ),
                                ),
                            ),
                        ),
                        Box::new(shift_const(f)),
                    ),
                ),
            ),
        ),
    )
}

/// Whether the constants of a field are what the generated text says they are, and the word
/// and the new value are `x` and `v`.
pub open spec fn field_env(env: Map<Seq<char>, nat>, f: Field, width: u8, x: nat, v: nat) -> bool {
    &&& env["self.0"@] == x
    &&& env["v"@] == v
    &&& env["v.into_bits()"@] == v
    &&& env["Self::"@ + mask_name(f)] == field_mask(bits(f), width)
    &&& env["Self::"@ + shift_name(f)] == bits(f).1
}

/// What the accessors of a field compute: reading gives its bits and none else; setting
/// replaces its bits by the value's low bits and leaves every other bit as it was.
pub proof fn lemma_field_meaning(
    env: Map<Seq<char>, nat>,
    f: Field,
    width: u8,
    x: nat,
    v: nat,
)
    requires
        lies_in(bits(f), width),
        field_env(env, f, width, x, v),
        x < pow2(width as nat),
        v < pow2(width as nat),
    ensures
        ({
            let lo = bits(f).1 as nat;
            let n = (bits(f).0 - bits(f).1 + 1) as nat;
            let w = width as nat;
            &&& value(field_get(f), env, w) == bits_at(x, lo, n)
            &&& value(field_set(f), env, w) == with_bits(x, lo, n, v)
            &&& v < pow2(n) ==> value(field_set_named(f, width), env, w) == with_bits(x, lo, n, v)
        }),
{
    let lo = bits(f).1 as nat;
    let n = (bits(f).0 - bits(f).1 + 1) as nat;
    let w = width as nat;
    lemma_mask(bits(f), width);
    reveal_with_fuel(value, 7);
    lemma_field_out(x, lo, n);
    lemma_field_in(x, v, lo, n, w);
    lemma_mask_bound(lo, n, w);
    lemma_pow2_step(n);
    if v < pow2(n) {
        vstd::arithmetic::div_mod::lemma_small_mod(v, pow2(n));
        vstd::arithmetic::div_mod::lemma_small_mod(v, pow2(w));
        let s = (v * pow2(lo)) % pow2(w);
        assert(s == v * pow2(lo)) by {
            vstd::arithmetic::power2::lemma_pow2_adds(n, lo);
            lemma_pow2_step(lo);
            let a = pow2(n);
            let b = pow2(lo);
            assert(v * b < a * b) by (nonlinear_arith)
                requires
                    0 <= v < a,
                    b > 0,
            ;
            if n + lo < w {
                vstd::arithmetic::power2::lemma_pow2_strictly_increases(n + lo, w);
            }
            vstd::arithmetic::div_mod::lemma_small_mod((v * pow2(lo)) as nat, pow2(w));
        }
    }
}

/// A field that was set is read back as it was set, and every other field, which shares no bit
/// with it, is read as before.
pub proof fn lemma_set_then_get(x: nat, v: nat, lo: nat, n: nat, at: nat, m: nat)
    requires
        at + m <= lo || lo + n <= at,
    ensures
        with_bits(x, lo, n, v) >= 0,
        bits_at(with_bits(x, lo, n, v) as nat, lo, n) == v % pow2(n),
        bits_at(with_bits(x, lo, n, v) as nat, at, m) == bits_at(x, at, m),
{
    let p = pow2(lo);
    let q = pow2(n);
    lemma_pow2_step(lo);
    lemma_pow2_step(n);
    let f = bits_at(x, lo, n);
    let t = v % q;
    let h = x / p;
    let r = x % p;
    let big = h / q;
    vstd::arithmetic::div_mod::lemma_fundamental_div_mod(x as int, p as int);
    vstd::arithmetic::div_mod::lemma_fundamental_div_mod(h as int, q as int);
    let y = with_bits(x, lo, n, v);
    assert(y == p * (q * big + t) + r && y >= 0) by (nonlinear_arith)
        requires
            y == x - f * p + t * p,
            x as int == p * h + r,
            h as int == q * big + f,
            p > 0,
            q > 0,
            big >= 0,
            t >= 0,
            r >= 0,
    ;
    let top = q * big + t;
    vstd::arithmetic::div_mod::lemma_fundamental_div_mod_converse(y, p as int, top as int, r as int);
    vstd::arithmetic::div_mod::lemma_fundamental_div_mod_converse(
        top as int,
        q as int,
        big as int,
        t as int,
    );
    if at + m <= lo {
        // Below the field.
        lemma_low_bits(x, lo, at, m);
        lemma_low_bits(y as nat, lo, at, m);
    } else {
        let k = (at - lo - n) as nat;
        vstd::arithmetic::power2::lemma_pow2_adds(lo, n);
        vstd::arithmetic::power2::lemma_pow2_adds(lo + n, k);
        lemma_pow2_step(k);
        lemma_pow2_step(lo + n);
        assert(p * q > 0) by (nonlinear_arith)
            requires
                p > 0,
                q > 0,
        ;
        vstd::arithmetic::div_mod::lemma_div_denominator(x as int, p as int, q as int);
        vstd::arithmetic::div_mod::lemma_div_denominator(y, p as int, q as int);
        vstd::arithmetic::div_mod::lemma_div_denominator(
            x as int,
            pow2(lo + n) as int,
            pow2(k) as int,
        );
        vstd::arithmetic::div_mod::lemma_div_denominator(y, pow2(lo + n) as int, pow2(k) as int);
        assert(x as int / (p * q) as int == big);
        assert(y / (p * q) as int == big);
    }
}

/// Bits below `lo` are those of what is left below `lo`.
proof fn lemma_low_bits(x: nat, lo: nat, at: nat, m: nat)
    requires
        at + m <= lo,
    ensures
        bits_at(x, at, m) == bits_at(x % pow2(lo), at, m),
{
    let a = pow2(at);
    let k = (lo - at) as nat;
    let b = pow2(k);
    vstd::arithmetic::power2::lemma_pow2_adds(at, k);
    lemma_pow2_step(at);
    lemma_pow2_step(k);
    lemma_pow2_step(m);
    vstd::arithmetic::div_mod::lemma_mod_breakdown(x as int, a as int, b as int);
    let y = x % pow2(lo);
    let h = (x / a) % b;
    assert(y as int == a * h + x % a);
    vstd::arithmetic::div_mod::lemma_fundamental_div_mod_converse(
        y as int,
        a as int,
        h as int,
        (x % a) as int,
    );
    let over = (k - m) as nat;
    vstd::arithmetic::power2::lemma_pow2_adds(m, over);
    lemma_pow2_step(over);
    vstd::arithmetic::div_mod::lemma_mod_mod((x / a) as int, pow2(m) as int, pow2(over) as int);
}

proof fn lemma_get_spelling(f: Field)
    ensures
        spelled(field_get(f)) == "(self.0 & Self::"@ + mask_name(f) + ") >> Self::"@ + shift_name(f),
        spelled(Expr::Paren(Box::new(field_gone(f)))) == "(self.0 & !Self::"@ + mask_name(f) + ")"@,
{
    reveal_with_fuel(spelled, 5);
    reveal_strlit("(");
    reveal_strlit("self.0");
    reveal_strlit(" & ");
    reveal_strlit("!");
    reveal_strlit("Self::");
    reveal_strlit(")");
    reveal_strlit(" >> ");
    reveal_strlit("(self.0 & Self::");
    reveal_strlit(") >> Self::");
    reveal_strlit("(self.0 & !Self::");
    assert(spelled(field_get(f)) =~= "(self.0 & Self::"@ + mask_name(f) + ") >> Self::"@ + shift_name(
        f,
    ));
    assert(spelled(Expr::Paren(Box::new(field_gone(f)))) =~= "(self.0 & !Self::"@ + mask_name(f)
        + ")"@);
}

proof fn lemma_set_spelling(f: Field)
    ensures
        "        Self("@ + spelled(field_set(f)) + ")\n"@ == "        Self((self.0 & !Self::"@
            + mask_name(f) + ") | ((v << Self::"@ + shift_name(f) + ") & Self::"@ + mask_name(f)
            + "))\n"@,
{
    lemma_get_spelling(f);
    reveal_with_fuel(spelled, 6);
    let gone = spelled(Expr::Paren(Box::new(field_gone(f))));
    let put = "("@ + ("("@ + ("v"@ + " << "@ + ("Self::"@ + shift_name(f))) + ")"@ + " & "@ + (
    "Self::"@ + mask_name(f))) + ")"@;
    assert(spelled(field_set(f)) == gone + " | "@ + put);
    reveal_strlit("        Self(");
    reveal_strlit("        Self((self.0 & !Self::");
    reveal_strlit("(self.0 & !Self::");
    reveal_strlit(")");
    reveal_strlit("(");
    reveal_strlit(" | ");
    reveal_strlit("v");
    reveal_strlit(" << ");
    reveal_strlit("Self::");
    reveal_strlit(" & ");
    reveal_strlit(")\n");
    reveal_strlit(") | ((v << Self::");
    reveal_strlit(") & Self::");
    reveal_strlit("))\n");
    assert("        Self("@ + spelled(field_set(f)) + ")\n"@ =~= "        Self((self.0 & !Self::"@
        + mask_name(f) + ") | ((v << Self::"@ + shift_name(f) + ") & Self::"@ + mask_name(f)
        + "))\n"@);
}

proof fn lemma_set_named_spelling(f: Field, width: u8)
    ensures
        "        Self("@ + spelled(field_set_named(f, width)) + ")\n"@
            == "        Self((self.0 & !Self::"@ + mask_name(f) + ") | ((v.into_bits() as "@
            + int_type(width) + ") << Self::"@ + shift_name(f) + "))\n"@,
{
    lemma_get_spelling(f);
    reveal_with_fuel(spelled, 6);
    let gone = spelled(Expr::Paren(Box::new(field_gone(f))));
    let put = "("@ + ("("@ + ("v.into_bits()"@ + " as u"@ + decimal(width as nat)) + ")"@ + " << "@
        + ("Self::"@ + shift_name(f))) + ")"@;
    assert(spelled(field_set_named(f, width)) == gone + " | "@ + put);
    reveal_strlit("        Self(");
    reveal_strlit("        Self((self.0 & !Self::");
    reveal_strlit("(self.0 & !Self::");
    reveal_strlit(")");
    reveal_strlit("(");
    reveal_strlit(" | ");
    reveal_strlit("v.into_bits()");
    reveal_strlit(" as u");
    reveal_strlit("u");
    reveal_strlit(" << ");
    reveal_strlit("Self::");
    reveal_strlit(")\n");
    reveal_strlit(") | ((v.into_bits() as ");
    reveal_strlit(") << Self::");
    reveal_strlit("))\n");
    assert(int_type(width) == "u"@ + decimal(width as nat));
    assert("        Self("@ + spelled(field_set_named(f, width)) + ")\n"@
        =~= "        Self((self.0 & !Self::"@ + mask_name(f) + ") | ((v.into_bits() as "@ + int_type(
        width,
    ) + ") << Self::"@ + shift_name(f) + "))\n"@);
}

/// The accessors of a field that holds a number, as they are spelled: the reader, and the
/// setter where the field can be set.
pub proof fn lemma_scalar_text(o: Seq<char>, r: Register, f: Field)
    ensures
        ({
            let get = "    pub const fn "@ + f.name@ + "(self) -> "@ + int_type(r.width) + " { "@
                + spelled(field_get(f)) + " }\n"@;
            let set = "        Self("@ + spelled(field_set(f)) + ")\n"@ + "    }\n"@;
            &&& f.access is Ro ==> exists|a: Seq<char>| #[trigger]
                (a + get) == scalar_field_text(o, r, f)
            &&& !(f.access is Ro) ==> exists|a: Seq<char>, b: Seq<char>|
                #![trigger (a + get) + b]
                (a + get) + b + set == scalar_field_text(o, r, f)
        }),
{
    lemma_get_spelling(f);
    lemma_set_spelling(f);
    let name = f.name@;
    let mask = mask_name(f);
    let shift = shift_name(f);
    let wty = int_type(r.width);
    let get = "    pub const fn "@ + name + "(self) -> "@ + wty + " { "@ + spelled(field_get(f))
        + " }\n"@;
    let set = "        Self("@ + spelled(field_set(f)) + ")\n"@ + "    }\n"@;
    let a = o + "    /// Read the `"@ + name + "` field as a scalar.\n"@;
    let lhs = a + "    pub const fn "@ + name + "(self) -> "@ + wty + " { (self.0 & Self::"@ + mask
        + ") >> Self::"@ + shift + " }\n"@;
    assert(lhs =~= a + get) by {
        reveal_strlit(" { ");
        reveal_strlit("(self.0 & Self::");
        reveal_strlit(" { (self.0 & Self::");
    }
    let b = "    /// Return a new value with `"@ + name
        + "` set to `v` (truncated to field width).\n"@ + "    pub const fn with_"@ + name
        + "(self, v: "@ + wty + ") -> Self {\n"@;
    let c = lhs + "    /// Return a new value with `"@ + name
        + "` set to `v` (truncated to field width).\n"@ + "    pub const fn with_"@ + name
        + "(self, v: "@ + wty + ") -> Self {\n"@;
    assert(c =~= lhs + b);
    let line = "        Self((self.0 & !Self::"@ + mask + ") | ((v << Self::"@ + shift
        + ") & Self::"@ + mask + "))\n"@;
    let d = c + "        Self((self.0 & !Self::"@ + mask + ") | ((v << Self::"@ + shift
        + ") & Self::"@ + mask + "))\n"@;
    assert(d =~= c + line);
    assert(d + "    }\n"@ =~= c + set);
    if f.access is Ro {
        assert(a + get == scalar_field_text(o, r, f));
    } else {
        assert((a + get) + b + set == scalar_field_text(o, r, f));
    }
}

proof fn lemma_named_get(a: Seq<char>, ty: Seq<char>, f: Field)
    ensures
        a + "        "@ + ty + "::from_bits((self.0 & Self::"@ + mask_name(f) + ") >> Self::"@
            + shift_name(f) + ")\n"@ + "    }\n"@ == a + ("        "@ + ty + "::from_bits("@
            + spelled(field_get(f)) + ")\n"@ + "    }\n"@),
{
    lemma_get_spelling(f);
    reveal_strlit("::from_bits(");
    reveal_strlit("(self.0 & Self::");
    reveal_strlit("::from_bits((self.0 & Self::");
    let call = "::from_bits((self.0 & Self::"@ + mask_name(f) + ") >> Self::"@ + shift_name(f);
    assert("::from_bits("@ + spelled(field_get(f)) =~= call);
    assert(a + "        "@ + ty + "::from_bits((self.0 & Self::"@ + mask_name(f) + ") >> Self::"@
        + shift_name(f) =~= a + "        "@ + ty + call);
    assert("        "@ + ty + "::from_bits("@ + spelled(field_get(f)) =~= "        "@ + ty + call);
    assert(a + "        "@ + ty + call + ")\n"@ + "    }\n"@ =~= a + ("        "@ + ty + call
        + ")\n"@ + "    }\n"@));
}

/// The accessors of a field with named values, as they are spelled: the reader looks the
/// field's bits up among the values, the setter puts the value's bits in.
pub proof fn lemma_named_text(o: Seq<char>, r: Register, f: Field)
    ensures
        ({
            let ty = pascal(r.name@) + pascal(f.name@);
            let get = "        "@ + ty + "::from_bits("@ + spelled(field_get(f)) + ")\n"@
                + "    }\n"@;
            let set = "        Self("@ + spelled(field_set_named(f, r.width)) + ")\n"@ + "    }\n"@;
            &&& f.access is Ro ==> exists|a: Seq<char>| #[trigger]
                (a + get) == enum_field_text(o, r, f)
            &&& !(f.access is Ro) ==> exists|a: Seq<char>, b: Seq<char>|
                #![trigger (a + get) + b]
                (a + get) + b + set == enum_field_text(o, r, f)
        }),
{
    lemma_set_named_spelling(f, r.width);
    let name = f.name@;
    let mask = mask_name(f);
    let shift = shift_name(f);
    let ty = pascal(r.name@) + pascal(name);
    let wty = int_type(r.width);
    let get = "        "@ + ty + "::from_bits("@ + spelled(field_get(f)) + ")\n"@ + "    }\n"@;
    let set = "        Self("@ + spelled(field_set_named(f, r.width)) + ")\n"@ + "    }\n"@;
    let a = o + "    /// Decode the `"@ + name + "` field as `"@ + ty + "`.\n"@
        + "    pub const fn "@ + name + "(self) -> Result<"@ + ty + ", ReservedBits> {\n"@;
    let lhs = a + "        "@ + ty + "::from_bits((self.0 & Self::"@ + mask + ") >> Self::"@ + shift
        + ")\n"@ + "    }\n"@;
    lemma_named_get(a, ty, f);
    let b = "    /// Return a new value with `"@ + name + "` set to `v`.\n"@
        + "    pub const fn with_"@ + name + "(self, v: "@ + ty + ") -> Self {\n"@;
    let c = lhs + "    /// Return a new value with `"@ + name + "` set to `v`.\n"@
        + "    pub const fn with_"@ + name + "(self, v: "@ + ty + ") -> Self {\n"@;
    assert(c =~= lhs + b);
    let line = "        Self((self.0 & !Self::"@ + mask + ") | ((v.into_bits() as "@ + wty
        + ") << Self::"@ + shift + "))\n"@;
    let d = c + "        Self((self.0 & !Self::"@ + mask + ") | ((v.into_bits() as "@ + wty
        + ") << Self::"@ + shift + "))\n"@;
    assert(d =~= c + line);
    assert(d + "    }\n"@ =~= c + set);
    if f.access is Ro {
        assert(a + get == enum_field_text(o, r, f));
    } else {
        assert((a + get) + b + set == enum_field_text(o, r, f));
    }
}

/// The accessors of a `bool` field, as they are spelled: it is read by whether its bit is set,
/// and set by setting or clearing its bit.
pub proof fn lemma_bool_text(o: Seq<char>, f: Field)
    ensures
        ({
            let get = "    pub const fn "@ + f.name@ + "(self) -> bool { ("@ + spelled(
                Expr::And(Box::new(word()), Box::new(mask_const(f))),
            ) + ") != 0 }\n"@;
            let set = "        if v { Self("@ + spelled(
                Expr::Or(Box::new(word()), Box::new(mask_const(f))),
            ) + ") } else { Self("@ + spelled(field_gone(f)) + ") }\n"@ + "    }\n"@;
            &&& f.access is Ro ==> exists|a: Seq<char>| #[trigger]
                (a + get) == bool_field_text(o, f)
            &&& !(f.access is Ro) ==> exists|a: Seq<char>, b: Seq<char>|
                #![trigger (a + get) + b]
                (a + get) + b + set == bool_field_text(o, f)
        }),
{
    let name = f.name@;
    let mask = mask_name(f);
    let and = spelled(Expr::And(Box::new(word()), Box::new(mask_const(f))));
    let or = spelled(Expr::Or(Box::new(word()), Box::new(mask_const(f))));
    let gone = spelled(field_gone(f));
    reveal_with_fuel(spelled, 4);
    reveal_strlit("self.0");
    reveal_strlit(" & ");
    reveal_strlit(" | ");
    reveal_strlit("!");
    reveal_strlit("Self::");
    reveal_strlit("(self) -> bool { (");
    reveal_strlit("(self) -> bool { (self.0 & Self::");
    reveal_strlit("        if v { Self(");
    reveal_strlit("        if v { Self(self.0 | Self::");
    reveal_strlit(") } else { Self(");
    reveal_strlit(") } else { Self(self.0 & !Self::");
    let get = "    pub const fn "@ + name + "(self) -> bool { ("@ + and + ") != 0 }\n"@;
    let set = "        if v { Self("@ + or + ") } else { Self("@ + gone + ") }\n"@ + "    }\n"@;
    assert("(self) -> bool { ("@ + and =~= "(self) -> bool { (self.0 & Self::"@ + mask);
    assert("        if v { Self("@ + or =~= "        if v { Self(self.0 | Self::"@ + mask);
    assert(") } else { Self("@ + gone =~= ") } else { Self(self.0 & !Self::"@ + mask);
    let a = o + "    /// Read `"@ + name + "` as bool.\n"@;
    let lhs = a + "    pub const fn "@ + name + "(self) -> bool { (self.0 & Self::"@ + mask
        + ") != 0 }\n"@;
    assert(lhs =~= a + get);
    let b = "    /// Return a new value with `"@ + name + "` set to `v`.\n"@
        + "    pub const fn with_"@ + name + "(self, v: bool) -> Self {\n"@;
    let c = lhs + "    /// Return a new value with `"@ + name + "` set to `v`.\n"@
        + "    pub const fn with_"@ + name + "(self, v: bool) -> Self {\n"@;
    assert(c =~= lhs + b);
    let line = "        if v { Self(self.0 | Self::"@ + mask
        + ") } else { Self(self.0 & !Self::"@ + mask + ") }\n"@;
    let d = c + "        if v { Self(self.0 | Self::"@ + mask
        + ") } else { Self(self.0 & !Self::"@ + mask + ") }\n"@;
    assert(d =~= c + line);
    assert(set =~= line + "    }\n"@);
    assert(d + "    }\n"@ =~= c + set);
    if f.access is Ro {
        assert(a + get == bool_field_text(o, f));
    } else {
        assert((a + get) + b + set == bool_field_text(o, f));
    }
}

/// What the accessors of a `bool` field compute: the masked word is zero if and only if the bit
/// is; the two new words have the bit set and clear, and every other bit as it was.
pub proof fn lemma_bool_meaning(env: Map<Seq<char>, nat>, f: Field, width: u8, x: nat, v: nat)
    requires
        lies_in(bits(f), width),
        bits(f).0 == bits(f).1,
        field_env(env, f, width, x, v),
        x < pow2(width as nat),
    ensures
        ({
            let lo = bits(f).1 as nat;
            let w = width as nat;
            let and = Expr::And(Box::new(word()), Box::new(mask_const(f)));
            let or = Expr::Or(Box::new(word()), Box::new(mask_const(f)));
            &&& value(and, env, w) != 0 <==> bits_at(x, lo, 1) == 1
            &&& value(or, env, w) == with_bits(x, lo, 1, 1)
            &&& value(field_gone(f), env, w) == with_bits(x, lo, 1, 0)
        }),
{
    let lo = bits(f).1 as nat;
    let w = width as nat;
    lemma_mask(bits(f), width);
    vstd::arithmetic::power2::lemma2_to64();
    reveal_with_fuel(value, 4);
    lemma_field_out(x, lo, 1);
    lemma_field_in(x, 0, lo, 1, w);
    lemma_field_in(x, 1, lo, 1, w);
    lemma_mask_bound(lo, 1, w);
    lemma_pow2_step(lo);
    let mask = pow2(lo);
    let one = bits_at(x, lo, 1);
    assert(((pow2(1) - 1) as nat) * pow2(lo) == mask) by (nonlinear_arith)
        requires
            pow2(1) == 2,
            mask == pow2(lo),
    ;
    assert(one == 0 || one == 1);
    assert(0 * mask == 0 && 1 * mask == mask);
    let gone = bit_and(x, (pow2(w) - 1 - mask) as nat);
    assert(bit_or(gone, 0) == gone);
    super::meaning::lemma_or_bit(x, lo);
}

// ---------------------------------------------------------------------------
// Whole registers
// ---------------------------------------------------------------------------

/// What is stored where a value is written to a register that carries the password.
pub open spec fn passwd_expr(val: Seq<char>) -> Expr {
    Expr::Or(
        Box::new(
            Expr::Paren(
                Box::new(
                    Expr::And(
                        Box::new(Expr::Paren(Box::new(Expr::Name(val)))),
                        Box::new(Expr::Spelled("0x00FF_FFFFu32"@, 0x00FF_FFFF)),
                    ),
                ),
            ),
        ),
        Box::new(
            Expr::Paren(
                Box::new(
                    Expr::Shl(
                        Box::new(Expr::Spelled("0x5Au32"@, 0x5A)),
                        Box::new(Expr::Num(24)),
                    ),
                ),
            ),
        ),
    )
}

proof fn lemma_decimal_24()
    ensures
        decimal(24) =~= seq!['2', '4'],
{
    reveal_with_fuel(crate::numerals::numeral, 3);
}

/// What is stored where a value is written: its bytes swapped where the register stands in
/// memory with the most significant byte first, the value with the password where the register
/// asks for it, and else the value as it is.
pub proof fn lemma_stored_text(r: Register, val: Seq<char>)
    ensures
        r.endian == Some(Endian::Big) ==> stored(r, val) == val + ".to_be()"@,
        r.endian != Some(Endian::Big) && r.kind == Some(RegisterKind::PasswdProtected) ==> stored(
            r,
            val,
        ) == spelled(passwd_expr(val)),
        r.endian != Some(Endian::Big) && r.kind != Some(RegisterKind::PasswdProtected) ==> stored(
            r,
            val,
        ) == val,
        r.endian == Some(Endian::Big) ==> read_expr(r) == "u"@ + decimal(r.width as nat)
            + "::from_be(self."@ + r.name@ + ".read())"@,
        r.endian != Some(Endian::Big) ==> read_expr(r) == "self."@ + r.name@ + ".read()"@,
{
    reveal_with_fuel(spelled, 5);
    lemma_decimal_24();
    reveal_strlit("(");
    reveal_strlit(")");
    reveal_strlit(" & ");
    reveal_strlit(" | ");
    reveal_strlit(" << ");
    reveal_strlit("0x00FF_FFFFu32");
    reveal_strlit("0x5Au32");
    reveal_strlit("((");
    reveal_strlit(") & 0x00FF_FFFFu32) | (0x5Au32 << 24)");
    let a = "("@ + ("("@ + val + ")"@ + " & "@ + "0x00FF_FFFFu32"@) + ")"@;
    let b = "("@ + ("0x5Au32"@ + " << "@ + decimal(24)) + ")"@;
    assert(spelled(passwd_expr(val)) == a + " | "@ + b);
    assert("(("@ + val + ") & 0x00FF_FFFFu32) | (0x5Au32 << 24)"@ =~= a + " | "@ + b);
}

/// A value that is stored with the password keeps its low 24 bits, and has the password above
/// them.
pub proof fn lemma_passwd_meaning(env: Map<Seq<char>, nat>, val: Seq<char>, v: nat)
    requires
        env[val] == v,
    ensures
        value(passwd_expr(val), env, 32) == 0x5A00_0000 + v % 0x100_0000,
{
    vstd::arithmetic::power2::lemma2_to64();
    reveal_with_fuel(value, 5);
    lemma_and_low(v, 24);
    assert((pow2(24) - 1) as nat == 0x00FF_FFFF);
    lemma_or_above(v % 0x100_0000, 0x5A, 24);
    assert((0x5Anat * pow2(24)) % pow2(32) == 0x5A00_0000);
}

} // verus!
