//! What the types of registers hold: the constants of every flag, the constants and accessors of
//! every field, and the named values of every enum.

use super::emit::{doc_text, int_type};
use super::field_laws::{
    field_get, field_gone, field_set, field_set_named, lemma_bool_text, lemma_mask,
    lemma_named_text, lemma_scalar_text, lies_in, mask_const, word,
};
use super::meaning::{spelled, Expr};
use super::model::{field_mask, EnumValue, Field, FieldAccess, Register};
use super::newtypes::{
    all_at_most, bits, bool_field_text, decode_arms_text, enum_field_text, field_text, fields_text,
    flag_consts_text, is_bool, mask_name, repr_text, scalar_field_text, shift_name, variants_text,
};
use crate::letter_case::{pascal, uppercase};
use crate::numerals::{decimal, hex};
use crate::text::{
    contains, lemma_contains_front, lemma_contains_middle, lemma_ends_with, lemma_join3,
    lemma_join7, lemma_prefix1, lemma_prefix3, lemma_prefix5, lemma_prefix_self,
    lemma_prefix_step,
};
use vstd::arithmetic::power2::pow2;
use vstd::prelude::*;

verus! {

// ---------------------------------------------------------------------------
// Flags
// ---------------------------------------------------------------------------

proof fn lemma_doc_prefix(o: Seq<char>, h: Seq<char>, lead: Seq<char>, d: Option<String>)
    requires
        o.is_prefix_of(h),
    ensures
        o.is_prefix_of(doc_text(h, lead, d)),
{
    if let Some(s) = d {
        lemma_prefix3(o, h, lead, s@, "\n"@);
    }
}

/// The type of a register with flags has, for each flag, a constant with that flag's bit alone.
pub proof fn lemma_flag_constants(o: Seq<char>, r: Register, n: nat, k: int)
    requires
        n <= r.flags@.len(),
    ensures
        o.is_prefix_of(flag_consts_text(o, r, n)),
        0 <= k < n ==> contains(
            flag_consts_text(o, r, n),
            "    pub const "@ + uppercase(r.flags@[k].name@) + ": Self = Self(1 << "@ + decimal(
                r.flags@[k].bit as nat,
            ) + ");\n"@,
        ),
    decreases n,
{
    if n == 0 {
        lemma_prefix_self(o);
    } else {
        let m = (n - 1) as nat;
        lemma_flag_constants(o, r, m, k);
        let f = r.flags@[n - 1];
        let a = flag_consts_text(o, r, m);
        let h = doc_text(a, "    /// "@, f.description);
        lemma_prefix_self(a);
        lemma_doc_prefix(a, a, "    /// "@, f.description);
        lemma_prefix_step(o, a, h);
        let name = uppercase(f.name@);
        let bit = decimal(f.bit as nat);
        lemma_join3(h, "    pub const "@, name, ": Self = Self(1 << "@, bit);
        let b = "    pub const "@ + name + ": Self = Self(1 << "@ + bit;
        assert(h + b + ");\n"@ =~= h + (b + ");\n"@));
        let line = b + ");\n"@;
        let t = flag_consts_text(o, r, n);
        assert(t == h + line);
        lemma_ends_with(h, line);
        lemma_prefix_step(o, h, t);
        lemma_prefix_step(a, h, t);
        if 0 <= k < m {
            lemma_contains_front(
                a,
                t,
                "    pub const "@ + uppercase(r.flags@[k].name@) + ": Self = Self(1 << "@
                    + decimal(r.flags@[k].bit as nat) + ");\n"@,
            );
        }
    }
}

// ---------------------------------------------------------------------------
// Fields
// ---------------------------------------------------------------------------

/// The constant with a field's mask: ones in the field's bits and nowhere else.
pub open spec fn mask_line(r: Register, f: Field) -> Seq<char> {
    let n = (bits(f).0 - bits(f).1 + 1) as nat;
    "    pub const "@ + (uppercase(f.name@) + "_MASK"@) + ": "@ + int_type(r.width) + " = 0x"@
        + hex(((pow2(n) - 1) as nat) * pow2(bits(f).1 as nat)) + ";\n"@
}

/// The constant with the number of bits below a field.
pub open spec fn shift_line(f: Field) -> Seq<char> {
    "    pub const "@ + (uppercase(f.name@) + "_SHIFT"@) + ": u32 = "@ + decimal(
        bits(f).1 as nat,
    ) + ";\n"@
}

/// The reader of a field: a field of one bit without named values is read as a truth value, one
/// with named values by its name, and any other as a number.
pub open spec fn getter(r: Register, f: Field) -> Seq<char> {
    if f.enum_values@.len() > 0 {
        "        "@ + (pascal(r.name@) + pascal(f.name@)) + "::from_bits("@ + spelled(field_get(f))
            + ")\n"@ + "    }\n"@
    } else if bits(f).0 == bits(f).1 {
        "    pub const fn "@ + f.name@ + "(self) -> bool { ("@ + spelled(
            Expr::And(Box::new(word()), Box::new(mask_const(f))),
        ) + ") != 0 }\n"@
    } else {
        "    pub const fn "@ + f.name@ + "(self) -> "@ + int_type(r.width) + " { "@ + spelled(
            field_get(f),
        ) + " }\n"@
    }
}

/// The setter of a field.
pub open spec fn setter(r: Register, f: Field) -> Seq<char> {
    if f.enum_values@.len() > 0 {
        "        Self("@ + spelled(field_set_named(f, r.width)) + ")\n"@ + "    }\n"@
    } else if bits(f).0 == bits(f).1 {
        "        if v { Self("@ + spelled(Expr::Or(Box::new(word()), Box::new(mask_const(f))))
            + ") } else { Self("@ + spelled(field_gone(f)) + ") }\n"@ + "    }\n"@
    } else {
        "        Self("@ + spelled(field_set(f)) + ")\n"@ + "    }\n"@
    }
}

/// What stands before the accessors of a field.
spec fn consts_text(o: Seq<char>, r: Register, f: Field) -> Seq<char> {
    let name = f.name@;
    let hi = decimal(bits(f).0 as nat);
    let lo = decimal(bits(f).1 as nat);
    let a = o + "    /// Mask for the `"@ + name + "` field (bits "@ + hi + ":"@ + lo + ").\n"@;
    let b = a + "    pub const "@ + mask_name(f) + ": "@ + int_type(r.width) + " = 0x"@ + hex(
        field_mask(bits(f), r.width),
    ) + ";\n"@;
    let c = b + "    /// Right-shift to access the `"@ + name + "` field.\n"@;
    c + "    pub const "@ + shift_name(f) + ": u32 = "@ + lo + ";\n"@
}

proof fn lemma_consts(o: Seq<char>, r: Register, f: Field)
    requires
        lies_in(bits(f), r.width),
    ensures
        o.is_prefix_of(consts_text(o, r, f)),
        contains(consts_text(o, r, f), mask_line(r, f)),
        contains(consts_text(o, r, f), shift_line(f)),
{
    lemma_mask(bits(f), r.width);
    let name = f.name@;
    let hi = decimal(bits(f).0 as nat);
    let lo = decimal(bits(f).1 as nat);
    lemma_prefix_self(o);
    lemma_prefix5(o, o, "    /// Mask for the `"@, name, "` field (bits "@, hi, ":"@);
    let a0 = o + "    /// Mask for the `"@ + name + "` field (bits "@ + hi + ":"@;
    lemma_prefix1(o, a0, lo);
    lemma_prefix1(o, a0 + lo, ").\n"@);
    let a = a0 + lo + ").\n"@;
    let mask = hex(field_mask(bits(f), r.width));
    lemma_join7(
        a,
        "    pub const "@,
        mask_name(f),
        ": "@,
        int_type(r.width),
        " = 0x"@,
        mask,
        ";\n"@,
    );
    let b = a + mask_line(r, f);
    lemma_ends_with(a, mask_line(r, f));
    lemma_prefix_step(o, a, b);
    lemma_prefix_self(b);
    lemma_prefix3(b, b, "    /// Right-shift to access the `"@, name, "` field.\n"@);
    let c = b + "    /// Right-shift to access the `"@ + name + "` field.\n"@;
    lemma_join3(c, "    pub const "@, shift_name(f), ": u32 = "@, lo);
    let m = "    pub const "@ + shift_name(f) + ": u32 = "@ + lo;
    assert(c + m + ";\n"@ =~= c + (m + ";\n"@));
    let t = c + shift_line(f);
    assert(consts_text(o, r, f) == t);
    lemma_ends_with(c, shift_line(f));
    lemma_prefix_step(b, c, t);
    lemma_prefix_step(o, b, t);
    lemma_contains_front(b, t, mask_line(r, f));
}

proof fn lemma_two_parts(t: Seq<char>, get: Seq<char>, set: Seq<char>, ro: bool)
    requires
        ro ==> exists|a: Seq<char>| #[trigger] (a + get) == t,
        !ro ==> exists|a: Seq<char>, b: Seq<char>|
            #![trigger (a + get) + b]
            (a + get) + b + set == t,
    ensures
        contains(t, get),
        !ro ==> contains(t, set),
{
    if ro {
        let a = choose|a: Seq<char>| #[trigger] (a + get) == t;
        lemma_ends_with(a, get);
    } else {
        let (a, b) = choose|a: Seq<char>, b: Seq<char>|
            #![trigger (a + get) + b]
            (a + get) + b + set == t;
        lemma_ends_with(a + get + b, set);
        lemma_contains_middle(a, get, b);
        lemma_contains_front(a + get + b, t, get);
    }
}

/// Whether a text holds what belongs to a field: its constants, its reader and, unless the
/// hardware alone sets it, its setter.
pub open spec fn holds_field(t: Seq<char>, r: Register, f: Field) -> bool {
    &&& contains(t, mask_line(r, f))
    &&& contains(t, shift_line(f))
    &&& contains(t, getter(r, f))
    &&& f.access == FieldAccess::Rw ==> contains(t, setter(r, f))
}

proof fn lemma_bool_prefix(o: Seq<char>, f: Field)
    ensures
        o.is_prefix_of(bool_field_text(o, f)),
{
    let name = f.name@;
    let mask = mask_name(f);
    lemma_prefix_self(o);
    lemma_prefix3(o, o, "    /// Read `"@, name, "` as bool.\n"@);
    let a = o + "    /// Read `"@ + name + "` as bool.\n"@;
    lemma_prefix5(
        o,
        a,
        "    pub const fn "@,
        name,
        "(self) -> bool { (self.0 & Self::"@,
        mask,
        ") != 0 }\n"@,
    );
    let b = a + "    pub const fn "@ + name + "(self) -> bool { (self.0 & Self::"@ + mask
        + ") != 0 }\n"@;
    lemma_prefix3(o, b, "    /// Return a new value with `"@, name, "` set to `v`.\n"@);
    let c = b + "    /// Return a new value with `"@ + name + "` set to `v`.\n"@;
    lemma_prefix3(o, c, "    pub const fn with_"@, name, "(self, v: bool) -> Self {\n"@);
    let d = c + "    pub const fn with_"@ + name + "(self, v: bool) -> Self {\n"@;
    lemma_prefix5(
        o,
        d,
        "        if v { Self(self.0 | Self::"@,
        mask,
        ") } else { Self(self.0 & !Self::"@,
        mask,
        ") }\n"@,
    );
    let e = d + "        if v { Self(self.0 | Self::"@ + mask
        + ") } else { Self(self.0 & !Self::"@ + mask + ") }\n"@;
    lemma_prefix1(o, e, "    }\n"@);
}

proof fn lemma_enum_prefix(o: Seq<char>, r: Register, f: Field)
    ensures
        o.is_prefix_of(enum_field_text(o, r, f)),
{
    let name = f.name@;
    let mask = mask_name(f);
    let shift = shift_name(f);
    let ty = pascal(r.name@) + pascal(name);
    let wty = int_type(r.width);
    lemma_prefix_self(o);
    lemma_prefix5(o, o, "    /// Decode the `"@, name, "` field as `"@, ty, "`.\n"@);
    let a = o + "    /// Decode the `"@ + name + "` field as `"@ + ty + "`.\n"@;
    lemma_prefix5(o, a, "    pub const fn "@, name, "(self) -> Result<"@, ty, ", ReservedBits> {\n"@);
    let b = a + "    pub const fn "@ + name + "(self) -> Result<"@ + ty + ", ReservedBits> {\n"@;
    lemma_prefix5(
        o,
        b,
        "        "@,
        ty,
        "::from_bits((self.0 & Self::"@,
        mask,
        ") >> Self::"@,
    );
    let c = b + "        "@ + ty + "::from_bits((self.0 & Self::"@ + mask + ") >> Self::"@;
    lemma_prefix3(o, c, shift, ")\n"@, "    }\n"@);
    let d = c + shift + ")\n"@ + "    }\n"@;
    lemma_prefix3(o, d, "    /// Return a new value with `"@, name, "` set to `v`.\n"@);
    let e = d + "    /// Return a new value with `"@ + name + "` set to `v`.\n"@;
    lemma_prefix5(o, e, "    pub const fn with_"@, name, "(self, v: "@, ty, ") -> Self {\n"@);
    let g = e + "    pub const fn with_"@ + name + "(self, v: "@ + ty + ") -> Self {\n"@;
    lemma_prefix5(
        o,
        g,
        "        Self((self.0 & !Self::"@,
        mask,
        ") | ((v.into_bits() as "@,
        wty,
        ") << Self::"@,
    );
    let i = g + "        Self((self.0 & !Self::"@ + mask + ") | ((v.into_bits() as "@ + wty
        + ") << Self::"@;
    lemma_prefix3(o, i, shift, "))\n"@, "    }\n"@);
}

proof fn lemma_scalar_prefix(o: Seq<char>, r: Register, f: Field)
    ensures
        o.is_prefix_of(scalar_field_text(o, r, f)),
{
    let name = f.name@;
    let mask = mask_name(f);
    let shift = shift_name(f);
    let wty = int_type(r.width);
    lemma_prefix_self(o);
    lemma_prefix3(o, o, "    /// Read the `"@, name, "` field as a scalar.\n"@);
    let a = o + "    /// Read the `"@ + name + "` field as a scalar.\n"@;
    lemma_prefix5(o, a, "    pub const fn "@, name, "(self) -> "@, wty, " { (self.0 & Self::"@);
    let b = a + "    pub const fn "@ + name + "(self) -> "@ + wty + " { (self.0 & Self::"@;
    lemma_prefix3(o, b, mask, ") >> Self::"@, shift);
    let c = b + mask + ") >> Self::"@ + shift;
    lemma_prefix1(o, c, " }\n"@);
    let d = c + " }\n"@;
    lemma_prefix3(
        o,
        d,
        "    /// Return a new value with `"@,
        name,
        "` set to `v` (truncated to field width).\n"@,
    );
    let e = d + "    /// Return a new value with `"@ + name
        + "` set to `v` (truncated to field width).\n"@;
    lemma_prefix5(o, e, "    pub const fn with_"@, name, "(self, v: "@, wty, ") -> Self {\n"@);
    let g = e + "    pub const fn with_"@ + name + "(self, v: "@ + wty + ") -> Self {\n"@;
    lemma_prefix5(
        o,
        g,
        "        Self((self.0 & !Self::"@,
        mask,
        ") | ((v << Self::"@,
        shift,
        ") & Self::"@,
    );
    let i = g + "        Self((self.0 & !Self::"@ + mask + ") | ((v << Self::"@ + shift
        + ") & Self::"@;
    lemma_prefix3(o, i, mask, "))\n"@, "    }\n"@);
}

/// The text of a field holds what belongs to it.
pub proof fn lemma_field_holds(o: Seq<char>, r: Register, f: Field)
    requires
        lies_in(bits(f), r.width),
    ensures
        o.is_prefix_of(field_text(o, r, f)),
        holds_field(field_text(o, r, f), r, f),
{
    let h = consts_text(o, r, f);
    lemma_consts(o, r, f);
    let t = field_text(o, r, f);
    let ro = f.access is Ro;
    if is_bool(f) {
        lemma_bool_prefix(h, f);
        lemma_bool_text(h, f);
        lemma_two_parts(t, getter(r, f), setter(r, f), ro);
    } else if f.enum_values@.len() > 0 {
        lemma_enum_prefix(h, r, f);
        lemma_named_text(h, r, f);
        lemma_two_parts(t, getter(r, f), setter(r, f), ro);
    } else {
        lemma_scalar_prefix(h, r, f);
        lemma_scalar_text(h, r, f);
        lemma_two_parts(t, getter(r, f), setter(r, f), ro);
    }
    lemma_prefix_step(o, h, t);
    lemma_contains_front(h, t, mask_line(r, f));
    lemma_contains_front(h, t, shift_line(f));
}

/// The type of a register with fields holds what belongs to each of them.
pub proof fn lemma_fields_hold(o: Seq<char>, r: Register, n: nat, k: int)
    requires
        n <= r.fields@.len(),
        forall|i: int| 0 <= i < n ==> lies_in(bits(#[trigger] r.fields@[i]), r.width),
    ensures
        o.is_prefix_of(fields_text(o, r, n)),
        0 <= k < n ==> holds_field(fields_text(o, r, n), r, r.fields@[k]),
    decreases n,
{
    if n == 0 {
        lemma_prefix_self(o);
    } else {
        let m = (n - 1) as nat;
        let a = fields_text(o, r, m);
        lemma_fields_hold(o, r, m, k);
        lemma_field_holds(a, r, r.fields@[n - 1]);
        let t = fields_text(o, r, n);
        lemma_prefix_step(o, a, t);
        if 0 <= k < m {
            let f = r.fields@[k];
            lemma_contains_front(a, t, mask_line(r, f));
            lemma_contains_front(a, t, shift_line(f));
            lemma_contains_front(a, t, getter(r, f));
            if f.access == FieldAccess::Rw {
                lemma_contains_front(a, t, setter(r, f));
            }
        }
    }
}

// ---------------------------------------------------------------------------
// Named values
// ---------------------------------------------------------------------------

/// Every named value is a variant with that value, and the decoder turns the value into it.
pub proof fn lemma_named_values(o: Seq<char>, f: Field, n: nat, k: int)
    requires
        n <= f.enum_values@.len(),
    ensures
        o.is_prefix_of(variants_text(o, f, n)),
        o.is_prefix_of(decode_arms_text(o, f, n)),
        0 <= k < n ==> contains(
            variants_text(o, f, n),
            "    "@ + f.enum_values@[k].name@ + " = 0x"@ + hex(f.enum_values@[k].value as nat)
                + ",\n"@,
        ),
        0 <= k < n ==> contains(
            decode_arms_text(o, f, n),
            "            0x"@ + hex(f.enum_values@[k].value as nat) + " => Ok(Self::"@
                + f.enum_values@[k].name@ + "),\n"@,
        ),
    decreases n,
{
    if n == 0 {
        lemma_prefix_self(o);
    } else {
        let m = (n - 1) as nat;
        lemma_named_values(o, f, m, k);
        let v = f.enum_values@[n - 1];
        let a = variants_text(o, f, m);
        let name = v.name@;
        let x = hex(v.value as nat);
        lemma_join3(a, "    "@, name, " = 0x"@, x);
        let p = "    "@ + name + " = 0x"@ + x;
        assert(a + p + ",\n"@ =~= a + (p + ",\n"@));
        lemma_ends_with(a, p + ",\n"@);
        let t = variants_text(o, f, n);
        lemma_prefix_step(o, a, t);
        let b = decode_arms_text(o, f, m);
        lemma_join3(b, "            0x"@, x, " => Ok(Self::"@, name);
        let q = "            0x"@ + x + " => Ok(Self::"@ + name;
        assert(b + q + "),\n"@ =~= b + (q + "),\n"@));
        lemma_ends_with(b, q + "),\n"@);
        let u = decode_arms_text(o, f, n);
        lemma_prefix_step(o, b, u);
        if 0 <= k < m {
            let e = f.enum_values@[k];
            lemma_contains_front(a, t, "    "@ + e.name@ + " = 0x"@ + hex(e.value as nat) + ",\n"@);
            lemma_contains_front(
                b,
                u,
                "            0x"@ + hex(e.value as nat) + " => Ok(Self::"@ + e.name@ + "),\n"@,
            );
        }
    }
}

/// The type of an enum holds all its values, and no smaller one does.
pub proof fn lemma_repr(values: Seq<EnumValue>, k: int)
    requires
        0 <= k < values.len(),
    ensures
        repr_text(values) == "u8"@ ==> values[k].value < 0x100,
        repr_text(values) == "u16"@ ==> values[k].value < 0x1_0000,
        repr_text(values) == "u32"@ ==> values[k].value < 0x1_0000_0000,
        values[k].value >= 0x100 ==> repr_text(values) != "u8"@,
        values[k].value >= 0x1_0000 ==> repr_text(values) == "u32"@ || repr_text(values) == "u64"@,
        values[k].value >= 0x1_0000_0000 ==> repr_text(values) == "u64"@,
        (forall|i: int| 0 <= i < values.len() ==> (#[trigger] values[i]).value < 0x100)
            ==> repr_text(values) == "u8"@,
        (forall|i: int| 0 <= i < values.len() ==> (#[trigger] values[i]).value < 0x1_0000)
            ==> repr_text(values) == "u8"@ || repr_text(values) == "u16"@,
        (forall|i: int| 0 <= i < values.len() ==> (#[trigger] values[i]).value < 0x1_0000_0000)
            ==> repr_text(values) != "u64"@,
{
    reveal_strlit("u8");
    reveal_strlit("u16");
    reveal_strlit("u32");
    reveal_strlit("u64");
    assert("u8"@.len() == 2 && "u16"@.len() == 3 && "u32"@.len() == 3 && "u64"@.len() == 3);
    assert("u16"@[1] == '1' && "u32"@[1] == '3' && "u64"@[1] == '6');
    assert(all_at_most(values, 0xff) ==> values[k].value <= 0xff);
    assert(all_at_most(values, 0xffff) ==> values[k].value <= 0xffff);
    assert(all_at_most(values, 0xffff_ffff) ==> values[k].value <= 0xffff_ffff);
}

} // verus!
