//! The types generated for registers with flags or fields.

use super::emit::{doc_text, emit_doc, int_type, int_type_of};
use super::model::{
    bit_count, bits_of, field_mask, field_mask_of, is_width, parse_bits, EnumValue, Field,
    FieldAccess, Register,
};
use super::validate::field_fits;
use crate::letter_case::{pascal, to_pascal, to_upper, uppercase};
use crate::numerals::{dec, decimal, hex, hex_of};
use crate::writer::{put2, put3, put5, put7};
use vstd::prelude::*;

verus! {

// ---------------------------------------------------------------------------
// Flags
// ---------------------------------------------------------------------------

/// `o` and the constants of the first `n` flags.
pub open spec fn flag_consts_text(o: Seq<char>, r: Register, n: nat) -> Seq<char>
    decreases n,
{
    if n == 0 {
        o
    } else {
        let f = r.flags@[n - 1];
        let o = doc_text(flag_consts_text(o, r, (n - 1) as nat), "    /// "@, f.description);
        o + "    pub const "@ + uppercase(f.name@) + ": Self = Self(1 << "@ + decimal(f.bit as nat)
            + ");\n"@
    }
}

/// `o` and the impl of one bit operator.
pub open spec fn bit_op_text(
    o: Seq<char>,
    ty: Seq<char>,
    op_trait: Seq<char>,
    method: Seq<char>,
    op: Seq<char>,
) -> Seq<char> {
    let o = o + "impl core::ops::"@ + op_trait + " for "@ + ty + " {\n"@;
    let o = o + "    type Output = Self;\n"@;
    let o = o + "    fn "@ + method + "(self, rhs: Self) -> Self { Self(self.0 "@ + op
        + " rhs.0) }\n"@;
    o + "}\n"@
}

/// `o` and the type of a register with flags.
#[verifier::opaque]
pub open spec fn flags_newtype_text(o: Seq<char>, r: Register) -> Seq<char> {
    let ty = pascal(r.name@);
    let wty = int_type(r.width);
    let o = o + "// ---------- "@ + ty + " ----------\n"@;
    let o = o + "\n"@;
    let o = o + "/// "@ + ty + " register — typed snapshot.\n"@;
    let o = o + "#[derive(Copy, Clone, Debug, Default, PartialEq, Eq)]\n"@;
    let o = o + "#[repr(transparent)]\n"@;
    let o = o + "pub struct "@ + ty + "(pub "@ + wty + ");\n"@;
    let o = o + "\n"@;
    let o = o + "impl "@ + ty + " {\n"@;
    let o = o + "    /// Empty (no bits set).\n"@;
    let o = o + "    pub const fn empty() -> Self { Self(0) }\n"@;
    let o = o + "    /// Underlying bit pattern.\n"@;
    let o = o + "    pub const fn bits(self) -> "@ + wty + " { self.0 }\n"@;
    let o = o + "    /// True if every bit set in `other` is set in `self`.\n"@;
    let o = o + "    pub const fn contains(self, other: Self) -> bool {\n"@;
    let o = o + "        (self.0 & other.0) == other.0\n"@;
    let o = o + "    }\n"@;
    let o = flag_consts_text(o, r, r.flags@.len());
    let o = o + "}\n"@;
    let o = o + "\n"@;
    let o = bit_op_text(o, ty, "BitOr"@, "bitor"@, "|"@);
    let o = bit_op_text(o, ty, "BitAnd"@, "bitand"@, "&"@);
    let o = o + "impl core::ops::Not for "@ + ty + " {\n"@;
    let o = o + "    type Output = Self;\n"@;
    let o = o + "    fn not(self) -> Self { Self(!self.0) }\n"@;
    let o = o + "}\n"@;
    o + "\n"@
}

fn emit_bit_op(out: &mut String, ty: &str, op_trait: &str, method: &str, op: &str)
    ensures
        final(out)@ == bit_op_text(old(out)@, ty@, op_trait@, method@, op@),
{
    put5(out, "impl core::ops::", op_trait, " for ", ty, " {\n");
    out.append("    type Output = Self;\n");
    put5(out, "    fn ", method, "(self, rhs: Self) -> Self { Self(self.0 ", op, " rhs.0) }\n");
    out.append("}\n");
}

fn emit_flag_consts(out: &mut String, r: &Register)
    ensures
        final(out)@ == flag_consts_text(old(out)@, *r, r.flags@.len()),
{
    let ghost o = out@;
    let mut i: usize = 0;
    while i < r.flags.len()
        invariant
            i <= r.flags@.len(),
            out@ == flag_consts_text(o, *r, i as nat),
        decreases r.flags@.len() - i,
    {
        let f = &r.flags[i];
        emit_doc(out, "    /// ", &f.description);
        let name = to_upper(f.name.as_str());
        let bit = dec(f.bit as u64);
        put5(out, "    pub const ", name.as_str(), ": Self = Self(1 << ", bit.as_str(), ");\n");
        i += 1;
    }
}

/// Writes the type of a register with flags.
pub fn emit_flags_newtype(out: &mut String, r: &Register)
    ensures
        final(out)@ == flags_newtype_text(old(out)@, *r),
{
    reveal(flags_newtype_text);
    let name = to_pascal(r.name.as_str());
    let ty = name.as_str();
    let wide = int_type_of(r.width);
    let wty = wide.as_str();
    put3(out, "// ---------- ", ty, " ----------\n");
    out.append("\n");
    put3(out, "/// ", ty, " register — typed snapshot.\n");
    out.append("#[derive(Copy, Clone, Debug, Default, PartialEq, Eq)]\n");
    out.append("#[repr(transparent)]\n");
    put5(out, "pub struct ", ty, "(pub ", wty, ");\n");
    out.append("\n");
    put3(out, "impl ", ty, " {\n");
    out.append("    /// Empty (no bits set).\n");
    out.append("    pub const fn empty() -> Self { Self(0) }\n");
    out.append("    /// Underlying bit pattern.\n");
    put3(out, "    pub const fn bits(self) -> ", wty, " { self.0 }\n");
    out.append("    /// True if every bit set in `other` is set in `self`.\n");
    out.append("    pub const fn contains(self, other: Self) -> bool {\n");
    out.append("        (self.0 & other.0) == other.0\n");
    out.append("    }\n");
    emit_flag_consts(out, r);
    out.append("}\n");
    out.append("\n");
    emit_bit_op(out, ty, "BitOr", "bitor", "|");
    emit_bit_op(out, ty, "BitAnd", "bitand", "&");
    put3(out, "impl core::ops::Not for ", ty, " {\n");
    out.append("    type Output = Self;\n");
    out.append("    fn not(self) -> Self { Self(!self.0) }\n");
    out.append("}\n");
    out.append("\n");
}

// ---------------------------------------------------------------------------
// Fields
// ---------------------------------------------------------------------------

/// The bits of a field.
pub open spec fn bits(f: Field) -> (u8, u8) {
    bits_of(f.bits@)->0
}

/// Whether the field is read and written as a `bool`.
pub open spec fn is_bool(f: Field) -> bool {
    bit_count(bits(f)) == 1 && f.enum_values@.len() == 0
}

/// The name of a field's mask.
pub open spec fn mask_name(f: Field) -> Seq<char> {
    uppercase(f.name@) + "_MASK"@
}

/// The name of a field's shift.
pub open spec fn shift_name(f: Field) -> Seq<char> {
    uppercase(f.name@) + "_SHIFT"@
}

/// `o` and the accessors of a `bool` field.
pub open spec fn bool_field_text(o: Seq<char>, f: Field) -> Seq<char> {
    let name = f.name@;
    let mask = mask_name(f);
    let o = o + "    /// Read `"@ + name + "` as bool.\n"@;
    let o = o + "    pub const fn "@ + name + "(self) -> bool { (self.0 & Self::"@ + mask
        + ") != 0 }\n"@;
    if f.access is Ro {
        o
    } else {
        let o = o + "    /// Return a new value with `"@ + name + "` set to `v`.\n"@;
        let o = o + "    pub const fn with_"@ + name + "(self, v: bool) -> Self {\n"@;
        let o = o + "        if v { Self(self.0 | Self::"@ + mask
            + ") } else { Self(self.0 & !Self::"@ + mask + ") }\n"@;
        o + "    }\n"@
    }
}

/// `o` and the accessors of a field with named values.
pub open spec fn enum_field_text(o: Seq<char>, r: Register, f: Field) -> Seq<char> {
    let name = f.name@;
    let mask = mask_name(f);
    let shift = shift_name(f);
    let enum_ty = pascal(r.name@) + pascal(name);
    let wty = int_type(r.width);
    let o = o + "    /// Decode the `"@ + name + "` field as `"@ + enum_ty + "`.\n"@;
    let o = o + "    pub const fn "@ + name + "(self) -> Result<"@ + enum_ty
        + ", ReservedBits> {\n"@;
    let o = o + "        "@ + enum_ty + "::from_bits((self.0 & Self::"@ + mask + ") >> Self::"@
        + shift + ")\n"@;
    let o = o + "    }\n"@;
    if f.access is Ro {
        o
    } else {
        let o = o + "    /// Return a new value with `"@ + name + "` set to `v`.\n"@;
        let o = o + "    pub const fn with_"@ + name + "(self, v: "@ + enum_ty + ") -> Self {\n"@;
        let o = o + "        Self((self.0 & !Self::"@ + mask + ") | ((v.into_bits() as "@ + wty
            + ") << Self::"@ + shift + "))\n"@;
        o + "    }\n"@
    }
}

/// `o` and the accessors of a field that holds a number.
pub open spec fn scalar_field_text(o: Seq<char>, r: Register, f: Field) -> Seq<char> {
    let name = f.name@;
    let mask = mask_name(f);
    let shift = shift_name(f);
    let wty = int_type(r.width);
    let o = o + "    /// Read the `"@ + name + "` field as a scalar.\n"@;
    let o = o + "    pub const fn "@ + name + "(self) -> "@ + wty + " { (self.0 & Self::"@ + mask
        + ") >> Self::"@ + shift + " }\n"@;
    if f.access is Ro {
        o
    } else {
        let o = o + "    /// Return a new value with `"@ + name
            + "` set to `v` (truncated to field width).\n"@;
        let o = o + "    pub const fn with_"@ + name + "(self, v: "@ + wty + ") -> Self {\n"@;
        let o = o + "        Self((self.0 & !Self::"@ + mask + ") | ((v << Self::"@ + shift
            + ") & Self::"@ + mask + "))\n"@;
        o + "    }\n"@
    }
}

/// `o` and the constants and accessors of one field.
pub open spec fn field_text(o: Seq<char>, r: Register, f: Field) -> Seq<char> {
    let name = f.name@;
    let hi = decimal(bits(f).0 as nat);
    let lo = decimal(bits(f).1 as nat);
    let o = o + "    /// Mask for the `"@ + name + "` field (bits "@ + hi + ":"@ + lo + ").\n"@;
    let o = o + "    pub const "@ + mask_name(f) + ": "@ + int_type(r.width) + " = 0x"@ + hex(
        field_mask(bits(f), r.width),
    ) + ";\n"@;
    let o = o + "    /// Right-shift to access the `"@ + name + "` field.\n"@;
    let o = o + "    pub const "@ + shift_name(f) + ": u32 = "@ + lo + ";\n"@;
    if is_bool(f) {
        bool_field_text(o, f)
    } else if f.enum_values@.len() > 0 {
        enum_field_text(o, r, f)
    } else {
        scalar_field_text(o, r, f)
    }
}

/// `o` and the accessors of the first `n` fields.
pub open spec fn fields_text(o: Seq<char>, r: Register, n: nat) -> Seq<char>
    decreases n,
{
    if n == 0 {
        o
    } else {
        field_text(fields_text(o, r, (n - 1) as nat), r, r.fields@[n - 1])
    }
}

/// `o` and the enums of the first `n` fields.
pub open spec fn enums_text(o: Seq<char>, r: Register, n: nat) -> Seq<char>
    decreases n,
{
    if n == 0 {
        o
    } else {
        let o = enums_text(o, r, (n - 1) as nat);
        let f = r.fields@[n - 1];
        if f.enum_values@.len() == 0 {
            o
        } else {
            enum_text(o, pascal(r.name@), r.width, f)
        }
    }
}

/// `o` and the type of a register with fields.
#[verifier::opaque]
pub open spec fn fields_newtype_text(o: Seq<char>, r: Register) -> Seq<char> {
    let ty = pascal(r.name@);
    let wty = int_type(r.width);
    let o = o + "// ---------- "@ + ty + " ----------\n"@;
    let o = o + "\n"@;
    let o = o + "/// "@ + ty + " register — typed snapshot with field accessors.\n"@;
    let o = o + "#[derive(Copy, Clone, Debug, Default, PartialEq, Eq)]\n"@;
    let o = o + "#[repr(transparent)]\n"@;
    let o = o + "pub struct "@ + ty + "(pub "@ + wty + ");\n"@;
    let o = o + "\n"@;
    let o = o + "impl "@ + ty + " {\n"@;
    let o = o + "    /// Underlying bit pattern.\n"@;
    let o = o + "    pub const fn bits(self) -> "@ + wty + " { self.0 }\n"@;
    let o = fields_text(o, r, r.fields@.len());
    let o = o + "}\n"@;
    let o = o + "\n"@;
    enums_text(o, r, r.fields@.len())
}

/// A name with an ending.
pub fn with_suffix(name: &str, suffix: &str) -> (out: String)
    ensures
        out@ == name@ + suffix@,
{
    let mut out = crate::text::copy_of(name);
    out.append(suffix);
    out
}

/// Whether the field is set by the hardware.
pub fn is_ro(f: &Field) -> (r: bool)
    ensures
        r == (f.access is Ro),
{
    match f.access {
        FieldAccess::Ro => true,
        FieldAccess::Rw => false,
    }
}

/// The bits of a field that fits its register.
pub fn bits_in(f: &Field, width: u8) -> (r: (u8, u8))
    requires
        field_fits(*f, width),
    ensures
        r == bits(*f),
        r.1 <= r.0 < width,
{
    match parse_bits(f.bits.as_str()) {
        Some(b) => b,
        None => (0, 0),
    }
}

fn emit_bool_field(out: &mut String, f: &Field, mask: &str)
    requires
        mask@ == mask_name(*f),
    ensures
        final(out)@ == bool_field_text(old(out)@, *f),
{
    let name = f.name.as_str();
    put3(out, "    /// Read `", name, "` as bool.\n");
    put5(out, "    pub const fn ", name, "(self) -> bool { (self.0 & Self::", mask, ") != 0 }\n");
    if !is_ro(f) {
        put3(out, "    /// Return a new value with `", name, "` set to `v`.\n");
        put3(out, "    pub const fn with_", name, "(self, v: bool) -> Self {\n");
        put5(
            out,
            "        if v { Self(self.0 | Self::",
            mask,
            ") } else { Self(self.0 & !Self::",
            mask,
            ") }\n",
        );
        out.append("    }\n");
    }
}

fn emit_enum_field(out: &mut String, r: &Register, f: &Field, mask: &str, shift: &str)
    requires
        mask@ == mask_name(*f),
        shift@ == shift_name(*f),
    ensures
        final(out)@ == enum_field_text(old(out)@, *r, *f),
{
    let name = f.name.as_str();
    let ty = to_pascal(r.name.as_str());
    let field_ty = to_pascal(name);
    let joined = with_suffix(ty.as_str(), field_ty.as_str());
    let enum_ty = joined.as_str();
    let wide = int_type_of(r.width);
    let wty = wide.as_str();
    put5(out, "    /// Decode the `", name, "` field as `", enum_ty, "`.\n");
    put5(out, "    pub const fn ", name, "(self) -> Result<", enum_ty, ", ReservedBits> {\n");
    put7(
        out,
        "        ",
        enum_ty,
        "::from_bits((self.0 & Self::",
        mask,
        ") >> Self::",
        shift,
        ")\n",
    );
    out.append("    }\n");
    if !is_ro(f) {
        put3(out, "    /// Return a new value with `", name, "` set to `v`.\n");
        put5(out, "    pub const fn with_", name, "(self, v: ", enum_ty, ") -> Self {\n");
        put7(
            out,
            "        Self((self.0 & !Self::",
            mask,
            ") | ((v.into_bits() as ",
            wty,
            ") << Self::",
            shift,
            "))\n",
        );
        out.append("    }\n");
    }
}

fn emit_scalar_field(out: &mut String, r: &Register, f: &Field, mask: &str, shift: &str)
    requires
        mask@ == mask_name(*f),
        shift@ == shift_name(*f),
    ensures
        final(out)@ == scalar_field_text(old(out)@, *r, *f),
{
    let name = f.name.as_str();
    let wide = int_type_of(r.width);
    let wty = wide.as_str();
    put3(out, "    /// Read the `", name, "` field as a scalar.\n");
    put7(out, "    pub const fn ", name, "(self) -> ", wty, " { (self.0 & Self::", mask, ") >> Self::");
    put2(out, shift, " }\n");
    if !is_ro(f) {
        put3(
            out,
            "    /// Return a new value with `",
            name,
            "` set to `v` (truncated to field width).\n",
        );
        put5(out, "    pub const fn with_", name, "(self, v: ", wty, ") -> Self {\n");
        put7(
            out,
            "        Self((self.0 & !Self::",
            mask,
            ") | ((v << Self::",
            shift,
            ") & Self::",
            mask,
            "))\n",
        );
        out.append("    }\n");
    }
}

fn emit_field(out: &mut String, r: &Register, f: &Field)
    requires
        is_width(r.width),
        field_fits(*f, r.width),
    ensures
        final(out)@ == field_text(old(out)@, *r, *f),
{
    let (hi, lo) = bits_in(f, r.width);
    let mask = field_mask_of((hi, lo), r.width);
    let upper = to_upper(f.name.as_str());
    let mask_const = with_suffix(upper.as_str(), "_MASK");
    let shift_const = with_suffix(upper.as_str(), "_SHIFT");
    let name = f.name.as_str();
    let his = dec(hi as u64);
    let los = dec(lo as u64);
    let wty = int_type_of(r.width);
    let value = hex_of(mask);
    put7(
        out,
        "    /// Mask for the `",
        name,
        "` field (bits ",
        his.as_str(),
        ":",
        los.as_str(),
        ").\n",
    );
    put7(
        out,
        "    pub const ",
        mask_const.as_str(),
        ": ",
        wty.as_str(),
        " = 0x",
        value.as_str(),
        ";\n",
    );
    put3(out, "    /// Right-shift to access the `", name, "` field.\n");
    put5(out, "    pub const ", shift_const.as_str(), ": u32 = ", los.as_str(), ";\n");
    if hi == lo && f.enum_values.len() == 0 {
        emit_bool_field(out, f, mask_const.as_str());
    } else if f.enum_values.len() > 0 {
        emit_enum_field(out, r, f, mask_const.as_str(), shift_const.as_str());
    } else {
        emit_scalar_field(out, r, f, mask_const.as_str(), shift_const.as_str());
    }
}

/// Writes the type of a register with fields.
pub fn emit_fields_newtype(out: &mut String, r: &Register)
    requires
        is_width(r.width),
        forall|k: int| 0 <= k < r.fields@.len() ==> field_fits(#[trigger] r.fields@[k], r.width),
    ensures
        final(out)@ == fields_newtype_text(old(out)@, *r),
{
    reveal(fields_newtype_text);
    let name = to_pascal(r.name.as_str());
    let ty = name.as_str();
    let wide = int_type_of(r.width);
    let wty = wide.as_str();
    put3(out, "// ---------- ", ty, " ----------\n");
    out.append("\n");
    put3(out, "/// ", ty, " register — typed snapshot with field accessors.\n");
    out.append("#[derive(Copy, Clone, Debug, Default, PartialEq, Eq)]\n");
    out.append("#[repr(transparent)]\n");
    put5(out, "pub struct ", ty, "(pub ", wty, ");\n");
    out.append("\n");
    put3(out, "impl ", ty, " {\n");
    out.append("    /// Underlying bit pattern.\n");
    put3(out, "    pub const fn bits(self) -> ", wty, " { self.0 }\n");
    let ghost o = out@;
    let mut i: usize = 0;
    while i < r.fields.len()
        invariant
            is_width(r.width),
            forall|k: int|
                0 <= k < r.fields@.len() ==> field_fits(#[trigger] r.fields@[k], r.width),
            i <= r.fields@.len(),
            out@ == fields_text(o, *r, i as nat),
        decreases r.fields@.len() - i,
    {
        emit_field(out, r, &r.fields[i]);
        i += 1;
    }
    out.append("}\n");
    out.append("\n");
    let ghost o2 = out@;
    let mut j: usize = 0;
    while j < r.fields.len()
        invariant
            ty@ == pascal(r.name@),
            j <= r.fields@.len(),
            out@ == enums_text(o2, *r, j as nat),
        decreases r.fields@.len() - j,
    {
        if r.fields[j].enum_values.len() > 0 {
            emit_enum(out, ty, r.width, &r.fields[j]);
        }
        j += 1;
    }
}

// ---------------------------------------------------------------------------
// Enums
// ---------------------------------------------------------------------------

/// Whether no value exceeds `max`.
pub open spec fn all_at_most(values: Seq<EnumValue>, max: u64) -> bool {
    forall|i: int| 0 <= i < values.len() ==> (#[trigger] values[i]).value <= max
}

/// The smallest integer type that holds every value.
pub open spec fn repr_text(values: Seq<EnumValue>) -> Seq<char> {
    if all_at_most(values, 0xff) {
        "u8"@
    } else if all_at_most(values, 0xffff) {
        "u16"@
    } else if all_at_most(values, 0xffff_ffff) {
        "u32"@
    } else {
        "u64"@
    }
}

/// `o` and the first `n` variants.
pub open spec fn variants_text(o: Seq<char>, f: Field, n: nat) -> Seq<char>
    decreases n,
{
    if n == 0 {
        o
    } else {
        let v = f.enum_values@[n - 1];
        variants_text(o, f, (n - 1) as nat) + "    "@ + v.name@ + " = 0x"@ + hex(v.value as nat)
            + ",\n"@
    }
}

/// `o` and the first `n` arms of the decoder.
pub open spec fn decode_arms_text(o: Seq<char>, f: Field, n: nat) -> Seq<char>
    decreases n,
{
    if n == 0 {
        o
    } else {
        let v = f.enum_values@[n - 1];
        decode_arms_text(o, f, (n - 1) as nat) + "            0x"@ + hex(v.value as nat)
            + " => Ok(Self::"@ + v.name@ + "),\n"@
    }
}

/// `o` and the enum of a field with named values.
pub open spec fn enum_text(o: Seq<char>, reg_ty: Seq<char>, width: u8, f: Field) -> Seq<char> {
    let enum_ty = reg_ty + pascal(f.name@);
    let wty = int_type(width);
    let n = f.enum_values@.len();
    let o = o + "/// Enum for the `"@ + f.name@ + "` field of `"@ + reg_ty + "`.\n"@;
    let o = o + "#[derive(Copy, Clone, Debug, PartialEq, Eq)]\n"@;
    let o = o + "#[repr("@ + repr_text(f.enum_values@) + ")]\n"@;
    let o = o + "pub enum "@ + enum_ty + " {\n"@;
    let o = variants_text(o, f, n);
    let o = o + "}\n"@;
    let o = o + "\n"@;
    let o = o + "impl "@ + enum_ty + " {\n"@;
    let o = o + "    /// Decode from raw bits. Returns `Err(ReservedBits)` if the\n"@;
    let o = o + "    /// pattern is not a defined variant.\n"@;
    let o = o + "    pub const fn from_bits(v: "@ + wty + ") -> Result<Self, ReservedBits> {\n"@;
    let o = o + "        match v {\n"@;
    let o = decode_arms_text(o, f, n);
    let o = o + "            _ => Err(ReservedBits(v as u64)),\n"@;
    let o = o + "        }\n"@;
    let o = o + "    }\n"@;
    let o = o + "    /// Encode to raw bits.\n"@;
    let o = o + "    pub const fn into_bits(self) -> "@ + wty + " { self as "@ + wty + " }\n"@;
    let o = o + "}\n"@;
    o + "\n"@
}

fn at_most(values: &Vec<EnumValue>, max: u64) -> (r: bool)
    ensures
        r == all_at_most(values@, max),
{
    let mut i: usize = 0;
    while i < values.len()
        invariant
            i <= values@.len(),
            forall|k: int| 0 <= k < i ==> (#[trigger] values@[k]).value <= max,
        decreases values@.len() - i,
    {
        if values[i].value > max {
            return false;
        }
        i += 1;
    }
    true
}

/// Writes the enum of a field with named values.
pub fn emit_enum(out: &mut String, reg_ty: &str, width: u8, f: &Field)
    ensures
        final(out)@ == enum_text(old(out)@, reg_ty@, width, *f),
{
    let field_ty = to_pascal(f.name.as_str());
    let joined = with_suffix(reg_ty, field_ty.as_str());
    let enum_ty = joined.as_str();
    let wide = int_type_of(width);
    let wty = wide.as_str();
    let repr = if at_most(&f.enum_values, 0xff) {
        "u8"
    } else if at_most(&f.enum_values, 0xffff) {
        "u16"
    } else if at_most(&f.enum_values, 0xffff_ffff) {
        "u32"
    } else {
        "u64"
    };
    put5(out, "/// Enum for the `", f.name.as_str(), "` field of `", reg_ty, "`.\n");
    out.append("#[derive(Copy, Clone, Debug, PartialEq, Eq)]\n");
    put3(out, "#[repr(", repr, ")]\n");
    put3(out, "pub enum ", enum_ty, " {\n");
    let ghost o = out@;
    let mut i: usize = 0;
    while i < f.enum_values.len()
        invariant
            i <= f.enum_values@.len(),
            out@ == variants_text(o, *f, i as nat),
        decreases f.enum_values@.len() - i,
    {
        let v = &f.enum_values[i];
        let value = hex_of(v.value);
        put5(out, "    ", v.name.as_str(), " = 0x", value.as_str(), ",\n");
        i += 1;
    }
    out.append("}\n");
    out.append("\n");
    put3(out, "impl ", enum_ty, " {\n");
    out.append("    /// Decode from raw bits. Returns `Err(ReservedBits)` if the\n");
    out.append("    /// pattern is not a defined variant.\n");
    put3(out, "    pub const fn from_bits(v: ", wty, ") -> Result<Self, ReservedBits> {\n");
    out.append("        match v {\n");
    let ghost o2 = out@;
    let mut j: usize = 0;
    while j < f.enum_values.len()
        invariant
            j <= f.enum_values@.len(),
            out@ == decode_arms_text(o2, *f, j as nat),
        decreases f.enum_values@.len() - j,
    {
        let v = &f.enum_values[j];
        let value = hex_of(v.value);
        put5(out, "            0x", value.as_str(), " => Ok(Self::", v.name.as_str(), "),\n");
        j += 1;
    }
    out.append("            _ => Err(ReservedBits(v as u64)),\n");
    out.append("        }\n");
    out.append("    }\n");
    out.append("    /// Encode to raw bits.\n");
    put5(out, "    pub const fn into_bits(self) -> ", wty, " { self as ", wty, " }\n");
    out.append("}\n");
    out.append("\n");
}

} // verus!
