//! The tests generated along with a device's accessors.

use super::accessors::{
    big_endian, is_big_endian, is_passwd, pair_access, pair_access_of, passwd, window_bits,
    window_bits_of,
};
use super::emit::{int_type, int_type_of, is_typed};
use super::model::{
    bit_count, field_mask, field_mask_of, find_register, is_width, largest, largest_of,
    register_named, Access, EnumValue, Field, Register, Spec, U64Pair, Windowed, WindowedDirection,
};
use super::newtypes::{bits, bits_in, is_bool, is_ro, with_suffix};
use super::validate::{
    field_fits, is_valid, lemma_valid_field, lemma_valid_pair, lemma_valid_register,
    lemma_valid_window,
};
use crate::letter_case::{pascal, to_pascal, to_upper, uppercase};
use crate::numerals::{dec, decimal, hex, hex_of};
use crate::writer::{put2, put3, put5, put7, put9};
use vstd::prelude::*;

verus! {

/// `o` and the start of a test.
pub open spec fn test_head(o: Seq<char>, name: Seq<char>, ending: Seq<char>) -> Seq<char> {
    o + "    #[test]\n"@ + "    fn "@ + name + ending + "() {\n"@
}

/// `o` and the end of a test.
pub open spec fn test_tail(o: Seq<char>) -> Seq<char> {
    o + "    }\n"@ + "\n"@
}

fn emit_head(out: &mut String, name: &str, ending: &str)
    ensures
        final(out)@ == test_head(old(out)@, name@, ending@),
{
    out.append("    #[test]\n");
    put3(out, "    fn ", name, ending);
    out.append("() {\n");
}

fn emit_tail(out: &mut String)
    ensures
        final(out)@ == test_tail(old(out)@),
{
    put2(out, "    }\n", "\n");
}

/// `o` and the two lines that set up a region of memory for the device.
pub open spec fn region_text(o: Seq<char>, dev: Seq<char>) -> Seq<char> {
    let o = o + "        let region = MockMmioRegion::for_layout::<"@ + dev + ">();\n"@;
    o + "        let regs = region.as_mapped_regs::<"@ + dev + ">();\n"@
}

fn emit_region(out: &mut String, dev: &str)
    ensures
        final(out)@ == region_text(old(out)@, dev@),
{
    put3(out, "        let region = MockMmioRegion::for_layout::<", dev, ">();\n");
    put3(out, "        let regs = region.as_mapped_regs::<", dev, ">();\n");
}

// ---------------------------------------------------------------------------
// Offsets
// ---------------------------------------------------------------------------

/// `o` and the offset checks of the first `n` registers.
pub open spec fn offset_checks_text(o: Seq<char>, spec: Spec, n: nat) -> Seq<char>
    decreases n,
{
    if n == 0 {
        o
    } else {
        let r = spec.registers@[n - 1];
        offset_checks_text(o, spec, (n - 1) as nat) + "        assert_eq!(offset_of!("@
            + spec.device.name@ + ", "@ + r.name@ + "), 0x"@ + hex(r.offset as nat) + ", \""@
            + r.name@ + " offset\");\n"@
    }
}

fn emit_offset_checks(out: &mut String, spec: &Spec)
    ensures
        final(out)@ == offset_checks_text(old(out)@, *spec, spec.registers@.len()),
{
    let dev = spec.device.name.as_str();
    let ghost o = out@;
    let mut i: usize = 0;
    while i < spec.registers.len()
        invariant
            dev@ == spec.device.name@,
            i <= spec.registers@.len(),
            out@ == offset_checks_text(o, *spec, i as nat),
        decreases spec.registers@.len() - i,
    {
        let r = &spec.registers[i];
        let off = hex_of(r.offset);
        put9(
            out,
            "        assert_eq!(offset_of!(",
            dev,
            ", ",
            r.name.as_str(),
            "), 0x",
            off.as_str(),
            ", \"",
            r.name.as_str(),
            " offset\");\n",
        );
        i += 1;
    }
}

// ---------------------------------------------------------------------------
// Flags
// ---------------------------------------------------------------------------

/// `o` and the bit checks of the first `n` flags.
pub open spec fn flag_checks_text(o: Seq<char>, r: Register, n: nat) -> Seq<char>
    decreases n,
{
    if n == 0 {
        o
    } else {
        let f = r.flags@[n - 1];
        flag_checks_text(o, r, (n - 1) as nat) + "        assert_eq!("@ + pascal(r.name@) + "::"@
            + uppercase(f.name@) + ".bits(), 1 << "@ + decimal(f.bit as nat) + ", \""@ + f.name@
            + "\");\n"@
    }
}

/// `o` and the tests of a register with flags.
pub open spec fn flags_tests_text(o: Seq<char>, r: Register) -> Seq<char> {
    let ty = pascal(r.name@);
    let o = test_head(o, r.name@, "_flag_bits"@);
    let o = flag_checks_text(o, r, r.flags@.len());
    let o = test_tail(o);
    let o = test_head(o, r.name@, "_flag_compose"@);
    let o = if r.flags@.len() >= 2 {
        let a = uppercase(r.flags@[0].name@);
        let b = uppercase(r.flags@[1].name@);
        let o = o + "        let v = "@ + ty + "::"@ + a + " | "@ + ty + "::"@ + b + ";\n"@;
        let o = o + "        assert!(v.contains("@ + ty + "::"@ + a + "));\n"@;
        let o = o + "        assert!(v.contains("@ + ty + "::"@ + b + "));\n"@;
        o + "        assert!(!"@ + ty + "::"@ + a + ".contains("@ + ty + "::"@ + b + "));\n"@
    } else {
        let o = o + "        // Only one flag declared; compose test trivial.\n"@;
        let o = o + "        let v = "@ + ty + "::empty();\n"@;
        o + "        assert_eq!(v.bits(), 0);\n"@
    };
    test_tail(o)
}

/// `o` and the tests of the registers with flags among the first `n`.
pub open spec fn all_flags_tests_text(o: Seq<char>, regs: Seq<Register>, n: nat) -> Seq<char>
    decreases n,
{
    if n == 0 {
        o
    } else {
        let o = all_flags_tests_text(o, regs, (n - 1) as nat);
        if regs[n - 1].flags@.len() == 0 {
            o
        } else {
            flags_tests_text(o, regs[n - 1])
        }
    }
}

fn emit_flags_tests(out: &mut String, r: &Register)
    ensures
        final(out)@ == flags_tests_text(old(out)@, *r),
{
    let name = to_pascal(r.name.as_str());
    let ty = name.as_str();
    emit_head(out, r.name.as_str(), "_flag_bits");
    let ghost o = out@;
    let mut i: usize = 0;
    while i < r.flags.len()
        invariant
            ty@ == pascal(r.name@),
            i <= r.flags@.len(),
            out@ == flag_checks_text(o, *r, i as nat),
        decreases r.flags@.len() - i,
    {
        let f = &r.flags[i];
        let upper = to_upper(f.name.as_str());
        let bit = dec(f.bit as u64);
        put9(
            out,
            "        assert_eq!(",
            ty,
            "::",
            upper.as_str(),
            ".bits(), 1 << ",
            bit.as_str(),
            ", \"",
            f.name.as_str(),
            "\");\n",
        );
        i += 1;
    }
    emit_tail(out);
    emit_head(out, r.name.as_str(), "_flag_compose");
    if r.flags.len() >= 2 {
        let first = to_upper(r.flags[0].name.as_str());
        let second = to_upper(r.flags[1].name.as_str());
        let a = first.as_str();
        let b = second.as_str();
        put9(out, "        let v = ", ty, "::", a, " | ", ty, "::", b, ";\n");
        put5(out, "        assert!(v.contains(", ty, "::", a, "));\n");
        put5(out, "        assert!(v.contains(", ty, "::", b, "));\n");
        put9(out, "        assert!(!", ty, "::", a, ".contains(", ty, "::", b, "));\n");
    } else {
        out.append("        // Only one flag declared; compose test trivial.\n");
        put3(out, "        let v = ", ty, "::empty();\n");
        out.append("        assert_eq!(v.bits(), 0);\n");
    }
    emit_tail(out);
}

fn emit_all_flags_tests(out: &mut String, regs: &Vec<Register>)
    ensures
        final(out)@ == all_flags_tests_text(old(out)@, regs@, regs@.len()),
{
    let ghost o = out@;
    let mut i: usize = 0;
    while i < regs.len()
        invariant
            i <= regs@.len(),
            out@ == all_flags_tests_text(o, regs@, i as nat),
        decreases regs@.len() - i,
    {
        if regs[i].flags.len() > 0 {
            emit_flags_tests(out, &regs[i]);
        }
        i += 1;
    }
}

// ---------------------------------------------------------------------------
// Fields: set and read back
// ---------------------------------------------------------------------------

/// The type of a field with named values.
pub open spec fn enum_type(r: Register, f: Field) -> Seq<char> {
    pascal(r.name@) + pascal(f.name@)
}

fn enum_type_of(r: &Register, f: &Field) -> (out: String)
    ensures
        out@ == enum_type(*r, *f),
{
    let ty = to_pascal(r.name.as_str());
    let field_ty = to_pascal(f.name.as_str());
    with_suffix(ty.as_str(), field_ty.as_str())
}

/// `o` and the round trips of the first `n` named values.
pub open spec fn enum_trips_text(o: Seq<char>, r: Register, f: Field, n: nat) -> Seq<char>
    decreases n,
{
    if n == 0 {
        o
    } else {
        let v = f.enum_values@[n - 1].name@;
        let e = enum_type(r, f);
        enum_trips_text(o, r, f, (n - 1) as nat) + "        assert_eq!("@ + pascal(r.name@)
            + "::default().with_"@ + f.name@ + "("@ + e + "::"@ + v + ")."@ + f.name@
            + "().unwrap(), "@ + e + "::"@ + v + ");\n"@
    }
}

/// The largest number that a field holds.
pub open spec fn field_max(r: Register, f: Field) -> nat {
    if bit_count(bits(f)) >= r.width {
        largest(r.width as int)
    } else {
        largest(bit_count(bits(f)))
    }
}

/// `o` and the round trip of one field.
pub open spec fn trip_text(o: Seq<char>, r: Register, f: Field) -> Seq<char> {
    let ty = pascal(r.name@);
    let name = f.name@;
    if f.access is Ro {
        o + "        // RO field `"@ + name + "` — see "@ + r.name@ + "_ro_field_read\n"@
    } else if is_bool(f) {
        let o = o + "        // bool field `"@ + name + "`\n"@;
        let o = o + "        let on = "@ + ty + "::default().with_"@ + name + "(true);\n"@;
        let o = o + "        assert!(on."@ + name + "());\n"@;
        let o = o + "        let off = on.with_"@ + name + "(false);\n"@;
        o + "        assert!(!off."@ + name + "());\n"@
    } else if f.enum_values@.len() > 0 {
        let o = o + "        // enum field `"@ + name + "`\n"@;
        enum_trips_text(o, r, f, f.enum_values@.len())
    } else {
        let o = o + "        // scalar field `"@ + name + "`\n"@;
        let o = o + "        for v in [0 as "@ + int_type(r.width) + ", 1, 0x"@ + hex(
            field_max(r, f),
        ) + "] {\n"@;
        let o = o + "            assert_eq!("@ + ty + "::default().with_"@ + name + "(v)."@ + name
            + "(), v);\n"@;
        o + "        }\n"@
    }
}

/// `o` and the round trips of the first `n` fields.
pub open spec fn trips_text(o: Seq<char>, r: Register, n: nat) -> Seq<char>
    decreases n,
{
    if n == 0 {
        o
    } else {
        trip_text(trips_text(o, r, (n - 1) as nat), r, r.fields@[n - 1])
    }
}

fn emit_trip(out: &mut String, r: &Register, f: &Field)
    requires
        is_width(r.width),
        field_fits(*f, r.width),
    ensures
        final(out)@ == trip_text(old(out)@, *r, *f),
{
    let reg_ty = to_pascal(r.name.as_str());
    let ty = reg_ty.as_str();
    let name = f.name.as_str();
    let (hi, lo) = bits_in(f, r.width);
    if is_ro(f) {
        put5(
            out,
            "        // RO field `",
            name,
            "` — see ",
            r.name.as_str(),
            "_ro_field_read\n",
        );
    } else if hi == lo && f.enum_values.len() == 0 {
        put3(out, "        // bool field `", name, "`\n");
        put5(out, "        let on = ", ty, "::default().with_", name, "(true);\n");
        put3(out, "        assert!(on.", name, "());\n");
        put3(out, "        let off = on.with_", name, "(false);\n");
        put3(out, "        assert!(!off.", name, "());\n");
    } else if f.enum_values.len() > 0 {
        put3(out, "        // enum field `", name, "`\n");
        let enum_name = enum_type_of(r, f);
        let e = enum_name.as_str();
        let ghost o = out@;
        let mut i: usize = 0;
        while i < f.enum_values.len()
            invariant
                ty@ == pascal(r.name@),
                name@ == f.name@,
                e@ == enum_type(*r, *f),
                i <= f.enum_values@.len(),
                out@ == enum_trips_text(o, *r, *f, i as nat),
            decreases f.enum_values@.len() - i,
        {
            let v = f.enum_values[i].name.as_str();
            put9(
                out,
                "        assert_eq!(",
                ty,
                "::default().with_",
                name,
                "(",
                e,
                "::",
                v,
                ").",
            );
            put5(out, name, "().unwrap(), ", e, "::", v);
            out.append(");\n");
            i += 1;
        }
    } else {
        put3(out, "        // scalar field `", name, "`\n");
        let max = if hi - lo + 1 >= r.width {
            largest_of(r.width)
        } else {
            largest_of(hi - lo + 1)
        };
        let wty = int_type_of(r.width);
        let max_hex = hex_of(max);
        put5(
            out,
            "        for v in [0 as ",
            wty.as_str(),
            ", 1, 0x",
            max_hex.as_str(),
            "] {\n",
        );
        put7(
            out,
            "            assert_eq!(",
            ty,
            "::default().with_",
            name,
            "(v).",
            name,
            "(), v);\n",
        );
        out.append("        }\n");
    }
}

// ---------------------------------------------------------------------------
// Fields: the other bits stay
// ---------------------------------------------------------------------------

/// `o` and the check that setting one field leaves the other bits.
pub open spec fn keeps_text(o: Seq<char>, r: Register, f: Field) -> Seq<char> {
    let ty = pascal(r.name@);
    let name = f.name@;
    let mask = ty + "::"@ + uppercase(name) + "_MASK"@;
    if f.access is Ro {
        o
    } else {
        let o = if is_bool(f) {
            let o = o + "        // toggle bool `"@ + name
                + "` without disturbing other bits\n"@;
            o + "        let v = "@ + ty + "(all_ones).with_"@ + name + "(false);\n"@
        } else if f.enum_values@.len() > 0 {
            let o = o + "        // set enum `"@ + name + "` to a known variant\n"@;
            o + "        let v = "@ + ty + "(all_ones).with_"@ + name + "("@ + enum_type(r, f)
                + "::"@ + f.enum_values@[0].name@ + ");\n"@
        } else {
            let o = o + "        // set scalar `"@ + name + "` to 0\n"@;
            o + "        let v = "@ + ty + "(all_ones).with_"@ + name + "(0);\n"@
        };
        o + "        assert_eq!(v.0 & !"@ + mask + ", all_ones & !"@ + mask + ");\n"@
    }
}

/// `o` and these checks for the first `n` fields.
pub open spec fn all_keeps_text(o: Seq<char>, r: Register, n: nat) -> Seq<char>
    decreases n,
{
    if n == 0 {
        o
    } else {
        keeps_text(all_keeps_text(o, r, (n - 1) as nat), r, r.fields@[n - 1])
    }
}

fn emit_keeps(out: &mut String, r: &Register, f: &Field)
    requires
        field_fits(*f, r.width),
    ensures
        final(out)@ == keeps_text(old(out)@, *r, *f),
{
    if is_ro(f) {
        return;
    }
    let reg_ty = to_pascal(r.name.as_str());
    let ty = reg_ty.as_str();
    let name = f.name.as_str();
    let (hi, lo) = bits_in(f, r.width);
    let upper = to_upper(name);
    let mut mask_path = crate::text::copy_of(ty);
    put3(&mut mask_path, "::", upper.as_str(), "_MASK");
    let mask = mask_path.as_str();
    if hi == lo && f.enum_values.len() == 0 {
        put3(out, "        // toggle bool `", name, "` without disturbing other bits\n");
        put5(out, "        let v = ", ty, "(all_ones).with_", name, "(false);\n");
    } else if f.enum_values.len() > 0 {
        put3(out, "        // set enum `", name, "` to a known variant\n");
        let e = enum_type_of(r, f);
        put9(
            out,
            "        let v = ",
            ty,
            "(all_ones).with_",
            name,
            "(",
            e.as_str(),
            "::",
            f.enum_values[0].name.as_str(),
            ");\n",
        );
    } else {
        put3(out, "        // set scalar `", name, "` to 0\n");
        put5(out, "        let v = ", ty, "(all_ones).with_", name, "(0);\n");
    }
    put5(out, "        assert_eq!(v.0 & !", mask, ", all_ones & !", mask, ");\n");
}

// ---------------------------------------------------------------------------
// Fields: read-only ones
// ---------------------------------------------------------------------------

/// `o` and the read of one read-only field.
pub open spec fn ro_read_text(o: Seq<char>, r: Register, f: Field) -> Seq<char> {
    let ty = pascal(r.name@);
    let wty = int_type(r.width);
    let name = f.name@;
    let hi = decimal(bits(f).0 as nat);
    let lo = decimal(bits(f).1 as nat);
    let mask = hex(field_mask(bits(f), r.width));
    if !(f.access is Ro) {
        o
    } else if is_bool(f) {
        let o = o + "        // RO bool `"@ + name + "` — bit "@ + lo
            + " reads as the field state\n"@;
        let o = o + "        assert!("@ + ty + "(0x"@ + mask + wty + ")."@ + name + "());\n"@;
        o + "        assert!(!"@ + ty + "(!0x"@ + mask + wty + ")."@ + name + "());\n"@
    } else if f.enum_values@.len() > 0 {
        let first = f.enum_values@[0];
        let placed = hex((first.value << (bits(f).1 as u64)) as nat);
        let o = o + "        // RO enum `"@ + name + "` — decode a known variant placed at bits "@
            + hi + ":"@ + lo + "\n"@;
        o + "        assert_eq!("@ + ty + "(0x"@ + placed + wty + ")."@ + name + "().unwrap(), "@
            + enum_type(r, f) + "::"@ + first.name@ + ");\n"@
    } else {
        let o = o + "        // RO scalar `"@ + name + "` — read extracts bits "@ + hi + ":"@ + lo
            + "\n"@;
        o + "        assert_eq!("@ + ty + "(0x"@ + mask + wty + ")."@ + name + "(), 0x"@ + hex(
            largest(bit_count(bits(f))),
        ) + wty + ");\n"@
    }
}

/// `o` and the reads of the read-only fields among the first `n`.
pub open spec fn ro_reads_text(o: Seq<char>, r: Register, n: nat) -> Seq<char>
    decreases n,
{
    if n == 0 {
        o
    } else {
        ro_read_text(ro_reads_text(o, r, (n - 1) as nat), r, r.fields@[n - 1])
    }
}

/// Whether a field of the register is read-only.
pub open spec fn has_ro(r: Register) -> bool {
    exists|i: int| 0 <= i < r.fields@.len() && (#[trigger] r.fields@[i]).access is Ro
}

fn any_ro(r: &Register) -> (b: bool)
    ensures
        b == has_ro(*r),
{
    let mut i: usize = 0;
    while i < r.fields.len()
        invariant
            i <= r.fields@.len(),
            forall|k: int| 0 <= k < i ==> !((#[trigger] r.fields@[k]).access is Ro),
        decreases r.fields@.len() - i,
    {
        if is_ro(&r.fields[i]) {
            assert(r.fields@[i as int].access is Ro);
            return true;
        }
        i += 1;
    }
    false
}

fn emit_ro_read(out: &mut String, r: &Register, f: &Field)
    requires
        is_width(r.width),
        field_fits(*f, r.width),
    ensures
        final(out)@ == ro_read_text(old(out)@, *r, *f),
{
    if !is_ro(f) {
        return;
    }
    let reg_ty = to_pascal(r.name.as_str());
    let ty = reg_ty.as_str();
    let wide = int_type_of(r.width);
    let wty = wide.as_str();
    let name = f.name.as_str();
    let (hi, lo) = bits_in(f, r.width);
    let his = dec(hi as u64);
    let los = dec(lo as u64);
    let mask_hex = hex_of(field_mask_of((hi, lo), r.width));
    let mask = mask_hex.as_str();
    if hi == lo && f.enum_values.len() == 0 {
        put5(
            out,
            "        // RO bool `",
            name,
            "` — bit ",
            los.as_str(),
            " reads as the field state\n",
        );
        put7(out, "        assert!(", ty, "(0x", mask, wty, ").", name);
        out.append("());\n");
        put7(out, "        assert!(!", ty, "(!0x", mask, wty, ").", name);
        out.append("());\n");
    } else if f.enum_values.len() > 0 {
        let first = &f.enum_values[0];
        let placed = hex_of(first.value << (lo as u64));
        let e = enum_type_of(r, f);
        put7(
            out,
            "        // RO enum `",
            name,
            "` — decode a known variant placed at bits ",
            his.as_str(),
            ":",
            los.as_str(),
            "\n",
        );
        put7(out, "        assert_eq!(", ty, "(0x", placed.as_str(), wty, ").", name);
        put5(out, "().unwrap(), ", e.as_str(), "::", first.name.as_str(), ");\n");
    } else {
        let extracted = hex_of(largest_of(hi - lo + 1));
        put7(
            out,
            "        // RO scalar `",
            name,
            "` — read extracts bits ",
            his.as_str(),
            ":",
            los.as_str(),
            "\n",
        );
        put7(out, "        assert_eq!(", ty, "(0x", mask, wty, ").", name);
        put3(out, "(), 0x", extracted.as_str(), wty);
        out.append(");\n");
    }
}

// ---------------------------------------------------------------------------
// Fields: named values
// ---------------------------------------------------------------------------

/// Whether one of the values is `v`.
pub open spec fn is_named(values: Seq<EnumValue>, v: int) -> bool {
    exists|i: int| 0 <= i < values.len() && (#[trigger] values[i]).value == v
}

/// The least number from `v` up to `max` that has no name.
pub open spec fn least_unnamed(values: Seq<EnumValue>, v: int, max: int) -> Option<int>
    decreases max - v + 1,
{
    if v > max {
        None
    } else if !is_named(values, v) {
        Some(v)
    } else {
        least_unnamed(values, v + 1, max)
    }
}

fn named(values: &Vec<EnumValue>, v: u64) -> (b: bool)
    ensures
        b == is_named(values@, v as int),
{
    let mut i: usize = 0;
    while i < values.len()
        invariant
            i <= values@.len(),
            forall|k: int| 0 <= k < i ==> (#[trigger] values@[k]).value != v,
        decreases values@.len() - i,
    {
        if values[i].value == v {
            assert(values@[i as int].value == v);
            return true;
        }
        i += 1;
    }
    false
}

fn find_unnamed(values: &Vec<EnumValue>, max: u64) -> (r: Option<u64>)
    ensures
        match r {
            Some(v) => least_unnamed(values@, 0, max as int) == Some(v as int),
            None => least_unnamed(values@, 0, max as int) is None,
        },
{
    let mut v: u64 = 0;
    while v < max
        invariant
            v <= max,
            least_unnamed(values@, 0, max as int) == least_unnamed(values@, v as int, max as int),
        decreases max - v,
    {
        if !named(values, v) {
            return Some(v);
        }
        v += 1;
    }
    if !named(values, v) {
        return Some(v);
    }
    assert(least_unnamed(values@, v + 1, max as int) is None);
    None
}

/// `o` and the decodes of the first `n` named values.
pub open spec fn decodes_text(o: Seq<char>, r: Register, f: Field, n: nat) -> Seq<char>
    decreases n,
{
    if n == 0 {
        o
    } else {
        let v = f.enum_values@[n - 1];
        let e = enum_type(r, f);
        decodes_text(o, r, f, (n - 1) as nat) + "        assert_eq!("@ + e + "::from_bits(0x"@
            + hex(v.value as nat) + "), Ok("@ + e + "::"@ + v.name@ + "));\n"@
    }
}

/// `o` and the decode test of a field with named values.
pub open spec fn decode_test_text(o: Seq<char>, r: Register, f: Field) -> Seq<char> {
    let e = enum_type(r, f);
    let o = o + "    #[test]\n"@;
    let o = o + "    fn "@ + r.name@ + "_"@ + f.name@ + "_enum_decode() {\n"@;
    let o = decodes_text(o, r, f, f.enum_values@.len());
    let o = match least_unnamed(f.enum_values@, 0, largest(bit_count(bits(f))) as int) {
        Some(v) => {
            let x = hex(v as nat);
            o + "        assert_eq!("@ + e + "::from_bits(0x"@ + x + "), Err(ReservedBits(0x"@ + x
                + ")));\n"@
        },
        None => o,
    };
    test_tail(o)
}

/// `o` and the decode tests of the first `n` fields.
pub open spec fn decode_tests_text(o: Seq<char>, r: Register, n: nat) -> Seq<char>
    decreases n,
{
    if n == 0 {
        o
    } else {
        let o = decode_tests_text(o, r, (n - 1) as nat);
        if r.fields@[n - 1].enum_values@.len() == 0 {
            o
        } else {
            decode_test_text(o, r, r.fields@[n - 1])
        }
    }
}

fn emit_decode_test(out: &mut String, r: &Register, f: &Field)
    requires
        is_width(r.width),
        field_fits(*f, r.width),
    ensures
        final(out)@ == decode_test_text(old(out)@, *r, *f),
{
    let enum_name = enum_type_of(r, f);
    let e = enum_name.as_str();
    out.append("    #[test]\n");
    put5(out, "    fn ", r.name.as_str(), "_", f.name.as_str(), "_enum_decode() {\n");
    let ghost o = out@;
    let mut i: usize = 0;
    while i < f.enum_values.len()
        invariant
            e@ == enum_type(*r, *f),
            i <= f.enum_values@.len(),
            out@ == decodes_text(o, *r, *f, i as nat),
        decreases f.enum_values@.len() - i,
    {
        let v = &f.enum_values[i];
        let value = hex_of(v.value);
        put9(
            out,
            "        assert_eq!(",
            e,
            "::from_bits(0x",
            value.as_str(),
            "), Ok(",
            e,
            "::",
            v.name.as_str(),
            "));\n",
        );
        i += 1;
    }
    let (hi, lo) = bits_in(f, r.width);
    let max = largest_of(hi - lo + 1);
    match find_unnamed(&f.enum_values, max) {
        Some(v) => {
            let x = hex_of(v);
            put7(
                out,
                "        assert_eq!(",
                e,
                "::from_bits(0x",
                x.as_str(),
                "), Err(ReservedBits(0x",
                x.as_str(),
                ")));\n",
            );
        },
        None => {},
    }
    emit_tail(out);
}

/// `o` and the tests of a register with fields.
pub open spec fn fields_tests_text(o: Seq<char>, r: Register) -> Seq<char> {
    let n = r.fields@.len();
    let o = test_head(o, r.name@, "_field_roundtrip"@);
    let o = trips_text(o, r, n);
    let o = test_tail(o);
    let o = test_head(o, r.name@, "_preserves_reserved_bits"@);
    let o = o + "        let all_ones: "@ + int_type(r.width) + " = !0;\n"@;
    let o = all_keeps_text(o, r, n);
    let o = test_tail(o);
    let o = if has_ro(r) {
        test_tail(ro_reads_text(test_head(o, r.name@, "_ro_field_read"@), r, n))
    } else {
        o
    };
    decode_tests_text(o, r, n)
}

/// `o` and the tests of the registers with fields among the first `n`.
pub open spec fn all_fields_tests_text(o: Seq<char>, regs: Seq<Register>, n: nat) -> Seq<char>
    decreases n,
{
    if n == 0 {
        o
    } else {
        let o = all_fields_tests_text(o, regs, (n - 1) as nat);
        if regs[n - 1].fields@.len() == 0 {
            o
        } else {
            fields_tests_text(o, regs[n - 1])
        }
    }
}

fn emit_trips(out: &mut String, r: &Register)
    requires
        is_width(r.width),
        forall|k: int| 0 <= k < r.fields@.len() ==> field_fits(#[trigger] r.fields@[k], r.width),
    ensures
        final(out)@ == trips_text(old(out)@, *r, r.fields@.len()),
{
    let ghost o = out@;
    let mut i: usize = 0;
    while i < r.fields.len()
        invariant
            is_width(r.width),
            forall|k: int|
                0 <= k < r.fields@.len() ==> field_fits(#[trigger] r.fields@[k], r.width),
            i <= r.fields@.len(),
            out@ == trips_text(o, *r, i as nat),
        decreases r.fields@.len() - i,
    {
        emit_trip(out, r, &r.fields[i]);
        i += 1;
    }
}

fn emit_all_keeps(out: &mut String, r: &Register)
    requires
        forall|k: int| 0 <= k < r.fields@.len() ==> field_fits(#[trigger] r.fields@[k], r.width),
    ensures
        final(out)@ == all_keeps_text(old(out)@, *r, r.fields@.len()),
{
    let ghost o = out@;
    let mut i: usize = 0;
    while i < r.fields.len()
        invariant
            forall|k: int|
                0 <= k < r.fields@.len() ==> field_fits(#[trigger] r.fields@[k], r.width),
            i <= r.fields@.len(),
            out@ == all_keeps_text(o, *r, i as nat),
        decreases r.fields@.len() - i,
    {
        emit_keeps(out, r, &r.fields[i]);
        i += 1;
    }
}

fn emit_ro_reads(out: &mut String, r: &Register)
    requires
        is_width(r.width),
        forall|k: int| 0 <= k < r.fields@.len() ==> field_fits(#[trigger] r.fields@[k], r.width),
    ensures
        final(out)@ == ro_reads_text(old(out)@, *r, r.fields@.len()),
{
    let ghost o = out@;
    let mut i: usize = 0;
    while i < r.fields.len()
        invariant
            is_width(r.width),
            forall|k: int|
                0 <= k < r.fields@.len() ==> field_fits(#[trigger] r.fields@[k], r.width),
            i <= r.fields@.len(),
            out@ == ro_reads_text(o, *r, i as nat),
        decreases r.fields@.len() - i,
    {
        emit_ro_read(out, r, &r.fields[i]);
        i += 1;
    }
}

fn emit_decode_tests(out: &mut String, r: &Register)
    requires
        is_width(r.width),
        forall|k: int| 0 <= k < r.fields@.len() ==> field_fits(#[trigger] r.fields@[k], r.width),
    ensures
        final(out)@ == decode_tests_text(old(out)@, *r, r.fields@.len()),
{
    let ghost o = out@;
    let mut i: usize = 0;
    while i < r.fields.len()
        invariant
            is_width(r.width),
            forall|k: int|
                0 <= k < r.fields@.len() ==> field_fits(#[trigger] r.fields@[k], r.width),
            i <= r.fields@.len(),
            out@ == decode_tests_text(o, *r, i as nat),
        decreases r.fields@.len() - i,
    {
        if r.fields[i].enum_values.len() > 0 {
            emit_decode_test(out, r, &r.fields[i]);
        }
        i += 1;
    }
}

fn emit_fields_tests(out: &mut String, r: &Register)
    requires
        is_width(r.width),
        forall|k: int| 0 <= k < r.fields@.len() ==> field_fits(#[trigger] r.fields@[k], r.width),
    ensures
        final(out)@ == fields_tests_text(old(out)@, *r),
{
    let name = r.name.as_str();
    emit_head(out, name, "_field_roundtrip");
    emit_trips(out, r);
    emit_tail(out);
    emit_head(out, name, "_preserves_reserved_bits");
    let wty = int_type_of(r.width);
    put3(out, "        let all_ones: ", wty.as_str(), " = !0;\n");
    emit_all_keeps(out, r);
    emit_tail(out);
    if any_ro(r) {
        emit_head(out, name, "_ro_field_read");
        emit_ro_reads(out, r);
        emit_tail(out);
    }
    emit_decode_tests(out, r);
}

fn emit_all_fields_tests(out: &mut String, spec: &Spec)
    requires
        is_valid(*spec),
    ensures
        final(out)@ == all_fields_tests_text(old(out)@, spec.registers@, spec.registers@.len()),
{
    let ghost o = out@;
    let mut i: usize = 0;
    while i < spec.registers.len()
        invariant
            is_valid(*spec),
            i <= spec.registers@.len(),
            out@ == all_fields_tests_text(o, spec.registers@, i as nat),
        decreases spec.registers@.len() - i,
    {
        let r = &spec.registers[i];
        if r.fields.len() > 0 {
            proof {
                lemma_valid_register(*spec, i as int);
                assert forall|k: int| 0 <= k < r.fields@.len() implies field_fits(
                    #[trigger] r.fields@[k],
                    r.width,
                ) by {
                    lemma_valid_field(*spec, i as int, k);
                }
            }
            emit_fields_tests(out, r);
        }
        i += 1;
    }
}

// ---------------------------------------------------------------------------
// Pairs
// ---------------------------------------------------------------------------

/// The offset of the register named `name`.
pub open spec fn offset_named(regs: Seq<Register>, name: Seq<char>) -> nat {
    regs[register_named(regs, name)].offset as nat
}

/// `o` and the test of one pair.
pub open spec fn pair_test_text(o: Seq<char>, spec: Spec, pair: U64Pair) -> Seq<char> {
    let access = pair_access(spec.registers@, pair);
    let low = hex(offset_named(spec.registers@, pair.low@));
    let high = hex(offset_named(spec.registers@, pair.high@));
    let o = test_head(o, pair.name@, "_pair_roundtrip"@);
    let o = region_text(o, spec.device.name@);
    let o = o + "        let dev_ref = regs.regs();\n"@;
    let o = if access is Ro || access is Rw {
        let o = o + "        region.poke_u32(0x"@ + low + ", 0x1122_3344);\n"@;
        let o = o + "        region.poke_u32(0x"@ + high + ", 0xAABB_CCDD);\n"@;
        let o = o + "        let composed = dev_ref.read_"@ + pair.name@ + "();\n"@;
        let o = o + "        let manual = dev_ref.read_"@ + pair.low@
            + "() as u64 | ((dev_ref.read_"@ + pair.high@ + "() as u64) << 32);\n"@;
        let o = o + "        assert_eq!(composed, manual);\n"@;
        o + "        assert_eq!(composed, 0xAABB_CCDD_1122_3344);\n"@
    } else {
        o
    };
    let o = if access is Wo || access is Rw {
        let o = o + "        dev_ref.write_"@ + pair.name@ + "(0xDEAD_BEEF_CAFE_BABE);\n"@;
        let o = o + "        assert_eq!(region.peek_u32(0x"@ + low + "), 0xCAFE_BABE);\n"@;
        o + "        assert_eq!(region.peek_u32(0x"@ + high + "), 0xDEAD_BEEF);\n"@
    } else {
        o
    };
    test_tail(o)
}

/// `o` and the tests of the first `n` pairs.
pub open spec fn pair_tests_text(o: Seq<char>, spec: Spec, n: nat) -> Seq<char>
    decreases n,
{
    if n == 0 {
        o
    } else {
        pair_test_text(pair_tests_text(o, spec, (n - 1) as nat), spec, spec.u64_pairs@[n - 1])
    }
}

fn offset_of_register(regs: &Vec<Register>, name: &str) -> (off: u64)
    requires
        super::model::has_register(regs@, name@),
    ensures
        off == offset_named(regs@, name@),
{
    match find_register(regs, name) {
        Some(i) => regs[i].offset,
        None => 0,
    }
}

fn emit_pair_test(out: &mut String, spec: &Spec, k: usize)
    requires
        is_valid(*spec),
        k < spec.u64_pairs@.len(),
    ensures
        final(out)@ == pair_test_text(old(out)@, *spec, spec.u64_pairs@[k as int]),
{
    proof {
        lemma_valid_pair(*spec, k as int);
    }
    let pair = &spec.u64_pairs[k];
    let access = pair_access_of(spec, k);
    let low = hex_of(offset_of_register(&spec.registers, pair.low.as_str()));
    let high = hex_of(offset_of_register(&spec.registers, pair.high.as_str()));
    let (readable, writable) = match access {
        Access::Ro => (true, false),
        Access::Rw => (true, true),
        Access::Wo => (false, true),
        _ => (false, false),
    };
    emit_head(out, pair.name.as_str(), "_pair_roundtrip");
    emit_region(out, spec.device.name.as_str());
    out.append("        let dev_ref = regs.regs();\n");
    if readable {
        put3(out, "        region.poke_u32(0x", low.as_str(), ", 0x1122_3344);\n");
        put3(out, "        region.poke_u32(0x", high.as_str(), ", 0xAABB_CCDD);\n");
        put3(out, "        let composed = dev_ref.read_", pair.name.as_str(), "();\n");
        put5(
            out,
            "        let manual = dev_ref.read_",
            pair.low.as_str(),
            "() as u64 | ((dev_ref.read_",
            pair.high.as_str(),
            "() as u64) << 32);\n",
        );
        out.append("        assert_eq!(composed, manual);\n");
        out.append("        assert_eq!(composed, 0xAABB_CCDD_1122_3344);\n");
    }
    if writable {
        put3(out, "        dev_ref.write_", pair.name.as_str(), "(0xDEAD_BEEF_CAFE_BABE);\n");
        put3(out, "        assert_eq!(region.peek_u32(0x", low.as_str(), "), 0xCAFE_BABE);\n");
        put3(out, "        assert_eq!(region.peek_u32(0x", high.as_str(), "), 0xDEAD_BEEF);\n");
    }
    emit_tail(out);
}

fn emit_pair_tests(out: &mut String, spec: &Spec)
    requires
        is_valid(*spec),
    ensures
        final(out)@ == pair_tests_text(old(out)@, *spec, spec.u64_pairs@.len()),
{
    let ghost o = out@;
    let mut i: usize = 0;
    while i < spec.u64_pairs.len()
        invariant
            is_valid(*spec),
            i <= spec.u64_pairs@.len(),
            out@ == pair_tests_text(o, *spec, i as nat),
        decreases spec.u64_pairs@.len() - i,
    {
        emit_pair_test(out, spec, i);
        i += 1;
    }
}

// ---------------------------------------------------------------------------
// Windows
// ---------------------------------------------------------------------------

/// `o` and the check that the selector ended at the last chunk.
pub open spec fn last_chunk_text(o: Seq<char>, spec: Spec, win: Windowed) -> Seq<char> {
    let o = o
        + "        // Selector ended at chunk_count - 1 (proves helper walked all chunks).\n"@;
    o + "        assert_eq!(region.peek_u32(0x"@ + hex(
        offset_named(spec.registers@, win.selector@),
    ) + "), "@ + decimal((win.chunk_count - 1) as nat) + ");\n"@
}

/// `o` and the test of one window that is read.
pub open spec fn window_read_test_text(o: Seq<char>, spec: Spec, win: Windowed) -> Seq<char> {
    let o = test_head(o, win.name@, "_windowed_read_visits_all_chunks"@);
    let o = region_text(o, spec.device.name@);
    let o = o + "        region.poke_u32(0x"@ + hex(offset_named(spec.registers@, win.value@))
        + ", 0xDEAD_BEEF);\n"@;
    let o = o + "        let composed = regs.regs().read_"@ + win.name@ + "_"@ + decimal(
        window_bits(win),
    ) + "();\n"@;
    let o = o
        + "        // Both chunks read the same value -> composed value has it in every position.\n"@;
    let o = o + "        let expected = (0xDEAD_BEEFu64) | (0xDEAD_BEEFu64 << 32);\n"@;
    let o = o + "        assert_eq!(composed, expected);\n"@;
    test_tail(last_chunk_text(o, spec, win))
}

/// `o` and the test of one window that is written.
pub open spec fn window_write_test_text(o: Seq<char>, spec: Spec, win: Windowed) -> Seq<char> {
    let o = test_head(o, win.name@, "_windowed_write_visits_all_chunks"@);
    let o = region_text(o, spec.device.name@);
    let o = o + "        regs.regs().write_"@ + win.name@ + "_"@ + decimal(window_bits(win))
        + "(0xDEAD_BEEF_CAFE_BABE);\n"@;
    let o = last_chunk_text(o, spec, win);
    let o = o
        + "        // Value register holds the most-significant chunk (last write wins).\n"@;
    let o = o + "        assert_eq!(region.peek_u32(0x"@ + hex(
        offset_named(spec.registers@, win.value@),
    ) + "), 0xDEAD_BEEF);\n"@;
    test_tail(o)
}

/// `o` and the tests of the first `n` windows.
pub open spec fn window_tests_text(o: Seq<char>, spec: Spec, n: nat) -> Seq<char>
    decreases n,
{
    if n == 0 {
        o
    } else {
        let o = window_tests_text(o, spec, (n - 1) as nat);
        let win = spec.windowed@[n - 1];
        match win.direction {
            WindowedDirection::Read => window_read_test_text(o, spec, win),
            WindowedDirection::Write => window_write_test_text(o, spec, win),
        }
    }
}

fn emit_last_chunk(out: &mut String, spec: &Spec, k: usize)
    requires
        is_valid(*spec),
        k < spec.windowed@.len(),
    ensures
        final(out)@ == last_chunk_text(old(out)@, *spec, spec.windowed@[k as int]),
{
    proof {
        lemma_valid_window(*spec, k as int);
    }
    let win = &spec.windowed[k];
    let sel = hex_of(offset_of_register(&spec.registers, win.selector.as_str()));
    let last = dec((win.chunk_count - 1) as u64);
    out.append(
        "        // Selector ended at chunk_count - 1 (proves helper walked all chunks).\n",
    );
    put5(out, "        assert_eq!(region.peek_u32(0x", sel.as_str(), "), ", last.as_str(), ");\n");
}

fn emit_window_test(out: &mut String, spec: &Spec, k: usize)
    requires
        is_valid(*spec),
        k < spec.windowed@.len(),
    ensures
        final(out)@ == (match spec.windowed@[k as int].direction {
            WindowedDirection::Read => window_read_test_text(
                old(out)@,
                *spec,
                spec.windowed@[k as int],
            ),
            WindowedDirection::Write => window_write_test_text(
                old(out)@,
                *spec,
                spec.windowed@[k as int],
            ),
        }),
{
    proof {
        lemma_valid_window(*spec, k as int);
    }
    let win = &spec.windowed[k];
    let val = hex_of(offset_of_register(&spec.registers, win.value.as_str()));
    let bits = dec(window_bits_of(win));
    match win.direction {
        WindowedDirection::Read => {
            emit_head(out, win.name.as_str(), "_windowed_read_visits_all_chunks");
            emit_region(out, spec.device.name.as_str());
            put3(out, "        region.poke_u32(0x", val.as_str(), ", 0xDEAD_BEEF);\n");
            put5(
                out,
                "        let composed = regs.regs().read_",
                win.name.as_str(),
                "_",
                bits.as_str(),
                "();\n",
            );
            out.append(
                "        // Both chunks read the same value -> composed value has it in every position.\n",
            );
            out.append("        let expected = (0xDEAD_BEEFu64) | (0xDEAD_BEEFu64 << 32);\n");
            out.append("        assert_eq!(composed, expected);\n");
            emit_last_chunk(out, spec, k);
            emit_tail(out);
        },
        WindowedDirection::Write => {
            emit_head(out, win.name.as_str(), "_windowed_write_visits_all_chunks");
            emit_region(out, spec.device.name.as_str());
            put5(
                out,
                "        regs.regs().write_",
                win.name.as_str(),
                "_",
                bits.as_str(),
                "(0xDEAD_BEEF_CAFE_BABE);\n",
            );
            emit_last_chunk(out, spec, k);
            out.append(
                "        // Value register holds the most-significant chunk (last write wins).\n",
            );
            put3(out, "        assert_eq!(region.peek_u32(0x", val.as_str(), "), 0xDEAD_BEEF);\n");
            emit_tail(out);
        },
    }
}

fn emit_window_tests(out: &mut String, spec: &Spec)
    requires
        is_valid(*spec),
    ensures
        final(out)@ == window_tests_text(old(out)@, *spec, spec.windowed@.len()),
{
    let ghost o = out@;
    let mut i: usize = 0;
    while i < spec.windowed.len()
        invariant
            is_valid(*spec),
            i <= spec.windowed@.len(),
            out@ == window_tests_text(o, *spec, i as nat),
        decreases spec.windowed@.len() - i,
    {
        emit_window_test(out, spec, i);
        i += 1;
    }
}

// ---------------------------------------------------------------------------
// Byte order
// ---------------------------------------------------------------------------

/// The value written in a byte-order test, how memory is read, and what it then holds.
pub open spec fn be_sample(width: u8) -> (Seq<char>, Seq<char>, Seq<char>) {
    if width == 8 {
        ("0x12u8"@, "peek_u8"@, "0x12u8"@)
    } else if width == 16 {
        ("0x1234u16"@, "peek_u16"@, "0x3412u16"@)
    } else if width == 32 {
        ("0x1234_5678u32"@, "peek_u32"@, "0x7856_3412u32"@)
    } else {
        ("0x1122_3344_5566_7788u64"@, "peek_u64"@, "0x8877_6655_4433_2211u64"@)
    }
}

fn be_sample_of(width: u8) -> (r: (&'static str, &'static str, &'static str))
    ensures
        (r.0@, r.1@, r.2@) == be_sample(width),
{
    if width == 8 {
        ("0x12u8", "peek_u8", "0x12u8")
    } else if width == 16 {
        ("0x1234u16", "peek_u16", "0x3412u16")
    } else if width == 32 {
        ("0x1234_5678u32", "peek_u32", "0x7856_3412u32")
    } else {
        ("0x1122_3344_5566_7788u64", "peek_u64", "0x8877_6655_4433_2211u64")
    }
}

/// Whether the register gets a byte-order test.
pub open spec fn has_be_test(r: Register) -> bool {
    is_big_endian(r) && (r.access is Rw || r.access is Wo)
}

/// `o` and the byte-order test of one register.
pub open spec fn be_test_text(o: Seq<char>, dev: Seq<char>, r: Register) -> Seq<char> {
    let (value, peek, raw) = be_sample(r.width);
    let o = test_head(o, r.name@, "_be_roundtrip"@);
    let o = region_text(o, dev);
    let o = o + "        regs.regs().write_"@ + r.name@ + "("@ + value + ");\n"@;
    let o = o
        + "        // Underlying memory holds the BE byte pattern (write applied to_be()).\n"@;
    let o = o + "        assert_eq!(region."@ + peek + "(0x"@ + hex(r.offset as nat) + "), "@ + raw
        + ");\n"@;
    let o = if r.access is Rw {
        let o = o
            + "        // Typed read recovers the host value (read applied from_be()).\n"@;
        o + "        assert_eq!(regs.regs().read_"@ + r.name@ + "(), "@ + value + ");\n"@
    } else {
        o
    };
    test_tail(o)
}

/// `o` and the byte-order tests of the first `n` registers.
pub open spec fn be_tests_text(o: Seq<char>, spec: Spec, n: nat) -> Seq<char>
    decreases n,
{
    if n == 0 {
        o
    } else {
        let o = be_tests_text(o, spec, (n - 1) as nat);
        let r = spec.registers@[n - 1];
        if has_be_test(r) {
            be_test_text(o, spec.device.name@, r)
        } else {
            o
        }
    }
}

fn is_rw(a: Access) -> (b: bool)
    ensures
        b == (a is Rw),
{
    match a {
        Access::Rw => true,
        _ => false,
    }
}

fn emit_be_test(out: &mut String, dev: &str, r: &Register)
    ensures
        final(out)@ == be_test_text(old(out)@, dev@, *r),
{
    let (value, peek, raw) = be_sample_of(r.width);
    let off = hex_of(r.offset);
    emit_head(out, r.name.as_str(), "_be_roundtrip");
    emit_region(out, dev);
    put5(out, "        regs.regs().write_", r.name.as_str(), "(", value, ");\n");
    out.append(
        "        // Underlying memory holds the BE byte pattern (write applied to_be()).\n",
    );
    put7(
        out,
        "        assert_eq!(region.",
        peek,
        "(0x",
        off.as_str(),
        "), ",
        raw,
        ");\n",
    );
    if is_rw(r.access) {
        out.append(
            "        // Typed read recovers the host value (read applied from_be()).\n",
        );
        put5(out, "        assert_eq!(regs.regs().read_", r.name.as_str(), "(), ", value, ");\n");
    }
    emit_tail(out);
}

fn emit_be_tests(out: &mut String, spec: &Spec)
    ensures
        final(out)@ == be_tests_text(old(out)@, *spec, spec.registers@.len()),
{
    let ghost o = out@;
    let mut i: usize = 0;
    while i < spec.registers.len()
        invariant
            i <= spec.registers@.len(),
            out@ == be_tests_text(o, *spec, i as nat),
        decreases spec.registers@.len() - i,
    {
        let r = &spec.registers[i];
        let writable = match r.access {
            Access::Rw | Access::Wo => true,
            _ => false,
        };
        if big_endian(r) && writable {
            emit_be_test(out, spec.device.name.as_str(), r);
        }
        i += 1;
    }
}

// ---------------------------------------------------------------------------
// Passwords
// ---------------------------------------------------------------------------

/// The call that writes the number `n` to the register.
pub open spec fn write_call(r: Register, n: Seq<char>) -> Seq<char> {
    if is_typed(r) {
        "regs.regs().set_"@ + r.name@ + "("@ + pascal(r.name@) + "("@ + n + "))"@
    } else {
        "regs.regs().write_"@ + r.name@ + "("@ + n + ")"@
    }
}

fn write_call_of(r: &Register, ty: &str, n: &str) -> (out: String)
    requires
        ty@ == pascal(r.name@),
    ensures
        out@ == write_call(*r, n@),
{
    if r.flags.len() > 0 || r.fields.len() > 0 {
        let mut out = crate::text::copy_of("regs.regs().set_");
        put3(&mut out, r.name.as_str(), "(", ty);
        put3(&mut out, "(", n, "))");
        out
    } else {
        let mut out = crate::text::copy_of("regs.regs().write_");
        put2(&mut out, r.name.as_str(), "(");
        put2(&mut out, n, ")");
        out
    }
}

/// `o` and a test that one write carries the password.
pub open spec fn passwd_write_text(
    o: Seq<char>,
    dev: Seq<char>,
    r: Register,
    ending: Seq<char>,
    n: Seq<char>,
    comment: Seq<char>,
    expected: Seq<char>,
) -> Seq<char> {
    let o = test_head(o, r.name@, ending);
    let o = region_text(o, dev);
    let o = o + "        "@ + write_call(r, n) + ";\n"@;
    let o = o + comment;
    let o = o + "        assert_eq!(region.peek_u32(0x"@ + hex(r.offset as nat) + "), "@ + expected
        + ");\n"@;
    test_tail(o)
}

/// `o` and a test that a read-modify-write carries the password.
pub open spec fn passwd_modify_text(o: Seq<char>, dev: Seq<char>, r: Register) -> Seq<char> {
    let off = hex(r.offset as nat);
    let o = test_head(o, r.name@, "_passwd_wrap_in_modify"@);
    let o = region_text(o, dev);
    let o = o
        + "        // Seed memory with a payload — modify_ must keep low bits, replace top.\n"@;
    let o = o + "        region.poke_u32(0x"@ + off + ", 0x0000_00FFu32);\n"@;
    let o = if is_typed(r) {
        o + "        regs.regs().modify_"@ + r.name@ + "(|v| "@ + pascal(r.name@)
            + "(v.0 | 0xFF00u32));\n"@
    } else {
        o + "        regs.regs().modify_"@ + r.name@ + "(|v| v | 0xFF00u32);\n"@
    };
    let o = o
        + "        // Closure produced 0x0000_FFFFu32; codegen OR-ed PASSWD on top.\n"@;
    let o = o + "        assert_eq!(region.peek_u32(0x"@ + off + "), 0x5A00_FFFFu32);\n"@;
    test_tail(o)
}

/// `o` and the password tests of one register.
pub open spec fn passwd_test_text(o: Seq<char>, dev: Seq<char>, r: Register) -> Seq<char> {
    let o = passwd_write_text(
        o,
        dev,
        r,
        "_passwd_wrap_zero_payload"@,
        "0u32"@,
        "        // PASSWD (0x5A) must occupy bits[31:24]; low 24 bits stay 0.\n"@,
        "0x5A00_0000u32"@,
    );
    let o = passwd_write_text(
        o,
        dev,
        r,
        "_passwd_wrap_preserves_payload"@,
        "0x00AB_CDEFu32"@,
        "        // PASSWD prefix AND the 24-bit payload survive intact.\n"@,
        "0x5AAB_CDEFu32"@,
    );
    if r.access is Rw {
        passwd_modify_text(o, dev, r)
    } else {
        o
    }
}

/// `o` and the password tests of the first `n` registers.
pub open spec fn passwd_tests_text(o: Seq<char>, spec: Spec, n: nat) -> Seq<char>
    decreases n,
{
    if n == 0 {
        o
    } else {
        let o = passwd_tests_text(o, spec, (n - 1) as nat);
        let r = spec.registers@[n - 1];
        if is_passwd(r) {
            passwd_test_text(o, spec.device.name@, r)
        } else {
            o
        }
    }
}

fn emit_passwd_write(
    out: &mut String,
    dev: &str,
    r: &Register,
    ty: &str,
    ending: &str,
    n: &str,
    comment: &str,
    expected: &str,
)
    requires
        ty@ == pascal(r.name@),
    ensures
        final(out)@ == passwd_write_text(
            old(out)@,
            dev@,
            *r,
            ending@,
            n@,
            comment@,
            expected@,
        ),
{
    let call = write_call_of(r, ty, n);
    let off = hex_of(r.offset);
    emit_head(out, r.name.as_str(), ending);
    emit_region(out, dev);
    put3(out, "        ", call.as_str(), ";\n");
    out.append(comment);
    put5(out, "        assert_eq!(region.peek_u32(0x", off.as_str(), "), ", expected, ");\n");
    emit_tail(out);
}

fn emit_passwd_modify(out: &mut String, dev: &str, r: &Register, ty: &str)
    requires
        ty@ == pascal(r.name@),
    ensures
        final(out)@ == passwd_modify_text(old(out)@, dev@, *r),
{
    let off = hex_of(r.offset);
    emit_head(out, r.name.as_str(), "_passwd_wrap_in_modify");
    emit_region(out, dev);
    out.append(
        "        // Seed memory with a payload — modify_ must keep low bits, replace top.\n",
    );
    put3(out, "        region.poke_u32(0x", off.as_str(), ", 0x0000_00FFu32);\n");
    if r.flags.len() > 0 || r.fields.len() > 0 {
        put5(
            out,
            "        regs.regs().modify_",
            r.name.as_str(),
            "(|v| ",
            ty,
            "(v.0 | 0xFF00u32));\n",
        );
    } else {
        put3(out, "        regs.regs().modify_", r.name.as_str(), "(|v| v | 0xFF00u32);\n");
    }
    out.append(
        "        // Closure produced 0x0000_FFFFu32; codegen OR-ed PASSWD on top.\n",
    );
    put3(out, "        assert_eq!(region.peek_u32(0x", off.as_str(), "), 0x5A00_FFFFu32);\n");
    emit_tail(out);
}

fn emit_passwd_tests(out: &mut String, spec: &Spec)
    ensures
        final(out)@ == passwd_tests_text(old(out)@, *spec, spec.registers@.len()),
{
    let dev = spec.device.name.as_str();
    let ghost o = out@;
    let mut i: usize = 0;
    while i < spec.registers.len()
        invariant
            dev@ == spec.device.name@,
            i <= spec.registers@.len(),
            out@ == passwd_tests_text(o, *spec, i as nat),
        decreases spec.registers@.len() - i,
    {
        let r = &spec.registers[i];
        if passwd(r) {
            let name = to_pascal(r.name.as_str());
            let ty = name.as_str();
            emit_passwd_write(
                out,
                dev,
                r,
                ty,
                "_passwd_wrap_zero_payload",
                "0u32",
                "        // PASSWD (0x5A) must occupy bits[31:24]; low 24 bits stay 0.\n",
                "0x5A00_0000u32",
            );
            emit_passwd_write(
                out,
                dev,
                r,
                ty,
                "_passwd_wrap_preserves_payload",
                "0x00AB_CDEFu32",
                "        // PASSWD prefix AND the 24-bit payload survive intact.\n",
                "0x5AAB_CDEFu32",
            );
            if is_rw(r.access) {
                emit_passwd_modify(out, dev, r, ty);
            }
        }
        i += 1;
    }
}

// ---------------------------------------------------------------------------
// Verified offsets
// ---------------------------------------------------------------------------

/// `o` and the first `n` verified offsets.
pub open spec fn verify_body(o: Seq<char>, spec: Spec, against: Seq<char>, n: nat) -> Seq<char>
    decreases n,
{
    if n == 0 {
        o
    } else {
        let v = spec.verify_offsets@[n - 1];
        let o = verify_body(o, spec, against, (n - 1) as nat);
        let o = o + "        const_assert_eq!(\n"@;
        let o = o + "            offset_of!("@ + spec.device.name@ + ", "@ + v.reg@ + ") as u64,\n"@;
        let o = o + "            "@ + against + "::"@ + v.const_name@ + "\n"@;
        o + "        );\n"@
    }
}

/// `o` and the module that verifies offsets against constants.
pub open spec fn verify_text(o: Seq<char>, spec: Spec) -> Seq<char> {
    match spec.device.verify_against {
        None => o,
        Some(against) => if spec.verify_offsets@.len() == 0 {
            o
        } else {
            let o = o + "    mod _verify {\n"@;
            let o = o + "        use super::*;\n"@;
            let o = o + "        use static_assertions::const_assert_eq;\n"@;
            let o = verify_body(o, spec, against@, spec.verify_offsets@.len());
            test_tail(o)
        },
    }
}

fn emit_verify(out: &mut String, spec: &Spec)
    ensures
        final(out)@ == verify_text(old(out)@, *spec),
{
    match &spec.device.verify_against {
        None => {},
        Some(against) => {
            if spec.verify_offsets.len() > 0 {
                out.append("    mod _verify {\n");
                out.append("        use super::*;\n");
                out.append("        use static_assertions::const_assert_eq;\n");
                let ghost o = out@;
                let mut i: usize = 0;
                while i < spec.verify_offsets.len()
                    invariant
                        i <= spec.verify_offsets@.len(),
                        out@ == verify_body(o, *spec, against@, i as nat),
                    decreases spec.verify_offsets@.len() - i,
                {
                    let v = &spec.verify_offsets[i];
                    out.append("        const_assert_eq!(\n");
                    put5(
                        out,
                        "            offset_of!(",
                        spec.device.name.as_str(),
                        ", ",
                        v.reg.as_str(),
                        ") as u64,\n",
                    );
                    put5(
                        out,
                        "            ",
                        against.as_str(),
                        "::",
                        v.const_name.as_str(),
                        "\n",
                    );
                    out.append("        );\n");
                    i += 1;
                }
                emit_tail(out);
            }
        },
    }
}

// ---------------------------------------------------------------------------
// The whole test module
// ---------------------------------------------------------------------------

/// Whether a register satisfies the given property.
pub open spec fn any_register(regs: Seq<Register>, p: spec_fn(Register) -> bool) -> bool {
    exists|i: int| 0 <= i < regs.len() && p(#[trigger] regs[i])
}

/// Whether the tests work on a region of memory.
pub open spec fn needs_mock(spec: Spec) -> bool {
    ||| spec.u64_pairs@.len() > 0
    ||| spec.windowed@.len() > 0
    ||| any_register(spec.registers@, |r: Register| is_big_endian(r))
    ||| any_register(spec.registers@, |r: Register| is_passwd(r))
}

fn mock_needed(spec: &Spec) -> (b: bool)
    ensures
        b == needs_mock(*spec),
{
    if spec.u64_pairs.len() > 0 || spec.windowed.len() > 0 {
        return true;
    }
    let mut i: usize = 0;
    while i < spec.registers.len()
        invariant
            i <= spec.registers@.len(),
            forall|k: int|
                0 <= k < i ==> !is_big_endian(#[trigger] spec.registers@[k]) && !is_passwd(
                    spec.registers@[k],
                ),
        decreases spec.registers@.len() - i,
    {
        if big_endian(&spec.registers[i]) || passwd(&spec.registers[i]) {
            proof {
                let r = spec.registers@[i as int];
                let be = |r: Register| is_big_endian(r);
                let pw = |r: Register| is_passwd(r);
                assert(be(r) || pw(r));
            }
            return true;
        }
        i += 1;
    }
    false
}

/// `o` and the tests of a device.
pub open spec fn tests_text(o: Seq<char>, spec: Spec) -> Seq<char> {
    let n = spec.registers@.len();
    let o = o + "#[cfg(test)]\n"@;
    let o = o + "mod tests {\n"@;
    let o = o + "    use super::*;\n"@;
    let o = o + "    use core::mem::offset_of;\n"@;
    let o = if needs_mock(spec) {
        o + "    use lockjaw_mmio::mock::MockMmioRegion;\n"@
    } else {
        o
    };
    let o = o + "\n"@;
    let o = o + "    #[test]\n"@;
    let o = o + "    fn layout_offsets() {\n"@;
    let o = offset_checks_text(o, spec, n);
    let o = test_tail(o);
    let o = all_flags_tests_text(o, spec.registers@, n);
    let o = all_fields_tests_text(o, spec.registers@, n);
    let o = pair_tests_text(o, spec, spec.u64_pairs@.len());
    let o = window_tests_text(o, spec, spec.windowed@.len());
    let o = be_tests_text(o, spec, n);
    let o = passwd_tests_text(o, spec, n);
    let o = verify_text(o, spec);
    o + "}\n"@
}

/// Writes the tests of a device.
pub fn emit_tests(out: &mut String, spec: &Spec)
    requires
        is_valid(*spec),
    ensures
        final(out)@ == tests_text(old(out)@, *spec),
{
    out.append("#[cfg(test)]\n");
    out.append("mod tests {\n");
    out.append("    use super::*;\n");
    out.append("    use core::mem::offset_of;\n");
    if mock_needed(spec) {
        out.append("    use lockjaw_mmio::mock::MockMmioRegion;\n");
    }
    out.append("\n");
    out.append("    #[test]\n");
    out.append("    fn layout_offsets() {\n");
    emit_offset_checks(out, spec);
    emit_tail(out);
    emit_all_flags_tests(out, &spec.registers);
    emit_all_fields_tests(out, spec);
    emit_pair_tests(out, spec);
    emit_window_tests(out, spec);
    emit_be_tests(out, spec);
    emit_passwd_tests(out, spec);
    emit_verify(out, spec);
    out.append("}\n");
}

/// The number that a decode test refuses is the least that has no name, and there is none where
/// every number of the field has one.
pub proof fn lemma_least_unnamed(values: Seq<EnumValue>, v: int, max: int)
    requires
        v <= max + 1,
    ensures
        match least_unnamed(values, v, max) {
            Some(x) => {
                &&& v <= x <= max
                &&& forall|i: int| 0 <= i < values.len() ==> (#[trigger] values[i]).value != x
                &&& forall|y: int| v <= y < x ==> #[trigger] is_named(values, y)
            },
            None => forall|y: int| v <= y <= max ==> #[trigger] is_named(values, y),
        },
    decreases max - v + 1,
{
    if v <= max && is_named(values, v) {
        lemma_least_unnamed(values, v + 1, max);
    }
}

} // verus!
