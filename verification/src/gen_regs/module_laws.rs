//! What the whole module of a device holds. Every part of it only adds to what stands before.

use super::accessors::{accessors_text, pairs_text, windows_text};
use super::device_laws::{
    holds_all, lemma_accessors_hold, lemma_all_pairs_hold, lemma_all_windows_hold, pair_lines,
    register_lines, window_lines,
};
use super::emit::{
    coverage_text, device_text, doc_text, emit_fault, header_text, int_type, layout_fault_from,
    layout_order, layout_text, reserved_bits_text, types_text,
};
use super::field_laws::lies_in;
use super::layout_laws::{items_of, items_text, lemma_cells_text};
use super::model::{field_mask, EnumValue, Field, FieldAccess, Register, Spec, U64Pair, Windowed};
use super::newtype_laws::{
    getter, holds_field, lemma_fields_hold, lemma_flag_constants, lemma_named_values, mask_line,
    setter, shift_line,
};
use super::newtypes::{
    bit_op_text, bits, bool_field_text, decode_arms_text, enum_field_text, enum_text, enums_text,
    field_text, fields_newtype_text, fields_text, flag_consts_text, flags_newtype_text, mask_name,
    repr_text, scalar_field_text, shift_name, variants_text,
};
use super::self_tests::{
    all_fields_tests_text, all_flags_tests_text, all_keeps_text, be_test_text, be_tests_text,
    decode_test_text, decode_tests_text, decodes_text, enum_trips_text, fields_tests_text,
    flag_checks_text, flags_tests_text, has_ro, keeps_text, last_chunk_text, needs_mock,
    offset_checks_text, pair_test_text, pair_tests_text, passwd_modify_text, passwd_test_text,
    passwd_tests_text, passwd_write_text, region_text, ro_read_text, ro_reads_text, test_head,
    test_tail, tests_text, trip_text, trips_text, verify_body, verify_text, window_read_test_text,
    window_tests_text, window_write_test_text,
};
use super::validate::{is_valid, lemma_valid_field, lemma_valid_register};
use crate::letter_case::{pascal, uppercase};
use crate::numerals::{decimal, hex};
use crate::text::{
    contains, leads, lemma_contains_front, lemma_contains_middle, lemma_ends_with, lemma_join3,
    lemma_leads_contains, lemma_leads_more, lemma_leads_self, lemma_prefix_step,
};
use vstd::prelude::*;

verus! {

proof fn lead_test_head(o: Seq<char>, h: Seq<char>, name: Seq<char>, ending: Seq<char>)
    requires
        leads(o, h),
    ensures
        leads(o, test_head(h, name, ending)),
{
    broadcast use {lemma_leads_more, lemma_leads_self};

}

proof fn lead_test_tail(o: Seq<char>, h: Seq<char>)
    requires
        leads(o, h),
    ensures
        leads(o, test_tail(h)),
{
    broadcast use {lemma_leads_more, lemma_leads_self};

}

proof fn lead_region_text(o: Seq<char>, h: Seq<char>, dev: Seq<char>)
    requires
        leads(o, h),
    ensures
        leads(o, region_text(h, dev)),
{
    broadcast use {lemma_leads_more, lemma_leads_self};

}

proof fn lead_offset_checks_text(o: Seq<char>, h: Seq<char>, spec: Spec, n: nat)
    requires
        leads(o, h),
    ensures
        leads(o, offset_checks_text(h, spec, n)),
    decreases n,
{
    broadcast use {lemma_leads_more, lemma_leads_self};

    if n > 0 {
        let m = (n - 1) as nat;
        lead_offset_checks_text(o, h, spec, m);
        let p = offset_checks_text(h, spec, m);
    }
}

proof fn lead_flag_checks_text(o: Seq<char>, h: Seq<char>, r: Register, n: nat)
    requires
        leads(o, h),
    ensures
        leads(o, flag_checks_text(h, r, n)),
    decreases n,
{
    broadcast use {lemma_leads_more, lemma_leads_self};

    if n > 0 {
        let m = (n - 1) as nat;
        lead_flag_checks_text(o, h, r, m);
        let p = flag_checks_text(h, r, m);
    }
}

proof fn lead_flags_tests_text(o: Seq<char>, h: Seq<char>, r: Register)
    requires
        leads(o, h),
    ensures
        leads(o, flags_tests_text(h, r)),
{
    broadcast use {lemma_leads_more, lemma_leads_self};

    lead_test_head(o, h, r.name@, "_flag_bits"@);
    let a = test_head(h, r.name@, "_flag_bits"@);
    lead_flag_checks_text(o, a, r, r.flags@.len());
    let b = test_tail(flag_checks_text(a, r, r.flags@.len()));
    lead_test_head(o, b, r.name@, "_flag_compose"@);
}

proof fn lead_all_flags_tests_text(o: Seq<char>, h: Seq<char>, regs: Seq<Register>, n: nat)
    requires
        leads(o, h),
    ensures
        leads(o, all_flags_tests_text(h, regs, n)),
    decreases n,
{
    broadcast use {lemma_leads_more, lemma_leads_self};

    if n > 0 {
        let m = (n - 1) as nat;
        lead_all_flags_tests_text(o, h, regs, m);
        let p = all_flags_tests_text(h, regs, m);
        lead_flags_tests_text(o, p, regs[n - 1]);
    }
}

proof fn lead_enum_trips_text(o: Seq<char>, h: Seq<char>, r: Register, f: Field, n: nat)
    requires
        leads(o, h),
    ensures
        leads(o, enum_trips_text(h, r, f, n)),
    decreases n,
{
    broadcast use {lemma_leads_more, lemma_leads_self};

    if n > 0 {
        let m = (n - 1) as nat;
        lead_enum_trips_text(o, h, r, f, m);
        let p = enum_trips_text(h, r, f, m);
    }
}

proof fn lead_trip_text(o: Seq<char>, h: Seq<char>, r: Register, f: Field)
    requires
        leads(o, h),
    ensures
        leads(o, trip_text(h, r, f)),
{
    broadcast use {lemma_leads_more, lemma_leads_self};

    lead_enum_trips_text(
        o,
        h + "        // enum field `"@ + f.name@ + "`\n"@,
        r,
        f,
        f.enum_values@.len(),
    );
}

proof fn lead_trips_text(o: Seq<char>, h: Seq<char>, r: Register, n: nat)
    requires
        leads(o, h),
    ensures
        leads(o, trips_text(h, r, n)),
    decreases n,
{
    broadcast use {lemma_leads_more, lemma_leads_self};

    if n > 0 {
        let m = (n - 1) as nat;
        lead_trips_text(o, h, r, m);
        let p = trips_text(h, r, m);
        lead_trip_text(o, p, r, r.fields@[n - 1]);
    }
}

proof fn lead_keeps_text(o: Seq<char>, h: Seq<char>, r: Register, f: Field)
    requires
        leads(o, h),
    ensures
        leads(o, keeps_text(h, r, f)),
{
    broadcast use {lemma_leads_more, lemma_leads_self};

}

proof fn lead_all_keeps_text(o: Seq<char>, h: Seq<char>, r: Register, n: nat)
    requires
        leads(o, h),
    ensures
        leads(o, all_keeps_text(h, r, n)),
    decreases n,
{
    broadcast use {lemma_leads_more, lemma_leads_self};

    if n > 0 {
        let m = (n - 1) as nat;
        lead_all_keeps_text(o, h, r, m);
        let p = all_keeps_text(h, r, m);
        lead_keeps_text(o, p, r, r.fields@[n - 1]);
    }
}

proof fn lead_ro_read_text(o: Seq<char>, h: Seq<char>, r: Register, f: Field)
    requires
        leads(o, h),
    ensures
        leads(o, ro_read_text(h, r, f)),
{
    broadcast use {lemma_leads_more, lemma_leads_self};

}

proof fn lead_ro_reads_text(o: Seq<char>, h: Seq<char>, r: Register, n: nat)
    requires
        leads(o, h),
    ensures
        leads(o, ro_reads_text(h, r, n)),
    decreases n,
{
    broadcast use {lemma_leads_more, lemma_leads_self};

    if n > 0 {
        let m = (n - 1) as nat;
        lead_ro_reads_text(o, h, r, m);
        let p = ro_reads_text(h, r, m);
        lead_ro_read_text(o, p, r, r.fields@[n - 1]);
    }
}

proof fn lead_decodes_text(o: Seq<char>, h: Seq<char>, r: Register, f: Field, n: nat)
    requires
        leads(o, h),
    ensures
        leads(o, decodes_text(h, r, f, n)),
    decreases n,
{
    broadcast use {lemma_leads_more, lemma_leads_self};

    if n > 0 {
        let m = (n - 1) as nat;
        lead_decodes_text(o, h, r, f, m);
        let p = decodes_text(h, r, f, m);
    }
}

proof fn lead_decode_test_text(o: Seq<char>, h: Seq<char>, r: Register, f: Field)
    requires
        leads(o, h),
    ensures
        leads(o, decode_test_text(h, r, f)),
{
    broadcast use {lemma_leads_more, lemma_leads_self};

    let a = h + "    #[test]\n"@ + "    fn "@ + r.name@ + "_"@ + f.name@ + "_enum_decode() {\n"@;
    lead_decodes_text(o, a, r, f, f.enum_values@.len());
}

proof fn lead_decode_tests_text(o: Seq<char>, h: Seq<char>, r: Register, n: nat)
    requires
        leads(o, h),
    ensures
        leads(o, decode_tests_text(h, r, n)),
    decreases n,
{
    broadcast use {lemma_leads_more, lemma_leads_self};

    if n > 0 {
        let m = (n - 1) as nat;
        lead_decode_tests_text(o, h, r, m);
        let p = decode_tests_text(h, r, m);
        lead_decode_test_text(o, p, r, r.fields@[n - 1]);
    }
}

proof fn lead_fields_tests_text(o: Seq<char>, h: Seq<char>, r: Register)
    requires
        leads(o, h),
    ensures
        leads(o, fields_tests_text(h, r)),
{
    broadcast use {lemma_leads_more, lemma_leads_self};

    let n = r.fields@.len();
    let a = test_head(h, r.name@, "_field_roundtrip"@);
    lead_trips_text(o, a, r, n);
    let b = test_head(test_tail(trips_text(a, r, n)), r.name@, "_preserves_reserved_bits"@)
        + "        let all_ones: "@ + int_type(r.width) + " = !0;\n"@;
    lead_all_keeps_text(o, b, r, n);
    let c = test_tail(all_keeps_text(b, r, n));
    let d = test_head(c, r.name@, "_ro_field_read"@);
    lead_ro_reads_text(o, d, r, n);
    let e = if has_ro(r) {
        test_tail(ro_reads_text(d, r, n))
    } else {
        c
    };
    lead_decode_tests_text(o, e, r, n);
}

proof fn lead_all_fields_tests_text(o: Seq<char>, h: Seq<char>, regs: Seq<Register>, n: nat)
    requires
        leads(o, h),
    ensures
        leads(o, all_fields_tests_text(h, regs, n)),
    decreases n,
{
    broadcast use {lemma_leads_more, lemma_leads_self};

    if n > 0 {
        let m = (n - 1) as nat;
        lead_all_fields_tests_text(o, h, regs, m);
        let p = all_fields_tests_text(h, regs, m);
        lead_fields_tests_text(o, p, regs[n - 1]);
    }
}

proof fn lead_pair_test_text(o: Seq<char>, h: Seq<char>, spec: Spec, pair: U64Pair)
    requires
        leads(o, h),
    ensures
        leads(o, pair_test_text(h, spec, pair)),
{
    broadcast use {lemma_leads_more, lemma_leads_self};

}

proof fn lead_pair_tests_text(o: Seq<char>, h: Seq<char>, spec: Spec, n: nat)
    requires
        leads(o, h),
    ensures
        leads(o, pair_tests_text(h, spec, n)),
    decreases n,
{
    broadcast use {lemma_leads_more, lemma_leads_self};

    if n > 0 {
        let m = (n - 1) as nat;
        lead_pair_tests_text(o, h, spec, m);
        let p = pair_tests_text(h, spec, m);
        lead_pair_test_text(o, p, spec, spec.u64_pairs@[n - 1]);
    }
}

proof fn lead_last_chunk_text(o: Seq<char>, h: Seq<char>, spec: Spec, win: Windowed)
    requires
        leads(o, h),
    ensures
        leads(o, last_chunk_text(h, spec, win)),
{
    broadcast use {lemma_leads_more, lemma_leads_self};

}

proof fn lead_window_read_test_text(o: Seq<char>, h: Seq<char>, spec: Spec, win: Windowed)
    requires
        leads(o, h),
    ensures
        leads(o, window_read_test_text(h, spec, win)),
{
    broadcast use {lemma_leads_more, lemma_leads_self};

}

proof fn lead_window_write_test_text(o: Seq<char>, h: Seq<char>, spec: Spec, win: Windowed)
    requires
        leads(o, h),
    ensures
        leads(o, window_write_test_text(h, spec, win)),
{
    broadcast use {lemma_leads_more, lemma_leads_self};

}

proof fn lead_window_tests_text(o: Seq<char>, h: Seq<char>, spec: Spec, n: nat)
    requires
        leads(o, h),
    ensures
        leads(o, window_tests_text(h, spec, n)),
    decreases n,
{
    broadcast use {lemma_leads_more, lemma_leads_self};

    if n > 0 {
        let m = (n - 1) as nat;
        lead_window_tests_text(o, h, spec, m);
        let p = window_tests_text(h, spec, m);
        lead_window_read_test_text(o, p, spec, spec.windowed@[n - 1]);
        lead_window_write_test_text(o, p, spec, spec.windowed@[n - 1]);
    }
}

proof fn lead_be_test_text(o: Seq<char>, h: Seq<char>, dev: Seq<char>, r: Register)
    requires
        leads(o, h),
    ensures
        leads(o, be_test_text(h, dev, r)),
{
    broadcast use {lemma_leads_more, lemma_leads_self};

}

proof fn lead_be_tests_text(o: Seq<char>, h: Seq<char>, spec: Spec, n: nat)
    requires
        leads(o, h),
    ensures
        leads(o, be_tests_text(h, spec, n)),
    decreases n,
{
    broadcast use {lemma_leads_more, lemma_leads_self};

    if n > 0 {
        let m = (n - 1) as nat;
        lead_be_tests_text(o, h, spec, m);
        let p = be_tests_text(h, spec, m);
        lead_be_test_text(o, p, spec.device.name@, spec.registers@[n - 1]);
    }
}

proof fn lead_passwd_write_text(
    o: Seq<char>,
    h: Seq<char>,
    dev: Seq<char>,
    r: Register,
    ending: Seq<char>,
    n: Seq<char>,
    comment: Seq<char>,
    expected: Seq<char>,
)
    requires
        leads(o, h),
    ensures
        leads(o, passwd_write_text(h, dev, r, ending, n, comment, expected)),
{
    broadcast use {lemma_leads_more, lemma_leads_self};

}

proof fn lead_passwd_modify_text(o: Seq<char>, h: Seq<char>, dev: Seq<char>, r: Register)
    requires
        leads(o, h),
    ensures
        leads(o, passwd_modify_text(h, dev, r)),
{
    broadcast use {lemma_leads_more, lemma_leads_self};

}

proof fn lead_passwd_test_text(o: Seq<char>, h: Seq<char>, dev: Seq<char>, r: Register)
    requires
        leads(o, h),
    ensures
        leads(o, passwd_test_text(h, dev, r)),
{
    broadcast use {lemma_leads_more, lemma_leads_self};

    let c = "        // PASSWD (0x5A) must occupy bits[31:24]; low 24 bits stay 0.\n"@;
    lead_passwd_write_text(
        o,
        h,
        dev,
        r,
        "_passwd_wrap_zero_payload"@,
        "0u32"@,
        c,
        "0x5A00_0000u32"@,
    );
    let a = passwd_write_text(
        h,
        dev,
        r,
        "_passwd_wrap_zero_payload"@,
        "0u32"@,
        c,
        "0x5A00_0000u32"@,
    );
    let d = "        // PASSWD prefix AND the 24-bit payload survive intact.\n"@;
    lead_passwd_write_text(
        o,
        a,
        dev,
        r,
        "_passwd_wrap_preserves_payload"@,
        "0x00AB_CDEFu32"@,
        d,
        "0x5AAB_CDEFu32"@,
    );
    let b = passwd_write_text(
        a,
        dev,
        r,
        "_passwd_wrap_preserves_payload"@,
        "0x00AB_CDEFu32"@,
        d,
        "0x5AAB_CDEFu32"@,
    );
    lead_passwd_modify_text(o, b, dev, r);
}

proof fn lead_passwd_tests_text(o: Seq<char>, h: Seq<char>, spec: Spec, n: nat)
    requires
        leads(o, h),
    ensures
        leads(o, passwd_tests_text(h, spec, n)),
    decreases n,
{
    broadcast use {lemma_leads_more, lemma_leads_self};

    if n > 0 {
        let m = (n - 1) as nat;
        lead_passwd_tests_text(o, h, spec, m);
        let p = passwd_tests_text(h, spec, m);
        lead_passwd_test_text(o, p, spec.device.name@, spec.registers@[n - 1]);
    }
}

proof fn lead_verify_body(o: Seq<char>, h: Seq<char>, spec: Spec, against: Seq<char>, n: nat)
    requires
        leads(o, h),
    ensures
        leads(o, verify_body(h, spec, against, n)),
    decreases n,
{
    broadcast use {lemma_leads_more, lemma_leads_self};

    if n > 0 {
        let m = (n - 1) as nat;
        lead_verify_body(o, h, spec, against, m);
        let p = verify_body(h, spec, against, m);
    }
}

proof fn lead_verify_text(o: Seq<char>, h: Seq<char>, spec: Spec)
    requires
        leads(o, h),
    ensures
        leads(o, verify_text(h, spec)),
{
    broadcast use {lemma_leads_more, lemma_leads_self};

    if let Some(against) = spec.device.verify_against {
        let a = h + "    mod _verify {\n"@ + "        use super::*;\n"@
            + "        use static_assertions::const_assert_eq;\n"@;
        lead_verify_body(o, a, spec, against@, spec.verify_offsets@.len());
    }
}

/// The tests of a device stand behind what was written before.
pub proof fn lead_tests_text(o: Seq<char>, h: Seq<char>, spec: Spec)
    requires
        leads(o, h),
    ensures
        leads(o, tests_text(h, spec)),
{
    broadcast use {lemma_leads_more, lemma_leads_self};

    let n = spec.registers@.len();
    let a = h + "#[cfg(test)]\n"@ + "mod tests {\n"@ + "    use super::*;\n"@
        + "    use core::mem::offset_of;\n"@;
    let b = if needs_mock(spec) {
        a + "    use lockjaw_mmio::mock::MockMmioRegion;\n"@
    } else {
        a
    };
    let c = b + "\n"@ + "    #[test]\n"@ + "    fn layout_offsets() {\n"@;
    lead_offset_checks_text(o, c, spec, n);
    let d = test_tail(offset_checks_text(c, spec, n));
    lead_all_flags_tests_text(o, d, spec.registers@, n);
    let e = all_flags_tests_text(d, spec.registers@, n);
    lead_all_fields_tests_text(o, e, spec.registers@, n);
    let f = all_fields_tests_text(e, spec.registers@, n);
    lead_pair_tests_text(o, f, spec, spec.u64_pairs@.len());
    let g = pair_tests_text(f, spec, spec.u64_pairs@.len());
    lead_window_tests_text(o, g, spec, spec.windowed@.len());
    let i = window_tests_text(g, spec, spec.windowed@.len());
    lead_be_tests_text(o, i, spec, n);
    let j = be_tests_text(i, spec, n);
    lead_passwd_tests_text(o, j, spec, n);
    let k = passwd_tests_text(j, spec, n);
    lead_verify_text(o, k, spec);
}

proof fn lead_doc_text(o: Seq<char>, h: Seq<char>, lead: Seq<char>, d: Option<String>)
    requires
        leads(o, h),
    ensures
        leads(o, doc_text(h, lead, d)),
{
    broadcast use {lemma_leads_more, lemma_leads_self};

}

proof fn lead_flag_consts_text(o: Seq<char>, h: Seq<char>, r: Register, n: nat)
    requires
        leads(o, h),
    ensures
        leads(o, flag_consts_text(h, r, n)),
    decreases n,
{
    broadcast use {lemma_leads_more, lemma_leads_self};

    if n > 0 {
        let m = (n - 1) as nat;
        lead_flag_consts_text(o, h, r, m);
        let p = flag_consts_text(h, r, m);
        lead_doc_text(o, p, "    /// "@, r.flags@[n - 1].description);
    }
}

proof fn lead_bit_op_text(
    o: Seq<char>,
    h: Seq<char>,
    ty: Seq<char>,
    op_trait: Seq<char>,
    method: Seq<char>,
    op: Seq<char>,
)
    requires
        leads(o, h),
    ensures
        leads(o, bit_op_text(h, ty, op_trait, method, op)),
{
    broadcast use {lemma_leads_more, lemma_leads_self};

}

/// What stands before the constants of the flags.
spec fn flags_head(o: Seq<char>, r: Register) -> Seq<char> {
    let ty = pascal(r.name@);
    let wty = int_type(r.width);
    let o = o + "// ---------- "@ + ty + " ----------\n"@;
    let o = o + "\n"@;
    let o = o + "/// "@ + ty + " register — typed snapshot.\n"@;
    let o = o + "#[derive(Copy, Clone, Debug, Default, PartialEq, Eq)]\n"@;
    let o = o + "#[repr(transparent)]\n"@;
    let o = o + "pub struct "@ + ty + "(pub "@ + wty + ");\n"@;
    let o = o + "\n"@;
    let o = o + "impl "@ + ty + " {\n"@;
    let o = o + "    /// Empty (no bits set).\n"@;
    let o = o + "    pub const fn empty() -> Self { Self(0) }\n"@;
    let o = o + "    /// Underlying bit pattern.\n"@;
    let o = o + "    pub const fn bits(self) -> "@ + wty + " { self.0 }\n"@;
    let o = o + "    /// True if every bit set in `other` is set in `self`.\n"@;
    let o = o + "    pub const fn contains(self, other: Self) -> bool {\n"@;
    let o = o + "        (self.0 & other.0) == other.0\n"@;
    o + "    }\n"@
}

proof fn lead_flags_newtype_text(o: Seq<char>, h: Seq<char>, r: Register)
    requires
        leads(o, h),
    ensures
        leads(o, flags_newtype_text(h, r)),
        leads(flag_consts_text(flags_head(h, r), r, r.flags@.len()), flags_newtype_text(h, r)),
{
    broadcast use {lemma_leads_more, lemma_leads_self};

    reveal(flags_newtype_text);
    let ty = pascal(r.name@);
    let a = flags_head(h, r);
    assert(leads(o, a));
    lead_flag_consts_text(o, a, r, r.flags@.len());
    let b = flag_consts_text(a, r, r.flags@.len());
    let c = b + "}\n"@ + "\n"@;
    lead_bit_op_text(o, c, ty, "BitOr"@, "bitor"@, "|"@);
    lead_bit_op_text(b, c, ty, "BitOr"@, "bitor"@, "|"@);
    let d = bit_op_text(c, ty, "BitOr"@, "bitor"@, "|"@);
    lead_bit_op_text(o, d, ty, "BitAnd"@, "bitand"@, "&"@);
    lead_bit_op_text(b, d, ty, "BitAnd"@, "bitand"@, "&"@);
    let e = bit_op_text(d, ty, "BitAnd"@, "bitand"@, "&"@);
    assert(flags_newtype_text(h, r) == e + "impl core::ops::Not for "@ + ty + " {\n"@
        + "    type Output = Self;\n"@ + "    fn not(self) -> Self { Self(!self.0) }\n"@ + "}\n"@
        + "\n"@);
}

proof fn lead_variants_text(o: Seq<char>, h: Seq<char>, f: Field, n: nat)
    requires
        leads(o, h),
    ensures
        leads(o, variants_text(h, f, n)),
        leads(o, decode_arms_text(h, f, n)),
    decreases n,
{
    broadcast use {lemma_leads_more, lemma_leads_self};

    if n > 0 {
        lead_variants_text(o, h, f, (n - 1) as nat);
    }
}

/// What stands before the variants of an enum.
spec fn enum_head(o: Seq<char>, reg_ty: Seq<char>, f: Field) -> Seq<char> {
    let enum_ty = reg_ty + pascal(f.name@);
    let o = o + "/// Enum for the `"@ + f.name@ + "` field of `"@ + reg_ty + "`.\n"@;
    let o = o + "#[derive(Copy, Clone, Debug, PartialEq, Eq)]\n"@;
    let o = o + "#[repr("@ + repr_text(f.enum_values@) + ")]\n"@;
    o + "pub enum "@ + enum_ty + " {\n"@
}

/// What stands before the arms of an enum's decoder.
spec fn decoder_head(o: Seq<char>, reg_ty: Seq<char>, width: u8, f: Field) -> Seq<char> {
    let enum_ty = reg_ty + pascal(f.name@);
    let o = variants_text(enum_head(o, reg_ty, f), f, f.enum_values@.len());
    let o = o + "}\n"@;
    let o = o + "\n"@;
    let o = o + "impl "@ + enum_ty + " {\n"@;
    let o = o + "    /// Decode from raw bits. Returns `Err(ReservedBits)` if the\n"@;
    let o = o + "    /// pattern is not a defined variant.\n"@;
    let o = o + "    pub const fn from_bits(v: "@ + int_type(width)
        + ") -> Result<Self, ReservedBits> {\n"@;
    o + "        match v {\n"@
}

proof fn lead_enum_text(o: Seq<char>, h: Seq<char>, reg_ty: Seq<char>, width: u8, f: Field)
    requires
        leads(o, h),
    ensures
        leads(o, enum_text(h, reg_ty, width, f)),
        leads(
            variants_text(enum_head(h, reg_ty, f), f, f.enum_values@.len()),
            enum_text(h, reg_ty, width, f),
        ),
        leads(
            decode_arms_text(decoder_head(h, reg_ty, width, f), f, f.enum_values@.len()),
            enum_text(h, reg_ty, width, f),
        ),
{
    broadcast use {lemma_leads_more, lemma_leads_self};

    let n = f.enum_values@.len();
    let a = enum_head(h, reg_ty, f);
    assert(leads(o, a));
    lead_variants_text(o, a, f, n);
    let b = variants_text(a, f, n);
    let c = decoder_head(h, reg_ty, width, f);
    assert(leads(o, c));
    assert(leads(b, c));
    lead_variants_text(o, c, f, n);
    lead_variants_text(b, c, f, n);
}

proof fn lead_fields_text(o: Seq<char>, h: Seq<char>, r: Register, n: nat)
    requires
        leads(o, h),
    ensures
        leads(o, fields_text(h, r, n)),
    decreases n,
{
    broadcast use {lemma_leads_more, lemma_leads_self};

    if n > 0 {
        let m = (n - 1) as nat;
        lead_fields_text(o, h, r, m);
        lead_field_text(o, fields_text(h, r, m), r, r.fields@[n - 1]);
    }
}

proof fn lead_bool_field_text(o: Seq<char>, h: Seq<char>, f: Field)
    requires
        leads(o, h),
    ensures
        leads(o, bool_field_text(h, f)),
{
    broadcast use {lemma_leads_more, lemma_leads_self};

}

proof fn lead_enum_field_text(o: Seq<char>, h: Seq<char>, r: Register, f: Field)
    requires
        leads(o, h),
    ensures
        leads(o, enum_field_text(h, r, f)),
{
    broadcast use {lemma_leads_more, lemma_leads_self};

}

proof fn lead_scalar_field_text(o: Seq<char>, h: Seq<char>, r: Register, f: Field)
    requires
        leads(o, h),
    ensures
        leads(o, scalar_field_text(h, r, f)),
{
    broadcast use {lemma_leads_more, lemma_leads_self};

}

proof fn lead_field_text(o: Seq<char>, h: Seq<char>, r: Register, f: Field)
    requires
        leads(o, h),
    ensures
        leads(o, field_text(h, r, f)),
{
    broadcast use {lemma_leads_more, lemma_leads_self};

    let name = f.name@;
    let hi = decimal(bits(f).0 as nat);
    let lo = decimal(bits(f).1 as nat);
    let a = h + "    /// Mask for the `"@ + name + "` field (bits "@ + hi + ":"@ + lo + ").\n"@;
    let b = a + "    pub const "@ + mask_name(f) + ": "@ + int_type(r.width) + " = 0x"@ + hex(
        field_mask(bits(f), r.width),
    ) + ";\n"@;
    let c = b + "    /// Right-shift to access the `"@ + name + "` field.\n"@;
    let d = c + "    pub const "@ + shift_name(f) + ": u32 = "@ + lo + ";\n"@;
    lead_bool_field_text(o, d, f);
    lead_enum_field_text(o, d, r, f);
    lead_scalar_field_text(o, d, r, f);
}

proof fn lead_enums_text(o: Seq<char>, h: Seq<char>, r: Register, n: nat)
    requires
        leads(o, h),
    ensures
        leads(o, enums_text(h, r, n)),
    decreases n,
{
    broadcast use {lemma_leads_more, lemma_leads_self};

    if n > 0 {
        let m = (n - 1) as nat;
        lead_enums_text(o, h, r, m);
        lead_enum_text(o, enums_text(h, r, m), pascal(r.name@), r.width, r.fields@[n - 1]);
    }
}

/// What stands before the fields of a register's type.
spec fn fields_head(o: Seq<char>, r: Register) -> Seq<char> {
    let ty = pascal(r.name@);
    let wty = int_type(r.width);
    let o = o + "// ---------- "@ + ty + " ----------\n"@;
    let o = o + "\n"@;
    let o = o + "/// "@ + ty + " register — typed snapshot with field accessors.\n"@;
    let o = o + "#[derive(Copy, Clone, Debug, Default, PartialEq, Eq)]\n"@;
    let o = o + "#[repr(transparent)]\n"@;
    let o = o + "pub struct "@ + ty + "(pub "@ + wty + ");\n"@;
    let o = o + "\n"@;
    let o = o + "impl "@ + ty + " {\n"@;
    let o = o + "    /// Underlying bit pattern.\n"@;
    o + "    pub const fn bits(self) -> "@ + wty + " { self.0 }\n"@
}

proof fn lead_fields_newtype_text(o: Seq<char>, h: Seq<char>, r: Register)
    requires
        leads(o, h),
    ensures
        leads(o, fields_newtype_text(h, r)),
        leads(fields_text(fields_head(h, r), r, r.fields@.len()), fields_newtype_text(h, r)),
{
    broadcast use {lemma_leads_more, lemma_leads_self};

    reveal(fields_newtype_text);
    let n = r.fields@.len();
    let a = fields_head(h, r);
    assert(leads(o, a));
    lead_fields_text(o, a, r, n);
    let b = fields_text(a, r, n);
    let c = b + "}\n"@ + "\n"@;
    lead_enums_text(o, c, r, n);
    lead_enums_text(b, c, r, n);
}

/// Whether a text holds the named values of a field: each as a variant with its value, and as an
/// arm of the decoder that turns the value into it.
pub open spec fn holds_values(t: Seq<char>, f: Field) -> bool {
    forall|k: int|
        0 <= k < f.enum_values@.len() ==> contains(t, variant_line(#[trigger] f.enum_values@[k]))
            && contains(t, arm_line(f.enum_values@[k]))
}

/// The variant of a named value.
pub open spec fn variant_line(v: EnumValue) -> Seq<char> {
    "    "@ + v.name@ + " = 0x"@ + hex(v.value as nat) + ",\n"@
}

/// The arm that decodes a named value.
pub open spec fn arm_line(v: EnumValue) -> Seq<char> {
    "            0x"@ + hex(v.value as nat) + " => Ok(Self::"@ + v.name@ + "),\n"@
}

proof fn lemma_holds_values_leads(o: Seq<char>, t: Seq<char>, f: Field)
    requires
        leads(o, t),
        holds_values(o, f),
    ensures
        holds_values(t, f),
{
    assert forall|k: int| 0 <= k < f.enum_values@.len() implies contains(
        t,
        variant_line(#[trigger] f.enum_values@[k]),
    ) && contains(t, arm_line(f.enum_values@[k])) by {
        lemma_leads_contains(o, t, variant_line(f.enum_values@[k]));
        lemma_leads_contains(o, t, arm_line(f.enum_values@[k]));
    }
}

proof fn lemma_enum_holds(h: Seq<char>, reg_ty: Seq<char>, width: u8, f: Field)
    ensures
        holds_values(enum_text(h, reg_ty, width, f), f),
{
    broadcast use lemma_leads_self;

    let n = f.enum_values@.len();
    assert(leads(h, h));
    lead_enum_text(h, h, reg_ty, width, f);
    let t = enum_text(h, reg_ty, width, f);
    let a = variants_text(enum_head(h, reg_ty, f), f, n);
    let b = decode_arms_text(decoder_head(h, reg_ty, width, f), f, n);
    assert forall|k: int| 0 <= k < n implies contains(
        t,
        variant_line(#[trigger] f.enum_values@[k]),
    ) && contains(t, arm_line(f.enum_values@[k])) by {
        lemma_named_values(enum_head(h, reg_ty, f), f, n, k);
        lemma_named_values(decoder_head(h, reg_ty, width, f), f, n, k);
        lemma_leads_contains(a, t, variant_line(f.enum_values@[k]));
        lemma_leads_contains(b, t, arm_line(f.enum_values@[k]));
    }
}

proof fn lemma_enums_hold(h: Seq<char>, r: Register, n: nat, j: int)
    requires
        n <= r.fields@.len(),
    ensures
        0 <= j < n ==> holds_values(enums_text(h, r, n), r.fields@[j]),
    decreases n,
{
    broadcast use lemma_leads_self;

    if n > 0 {
        let m = (n - 1) as nat;
        lemma_enums_hold(h, r, m, j);
        let a = enums_text(h, r, m);
        let f = r.fields@[n - 1];
        assert(leads(a, a));
        lead_enum_text(a, a, pascal(r.name@), r.width, f);
        lemma_enum_holds(a, pascal(r.name@), r.width, f);
        if 0 <= j < m && f.enum_values@.len() > 0 {
            lemma_holds_values_leads(a, enums_text(h, r, n), r.fields@[j]);
        }
    }
}

/// Whether a text holds what belongs to the type of a register: the constants of its flags, and
/// the constants, the accessors and the named values of its fields.
pub open spec fn holds_type(t: Seq<char>, r: Register) -> bool {
    &&& forall|k: int|
        0 <= k < r.flags@.len() ==> contains(
            t,
            "    pub const "@ + uppercase((#[trigger] r.flags@[k]).name@) + ": Self = Self(1 << "@
                + decimal(r.flags@[k].bit as nat) + ");\n"@,
        )
    &&& forall|k: int|
        0 <= k < r.fields@.len() ==> holds_field(t, r, #[trigger] r.fields@[k]) && holds_values(
            t,
            r.fields@[k],
        )
}

proof fn lemma_holds_type_leads(o: Seq<char>, t: Seq<char>, r: Register)
    requires
        leads(o, t),
        holds_type(o, r),
    ensures
        holds_type(t, r),
{
    assert forall|k: int| 0 <= k < r.flags@.len() implies contains(
        t,
        "    pub const "@ + uppercase((#[trigger] r.flags@[k]).name@) + ": Self = Self(1 << "@
            + decimal(r.flags@[k].bit as nat) + ");\n"@,
    ) by {
        lemma_leads_contains(
            o,
            t,
            "    pub const "@ + uppercase(r.flags@[k].name@) + ": Self = Self(1 << "@ + decimal(
                r.flags@[k].bit as nat,
            ) + ");\n"@,
        );
    }
    assert forall|k: int| 0 <= k < r.fields@.len() implies holds_field(
        t,
        r,
        #[trigger] r.fields@[k],
    ) && holds_values(t, r.fields@[k]) by {
        let f = r.fields@[k];
        assert(holds_field(o, r, f));
        lemma_holds_values_leads(o, t, f);
        lemma_leads_contains(o, t, mask_line(r, f));
        lemma_leads_contains(o, t, shift_line(f));
        lemma_leads_contains(o, t, getter(r, f));
        if f.access == FieldAccess::Rw {
            lemma_leads_contains(o, t, setter(r, f));
        }
    }
}

proof fn lemma_type_holds(o: Seq<char>, h: Seq<char>, r: Register)
    requires
        leads(o, h),
        r.flags@.len() == 0 || r.fields@.len() == 0,
        forall|i: int| 0 <= i < r.fields@.len() ==> lies_in(bits(#[trigger] r.fields@[i]), r.width),
    ensures
        r.flags@.len() > 0 ==> leads(o, flags_newtype_text(h, r)) && holds_type(
            flags_newtype_text(h, r),
            r,
        ),
        r.fields@.len() > 0 ==> leads(o, fields_newtype_text(h, r)) && holds_type(
            fields_newtype_text(h, r),
            r,
        ),
{
    if r.flags@.len() > 0 {
        lead_flags_newtype_text(o, h, r);
        let a = flag_consts_text(flags_head(h, r), r, r.flags@.len());
        assert(holds_type(a, r)) by {
            assert forall|k: int| 0 <= k < r.flags@.len() implies contains(
                a,
                "    pub const "@ + uppercase((#[trigger] r.flags@[k]).name@)
                    + ": Self = Self(1 << "@ + decimal(r.flags@[k].bit as nat) + ");\n"@,
            ) by {
                lemma_flag_constants(flags_head(h, r), r, r.flags@.len(), k);
            }
        }
        lemma_holds_type_leads(a, flags_newtype_text(h, r), r);
    }
    if r.fields@.len() > 0 {
        lead_fields_newtype_text(o, h, r);
        let n = r.fields@.len();
        let a = fields_text(fields_head(h, r), r, n);
        let t = fields_newtype_text(h, r);
        reveal(fields_newtype_text);
        assert(t == enums_text(a + "}\n"@ + "\n"@, r, n));
        assert forall|k: int| 0 <= k < n implies holds_field(t, r, #[trigger] r.fields@[k])
            && holds_values(t, r.fields@[k]) by {
            let f = r.fields@[k];
            lemma_fields_hold(fields_head(h, r), r, n, k);
            lemma_leads_contains(a, t, mask_line(r, f));
            lemma_leads_contains(a, t, shift_line(f));
            lemma_leads_contains(a, t, getter(r, f));
            if f.access == FieldAccess::Rw {
                lemma_leads_contains(a, t, setter(r, f));
            }
            lemma_enums_hold(a + "}\n"@ + "\n"@, r, n, k);
        }
    }
}

/// The types of a device's registers hold what belongs to each of them.
pub proof fn lemma_types_hold(o: Seq<char>, h: Seq<char>, spec: Spec, n: nat, k: int)
    requires
        leads(o, h),
        is_valid(spec),
        n <= spec.registers@.len(),
    ensures
        leads(o, types_text(h, spec.registers@, n)),
        0 <= k < n ==> holds_type(types_text(h, spec.registers@, n), spec.registers@[k]),
    decreases n,
{
    broadcast use {lemma_leads_more, lemma_leads_self};

    let regs = spec.registers@;
    if n > 0 {
        let m = (n - 1) as nat;
        lemma_types_hold(o, h, spec, m, k);
        let a = types_text(h, regs, m);
        let r = regs[n - 1];
        lemma_valid_register(spec, n - 1);
        assert forall|i: int| 0 <= i < r.fields@.len() implies lies_in(
            bits(#[trigger] r.fields@[i]),
            r.width,
        ) by {
            lemma_valid_field(spec, n - 1, i);
        }
        lemma_type_holds(o, a, r);
        lemma_type_holds(a, a, r);
        if 0 <= k < m {
            lemma_holds_type_leads(a, types_text(h, regs, n), regs[k]);
        }
    }
}

// ---------------------------------------------------------------------------
// The whole module
// ---------------------------------------------------------------------------

/// The struct that mirrors a device's memory.
pub open spec fn struct_text(spec: Spec) -> Seq<char> {
    let order = layout_order(spec.registers@);
    "pub struct "@ + spec.device.name@ + " {\n"@ + items_text(
        items_of(spec.registers@, order, spec.registers@.len()),
    ) + "}\n"@
}

proof fn lemma_layout_text(o: Seq<char>, spec: Spec)
    requires
        layout_fault_from(spec.registers@, layout_order(spec.registers@), 0) is None,
    ensures
        leads(o, layout_text(o, spec)),
        contains(layout_text(o, spec), struct_text(spec)),
{
    broadcast use {lemma_leads_more, lemma_leads_self};

    let regs = spec.registers@;
    let n = regs.len();
    lead_doc_text(o, o, "/// "@, spec.device.description);
    let a = doc_text(o, "/// "@, spec.device.description) + "#[repr(C)]\n"@;
    let b = a + "pub struct "@ + spec.device.name@ + " {\n"@;
    lemma_cells_text(b, regs, n);
    let items = items_text(items_of(regs, layout_order(regs), n));
    let t = layout_text(o, spec);
    assert(t == b + items + "}\n"@ + "\n"@);
    assert(leads(o, t));
    lemma_join3(a, "pub struct "@, spec.device.name@, " {\n"@, items);
    let m = "pub struct "@ + spec.device.name@ + " {\n"@ + items;
    assert(a + m + "}\n"@ =~= a + (m + "}\n"@));
    lemma_contains_middle(a, struct_text(spec), "\n"@);
}

proof fn lemma_holds_all_leads(o: Seq<char>, t: Seq<char>, lines: Seq<Seq<char>>)
    requires
        leads(o, t),
        holds_all(o, lines),
    ensures
        holds_all(t, lines),
{
    assert forall|i: int| 0 <= i < lines.len() implies contains(t, #[trigger] lines[i]) by {
        lemma_leads_contains(o, t, lines[i]);
    }
}

proof fn lemma_leads_step(o: Seq<char>, a: Seq<char>, t: Seq<char>)
    requires
        leads(o, a),
        leads(a, t),
    ensures
        leads(o, t),
{
    reveal(leads);
    lemma_prefix_step(o, a, t);
}

/// What stands in the module before the types.
spec fn module_front(spec: Spec) -> Seq<char> {
    layout_text(coverage_text(header_text(Seq::empty(), spec), spec), spec)
}

/// What stands in the module before the accessors.
spec fn module_types(spec: Spec) -> Seq<char> {
    reserved_bits_text(types_text(module_front(spec), spec.registers@, spec.registers@.len()))
}

proof fn lemma_accessors_lead(o: Seq<char>, spec: Spec)
    ensures
        leads(o, accessors_text(o, spec)),
{
    broadcast use {lemma_leads_more, lemma_leads_self};

    if spec.registers@.len() > 0 {
        lemma_accessors_hold(o, spec, 0);
        reveal(leads);
    } else {
        assert(accessors_text(o, spec) == o + "// ---------- "@ + spec.device.name@
            + " accessors ----------\n"@ + "\n"@ + "impl "@ + spec.device.name@ + " {\n"@ + "}\n"@
            + "\n"@);
    }
}

proof fn lemma_pairs_lead(o: Seq<char>, spec: Spec)
    ensures
        leads(o, pairs_text(o, spec)),
{
    broadcast use {lemma_leads_more, lemma_leads_self};

    if spec.u64_pairs@.len() > 0 {
        lemma_all_pairs_hold(o, spec, 0);
        reveal(leads);
    }
}

proof fn lemma_windows_lead(o: Seq<char>, spec: Spec)
    ensures
        leads(o, windows_text(o, spec)),
{
    broadcast use {lemma_leads_more, lemma_leads_self};

    if spec.windowed@.len() > 0 {
        lemma_all_windows_hold(o, spec, 0);
        reveal(leads);
    }
}

/// The module of a device holds all that belongs to it: the struct in which every register stands
/// at its offset, the types of all registers with flags or fields, and the accessors of all
/// registers, pairs and windows.
pub proof fn lemma_device_holds(spec: Spec)
    requires
        is_valid(spec),
        emit_fault(spec) is None,
    ensures
        contains(device_text(spec), struct_text(spec)),
        forall|k: int|
            0 <= k < spec.registers@.len() ==> holds_type(
                device_text(spec),
                #[trigger] spec.registers@[k],
            ) && holds_all(device_text(spec), register_lines(spec.registers@[k])),
        forall|k: int|
            0 <= k < spec.u64_pairs@.len() ==> holds_all(
                device_text(spec),
                pair_lines(spec.registers@, #[trigger] spec.u64_pairs@[k]),
            ),
        forall|k: int|
            0 <= k < spec.windowed@.len() ==> holds_all(
                device_text(spec),
                window_lines(#[trigger] spec.windowed@[k]),
            ),
{
    let n = spec.registers@.len();
    let whole = device_text(spec);
    let head = coverage_text(header_text(Seq::empty(), spec), spec);
    let front = module_front(spec);
    lemma_layout_text(head, spec);
    let types = types_text(front, spec.registers@, n);
    let a = module_types(spec);
    let b = accessors_text(a, spec);
    let c = pairs_text(b, spec);
    let d = windows_text(c, spec);
    assert(leads(front, front) && leads(types, a)) by {
        broadcast use {lemma_leads_more, lemma_leads_self};

    }
    lemma_types_hold(front, front, spec, n, 0);
    lemma_accessors_lead(a, spec);
    lemma_pairs_lead(b, spec);
    lemma_windows_lead(c, spec);
    assert(leads(d, d)) by {
        broadcast use lemma_leads_self;

    }
    lead_tests_text(d, d, spec);
    lemma_leads_step(c, d, whole);
    lemma_leads_step(b, c, whole);
    lemma_leads_step(a, b, whole);
    lemma_leads_step(types, a, whole);
    lemma_leads_step(front, types, whole);
    lemma_leads_contains(front, whole, struct_text(spec));
    assert forall|k: int| 0 <= k < n implies holds_type(whole, #[trigger] spec.registers@[k])
        && holds_all(whole, register_lines(spec.registers@[k])) by {
        lemma_types_hold(front, front, spec, n, k);
        lemma_holds_type_leads(types, whole, spec.registers@[k]);
        lemma_accessors_hold(a, spec, k);
        lemma_holds_all_leads(b, whole, register_lines(spec.registers@[k]));
    }
    assert forall|k: int| 0 <= k < spec.u64_pairs@.len() implies holds_all(
        whole,
        pair_lines(spec.registers@, #[trigger] spec.u64_pairs@[k]),
    ) by {
        lemma_all_pairs_hold(b, spec, k);
        lemma_holds_all_leads(c, whole, pair_lines(spec.registers@, spec.u64_pairs@[k]));
    }
    assert forall|k: int| 0 <= k < spec.windowed@.len() implies holds_all(
        whole,
        window_lines(#[trigger] spec.windowed@[k]),
    ) by {
        lemma_all_windows_hold(c, spec, k);
        lemma_holds_all_leads(d, whole, window_lines(spec.windowed@[k]));
    }
}

// ---------------------------------------------------------------------------
// The tests of a module
// ---------------------------------------------------------------------------

/// The line that checks a register's offset.
pub open spec fn offset_line(spec: Spec, r: Register) -> Seq<char> {
    "        assert_eq!(offset_of!("@ + spec.device.name@ + ", "@ + r.name@ + "), 0x"@ + hex(
        r.offset as nat,
    ) + ", \""@ + r.name@ + " offset\");\n"@
}

/// The line that checks a flag's bit.
pub open spec fn flag_line(r: Register, k: int) -> Seq<char> {
    "        assert_eq!("@ + pascal(r.name@) + "::"@ + uppercase(r.flags@[k].name@)
        + ".bits(), 1 << "@ + decimal(r.flags@[k].bit as nat) + ", \""@ + r.flags@[k].name@
        + "\");\n"@
}

/// The lines that check that the register of a name stands where a constant says.
pub open spec fn verified_lines(spec: Spec, against: Seq<char>, k: int) -> Seq<char> {
    "            offset_of!("@ + spec.device.name@ + ", "@ + spec.verify_offsets@[k].reg@
        + ") as u64,\n"@ + "            "@ + against + "::"@ + spec.verify_offsets@[k].const_name@
        + "\n"@
}

/// Joining texts is associative.
proof fn lemma_join9(
    h: Seq<char>,
    a: Seq<char>,
    b: Seq<char>,
    c: Seq<char>,
    d: Seq<char>,
    e: Seq<char>,
    f: Seq<char>,
    g: Seq<char>,
    i: Seq<char>,
    j: Seq<char>,
)
    ensures
        h + a + b + c + d + e + f + g + i + j == h + (a + b + c + d + e + f + g + i + j),
{
    crate::text::lemma_join7(h, a, b, c, d, e, f, g);
    let x = a + b + c + d + e + f + g;
    assert(h + x + i + j =~= h + (x + i + j));
}

proof fn lemma_offset_lines(h: Seq<char>, spec: Spec, n: nat, k: int)
    requires
        0 <= k < n <= spec.registers@.len(),
    ensures
        contains(offset_checks_text(h, spec, n), offset_line(spec, spec.registers@[k])),
    decreases n,
{
    let m = (n - 1) as nat;
    let p = offset_checks_text(h, spec, m);
    let whole = offset_checks_text(h, spec, n);
    let r = spec.registers@[m as int];
    lemma_join9(
        p,
        "        assert_eq!(offset_of!("@,
        spec.device.name@,
        ", "@,
        r.name@,
        "), 0x"@,
        hex(r.offset as nat),
        ", \""@,
        r.name@,
        " offset\");\n"@,
    );
    assert(whole == p + offset_line(spec, r));
    lemma_ends_with(p, offset_line(spec, r));
    if k < m {
        lemma_offset_lines(h, spec, m, k);
        lemma_contains_front(p, whole, offset_line(spec, spec.registers@[k]));
    }
}

proof fn lemma_flag_lines(h: Seq<char>, r: Register, n: nat, k: int)
    requires
        0 <= k < n <= r.flags@.len(),
    ensures
        contains(flag_checks_text(h, r, n), flag_line(r, k)),
    decreases n,
{
    let m = (n - 1) as nat;
    let p = flag_checks_text(h, r, m);
    let whole = flag_checks_text(h, r, n);
    let f = r.flags@[m as int];
    lemma_join9(
        p,
        "        assert_eq!("@,
        pascal(r.name@),
        "::"@,
        uppercase(f.name@),
        ".bits(), 1 << "@,
        decimal(f.bit as nat),
        ", \""@,
        f.name@,
        "\");\n"@,
    );
    assert(whole == p + flag_line(r, m as int));
    lemma_ends_with(p, flag_line(r, m as int));
    if k < m {
        lemma_flag_lines(h, r, m, k);
        lemma_contains_front(p, whole, flag_line(r, k));
    }
}

proof fn lemma_flags_test(h: Seq<char>, r: Register, k: int)
    requires
        0 <= k < r.flags@.len(),
    ensures
        contains(flags_tests_text(h, r), flag_line(r, k)),
{
    let a = test_head(h, r.name@, "_flag_bits"@);
    let b = flag_checks_text(a, r, r.flags@.len());
    lemma_flag_lines(a, r, r.flags@.len(), k);
    assert(leads(b, flags_tests_text(h, r))) by {
        broadcast use {lemma_leads_more, lemma_leads_self};

        let c = test_tail(b);
        lead_test_head(b, c, r.name@, "_flag_compose"@);
    }
    lemma_leads_contains(b, flags_tests_text(h, r), flag_line(r, k));
}

proof fn lemma_all_flag_lines(h: Seq<char>, regs: Seq<Register>, n: nat, i: int, k: int)
    requires
        0 <= i < n <= regs.len(),
        0 <= k < regs[i].flags@.len(),
    ensures
        contains(all_flags_tests_text(h, regs, n), flag_line(regs[i], k)),
    decreases n,
{
    let m = (n - 1) as nat;
    let p = all_flags_tests_text(h, regs, m);
    let whole = all_flags_tests_text(h, regs, n);
    if i == m {
        lemma_flags_test(p, regs[i], k);
    } else {
        lemma_all_flag_lines(h, regs, m, i, k);
        assert(leads(p, p)) by {
            broadcast use lemma_leads_self;

        }
        lead_flags_tests_text(p, p, regs[m as int]);
        lemma_leads_contains(p, whole, flag_line(regs[i], k));
    }
}

proof fn lemma_verified(h: Seq<char>, spec: Spec, against: Seq<char>, n: nat, k: int)
    requires
        0 <= k < n <= spec.verify_offsets@.len(),
    ensures
        contains(verify_body(h, spec, against, n), verified_lines(spec, against, k)),
    decreases n,
{
    let m = (n - 1) as nat;
    let p = verify_body(h, spec, against, m);
    let whole = verify_body(h, spec, against, n);
    if k == m {
        let v = spec.verify_offsets@[m as int];
        let q = p + "        const_assert_eq!(\n"@;
        let lines = verified_lines(spec, against, k);
        lemma_join9(
            q,
            "            offset_of!("@,
            spec.device.name@,
            ", "@,
            v.reg@,
            ") as u64,\n"@,
            "            "@,
            against,
            "::"@,
            v.const_name@,
        );
        let x = "            offset_of!("@ + spec.device.name@ + ", "@ + v.reg@ + ") as u64,\n"@
            + "            "@ + against + "::"@ + v.const_name@;
        assert(q + x + "\n"@ =~= q + (x + "\n"@));
        assert(lines == x + "\n"@);
        assert(whole == q + lines + "        );\n"@);
        lemma_contains_middle(q, lines, "        );\n"@);
    } else {
        lemma_verified(h, spec, against, m, k);
        assert(leads(p, whole)) by {
            broadcast use {lemma_leads_more, lemma_leads_self};

        }
        lemma_leads_contains(p, whole, verified_lines(spec, against, k));
    }
}

/// What stands before the offset checks.
spec fn tests_front(h: Seq<char>, spec: Spec) -> Seq<char> {
    let a = h + "#[cfg(test)]\n"@ + "mod tests {\n"@ + "    use super::*;\n"@
        + "    use core::mem::offset_of;\n"@;
    let b = if needs_mock(spec) {
        a + "    use lockjaw_mmio::mock::MockMmioRegion;\n"@
    } else {
        a
    };
    b + "\n"@ + "    #[test]\n"@ + "    fn layout_offsets() {\n"@
}

proof fn lemma_tests_chain(h: Seq<char>, spec: Spec)
    ensures
        ({
            let n = spec.registers@.len();
            let offsets = offset_checks_text(tests_front(h, spec), spec, n);
            let flags = all_flags_tests_text(test_tail(offsets), spec.registers@, n);
            let fields = all_fields_tests_text(flags, spec.registers@, n);
            let pairs = pair_tests_text(fields, spec, spec.u64_pairs@.len());
            let windows = window_tests_text(pairs, spec, spec.windowed@.len());
            let orders = be_tests_text(windows, spec, n);
            let passwords = passwd_tests_text(orders, spec, n);
            let verified = verify_text(passwords, spec);
            &&& leads(offsets, tests_text(h, spec))
            &&& leads(flags, tests_text(h, spec))
            &&& leads(verified, tests_text(h, spec))
            &&& tests_text(h, spec) == verified + "}\n"@
        }),
{
    let n = spec.registers@.len();
    let offsets = offset_checks_text(tests_front(h, spec), spec, n);
    let tail = test_tail(offsets);
    let flags = all_flags_tests_text(tail, spec.registers@, n);
    let fields = all_fields_tests_text(flags, spec.registers@, n);
    let pairs = pair_tests_text(fields, spec, spec.u64_pairs@.len());
    let windows = window_tests_text(pairs, spec, spec.windowed@.len());
    let orders = be_tests_text(windows, spec, n);
    let passwords = passwd_tests_text(orders, spec, n);
    let verified = verify_text(passwords, spec);
    let whole = tests_text(h, spec);
    assert(whole == verified + "}\n"@);
    assert(leads(offsets, tail) && leads(flags, flags) && leads(verified, whole)) by {
        broadcast use {lemma_leads_more, lemma_leads_self};

    }
    lead_all_flags_tests_text(offsets, tail, spec.registers@, n);
    lead_all_fields_tests_text(flags, flags, spec.registers@, n);
    lead_pair_tests_text(flags, fields, spec, spec.u64_pairs@.len());
    lead_window_tests_text(flags, pairs, spec, spec.windowed@.len());
    lead_be_tests_text(flags, windows, spec, n);
    lead_passwd_tests_text(flags, orders, spec, n);
    lead_verify_text(flags, passwords, spec);
    lemma_leads_step(flags, verified, whole);
    lemma_leads_step(offsets, flags, whole);
}

/// The tests of a module check the offset of every register against its own, and the bit of
/// every flag against its own.
pub proof fn lemma_tests_check(spec: Spec, i: int, k: int)
    requires
        0 <= i < spec.registers@.len(),
    ensures
        contains(device_text(spec), offset_line(spec, spec.registers@[i])),
        0 <= k < spec.registers@[i].flags@.len() ==> contains(
            device_text(spec),
            flag_line(spec.registers@[i], k),
        ),
{
    let n = spec.registers@.len();
    let d = windows_text(pairs_text(accessors_text(module_types(spec), spec), spec), spec);
    lemma_tests_chain(d, spec);
    let offsets = offset_checks_text(tests_front(d, spec), spec, n);
    lemma_offset_lines(tests_front(d, spec), spec, n, i);
    lemma_leads_contains(offsets, tests_text(d, spec), offset_line(spec, spec.registers@[i]));
    if 0 <= k < spec.registers@[i].flags@.len() {
        let flags = all_flags_tests_text(test_tail(offsets), spec.registers@, n);
        lemma_all_flag_lines(test_tail(offsets), spec.registers@, n, i, k);
        lemma_leads_contains(flags, tests_text(d, spec), flag_line(spec.registers@[i], k));
    }
}

/// Every offset that is to be verified is, against its own constant.
pub proof fn lemma_tests_verify(spec: Spec, against: String, k: int)
    requires
        spec.device.verify_against == Some(against),
        0 <= k < spec.verify_offsets@.len(),
    ensures
        contains(device_text(spec), verified_lines(spec, against@, k)),
{
    let n = spec.registers@.len();
    let d = windows_text(pairs_text(accessors_text(module_types(spec), spec), spec), spec);
    lemma_tests_chain(d, spec);
    let offsets = offset_checks_text(tests_front(d, spec), spec, n);
    let flags = all_flags_tests_text(test_tail(offsets), spec.registers@, n);
    let fields = all_fields_tests_text(flags, spec.registers@, n);
    let pairs = pair_tests_text(fields, spec, spec.u64_pairs@.len());
    let windows = window_tests_text(pairs, spec, spec.windowed@.len());
    let passwords = passwd_tests_text(be_tests_text(windows, spec, n), spec, n);
    let verified = verify_text(passwords, spec);
    let a = passwords + "    mod _verify {\n"@ + "        use super::*;\n"@
        + "        use static_assertions::const_assert_eq;\n"@;
    let body = verify_body(a, spec, against@, spec.verify_offsets@.len());
    lemma_verified(a, spec, against@, spec.verify_offsets@.len(), k);
    assert(verified == test_tail(body));
    assert(leads(body, verified)) by {
        broadcast use {lemma_leads_more, lemma_leads_self};

    }
    lemma_leads_step(body, verified, tests_text(d, spec));
    lemma_leads_contains(body, tests_text(d, spec), verified_lines(spec, against@, k));
}

} // verus!
