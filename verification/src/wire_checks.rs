//! Which families of structures are accepted, and what a refusal says of the family.

use crate::gen_wires::{
    bytes_before, field_fault, field_largest, fields_fault_from, is_sound, is_valid,
    wire_fault, wires_fault_from, Field, Spec, Wire, WireFault,
};
use vstd::arithmetic::power2::{lemma2_to64, lemma2_to64_rest, pow2};
use vstd::prelude::*;

verus! {

/// Whether a width is one that a number can have.
pub open spec fn is_number_width(width: u8) -> bool {
    width == 8 || width == 16 || width == 32 || width == 64
}

/// Whether a field, its place aside, is in order: its width is that of a number, and a default
/// fits it.
pub open spec fn is_field_sound(f: Field) -> bool {
    is_number_width(f.width) && (f.default is Some ==> (f.default->0) < pow2(f.width as nat))
}

/// Where a field ends.
pub open spec fn end_of_field(f: Field) -> int {
    f.offset + f.width as int / 8
}

/// Where field `k` has to start: at zero, or where the field before it ends.
pub open spec fn start_of(fields: Seq<Field>, k: int) -> int {
    if k == 0 {
        0
    } else {
        end_of_field(fields[k - 1])
    }
}

/// Whether the fields lie behind one another from zero to `size`.
pub open spec fn fills(fields: Seq<Field>, size: int) -> bool {
    &&& fields.len() > 0
    &&& forall|k: int|
        0 <= k < fields.len() ==> (#[trigger] fields[k]).offset == start_of(fields, k)
    &&& end_of_field(fields.last()) == size
}

/// Whether no two fields have the same name.
pub open spec fn named_apart(fields: Seq<Field>) -> bool {
    forall|i: int, j: int|
        0 <= i < j < fields.len() ==> (#[trigger] fields[i]).name@ != (#[trigger] fields[j]).name@
}

/// Whether a structure is as its description says: it has bytes, its fields fill it without a
/// gap, no two share a name, and each has a number's width and a default that fits.
pub open spec fn is_structure(w: Wire) -> bool {
    &&& w.size > 0
    &&& fills(w.fields@, w.size as int)
    &&& named_apart(w.fields@)
    &&& forall|k: int| 0 <= k < w.fields@.len() ==> is_field_sound(#[trigger] w.fields@[k])
}

proof fn lemma_largest(width: u8)
    requires
        is_number_width(width),
    ensures
        field_largest(width) + 1 == pow2(width as nat),
{
    lemma2_to64();
    lemma2_to64_rest();
}

proof fn lemma_no_field_fault(w: Wire, at: usize, i: int, k: int)
    requires
        0 <= i <= k < w.fields@.len(),
        fields_fault_from(w, at, i) is None,
    ensures
        field_fault(w, at, k) is None,
    decreases k - i,
{
    if i < k {
        lemma_no_field_fault(w, at, i + 1, k);
    }
}

proof fn lemma_no_fault_from(w: Wire, at: usize, i: int)
    requires
        0 <= i <= w.fields@.len(),
        forall|k: int| i <= k < w.fields@.len() ==> #[trigger] field_fault(w, at, k) is None,
    ensures
        fields_fault_from(w, at, i) is None,
    decreases w.fields@.len() - i,
{
    if i < w.fields@.len() {
        assert(field_fault(w, at, i) is None);
        lemma_no_fault_from(w, at, i + 1);
    }
}

proof fn lemma_offsets_add_up(fields: Seq<Field>, k: int)
    requires
        0 <= k <= fields.len(),
        forall|j: int|
            0 <= j < k ==> (#[trigger] fields[j]).offset == start_of(fields, j),
    ensures
        bytes_before(fields, k as nat) == start_of(fields, k),
    decreases k,
{
    if k > 0 {
        lemma_offsets_add_up(fields, k - 1);
        assert(fields[k - 1].offset == start_of(fields, k - 1));
    }
}

proof fn lemma_bytes_grow(fields: Seq<Field>, a: nat, b: nat)
    requires
        a <= b,
    ensures
        bytes_before(fields, a) <= bytes_before(fields, b),
    decreases b - a,
{
    if a < b {
        lemma_bytes_grow(fields, a, (b - 1) as nat);
    }
}

proof fn lemma_starts_of_sound(w: Wire, at: usize, k: int)
    requires
        0 <= k <= w.fields@.len(),
        forall|j: int| 0 <= j < k ==> #[trigger] field_fault(w, at, j) is None,
    ensures
        bytes_before(w.fields@, k as nat) == start_of(w.fields@, k),
        forall|j: int|
            0 <= j < k ==> (#[trigger] w.fields@[j]).offset == start_of(w.fields@, j),
    decreases k,
{
    if k > 0 {
        lemma_starts_of_sound(w, at, k - 1);
        assert(field_fault(w, at, k - 1) is None);
    }
}

/// A structure is accepted if and only if it is as its description says.
pub proof fn lemma_sound_iff(w: Wire, at: usize)
    ensures
        wire_fault(w, at) is None <==> is_structure(w),
        is_sound(w) <==> is_structure(w),
{
    lemma_fault_iff(w, at);
    lemma_fault_iff(w, 0);
}

proof fn lemma_fault_iff(w: Wire, at: usize)
    ensures
        wire_fault(w, at) is None <==> is_structure(w),
{
    let n = w.fields@.len() as int;
    if wire_fault(w, at) is None {
        assert forall|j: int| 0 <= j < n implies #[trigger] field_fault(w, at, j) is None by {
            lemma_no_field_fault(w, at, 0, j);
        }
        lemma_starts_of_sound(w, at, n);
        assert forall|k: int| 0 <= k < n implies is_field_sound(#[trigger] w.fields@[k]) by {
            assert(field_fault(w, at, k) is None);
            lemma_largest(w.fields@[k].width);
        }
        assert forall|i: int, j: int| 0 <= i < j < n implies (#[trigger] w.fields@[i]).name@ != (
        #[trigger] w.fields@[j]).name@ by {
            assert(field_fault(w, at, j) is None);
        }
        assert(is_structure(w));
    }
    if is_structure(w) {
        lemma_offsets_add_up(w.fields@, n);
        assert forall|k: int| 0 <= k < n implies #[trigger] field_fault(w, at, k) is None by {
            assert(is_field_sound(w.fields@[k]));
            assert(w.fields@[k].offset == start_of(w.fields@, k));
            lemma_largest(w.fields@[k].width);
            lemma_offsets_add_up(w.fields@, k);
            lemma_offsets_add_up(w.fields@, k + 1);
            lemma_bytes_grow(w.fields@, (k + 1) as nat, n as nat);
        }
        lemma_no_fault_from(w, at, 0);
    }
}

/// Whether no two structures have the same name.
pub open spec fn wires_named_apart(wires: Seq<Wire>) -> bool {
    forall|i: int, j: int|
        0 <= i < j < wires.len() ==> (#[trigger] wires[i]).name@ != (#[trigger] wires[j]).name@
}

proof fn lemma_family_from(wires: Seq<Wire>, i: int)
    requires
        0 <= i <= wires.len(),
    ensures
        wires_fault_from(wires, i) is None <==> forall|k: int|
            i <= k < wires.len() ==> is_structure(#[trigger] wires[k]) && forall|j: int|
                0 <= j < k ==> (#[trigger] wires[j]).name@ != wires[k].name@,
    decreases wires.len() - i,
{
    if i < wires.len() {
        lemma_family_from(wires, i + 1);
        lemma_sound_iff(wires[i], i as usize);
    }
}

/// A family is accepted if and only if every structure is as its description says and no two
/// share a name.
pub proof fn lemma_valid_iff(spec: Spec)
    ensures
        is_valid(spec) <==> wires_named_apart(spec.wire@) && forall|k: int|
            0 <= k < spec.wire@.len() ==> is_structure(#[trigger] spec.wire@[k]),
{
    lemma_family_from(spec.wire@, 0);
    let wires = spec.wire@;
    if wires_named_apart(wires) && forall|k: int|
        0 <= k < wires.len() ==> is_structure(#[trigger] wires[k]) {
        assert(is_valid(spec));
    }
    if is_valid(spec) {
        assert forall|i: int, j: int| 0 <= i < j < wires.len() implies (#[trigger] wires[i]).name@
            != (#[trigger] wires[j]).name@ by {
            assert(is_structure(wires[j]));
        }
    }
}

/// Whether a fault is really one of the family.
pub open spec fn is_fault_of(wires: Seq<Wire>, fault: WireFault) -> bool {
    match fault {
        WireFault::NameTaken { wire } => exists|j: int|
            0 <= j < wire && (#[trigger] wires[j]).name@ == wires[wire as int].name@,
        WireFault::Empty { wire } => wires[wire as int].size == 0,
        WireFault::FieldNameTaken { wire, field } => exists|j: int|
            0 <= j < field && (#[trigger] wires[wire as int].fields@[j]).name@
                == wires[wire as int].fields@[field as int].name@,
        WireFault::FieldWidth { wire, field } => !is_number_width(
            wires[wire as int].fields@[field as int].width,
        ),
        WireFault::FieldOffset { wire, field } => {
            let fields = wires[wire as int].fields@;
            fields[field as int].offset != start_of(fields, field as int)
        },
        WireFault::FieldPastEnd { wire, field } => {
            let w = wires[wire as int];
            end_of_field(w.fields@[field as int]) > w.size
        },
        WireFault::DefaultTooLarge { wire, field } => {
            let f = wires[wire as int].fields@[field as int];
            f.default is Some && f.default->0 >= pow2(f.width as nat)
        },
        WireFault::SizeMismatch { wire } => {
            let w = wires[wire as int];
            w.fields@.len() == 0 || end_of_field(w.fields@.last()) != w.size
        },
    }
}

/// The structure that a fault names.
pub open spec fn wire_of(fault: WireFault) -> usize {
    match fault {
        WireFault::NameTaken { wire } => wire,
        WireFault::Empty { wire } => wire,
        WireFault::FieldNameTaken { wire, .. } => wire,
        WireFault::FieldWidth { wire, .. } => wire,
        WireFault::FieldOffset { wire, .. } => wire,
        WireFault::FieldPastEnd { wire, .. } => wire,
        WireFault::DefaultTooLarge { wire, .. } => wire,
        WireFault::SizeMismatch { wire } => wire,
    }
}

proof fn lemma_field_fault_true(wires: Seq<Wire>, at: int, i: int)
    requires
        0 <= at < wires.len() <= usize::MAX,
        0 <= i <= wires[at].fields@.len(),
        wires[at].fields@.len() <= usize::MAX,
        forall|j: int| 0 <= j < i ==> #[trigger] field_fault(wires[at], at as usize, j) is None,
    ensures
        fields_fault_from(wires[at], at as usize, i) is Some ==> is_fault_of(
            wires,
            fields_fault_from(wires[at], at as usize, i)->0,
        ) && wire_of(fields_fault_from(wires[at], at as usize, i)->0) == at,
    decreases wires[at].fields@.len() - i,
{
    let w = wires[at];
    if i < w.fields@.len() {
        lemma_starts_of_sound(w, at as usize, i);
        if is_number_width(w.fields@[i].width) {
            lemma_largest(w.fields@[i].width);
        }
        if field_fault(w, at as usize, i) is None {
            lemma_field_fault_true(wires, at, i + 1);
        }
    }
}

/// A refusal names the first structure that is at fault, and the fault is one that it has.
pub proof fn lemma_refusal(spec: Spec, i: int)
    requires
        0 <= i <= spec.wire@.len(),
        spec.wire@.len() <= usize::MAX,
        forall|k: int|
            0 <= k < spec.wire@.len() ==> (#[trigger] spec.wire@[k]).fields@.len() <= usize::MAX,
    ensures
        wires_fault_from(spec.wire@, i) matches Some(fault) ==> {
            &&& i <= wire_of(fault) < spec.wire@.len()
            &&& is_fault_of(spec.wire@, fault)
            &&& forall|k: int|
                i <= k < wire_of(fault) ==> is_structure(#[trigger] spec.wire@[k])
        },
    decreases spec.wire@.len() - i,
{
    let wires = spec.wire@;
    if i < wires.len() {
        lemma_sound_iff(wires[i], i as usize);
        lemma_field_fault_true(wires, i, 0);
        let w = wires[i];
        if fields_fault_from(w, i as usize, 0) is None {
            assert forall|j: int| 0 <= j < w.fields@.len() implies #[trigger] field_fault(
                w,
                i as usize,
                j,
            ) is None by {
                lemma_no_field_fault(w, i as usize, 0, j);
            }
            lemma_starts_of_sound(w, i as usize, w.fields@.len() as int);
        }
        lemma_refusal(spec, i + 1);
    }
}

} // verus!
