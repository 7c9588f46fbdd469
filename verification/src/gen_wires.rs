//! Byte-exact structures for memory shared with devices, from declarative descriptions.
//!
//! A family ([`Spec`]) lists structures whose fields tile a byte array without gaps. It
//! is checked ([`validate`]) and turned into the text of a Rust module
//! ([`emit_family`]).

use crate::letter_case::{snake, to_snake};
use crate::numerals::{dec, decimal, padded_hex, padded_hex_of};
use crate::text::same_text;
use crate::writer::{put2, put3, put5, put7, put9};
use vstd::prelude::*;

verus! {

/// A family of structures, which makes up one module.
pub struct Spec {
    pub family: String,
    pub description: Option<String>,
    pub wire: Vec<Wire>,
}

/// One structure.
pub struct Wire {
    pub name: String,
    pub description: Option<String>,
    /// The size in bytes, which the fields must sum up to.
    pub size: usize,
    /// The byte order of fields that declare none.
    pub endian: Endian,
    pub fields: Vec<Field>,
}

pub struct Field {
    pub name: String,
    /// Where the field starts, in bytes.
    pub offset: usize,
    /// The width in bits: 8, 16, 32 or 64.
    pub width: u8,
    pub endian: Option<Endian>,
    /// The value that the constructor always writes, in place of a parameter.
    pub default: Option<u64>,
    pub description: Option<String>,
}

#[derive(Clone, Copy, PartialEq, Eq, Structural)]
pub enum Endian {
    Big,
    Little,
}

impl Endian {
    /// The name of the method that gives a number's bytes in this order.
    pub open spec fn to_bytes_name(self) -> Seq<char> {
        match self {
            Endian::Big => "to_be_bytes"@,
            Endian::Little => "to_le_bytes"@,
        }
    }

    /// The name of the method that reads a number from bytes in this order.
    pub open spec fn from_bytes_name(self) -> Seq<char> {
        match self {
            Endian::Big => "from_be_bytes"@,
            Endian::Little => "from_le_bytes"@,
        }
    }

    /// The short name of this order.
    pub open spec fn label_name(self) -> Seq<char> {
        match self {
            Endian::Big => "BE"@,
            Endian::Little => "LE"@,
        }
    }

    /// The name of the method that gives a number's bytes in this order.
    pub fn to_bytes_method(&self) -> (s: &'static str)
        ensures
            s@ == self.to_bytes_name(),
    {
        match self {
            Endian::Big => "to_be_bytes",
            Endian::Little => "to_le_bytes",
        }
    }

    /// The name of the method that reads a number from bytes in this order.
    pub fn from_bytes_method(&self) -> (s: &'static str)
        ensures
            s@ == self.from_bytes_name(),
    {
        match self {
            Endian::Big => "from_be_bytes",
            Endian::Little => "from_le_bytes",
        }
    }

    /// The short name of this order.
    pub fn label(&self) -> (s: &'static str)
        ensures
            s@ == self.label_name(),
    {
        match self {
            Endian::Big => "BE",
            Endian::Little => "LE",
        }
    }
}

// ---------------------------------------------------------------------------
// Validity
// ---------------------------------------------------------------------------

/// What is wrong with a family; the place is given by indices.
#[derive(Clone, Copy, PartialEq, Eq, Structural)]
pub enum WireFault {
    /// An earlier structure has the same name.
    NameTaken { wire: usize },
    /// The structure has no bytes.
    Empty { wire: usize },
    /// An earlier field of the structure has the same name.
    FieldNameTaken { wire: usize, field: usize },
    /// The width is not 8, 16, 32 or 64.
    FieldWidth { wire: usize, field: usize },
    /// The field does not start where the one before it ends.
    FieldOffset { wire: usize, field: usize },
    /// The field ends beyond the structure.
    FieldPastEnd { wire: usize, field: usize },
    /// The default does not fit in the field.
    DefaultTooLarge { wire: usize, field: usize },
    /// The fields do not fill the structure.
    SizeMismatch { wire: usize },
}

/// The size of a field in bytes.
pub open spec fn field_bytes(f: Field) -> nat {
    (f.width / 8) as nat
}

/// The bytes that the first `n` fields take up.
pub open spec fn bytes_before(fields: Seq<Field>, n: nat) -> nat
    decreases n,
{
    if n == 0 {
        0
    } else {
        bytes_before(fields, (n - 1) as nat) + field_bytes(fields[n - 1])
    }
}

/// Whether a field before `k` has the name of field `k`.
pub open spec fn field_name_taken(fields: Seq<Field>, k: int) -> bool {
    exists|j: int| 0 <= j < k && (#[trigger] fields[j]).name@ == fields[k].name@
}

/// The largest number of a field's width.
pub open spec fn field_largest(width: u8) -> nat {
    if width == 8 {
        0xff
    } else if width == 16 {
        0xffff
    } else if width == 32 {
        0xffff_ffff
    } else {
        0xffff_ffff_ffff_ffff
    }
}

/// What is wrong with field `k` of a structure.
pub open spec fn field_fault(w: Wire, at: usize, k: int) -> Option<WireFault> {
    let f = w.fields@[k];
    let i = k as usize;
    if field_name_taken(w.fields@, k) {
        Some(WireFault::FieldNameTaken { wire: at, field: i })
    } else if !(f.width == 8 || f.width == 16 || f.width == 32 || f.width == 64) {
        Some(WireFault::FieldWidth { wire: at, field: i })
    } else if f.offset != bytes_before(w.fields@, k as nat) {
        Some(WireFault::FieldOffset { wire: at, field: i })
    } else if f.offset + field_bytes(f) > w.size {
        Some(WireFault::FieldPastEnd { wire: at, field: i })
    } else if f.default is Some && f.default->0 > field_largest(f.width) {
        Some(WireFault::DefaultTooLarge { wire: at, field: i })
    } else {
        None
    }
}

/// The first fault among the fields from `k` on.
pub open spec fn fields_fault_from(w: Wire, at: usize, k: int) -> Option<WireFault>
    decreases w.fields@.len() - k,
{
    if k < 0 || k >= w.fields@.len() {
        None
    } else {
        match field_fault(w, at, k) {
            Some(fault) => Some(fault),
            None => fields_fault_from(w, at, k + 1),
        }
    }
}

/// What is wrong with one structure.
pub open spec fn wire_fault(w: Wire, at: usize) -> Option<WireFault> {
    if w.size == 0 {
        Some(WireFault::Empty { wire: at })
    } else if fields_fault_from(w, at, 0) is Some {
        fields_fault_from(w, at, 0)
    } else if bytes_before(w.fields@, w.fields@.len()) != w.size {
        Some(WireFault::SizeMismatch { wire: at })
    } else {
        None
    }
}

/// Whether a structure before `k` has the name of structure `k`.
pub open spec fn wire_name_taken(wires: Seq<Wire>, k: int) -> bool {
    exists|j: int| 0 <= j < k && (#[trigger] wires[j]).name@ == wires[k].name@
}

/// The first fault among the structures from `k` on.
pub open spec fn wires_fault_from(wires: Seq<Wire>, k: int) -> Option<WireFault>
    decreases wires.len() - k,
{
    if k < 0 || k >= wires.len() {
        None
    } else if wire_name_taken(wires, k) {
        Some(WireFault::NameTaken { wire: k as usize })
    } else {
        match wire_fault(wires[k], k as usize) {
            Some(fault) => Some(fault),
            None => wires_fault_from(wires, k + 1),
        }
    }
}

/// Whether a family passes every check.
pub open spec fn is_valid(spec: Spec) -> bool {
    wires_fault_from(spec.wire@, 0) is None
}

/// Whether one structure is sound, its name aside: its fields have different names, one
/// of the four widths each, start where the one before ends, and fill it.
pub open spec fn is_sound(w: Wire) -> bool {
    wire_fault(w, 0) is None
}

fn field_name_seen(fields: &Vec<Field>, k: usize) -> (r: bool)
    requires
        k < fields@.len(),
    ensures
        r == field_name_taken(fields@, k as int),
{
    let mut j: usize = 0;
    while j < k
        invariant
            j <= k < fields@.len(),
            forall|i: int| 0 <= i < j ==> (#[trigger] fields@[i]).name@ != fields@[k as int].name@,
        decreases k - j,
    {
        if same_text(fields[j].name.as_str(), fields[k].name.as_str()) {
            assert(fields@[j as int].name@ == fields@[k as int].name@);
            return true;
        }
        j += 1;
    }
    false
}

fn largest_of(width: u8) -> (r: u64)
    ensures
        r == field_largest(width),
{
    if width == 8 {
        0xff
    } else if width == 16 {
        0xffff
    } else if width == 32 {
        0xffff_ffff
    } else {
        0xffff_ffff_ffff_ffff
    }
}

/// Checks one structure.
pub fn validate_wire(w: &Wire, at: usize) -> (r: Option<WireFault>)
    ensures
        r == wire_fault(*w, at),
{
    if w.size == 0 {
        return Some(WireFault::Empty { wire: at });
    }
    let mut cursor: usize = 0;
    let mut k: usize = 0;
    while k < w.fields.len()
        invariant
            w.size > 0,
            k <= w.fields@.len(),
            cursor <= w.size,
            cursor == bytes_before(w.fields@, k as nat),
            fields_fault_from(*w, at, 0) == fields_fault_from(*w, at, k as int),
        decreases w.fields@.len() - k,
    {
        let f = &w.fields[k];
        if field_name_seen(&w.fields, k) {
            return Some(WireFault::FieldNameTaken { wire: at, field: k });
        }
        if f.width != 8 && f.width != 16 && f.width != 32 && f.width != 64 {
            return Some(WireFault::FieldWidth { wire: at, field: k });
        }
        if f.offset != cursor {
            return Some(WireFault::FieldOffset { wire: at, field: k });
        }
        let bytes: usize = (f.width / 8) as usize;
        if bytes > w.size - cursor {
            return Some(WireFault::FieldPastEnd { wire: at, field: k });
        }
        match f.default {
            Some(d) => {
                if d > largest_of(f.width) {
                    return Some(WireFault::DefaultTooLarge { wire: at, field: k });
                }
            },
            None => {},
        }
        cursor += bytes;
        k += 1;
    }
    if cursor != w.size {
        return Some(WireFault::SizeMismatch { wire: at });
    }
    None
}

fn wire_name_seen(wires: &Vec<Wire>, k: usize) -> (r: bool)
    requires
        k < wires@.len(),
    ensures
        r == wire_name_taken(wires@, k as int),
{
    let mut j: usize = 0;
    while j < k
        invariant
            j <= k < wires@.len(),
            forall|i: int| 0 <= i < j ==> (#[trigger] wires@[i]).name@ != wires@[k as int].name@,
        decreases k - j,
    {
        if same_text(wires[j].name.as_str(), wires[k].name.as_str()) {
            assert(wires@[j as int].name@ == wires@[k as int].name@);
            return true;
        }
        j += 1;
    }
    false
}

/// Checks a family.
pub fn validate(spec: &Spec) -> (r: Result<(), WireFault>)
    ensures
        r is Ok <==> is_valid(*spec),
        r matches Err(fault) ==> wires_fault_from(spec.wire@, 0) == Some(fault),
{
    let mut k: usize = 0;
    while k < spec.wire.len()
        invariant
            k <= spec.wire@.len(),
            wires_fault_from(spec.wire@, 0) == wires_fault_from(spec.wire@, k as int),
        decreases spec.wire@.len() - k,
    {
        if wire_name_seen(&spec.wire, k) {
            return Err(WireFault::NameTaken { wire: k });
        }
        if let Some(fault) = validate_wire(&spec.wire[k], k) {
            return Err(fault);
        }
        k += 1;
    }
    Ok(())
}

proof fn lemma_field_ok(w: Wire, at: usize, i: int, k: int)
    requires
        0 <= i <= k < w.fields@.len(),
        fields_fault_from(w, at, i) is None,
    ensures
        field_fault(w, at, k) is None,
    decreases k - i,
{
    if i < k {
        lemma_field_ok(w, at, i + 1, k);
    }
}

proof fn lemma_fault_place(w: Wire, a: usize, b: usize, k: int)
    requires
        fields_fault_from(w, a, k) is None,
    ensures
        fields_fault_from(w, b, k) is None,
    decreases w.fields@.len() - k,
{
    if 0 <= k < w.fields@.len() {
        lemma_fault_place(w, a, b, k + 1);
    }
}

proof fn lemma_wire_ok(wires: Seq<Wire>, i: int, k: int)
    requires
        0 <= i <= k < wires.len(),
        wires_fault_from(wires, i) is None,
    ensures
        is_sound(wires[k]),
        !wire_name_taken(wires, k),
    decreases k - i,
{
    if i < k {
        lemma_wire_ok(wires, i + 1, k);
    } else {
        lemma_fault_place(wires[k], k as usize, 0, 0);
    }
}

/// Every structure of a valid family is sound, and no two share a name.
pub proof fn lemma_valid_wire(spec: Spec, k: int)
    requires
        is_valid(spec),
        0 <= k < spec.wire@.len(),
    ensures
        is_sound(spec.wire@[k]),
        forall|j: int| 0 <= j < k ==> (#[trigger] spec.wire@[j]).name@ != spec.wire@[k].name@,
{
    lemma_wire_ok(spec.wire@, 0, k);
    assert forall|j: int| 0 <= j < k implies (#[trigger] spec.wire@[j]).name@
        != spec.wire@[k].name@ by {}
}

/// The fields of a sound structure tile it: field `k` starts where the fields before it
/// end, ends within the structure, and the last one ends with it.
pub proof fn lemma_fields_tile(w: Wire, k: int)
    requires
        is_sound(w),
        0 <= k < w.fields@.len(),
    ensures
        w.fields@[k].offset == bytes_before(w.fields@, k as nat),
        w.fields@[k].offset + field_bytes(w.fields@[k]) == bytes_before(w.fields@, (k + 1) as nat),
        w.fields@[k].offset + field_bytes(w.fields@[k]) <= w.size,
        bytes_before(w.fields@, w.fields@.len()) == w.size,
        w.fields@[k].width == 8 || w.fields@[k].width == 16 || w.fields@[k].width == 32
            || w.fields@[k].width == 64,
        !field_name_taken(w.fields@, k),
{
    lemma_field_ok(w, 0, 0, k);
}

proof fn lemma_byte_covered(fields: Seq<Field>, n: nat, b: int)
    requires
        n <= fields.len(),
        0 <= b < bytes_before(fields, n),
    ensures
        exists|k: int|
            0 <= k < n && bytes_before(fields, k as nat) <= b < #[trigger] bytes_before(
                fields,
                (k + 1) as nat,
            ),
    decreases n,
{
    let m = (n - 1) as nat;
    if b < bytes_before(fields, m) {
        lemma_byte_covered(fields, m, b);
        let k = choose|k: int|
            0 <= k < m && bytes_before(fields, k as nat) <= b < #[trigger] bytes_before(
                fields,
                (k + 1) as nat,
            );
        assert(bytes_before(fields, k as nat) <= b < bytes_before(fields, (k + 1) as nat));
    } else {
        assert(bytes_before(fields, m) <= b < bytes_before(fields, (m + 1) as nat));
    }
}

/// Every byte of a sound structure belongs to a field: there is no padding.
pub proof fn lemma_no_padding(w: Wire, b: int)
    requires
        is_sound(w),
        0 <= b < w.size,
    ensures
        exists|k: int|
            0 <= k < w.fields@.len() && (#[trigger] w.fields@[k]).offset <= b
                < w.fields@[k].offset + field_bytes(w.fields@[k]),
{
    let n = w.fields@.len();
    lemma_byte_covered(w.fields@, n, b);
    let k = choose|k: int|
        0 <= k < n && bytes_before(w.fields@, k as nat) <= b < #[trigger] bytes_before(
            w.fields@,
            (k + 1) as nat,
        );
    lemma_fields_tile(w, k);
    assert(w.fields@[k].offset <= b);
}

// ---------------------------------------------------------------------------
// Text
// ---------------------------------------------------------------------------

/// The byte order of a field.
pub open spec fn order_of(w: Wire, f: Field) -> Endian {
    match f.endian {
        Some(e) => e,
        None => w.endian,
    }
}

fn order(w: &Wire, f: &Field) -> (e: Endian)
    ensures
        e == order_of(*w, *f),
{
    match f.endian {
        Some(e) => e,
        None => w.endian,
    }
}

/// Where a field ends.
pub open spec fn field_end(f: Field) -> nat {
    f.offset as nat + field_bytes(f)
}

/// A field's default with its type.
pub open spec fn default_text(f: Field) -> Seq<char> {
    decimal(f.default->0 as nat) + "u"@ + decimal(f.width as nat)
}

fn default_text_of(f: &Field, d: u64) -> (out: String)
    requires
        f.default == Some(d),
    ensures
        out@ == default_text(*f),
{
    let mut out = dec(d);
    let width = dec(f.width as u64);
    put2(&mut out, "u", width.as_str());
    out
}

/// The number of parameters among the first `n` fields: those without a default.
pub open spec fn parameters(fields: Seq<Field>, n: nat) -> nat
    decreases n,
{
    if n == 0 {
        0
    } else if fields[n - 1].default is None {
        parameters(fields, (n - 1) as nat) + 1
    } else {
        parameters(fields, (n - 1) as nat)
    }
}

/// `o` and the parameters among the first `n` fields.
pub open spec fn parameters_text(o: Seq<char>, fields: Seq<Field>, n: nat) -> Seq<char>
    decreases n,
{
    if n == 0 {
        o
    } else {
        let m = (n - 1) as nat;
        let o = parameters_text(o, fields, m);
        let f = fields[m as int];
        if f.default is Some {
            o
        } else {
            let o = if parameters(fields, m) > 0 {
                o + ", "@
            } else {
                o
            };
            o + f.name@ + ": u"@ + decimal(f.width as nat)
        }
    }
}

/// `o` and the stores of the first `n` fields.
pub open spec fn stores_text(o: Seq<char>, w: Wire, n: nat) -> Seq<char>
    decreases n,
{
    if n == 0 {
        o
    } else {
        let f = w.fields@[n - 1];
        let value = if f.default is Some {
            default_text(f)
        } else {
            f.name@
        };
        stores_text(o, w, (n - 1) as nat) + "        b["@ + decimal(f.offset as nat) + ".."@
            + decimal(field_end(f)) + "].copy_from_slice(&"@ + value + "."@ + order_of(
            w,
            f,
        ).to_bytes_name() + "());\n"@
    }
}

/// `o` and the constructor of a structure.
pub open spec fn constructor_text(o: Seq<char>, w: Wire) -> Seq<char> {
    let n = w.fields@.len();
    let o = o + "    /// Construct from host-order values. Byte-order\n"@;
    let o = o + "    /// conversion to the on-wire layout is applied\n"@;
    let o = o + "    /// per field at construction time; the resulting\n"@;
    let o = o + "    /// bytes can be written through `DmaCell::write` to\n"@;
    let o = o + "    /// reach the device.\n"@;
    let o = o + "    pub fn new("@;
    let o = parameters_text(o, w.fields@, n);
    let o = o + ") -> Self {\n"@;
    let o = o + "        let mut b = [0u8; "@ + decimal(w.size as nat) + "];\n"@;
    let o = stores_text(o, w, n);
    let o = o + "        Self(b)\n"@;
    o + "    }\n"@
}

/// `o` and the reader of one field.
pub open spec fn accessor_text(o: Seq<char>, w: Wire, f: Field) -> Seq<char> {
    let width = decimal(f.width as nat);
    let o = match f.description {
        Some(d) => o + "    /// "@ + d@ + "\n"@,
        None => o + "    /// Read the `"@ + f.name@ + "` field as a host-order `u"@ + width
            + "`.\n"@,
    };
    let o = o + "    #[inline(always)]\n"@;
    let o = o + "    pub fn "@ + f.name@ + "(&self) -> u"@ + width + " {\n"@;
    let o = o + "        let mut buf = [0u8; "@ + decimal(field_bytes(f)) + "];\n"@;
    let o = o + "        buf.copy_from_slice(&self.0["@ + decimal(f.offset as nat) + ".."@
        + decimal(field_end(f)) + "]);\n"@;
    let o = o + "        u"@ + width + "::"@ + order_of(w, f).from_bytes_name() + "(buf)\n"@;
    o + "    }\n"@
}

/// `o` and the readers of the first `n` fields.
pub open spec fn accessors_text(o: Seq<char>, w: Wire, n: nat) -> Seq<char>
    decreases n,
{
    if n == 0 {
        o
    } else {
        let o = accessors_text(o, w, (n - 1) as nat);
        let o = if n > 1 {
            o + "\n"@
        } else {
            o
        };
        accessor_text(o, w, w.fields@[n - 1])
    }
}

/// `o` and one structure.
pub open spec fn wire_text(o: Seq<char>, w: Wire) -> Seq<char> {
    let name = w.name@;
    let size = decimal(w.size as nat);
    let o = o + "// ---------- "@ + name + " ----------\n"@;
    let o = o + "\n"@;
    let o = match w.description {
        Some(d) => o + "/// "@ + d@ + "\n"@,
        None => o,
    };
    let o = o + "/// Wire layout: "@ + size + " bytes, "@ + w.endian.label_name()
        + "-endian default.\n"@;
    let o = o + "#[derive(Clone, Copy, Debug)]\n"@;
    let o = o + "#[repr(transparent)]\n"@;
    let o = o + "pub struct "@ + name + "([u8; "@ + size + "]);\n"@;
    let o = o + "\n"@;
    let o = o + "impl "@ + name + " {\n"@;
    let o = constructor_text(o, w);
    let o = o + "\n"@;
    let o = accessors_text(o, w, w.fields@.len());
    let o = o + "}\n"@;
    let o = o + "\n"@;
    let o = o + "dma_value_impl!("@ + name + ", size = "@ + size + ");\n"@;
    o + "\n"@
}

/// `o` and the first `n` structures.
pub open spec fn wires_text(o: Seq<char>, wires: Seq<Wire>, n: nat) -> Seq<char>
    decreases n,
{
    if n == 0 {
        o
    } else {
        wire_text(wires_text(o, wires, (n - 1) as nat), wires[n - 1])
    }
}

/// `o` and the head of the module.
pub open spec fn header_text(o: Seq<char>, spec: Spec, path: Seq<char>) -> Seq<char> {
    let desc = match spec.description {
        Some(d) => d@,
        None => "Wire DTOs"@,
    };
    let o = o + "//! "@ + desc + "\n"@;
    let o = o + "//!\n"@;
    let o = o + "//! GENERATED FILE — do not edit by hand.\n"@;
    let o = o + "//! Source: "@ + path + "\n"@;
    let o = o + "//! Regenerate with: `cargo xtask gen-wires`.\n"@;
    let o = o + "//! Drift is caught by: `cargo xtask gen-wires --check` (CI).\n"@;
    let o = o + "\n"@;
    let o = o + "#![allow(dead_code, missing_docs)]\n"@;
    let o = o + "\n"@;
    let o = o + "use crate::dma_value_impl;\n"@;
    o + "\n"@
}

// ---------------------------------------------------------------------------
// Text of the tests
// ---------------------------------------------------------------------------

/// The value that a test writes to the parameter number `idx` of the given width. Its
/// bytes differ from their reverse, and neighbouring parameters get different values.
pub open spec fn sample(width: u8, idx: nat) -> nat {
    let nudge = idx % 16;
    if width == 8 {
        0x12 + nudge
    } else if width == 16 {
        0x1234 + nudge * 0x10
    } else if width == 32 {
        0x1234_5678 + nudge * 0x1_0000
    } else {
        0x1122_3344_5566_7788 + nudge * 0x1_0000_0000
    }
}

/// The sample of a field shows its byte order: it fits the field, and where the field has more
/// than one byte, the highest byte differs from the lowest, so the bytes are not their own
/// reverse. Parameters whose numbers differ by less than sixteen get different samples.
pub proof fn lemma_sample(width: u8, idx: nat, other: nat)
    requires
        width == 8 || width == 16 || width == 32 || width == 64,
    ensures
        width == 8 ==> sample(width, idx) < 0x100,
        width == 16 ==> sample(width, idx) < 0x1_0000 && sample(width, idx) / 0x100 != sample(
            width,
            idx,
        ) % 0x100,
        width == 32 ==> sample(width, idx) < 0x1_0000_0000 && sample(width, idx) / 0x100_0000
            != sample(width, idx) % 0x100,
        width == 64 ==> sample(width, idx) < 0x1_0000_0000_0000_0000 && sample(width, idx)
            / 0x100_0000_0000_0000 != sample(width, idx) % 0x100,
        idx < other < idx + 16 ==> sample(width, idx) != sample(width, other),
{
}

/// The digits that a sample of the given width is written with.
pub open spec fn sample_digits(width: u8) -> nat {
    (width / 4) as nat
}

/// A sample as it is written in a test.
pub open spec fn sample_text(width: u8, idx: nat) -> Seq<char> {
    "0x"@ + padded_hex(sample(width, idx), sample_digits(width))
}

/// A sample as it is written in a test.
pub fn test_value_for_width(width: u8, field_idx: usize) -> (out: String)
    requires
        width == 8 || width == 16 || width == 32 || width == 64,
    ensures
        out@ == sample_text(width, field_idx as nat),
{
    let nudge: u64 = (field_idx % 16) as u64;
    let (value, digits): (u64, usize) = if width == 8 {
        (0x12 + nudge, 2)
    } else if width == 16 {
        (0x1234 + nudge * 0x10, 4)
    } else if width == 32 {
        (0x1234_5678 + nudge * 0x1_0000, 8)
    } else {
        (0x1122_3344_5566_7788 + nudge * 0x1_0000_0000, 16)
    };
    let mut out = crate::text::copy_of("0x");
    let body = padded_hex_of(value, digits);
    out.append(body.as_str());
    out
}

/// What a test writes to field `k`, with its type.
pub open spec fn written_text(w: Wire, k: int) -> Seq<char> {
    let f = w.fields@[k];
    if f.default is Some {
        default_text(f)
    } else {
        sample_text(f.width, parameters(w.fields@, k as nat)) + "u"@ + decimal(f.width as nat)
    }
}

/// `o` and the arguments for the parameters among the first `n` fields.
pub open spec fn arguments_text(o: Seq<char>, w: Wire, n: nat) -> Seq<char>
    decreases n,
{
    if n == 0 {
        o
    } else {
        let m = (n - 1) as nat;
        let o = arguments_text(o, w, m);
        if w.fields@[m as int].default is Some {
            o
        } else {
            let o = if parameters(w.fields@, m) > 0 {
                o + ", "@
            } else {
                o
            };
            o + written_text(w, m as int)
        }
    }
}

/// `o` and the byte checks of the first `n` fields.
pub open spec fn byte_checks_text(o: Seq<char>, w: Wire, n: nat) -> Seq<char>
    decreases n,
{
    if n == 0 {
        o
    } else {
        let f = w.fields@[n - 1];
        let name = f.name@;
        let order = order_of(w, f);
        let o = byte_checks_text(o, w, (n - 1) as nat);
        let o = o + "        // "@ + name + " field — "@ + order.label_name()
            + "-endian raw bytes\n"@;
        let o = o + "        let mut expected_"@ + name + " = [0u8; "@ + decimal(field_bytes(f))
            + "];\n"@;
        let o = o + "        expected_"@ + name + ".copy_from_slice(&"@ + written_text(w, n - 1)
            + "."@ + order.to_bytes_name() + "());\n"@;
        o + "        assert_eq!(&v.0["@ + decimal(f.offset as nat) + ".."@ + decimal(field_end(f))
            + "], &expected_"@ + name + "[..]);\n"@
    }
}

/// `o` and the read-back checks of the first `n` fields.
pub open spec fn read_checks_text(o: Seq<char>, w: Wire, n: nat) -> Seq<char>
    decreases n,
{
    if n == 0 {
        o
    } else {
        read_checks_text(o, w, (n - 1) as nat) + "        assert_eq!(v."@ + w.fields@[n - 1].name@
            + "(), "@ + written_text(w, n - 1) + ");\n"@
    }
}

/// `o` and the tests of one structure.
pub open spec fn wire_tests_text(o: Seq<char>, w: Wire) -> Seq<char> {
    let name = w.name@;
    let stem = snake(name);
    let n = w.fields@.len();
    let o = o + "    #[test]\n"@;
    let o = o + "    fn "@ + stem + "_size_and_align() {\n"@;
    let o = o + "        assert_eq!(core::mem::size_of::<"@ + name + ">(), "@ + decimal(
        w.size as nat,
    ) + ");\n"@;
    let o = o + "        assert_eq!(core::mem::align_of::<"@ + name + ">(), 1);\n"@;
    let o = o + "    }\n"@;
    let o = o + "\n"@;
    let o = o + "    #[test]\n"@;
    let o = o + "    fn "@ + stem + "_roundtrip() {\n"@;
    let o = o + "        let v = "@ + name + "::new("@;
    let o = arguments_text(o, w, n);
    let o = o + ");\n"@;
    let o = o + "\n"@;
    let o = byte_checks_text(o, w, n);
    let o = o + "\n"@;
    let o = read_checks_text(o, w, n);
    let o = o + "    }\n"@;
    o + "\n"@
}

/// `o` and the tests of the first `n` structures.
pub open spec fn wires_tests_text(o: Seq<char>, wires: Seq<Wire>, n: nat) -> Seq<char>
    decreases n,
{
    if n == 0 {
        o
    } else {
        wire_tests_text(wires_tests_text(o, wires, (n - 1) as nat), wires[n - 1])
    }
}

/// `o` and the test module.
pub open spec fn tests_text(o: Seq<char>, spec: Spec) -> Seq<char> {
    let o = o + "#[cfg(test)]\n"@;
    let o = o + "mod tests {\n"@;
    let o = o + "    use super::*;\n"@;
    let o = o + "\n"@;
    let o = wires_tests_text(o, spec.wire@, spec.wire@.len());
    o + "}\n"@
}

/// The module generated for a family that is described in the file `path`.
pub open spec fn family_text(spec: Spec, path: Seq<char>) -> Seq<char> {
    let o = header_text(Seq::empty(), spec, path);
    let o = wires_text(o, spec.wire@, spec.wire@.len());
    tests_text(o, spec)
}

// ---------------------------------------------------------------------------
// Writing
// ---------------------------------------------------------------------------

fn emit_parameters(out: &mut String, w: &Wire)
    ensures
        final(out)@ == parameters_text(old(out)@, w.fields@, w.fields@.len()),
{
    let ghost o = out@;
    let mut first = true;
    let mut i: usize = 0;
    while i < w.fields.len()
        invariant
            i <= w.fields@.len(),
            first == (parameters(w.fields@, i as nat) == 0),
            out@ == parameters_text(o, w.fields@, i as nat),
        decreases w.fields@.len() - i,
    {
        let f = &w.fields[i];
        if f.default.is_none() {
            if !first {
                out.append(", ");
            }
            let width = dec(f.width as u64);
            put3(out, f.name.as_str(), ": u", width.as_str());
            first = false;
        }
        i += 1;
    }
}

fn emit_stores(out: &mut String, w: &Wire)
    requires
        is_sound(*w),
    ensures
        final(out)@ == stores_text(old(out)@, *w, w.fields@.len()),
{
    let ghost o = out@;
    let mut i: usize = 0;
    while i < w.fields.len()
        invariant
            is_sound(*w),
            i <= w.fields@.len(),
            out@ == stores_text(o, *w, i as nat),
        decreases w.fields@.len() - i,
    {
        let f = &w.fields[i];
        proof {
            lemma_fields_tile(*w, i as int);
        }
        let start = dec(f.offset as u64);
        let end = dec((f.offset + (f.width / 8) as usize) as u64);
        let value = match f.default {
            Some(d) => default_text_of(f, d),
            None => crate::text::copy_of(f.name.as_str()),
        };
        put9(
            out,
            "        b[",
            start.as_str(),
            "..",
            end.as_str(),
            "].copy_from_slice(&",
            value.as_str(),
            ".",
            order(w, f).to_bytes_method(),
            "());\n",
        );
        i += 1;
    }
}

/// Writes the constructor of a structure.
pub fn emit_constructor(out: &mut String, w: &Wire)
    requires
        is_sound(*w),
    ensures
        final(out)@ == constructor_text(old(out)@, *w),
{
    out.append("    /// Construct from host-order values. Byte-order\n");
    out.append("    /// conversion to the on-wire layout is applied\n");
    out.append("    /// per field at construction time; the resulting\n");
    out.append("    /// bytes can be written through `DmaCell::write` to\n");
    out.append("    /// reach the device.\n");
    out.append("    pub fn new(");
    emit_parameters(out, w);
    out.append(") -> Self {\n");
    let size = dec(w.size as u64);
    put3(out, "        let mut b = [0u8; ", size.as_str(), "];\n");
    emit_stores(out, w);
    out.append("        Self(b)\n");
    out.append("    }\n");
}

fn emit_accessor(out: &mut String, w: &Wire, k: usize)
    requires
        is_sound(*w),
        k < w.fields@.len(),
    ensures
        final(out)@ == accessor_text(old(out)@, *w, w.fields@[k as int]),
{
    let f = &w.fields[k];
    proof {
        lemma_fields_tile(*w, k as int);
    }
    let wide = dec(f.width as u64);
    let width = wide.as_str();
    let name = f.name.as_str();
    let bytes = dec((f.width / 8) as u64);
    let start = dec(f.offset as u64);
    let end = dec((f.offset + (f.width / 8) as usize) as u64);
    match &f.description {
        Some(d) => put3(out, "    /// ", d.as_str(), "\n"),
        None => put5(
            out,
            "    /// Read the `",
            name,
            "` field as a host-order `u",
            width,
            "`.\n",
        ),
    }
    out.append("    #[inline(always)]\n");
    put5(out, "    pub fn ", name, "(&self) -> u", width, " {\n");
    put3(out, "        let mut buf = [0u8; ", bytes.as_str(), "];\n");
    put5(
        out,
        "        buf.copy_from_slice(&self.0[",
        start.as_str(),
        "..",
        end.as_str(),
        "]);\n",
    );
    put5(out, "        u", width, "::", order(w, f).from_bytes_method(), "(buf)\n");
    out.append("    }\n");
}

/// Writes the readers of a structure's fields.
pub fn emit_accessors(out: &mut String, w: &Wire)
    requires
        is_sound(*w),
    ensures
        final(out)@ == accessors_text(old(out)@, *w, w.fields@.len()),
{
    let ghost o = out@;
    let mut i: usize = 0;
    while i < w.fields.len()
        invariant
            is_sound(*w),
            i <= w.fields@.len(),
            out@ == accessors_text(o, *w, i as nat),
        decreases w.fields@.len() - i,
    {
        if i > 0 {
            out.append("\n");
        }
        emit_accessor(out, w, i);
        i += 1;
    }
}

/// Writes one structure.
pub fn emit_wire(out: &mut String, w: &Wire)
    requires
        is_sound(*w),
    ensures
        final(out)@ == wire_text(old(out)@, *w),
{
    let name = w.name.as_str();
    let bytes = dec(w.size as u64);
    let size = bytes.as_str();
    put3(out, "// ---------- ", name, " ----------\n");
    out.append("\n");
    match &w.description {
        Some(d) => put3(out, "/// ", d.as_str(), "\n"),
        None => {},
    }
    put5(
        out,
        "/// Wire layout: ",
        size,
        " bytes, ",
        w.endian.label(),
        "-endian default.\n",
    );
    out.append("#[derive(Clone, Copy, Debug)]\n");
    out.append("#[repr(transparent)]\n");
    put5(out, "pub struct ", name, "([u8; ", size, "]);\n");
    out.append("\n");
    put3(out, "impl ", name, " {\n");
    emit_constructor(out, w);
    out.append("\n");
    emit_accessors(out, w);
    out.append("}\n");
    out.append("\n");
    put5(out, "dma_value_impl!(", name, ", size = ", size, ");\n");
    out.append("\n");
}

fn written_of(w: &Wire, k: usize, idx: usize) -> (out: String)
    requires
        is_sound(*w),
        k < w.fields@.len(),
        idx == parameters(w.fields@, k as nat),
    ensures
        out@ == written_text(*w, k as int),
{
    let f = &w.fields[k];
    proof {
        lemma_fields_tile(*w, k as int);
    }
    match f.default {
        Some(d) => default_text_of(f, d),
        None => {
            let mut out = test_value_for_width(f.width, idx);
            let width = dec(f.width as u64);
            put2(&mut out, "u", width.as_str());
            out
        },
    }
}

fn emit_arguments(out: &mut String, w: &Wire)
    requires
        is_sound(*w),
    ensures
        final(out)@ == arguments_text(old(out)@, *w, w.fields@.len()),
{
    let ghost o = out@;
    let mut idx: usize = 0;
    let mut i: usize = 0;
    while i < w.fields.len()
        invariant
            is_sound(*w),
            i <= w.fields@.len(),
            idx <= i,
            idx == parameters(w.fields@, i as nat),
            out@ == arguments_text(o, *w, i as nat),
        decreases w.fields@.len() - i,
    {
        if w.fields[i].default.is_none() {
            if idx > 0 {
                out.append(", ");
            }
            let value = written_of(w, i, idx);
            out.append(value.as_str());
            idx += 1;
        }
        i += 1;
    }
}

fn emit_byte_checks(out: &mut String, w: &Wire)
    requires
        is_sound(*w),
    ensures
        final(out)@ == byte_checks_text(old(out)@, *w, w.fields@.len()),
{
    let ghost o = out@;
    let mut idx: usize = 0;
    let mut i: usize = 0;
    while i < w.fields.len()
        invariant
            is_sound(*w),
            i <= w.fields@.len(),
            idx <= i,
            idx == parameters(w.fields@, i as nat),
            out@ == byte_checks_text(o, *w, i as nat),
        decreases w.fields@.len() - i,
    {
        let f = &w.fields[i];
        proof {
            lemma_fields_tile(*w, i as int);
        }
        let name = f.name.as_str();
        let bytes = dec((f.width / 8) as u64);
        let start = dec(f.offset as u64);
        let end = dec((f.offset + (f.width / 8) as usize) as u64);
        let e = order(w, f);
        let value = written_of(w, i, idx);
        put5(out, "        // ", name, " field — ", e.label(), "-endian raw bytes\n");
        put5(out, "        let mut expected_", name, " = [0u8; ", bytes.as_str(), "];\n");
        put7(
            out,
            "        expected_",
            name,
            ".copy_from_slice(&",
            value.as_str(),
            ".",
            e.to_bytes_method(),
            "());\n",
        );
        put7(
            out,
            "        assert_eq!(&v.0[",
            start.as_str(),
            "..",
            end.as_str(),
            "], &expected_",
            name,
            "[..]);\n",
        );
        if f.default.is_none() {
            idx += 1;
        }
        i += 1;
    }
}

fn emit_read_checks(out: &mut String, w: &Wire)
    requires
        is_sound(*w),
    ensures
        final(out)@ == read_checks_text(old(out)@, *w, w.fields@.len()),
{
    let ghost o = out@;
    let mut idx: usize = 0;
    let mut i: usize = 0;
    while i < w.fields.len()
        invariant
            is_sound(*w),
            i <= w.fields@.len(),
            idx <= i,
            idx == parameters(w.fields@, i as nat),
            out@ == read_checks_text(o, *w, i as nat),
        decreases w.fields@.len() - i,
    {
        let value = written_of(w, i, idx);
        put5(
            out,
            "        assert_eq!(v.",
            w.fields[i].name.as_str(),
            "(), ",
            value.as_str(),
            ");\n",
        );
        if w.fields[i].default.is_none() {
            idx += 1;
        }
        i += 1;
    }
}

/// Writes the tests of one structure.
pub fn emit_wire_tests(out: &mut String, w: &Wire)
    requires
        is_sound(*w),
    ensures
        final(out)@ == wire_tests_text(old(out)@, *w),
{
    let name = w.name.as_str();
    let stem = to_snake(name);
    let size = dec(w.size as u64);
    out.append("    #[test]\n");
    put3(out, "    fn ", stem.as_str(), "_size_and_align() {\n");
    put5(
        out,
        "        assert_eq!(core::mem::size_of::<",
        name,
        ">(), ",
        size.as_str(),
        ");\n",
    );
    put3(out, "        assert_eq!(core::mem::align_of::<", name, ">(), 1);\n");
    out.append("    }\n");
    out.append("\n");
    out.append("    #[test]\n");
    put3(out, "    fn ", stem.as_str(), "_roundtrip() {\n");
    put3(out, "        let v = ", name, "::new(");
    emit_arguments(out, w);
    out.append(");\n");
    out.append("\n");
    emit_byte_checks(out, w);
    out.append("\n");
    emit_read_checks(out, w);
    out.append("    }\n");
    out.append("\n");
}

/// Writes the test module.
pub fn emit_tests(out: &mut String, spec: &Spec)
    requires
        is_valid(*spec),
    ensures
        final(out)@ == tests_text(old(out)@, *spec),
{
    out.append("#[cfg(test)]\n");
    out.append("mod tests {\n");
    out.append("    use super::*;\n");
    out.append("\n");
    let ghost o = out@;
    let mut i: usize = 0;
    while i < spec.wire.len()
        invariant
            is_valid(*spec),
            i <= spec.wire@.len(),
            out@ == wires_tests_text(o, spec.wire@, i as nat),
        decreases spec.wire@.len() - i,
    {
        proof {
            lemma_valid_wire(*spec, i as int);
        }
        emit_wire_tests(out, &spec.wire[i]);
        i += 1;
    }
    out.append("}\n");
}

fn emit_header(out: &mut String, spec: &Spec, path: &str)
    ensures
        final(out)@ == header_text(old(out)@, *spec, path@),
{
    match &spec.description {
        Some(d) => put3(out, "//! ", d.as_str(), "\n"),
        None => put3(out, "//! ", "Wire DTOs", "\n"),
    }
    out.append("//!\n");
    out.append("//! GENERATED FILE — do not edit by hand.\n");
    put3(out, "//! Source: ", path, "\n");
    out.append("//! Regenerate with: `cargo xtask gen-wires`.\n");
    out.append("//! Drift is caught by: `cargo xtask gen-wires --check` (CI).\n");
    out.append("\n");
    out.append("#![allow(dead_code, missing_docs)]\n");
    out.append("\n");
    out.append("use crate::dma_value_impl;\n");
    out.append("\n");
}

/// Generates the module for a family that is described in the file `path`.
pub fn emit_family(spec: &Spec, path: &str) -> (out: String)
    requires
        is_valid(*spec),
    ensures
        out@ == family_text(*spec, path@),
{
    let mut out = String::new();
    emit_header(&mut out, spec, path);
    let ghost o = out@;
    let mut i: usize = 0;
    while i < spec.wire.len()
        invariant
            is_valid(*spec),
            i <= spec.wire@.len(),
            out@ == wires_text(o, spec.wire@, i as nat),
        decreases spec.wire@.len() - i,
    {
        proof {
            lemma_valid_wire(*spec, i as int);
        }
        emit_wire(&mut out, &spec.wire[i]);
        i += 1;
    }
    emit_tests(&mut out, spec);
    out
}

} // verus!
