//! What the generated structures hold: which bytes a constructor stores, and what the readers
//! make of them.

use crate::gen_wires::{
    accessor_text, accessors_text, arguments_text, byte_checks_text, bytes_before,
    constructor_text, family_text, field_bytes, header_text, is_sound, lemma_fields_tile, order_of,
    parameters, parameters_text, read_checks_text, stores_text, tests_text, wire_tests_text,
    wire_text, wires_tests_text, wires_text, written_text, Endian, Field, Spec, Wire,
};
use crate::numerals::decimal;
use crate::text::{
    contains, leads, lemma_contains_front, lemma_ends_with, lemma_join3, lemma_join5, lemma_join7,
    lemma_leads_contains, lemma_leads_more, lemma_leads_self, lemma_prefix1, lemma_prefix3,
    lemma_prefix5, lemma_prefix_self, lemma_prefix_step,
};
use vstd::prelude::*;

verus! {

// ---------------------------------------------------------------------------
// Bytes of numbers
// ---------------------------------------------------------------------------

/// `256` to the power of `n`.
pub open spec fn pow256(n: nat) -> nat
    decreases n,
{
    if n == 0 {
        1
    } else {
        256 * pow256((n - 1) as nat)
    }
}

pub proof fn lemma_pow256_positive(n: nat)
    ensures
        pow256(n) > 0,
    decreases n,
{
    if n > 0 {
        lemma_pow256_positive((n - 1) as nat);
    }
}

/// The `n` bytes of a number, the most significant first or last.
pub open spec fn number_bytes(v: nat, n: nat, big: bool) -> Seq<nat> {
    Seq::new(
        n,
        |i: int|
            if big {
                (v / pow256((n - 1 - i) as nat)) % 256
            } else {
                (v / pow256(i as nat)) % 256
            },
    )
}

/// The number that bytes make up, the last the most significant.
pub open spec fn little_number(b: Seq<nat>) -> nat
    decreases b.len(),
{
    if b.len() == 0 {
        0
    } else {
        b[0] + 256 * little_number(b.skip(1))
    }
}

/// The number that bytes make up.
pub open spec fn bytes_number(b: Seq<nat>, big: bool) -> nat {
    if big {
        little_number(b.reverse())
    } else {
        little_number(b)
    }
}

proof fn lemma_little(v: nat, n: nat)
    ensures
        little_number(number_bytes(v, n, false)) == v % pow256(n),
        pow256(n) > 0,
    decreases n,
{
    let b = number_bytes(v, n, false);
    if n > 0 {
        let m = (n - 1) as nat;
        lemma_little(v / 256, m);
        let p = pow256(m);
        let rest = number_bytes(v / 256, m, false);
        assert(b.skip(1) =~= rest) by {
            assert forall|i: int| 0 <= i < m implies b.skip(1)[i] == rest[i] by {
                let k = pow256(i as nat);
                assert(pow256((i + 1) as nat) == 256 * k);
                lemma_little(0, i as nat);
                vstd::arithmetic::div_mod::lemma_div_denominator(v as int, 256, k as int);
            }
        }
        assert(pow256(0) == 1);
        assert(b[0] == (v / 1) % 256);
        assert(v % (256 * p) == v % 256 + 256 * ((v / 256) % p)) by {
            vstd::arithmetic::div_mod::lemma_mod_breakdown(v as int, 256, p as int);
        }
    } else {
        assert(v % 1 == 0);
    }
}

/// The bytes of a number, in either order, make up the number again.
pub proof fn lemma_bytes_back(v: nat, n: nat, big: bool)
    requires
        v < pow256(n),
    ensures
        bytes_number(number_bytes(v, n, big), big) == v,
{
    lemma_little(v, n);
    vstd::arithmetic::div_mod::lemma_small_mod(v, pow256(n));
    if big {
        assert(number_bytes(v, n, true).reverse() =~= number_bytes(v, n, false));
    }
}

/// In a number that is stored with the most significant byte first, the first byte is the
/// highest; in one that is stored with it last, the first is the lowest.
pub proof fn lemma_first_byte(v: nat, n: nat)
    requires
        n > 0,
    ensures
        number_bytes(v, n, true)[0] == (v / pow256((n - 1) as nat)) % 256,
        number_bytes(v, n, false)[0] == v % 256,
{
    assert(pow256(0) == 1);
    assert(v / 1 == v);
}

// ---------------------------------------------------------------------------
// The statements
// ---------------------------------------------------------------------------

/// Whether a field is stored with its most significant byte first: its own order where it has
/// one, and the structure's where it has none.
pub open spec fn is_big(w: Wire, f: Field) -> bool {
    f.endian == Some(Endian::Big) || f.endian is None && w.endian == Endian::Big
}

/// A statement that stores a value's bytes.
pub struct Store {
    pub from: nat,
    pub to: nat,
    /// The value, as it is spelled.
    pub value: Seq<char>,
    pub big: bool,
}

/// How such a statement is spelled.
pub open spec fn store_line(s: Store) -> Seq<char> {
    "        b["@ + decimal(s.from) + ".."@ + decimal(s.to) + "].copy_from_slice(&"@ + s.value + (
    if s.big {
        ".to_be_bytes"@
    } else {
        ".to_le_bytes"@
    }) + "());\n"@
}

/// How the first `n` such statements are spelled.
pub open spec fn store_lines(v: Seq<Store>, n: nat) -> Seq<char>
    decreases n,
{
    if n == 0 {
        Seq::empty()
    } else {
        store_lines(v, (n - 1) as nat) + store_line(v[n - 1])
    }
}

/// The store of one field: to its own bytes, of its parameter or its default.
pub open spec fn store_of(w: Wire, k: int) -> Store {
    let f = w.fields@[k];
    Store {
        from: f.offset as nat,
        to: f.offset as nat + f.width as nat / 8,
        value: match f.default {
            Some(d) => decimal(d as nat) + "u"@ + decimal(f.width as nat),
            None => f.name@,
        },
        big: is_big(w, f),
    }
}

/// The stores of all fields, in order.
pub open spec fn stores_of(w: Wire) -> Seq<Store> {
    Seq::new(w.fields@.len(), |k: int| store_of(w, k))
}

proof fn lemma_order_spelling(w: Wire, f: Field)
    ensures
        "."@ + order_of(w, f).to_bytes_name() == if is_big(w, f) {
            ".to_be_bytes"@
        } else {
            ".to_le_bytes"@
        },
        order_of(w, f).from_bytes_name() == if is_big(w, f) {
            "from_be_bytes"@
        } else {
            "from_le_bytes"@
        },
{
    reveal_strlit(".");
    reveal_strlit("to_be_bytes");
    reveal_strlit("to_le_bytes");
    reveal_strlit(".to_be_bytes");
    reveal_strlit(".to_le_bytes");
    assert("."@ + "to_be_bytes"@ =~= ".to_be_bytes"@);
    assert("."@ + "to_le_bytes"@ =~= ".to_le_bytes"@);
}

proof fn lemma_store_lines(o: Seq<char>, w: Wire, n: nat)
    requires
        n <= w.fields@.len(),
    ensures
        stores_text(o, w, n) == o + store_lines(stores_of(w), n),
    decreases n,
{
    if n == 0 {
        assert(o + Seq::<char>::empty() =~= o);
    } else {
        let m = (n - 1) as nat;
        lemma_store_lines(o, w, m);
        let f = w.fields@[n - 1];
        lemma_order_spelling(w, f);
        let s = store_of(w, n - 1);
        let lines = store_lines(stores_of(w), m);
        let p = o + lines;
        let name = order_of(w, f).to_bytes_name();
        let tail = "."@ + name;
        let end = "());\n"@;
        let from = decimal(s.from);
        let to = decimal(s.to);
        lemma_join5(p, "        b["@, from, ".."@, to, "].copy_from_slice(&"@, s.value);
        let front = "        b["@ + from + ".."@ + to + "].copy_from_slice(&"@ + s.value;
        lemma_join2(p + front, "."@, name);
        assert(stores_text(o, w, n) == p + front + tail + end);
        assert(store_line(s) == front + tail + end);
        lemma_join2(p, front, tail);
        lemma_join2(p, front + tail, end);
        lemma_join2(o, lines, store_line(s));
    }
}

/// Joining texts is associative.
proof fn lemma_join2(h: Seq<char>, a: Seq<char>, b: Seq<char>)
    ensures
        h + a + b == h + (a + b),
{
    assert(h + a + b =~= h + (a + b));
}

// ---------------------------------------------------------------------------
// What they do
// ---------------------------------------------------------------------------

/// The bytes with those from `at` on replaced.
pub open spec fn overwritten(b: Seq<nat>, at: nat, bytes: Seq<nat>) -> Seq<nat> {
    Seq::new(
        b.len(),
        |i: int|
            if at <= i < at + bytes.len() {
                bytes[i - at]
            } else {
                b[i]
            },
    )
}

/// The bytes after the first `n` stores, which store the given values, into zeros.
pub open spec fn built(w: Wire, values: Seq<nat>, n: nat) -> Seq<nat>
    decreases n,
{
    if n == 0 {
        Seq::new(w.size as nat, |i: int| 0)
    } else {
        let s = store_of(w, n - 1);
        overwritten(
            built(w, values, (n - 1) as nat),
            s.from,
            number_bytes(values[n - 1], (s.to - s.from) as nat, s.big),
        )
    }
}

proof fn lemma_built(w: Wire, values: Seq<nat>, n: nat, k: int)
    requires
        is_sound(w),
        0 <= k < n <= w.fields@.len(),
        values.len() == w.fields@.len(),
    ensures
        built(w, values, n).len() == w.size,
        ({
            let s = store_of(w, k);
            &&& s.from <= s.to <= w.size
            &&& built(w, values, n).subrange(s.from as int, s.to as int) == number_bytes(
                values[k],
                (s.to - s.from) as nat,
                s.big,
            )
        }),
    decreases n,
{
    lemma_fields_tile(w, k);
    lemma_fields_tile(w, n - 1);
    let m = (n - 1) as nat;
    let s = store_of(w, k);
    let t = store_of(w, n - 1);
    lemma_built_len(w, values, n);
    lemma_built_len(w, values, m);
    lemma_ends(w, k);
    lemma_ends(w, n - 1);
    let size = (s.to - s.from) as nat;
    let want = number_bytes(values[k], size, s.big);
    let now = built(w, values, n);
    if k == n - 1 {
        assert(now.subrange(s.from as int, s.to as int) =~= want);
    } else {
        lemma_built(w, values, m, k);
        lemma_before_grows(w.fields@, (k + 1) as nat, m);
        let before = built(w, values, m);
        assert forall|i: int| s.from <= i < s.to implies now[i] == before[i] by {}
        assert(now.subrange(s.from as int, s.to as int) =~= before.subrange(
            s.from as int,
            s.to as int,
        ));
    }
}

proof fn lemma_before_grows(fields: Seq<Field>, i: nat, j: nat)
    requires
        i <= j <= fields.len(),
    ensures
        bytes_before(fields, i) <= bytes_before(fields, j),
    decreases j,
{
    if i < j {
        lemma_before_grows(fields, i, (j - 1) as nat);
    }
}

proof fn lemma_built_len(w: Wire, values: Seq<nat>, n: nat)
    ensures
        built(w, values, n).len() == w.size,
    decreases n,
{
    if n > 0 {
        lemma_built_len(w, values, (n - 1) as nat);
    }
}

proof fn lemma_ends(w: Wire, k: int)
    requires
        is_sound(w),
        0 <= k < w.fields@.len(),
    ensures
        store_of(w, k).to <= w.size,
{
    lemma_fields_tile(w, k);
}

/// What a constructor builds is what the readers read: for every field, the bytes where it
/// lies are its value's bytes in the order that the field or else the structure declares, and
/// reading them in that order gives the value back.
pub proof fn lemma_built_then_read(w: Wire, values: Seq<nat>, k: int)
    requires
        is_sound(w),
        values.len() == w.fields@.len(),
        0 <= k < w.fields@.len(),
        values[k] < pow256((w.fields@[k].width / 8) as nat),
    ensures
        ({
            let f = w.fields@[k];
            let from = f.offset as int;
            let to = f.offset + f.width / 8;
            let bytes = built(w, values, w.fields@.len()).subrange(from, to);
            let big = f.endian == Some(Endian::Big) || f.endian is None && w.endian == Endian::Big;
            &&& bytes == number_bytes(values[k], (f.width / 8) as nat, big)
            &&& bytes_number(bytes, big) == values[k]
        }),
{
    lemma_built(w, values, w.fields@.len(), k);
    lemma_bytes_back(values[k], (w.fields@[k].width / 8) as nat, is_big(w, w.fields@[k]));
}

// ---------------------------------------------------------------------------
// The parameters of a constructor
// ---------------------------------------------------------------------------

/// The fields among the first `n` that a constructor takes a value for, in order: those without
/// a default.
pub open spec fn taken(fields: Seq<Field>, n: nat) -> Seq<Field>
    decreases n,
{
    if n == 0 {
        Seq::empty()
    } else if fields[n - 1].default is None {
        taken(fields, (n - 1) as nat).push(fields[n - 1])
    } else {
        taken(fields, (n - 1) as nat)
    }
}

/// The first `n` of a list of parameters, with commas between them.
pub open spec fn listed(v: Seq<Field>, n: nat) -> Seq<char>
    decreases n,
{
    if n == 0 {
        Seq::empty()
    } else {
        listed(v, (n - 1) as nat) + (if n > 1 {
            ", "@
        } else {
            Seq::empty()
        }) + v[n - 1].name@ + ": u"@ + decimal(v[n - 1].width as nat)
    }
}

proof fn lemma_listed_prefix(a: Seq<Field>, b: Seq<Field>, n: nat)
    requires
        n <= a.len(),
        a.is_prefix_of(b),
    ensures
        listed(a, n) == listed(b, n),
    decreases n,
{
    if n > 0 {
        lemma_listed_prefix(a, b, (n - 1) as nat);
        assert(a[n - 1] == b.subrange(0, a.len() as int)[n - 1]);
    }
}

/// A constructor takes one parameter, of the field's name and type, for each field without a
/// default, in the order of the fields.
pub proof fn lemma_parameters_text(o: Seq<char>, fields: Seq<Field>, n: nat)
    requires
        n <= fields.len(),
    ensures
        parameters(fields, n) == taken(fields, n).len(),
        parameters_text(o, fields, n) == o + listed(taken(fields, n), taken(fields, n).len()),
    decreases n,
{
    if n == 0 {
        assert(o + Seq::<char>::empty() =~= o);
    } else {
        let m = (n - 1) as nat;
        lemma_parameters_text(o, fields, m);
        let f = fields[n - 1];
        let less = taken(fields, m);
        if f.default is None {
            let all = less.push(f);
            assert(less =~= all.subrange(0, less.len() as int));
            lemma_listed_prefix(less, all, less.len());
            let comma = if all.len() > 1 {
                ", "@
            } else {
                Seq::empty()
            };
            let front = listed(less, less.len());
            assert(o + front + Seq::<char>::empty() =~= o + front);
            assert(parameters_text(o, fields, n) =~= o + front + comma + f.name@ + ": u"@ + decimal(
                f.width as nat,
            ));
            assert(o + front + comma + f.name@ + ": u"@ + decimal(f.width as nat) =~= o + (front
                + comma + f.name@ + ": u"@ + decimal(f.width as nat)));
            assert(listed(all, all.len()) == front + comma + f.name@ + ": u"@ + decimal(
                f.width as nat,
            ));
        }
    }
}

// ---------------------------------------------------------------------------
// The module
// ---------------------------------------------------------------------------

/// What a constructor does, as it is spelled.
pub open spec fn builder_text(w: Wire) -> Seq<char> {
    "    pub fn new("@ + listed(taken(w.fields@, w.fields@.len()), taken(
        w.fields@,
        w.fields@.len(),
    ).len()) + ") -> Self {\n"@ + "        let mut b = [0u8; "@ + decimal(w.size as nat) + "];\n"@
        + store_lines(stores_of(w), w.fields@.len()) + "        Self(b)\n"@ + "    }\n"@
}

/// What a reader does, as it is spelled.
pub open spec fn reader_text(w: Wire, f: Field) -> Seq<char> {
    "    pub fn "@ + f.name@ + "(&self) -> u"@ + decimal(f.width as nat) + " {\n"@
        + "        let mut buf = [0u8; "@ + decimal((f.width / 8) as nat) + "];\n"@
        + "        buf.copy_from_slice(&self.0["@ + decimal(f.offset as nat) + ".."@ + decimal(
        f.offset as nat + f.width as nat / 8,
    ) + "]);\n"@ + "        u"@ + decimal(f.width as nat) + "::"@ + (if is_big(w, f) {
        "from_be_bytes"@
    } else {
        "from_le_bytes"@
    }) + "(buf)\n"@ + "    }\n"@
}

/// A constructor starts from zeros and stores the fields, each to its own bytes, in order, and
/// with the byte order that the field or else the structure declares.
pub proof fn lemma_constructor_holds(o: Seq<char>, w: Wire)
    ensures
        o.is_prefix_of(constructor_text(o, w)),
        contains(constructor_text(o, w), builder_text(w)),
{
    let n = w.fields@.len();
    let o1 = o + "    /// Construct from host-order values. Byte-order\n"@;
    let o2 = o1 + "    /// conversion to the on-wire layout is applied\n"@;
    let o3 = o2 + "    /// per field at construction time; the resulting\n"@;
    let o4 = o3 + "    /// bytes can be written through `DmaCell::write` to\n"@;
    let o5 = o4 + "    /// reach the device.\n"@;
    lemma_parameters_text(o5 + "    pub fn new("@, w.fields@, n);
    let first = "    pub fn new("@;
    let list = listed(taken(w.fields@, n), taken(w.fields@, n).len());
    let close = ") -> Self {\n"@;
    let zero = "        let mut b = [0u8; "@;
    let size = decimal(w.size as nat);
    let end = "];\n"@;
    let o7 = o5 + first + list + close + zero + size + end;
    lemma_store_lines(o7, w, n);
    let stores = store_lines(stores_of(w), n);
    let done = "        Self(b)\n"@;
    let brace = "    }\n"@;
    assert(constructor_text(o, w) == o7 + stores + done + brace);
    lemma_join5(o5, first, list, close, zero, size, end);
    let m = first + list + close + zero + size + end;
    lemma_join3(o5, m, stores, done, brace);
    assert(builder_text(w) == m + stores + done + brace);
    lemma_ends_with(o5, builder_text(w));
    assert(o =~= o5.subrange(0, o.len() as int));
    lemma_prefix_step(o, o5, constructor_text(o, w));
}

/// A reader takes the field's own bytes and reads them in the byte order that the field or else
/// the structure declares.
pub proof fn lemma_accessor_holds(o: Seq<char>, w: Wire, f: Field)
    ensures
        o.is_prefix_of(accessor_text(o, w, f)),
        contains(accessor_text(o, w, f), reader_text(w, f)),
{
    lemma_order_spelling(w, f);
    let width = decimal(f.width as nat);
    let o1 = match f.description {
        Some(d) => o + "    /// "@ + d@ + "\n"@,
        None => o + "    /// Read the `"@ + f.name@ + "` field as a host-order `u"@ + width
            + "`.\n"@,
    };
    let head = o1 + "    #[inline(always)]\n"@;
    let bytes = decimal((f.width / 8) as nat);
    let from = decimal(f.offset as nat);
    let to = decimal(f.offset as nat + f.width as nat / 8);
    let order = if is_big(w, f) {
        "from_be_bytes"@
    } else {
        "from_le_bytes"@
    };
    let a = "    pub fn "@;
    lemma_join3(head, a, f.name@, "(&self) -> u"@, width);
    let b = a + f.name@ + "(&self) -> u"@ + width;
    lemma_join3(head, b, " {\n"@, "        let mut buf = [0u8; "@, bytes);
    let c = b + " {\n"@ + "        let mut buf = [0u8; "@ + bytes;
    lemma_join5(
        head,
        c,
        "];\n"@,
        "        buf.copy_from_slice(&self.0["@,
        from,
        ".."@,
        to,
    );
    let d = c + "];\n"@ + "        buf.copy_from_slice(&self.0["@ + from + ".."@ + to;
    lemma_join3(head, d, "]);\n"@, "        u"@, width);
    let e = d + "]);\n"@ + "        u"@ + width;
    lemma_join3(head, e, "::"@, order, "(buf)\n"@);
    let g = e + "::"@ + order + "(buf)\n"@;
    assert(head + g + "    }\n"@ =~= head + (g + "    }\n"@));
    assert(reader_text(w, f) == g + "    }\n"@);
    assert(accessor_text(o, w, f) == head + g + "    }\n"@);
    lemma_ends_with(head, reader_text(w, f));
    assert(o =~= head.subrange(0, o.len() as int));
    lemma_prefix_step(o, head, accessor_text(o, w, f));
}

proof fn lemma_accessors_hold(o: Seq<char>, w: Wire, n: nat)
    requires
        n <= w.fields@.len(),
    ensures
        o.is_prefix_of(accessors_text(o, w, n)),
        forall|j: int|
            0 <= j < n ==> contains(
                accessors_text(o, w, n),
                #[trigger] reader_text(w, w.fields@[j]),
            ),
    decreases n,
{
    if n > 0 {
        let m = (n - 1) as nat;
        lemma_accessors_hold(o, w, m);
        let o1 = accessors_text(o, w, m);
        let o2 = if n > 1 {
            o1 + "\n"@
        } else {
            o1
        };
        let whole = accessors_text(o, w, n);
        lemma_accessor_holds(o2, w, w.fields@[n - 1]);
        assert(o1 =~= o2.subrange(0, o1.len() as int));
        assert(o1 =~= whole.subrange(0, o1.len() as int));
        assert(o =~= whole.subrange(0, o.len() as int));
        assert forall|j: int| 0 <= j < n implies contains(
            whole,
            #[trigger] reader_text(w, w.fields@[j]),
        ) by {
            if j < m {
                lemma_contains_front(o1, whole, reader_text(w, w.fields@[j]));
            }
        }
    } else {
        assert(o =~= o.subrange(0, o.len() as int));
    }
}

/// What stands before the constructor of a structure.
spec fn wire_head(o: Seq<char>, w: Wire) -> Seq<char> {
    let name = w.name@;
    let size = decimal(w.size as nat);
    let o1 = o + "// ---------- "@ + name + " ----------\n"@ + "\n"@;
    let o2 = match w.description {
        Some(d) => o1 + "/// "@ + d@ + "\n"@,
        None => o1,
    };
    let o3 = o2 + "/// Wire layout: "@ + size + " bytes, "@ + w.endian.label_name()
        + "-endian default.\n"@;
    let o4 = o3 + "#[derive(Clone, Copy, Debug)]\n"@ + "#[repr(transparent)]\n"@;
    let o5 = o4 + "pub struct "@ + name + "([u8; "@ + size + "]);\n"@ + "\n"@;
    o5 + "impl "@ + name + " {\n"@
}

proof fn lemma_wire_head(o: Seq<char>, w: Wire)
    ensures
        o.is_prefix_of(wire_head(o, w)),
{
    let name = w.name@;
    let size = decimal(w.size as nat);
    lemma_prefix_self(o);
    lemma_prefix3(o, o, "// ---------- "@, name, " ----------\n"@);
    lemma_prefix1(o, o + "// ---------- "@ + name + " ----------\n"@, "\n"@);
    let o1 = o + "// ---------- "@ + name + " ----------\n"@ + "\n"@;
    let o2 = match w.description {
        Some(d) => o1 + "/// "@ + d@ + "\n"@,
        None => o1,
    };
    if let Some(d) = w.description {
        lemma_prefix3(o, o1, "/// "@, d@, "\n"@);
    }
    lemma_prefix5(
        o,
        o2,
        "/// Wire layout: "@,
        size,
        " bytes, "@,
        w.endian.label_name(),
        "-endian default.\n"@,
    );
    let o3 = o2 + "/// Wire layout: "@ + size + " bytes, "@ + w.endian.label_name()
        + "-endian default.\n"@;
    lemma_prefix1(o, o3, "#[derive(Clone, Copy, Debug)]\n"@);
    lemma_prefix1(o, o3 + "#[derive(Clone, Copy, Debug)]\n"@, "#[repr(transparent)]\n"@);
    let o4 = o3 + "#[derive(Clone, Copy, Debug)]\n"@ + "#[repr(transparent)]\n"@;
    lemma_prefix5(o, o4, "pub struct "@, name, "([u8; "@, size, "]);\n"@);
    lemma_prefix1(o, o4 + "pub struct "@ + name + "([u8; "@ + size + "]);\n"@, "\n"@);
    let o5 = o4 + "pub struct "@ + name + "([u8; "@ + size + "]);\n"@ + "\n"@;
    lemma_prefix3(o, o5, "impl "@, name, " {\n"@);
}

proof fn lemma_wire_holds(o: Seq<char>, w: Wire)
    ensures
        o.is_prefix_of(wire_text(o, w)),
        contains(wire_text(o, w), builder_text(w)),
        forall|j: int|
            0 <= j < w.fields@.len() ==> contains(
                wire_text(o, w),
                #[trigger] reader_text(w, w.fields@[j]),
            ),
{
    let size = decimal(w.size as nat);
    let h = wire_head(o, w);
    lemma_wire_head(o, w);
    let c = constructor_text(h, w);
    lemma_constructor_holds(h, w);
    lemma_prefix_step(o, h, c);
    let c1 = c + "\n"@;
    lemma_prefix_self(c);
    lemma_prefix1(c, c, "\n"@);
    let a = accessors_text(c1, w, w.fields@.len());
    lemma_accessors_hold(c1, w, w.fields@.len());
    lemma_prefix_step(c, c1, a);
    let whole = wire_text(o, w);
    assert(whole == a + "}\n"@ + "\n"@ + "dma_value_impl!("@ + w.name@ + ", size = "@ + size
        + ");\n"@ + "\n"@);
    lemma_prefix_self(a);
    lemma_prefix1(a, a, "}\n"@);
    lemma_prefix1(a, a + "}\n"@, "\n"@);
    lemma_prefix5(
        a,
        a + "}\n"@ + "\n"@,
        "dma_value_impl!("@,
        w.name@,
        ", size = "@,
        size,
        ");\n"@,
    );
    lemma_prefix1(
        a,
        a + "}\n"@ + "\n"@ + "dma_value_impl!("@ + w.name@ + ", size = "@ + size + ");\n"@,
        "\n"@,
    );
    lemma_prefix_step(c, a, whole);
    lemma_prefix_step(o, c, whole);
    lemma_contains_front(c, whole, builder_text(w));
    assert forall|j: int| 0 <= j < w.fields@.len() implies contains(
        whole,
        #[trigger] reader_text(w, w.fields@[j]),
    ) by {
        lemma_contains_front(a, whole, reader_text(w, w.fields@[j]));
    }
}

proof fn lemma_wires_hold(o: Seq<char>, wires: Seq<Wire>, n: nat, k: int)
    requires
        n <= wires.len(),
    ensures
        o.is_prefix_of(wires_text(o, wires, n)),
        0 <= k < n ==> contains(wires_text(o, wires, n), builder_text(wires[k])),
        0 <= k < n ==> forall|j: int|
            0 <= j < wires[k].fields@.len() ==> contains(
                wires_text(o, wires, n),
                #[trigger] reader_text(wires[k], wires[k].fields@[j]),
            ),
    decreases n,
{
    if n > 0 {
        let m = (n - 1) as nat;
        lemma_wires_hold(o, wires, m, k);
        let o1 = wires_text(o, wires, m);
        let whole = wires_text(o, wires, n);
        lemma_wire_holds(o1, wires[n - 1]);
        assert(o =~= whole.subrange(0, o.len() as int));
        if 0 <= k < m {
            lemma_contains_front(o1, whole, builder_text(wires[k]));
            assert forall|j: int| 0 <= j < wires[k].fields@.len() implies contains(
                whole,
                #[trigger] reader_text(wires[k], wires[k].fields@[j]),
            ) by {
                lemma_contains_front(o1, whole, reader_text(wires[k], wires[k].fields@[j]));
            }
        }
    } else {
        assert(o =~= o.subrange(0, o.len() as int));
    }
}

proof fn lemma_arguments_prefix(o: Seq<char>, w: Wire, n: nat)
    ensures
        o.is_prefix_of(arguments_text(o, w, n)),
    decreases n,
{
    if n > 0 {
        lemma_arguments_prefix(o, w, (n - 1) as nat);
    }
    assert(o =~= arguments_text(o, w, n).subrange(0, o.len() as int));
}

proof fn lemma_byte_checks_prefix(o: Seq<char>, w: Wire, n: nat)
    ensures
        o.is_prefix_of(byte_checks_text(o, w, n)),
    decreases n,
{
    if n > 0 {
        lemma_byte_checks_prefix(o, w, (n - 1) as nat);
    }
    assert(o =~= byte_checks_text(o, w, n).subrange(0, o.len() as int));
}

proof fn lemma_read_checks_prefix(o: Seq<char>, w: Wire, n: nat)
    ensures
        o.is_prefix_of(read_checks_text(o, w, n)),
    decreases n,
{
    if n > 0 {
        lemma_read_checks_prefix(o, w, (n - 1) as nat);
    }
    assert(o =~= read_checks_text(o, w, n).subrange(0, o.len() as int));
}

proof fn lemma_wire_tests_prefix(o: Seq<char>, w: Wire)
    ensures
        o.is_prefix_of(wire_tests_text(o, w)),
{
    let name = w.name@;
    let stem = crate::letter_case::snake(name);
    let n = w.fields@.len();
    let size = decimal(w.size as nat);
    lemma_prefix_self(o);
    let o1 = o + "    #[test]\n"@ + "    fn "@ + stem + "_size_and_align() {\n"@;
    lemma_prefix1(o, o, "    #[test]\n"@);
    lemma_prefix3(o, o + "    #[test]\n"@, "    fn "@, stem, "_size_and_align() {\n"@);
    let o2 = o1 + "        assert_eq!(core::mem::size_of::<"@ + name + ">(), "@ + size + ");\n"@;
    lemma_prefix5(
        o,
        o1,
        "        assert_eq!(core::mem::size_of::<"@,
        name,
        ">(), "@,
        size,
        ");\n"@,
    );
    let o3 = o2 + "        assert_eq!(core::mem::align_of::<"@ + name + ">(), 1);\n"@ + "    }\n"@
        + "\n"@;
    lemma_prefix5(
        o,
        o2,
        "        assert_eq!(core::mem::align_of::<"@,
        name,
        ">(), 1);\n"@,
        "    }\n"@,
        "\n"@,
    );
    let o4 = o3 + "    #[test]\n"@ + "    fn "@ + stem + "_roundtrip() {\n"@;
    lemma_prefix1(o, o3, "    #[test]\n"@);
    lemma_prefix3(o, o3 + "    #[test]\n"@, "    fn "@, stem, "_roundtrip() {\n"@);
    let o5 = o4 + "        let v = "@ + name + "::new("@;
    lemma_prefix3(o, o4, "        let v = "@, name, "::new("@);
    lemma_arguments_prefix(o5, w, n);
    let a = arguments_text(o5, w, n);
    lemma_prefix_step(o, o5, a);
    let o6 = a + ");\n"@ + "\n"@;
    lemma_prefix1(o, a, ");\n"@);
    lemma_prefix1(o, a + ");\n"@, "\n"@);
    lemma_byte_checks_prefix(o6, w, n);
    let b = byte_checks_text(o6, w, n);
    lemma_prefix_step(o, o6, b);
    let o7 = b + "\n"@;
    lemma_prefix1(o, b, "\n"@);
    lemma_read_checks_prefix(o7, w, n);
    let c = read_checks_text(o7, w, n);
    lemma_prefix_step(o, o7, c);
    lemma_prefix1(o, c, "    }\n"@);
    lemma_prefix1(o, c + "    }\n"@, "\n"@);
}

proof fn lemma_wires_tests_prefix(o: Seq<char>, wires: Seq<Wire>, n: nat)
    ensures
        o.is_prefix_of(wires_tests_text(o, wires, n)),
    decreases n,
{
    if n > 0 {
        let m = (n - 1) as nat;
        lemma_wires_tests_prefix(o, wires, m);
        lemma_wire_tests_prefix(wires_tests_text(o, wires, m), wires[n - 1]);
    }
    assert(o =~= wires_tests_text(o, wires, n).subrange(0, o.len() as int));
}

/// The module of a family holds, for every structure, its constructor and, for every field of
/// it, its reader: no structure and no field is left out.
pub proof fn lemma_family_holds(spec: Spec, path: Seq<char>, k: int, j: int)
    requires
        0 <= k < spec.wire@.len(),
        0 <= j < spec.wire@[k].fields@.len(),
    ensures
        contains(family_text(spec, path), builder_text(spec.wire@[k])),
        contains(
            family_text(spec, path),
            reader_text(spec.wire@[k], spec.wire@[k].fields@[j]),
        ),
{
    let n = spec.wire@.len();
    let o = header_text(Seq::empty(), spec, path);
    let a = wires_text(o, spec.wire@, n);
    lemma_wires_hold(o, spec.wire@, n, k);
    let b = a + "#[cfg(test)]\n"@ + "mod tests {\n"@ + "    use super::*;\n"@ + "\n"@;
    assert(a =~= b.subrange(0, a.len() as int));
    lemma_wires_tests_prefix(b, spec.wire@, n);
    let whole = tests_text(a, spec);
    assert(whole == wires_tests_text(b, spec.wire@, n) + "}\n"@);
    assert(a =~= whole.subrange(0, a.len() as int));
    lemma_contains_front(a, whole, builder_text(spec.wire@[k]));
    lemma_contains_front(a, whole, reader_text(spec.wire@[k], spec.wire@[k].fields@[j]));
}

// ---------------------------------------------------------------------------
// The tests of a module
// ---------------------------------------------------------------------------

/// The lines that check the bytes of field `j`: in the byte order that the field or else the
/// structure declares, and at the field's own place.
pub open spec fn bytes_checked(w: Wire, j: int) -> Seq<char> {
    let f = w.fields@[j];
    "        expected_"@ + f.name@ + ".copy_from_slice(&"@ + written_text(w, j) + "."@ + (if is_big(
        w,
        f,
    ) {
        "to_be_bytes"@
    } else {
        "to_le_bytes"@
    }) + "());\n"@ + "        assert_eq!(&v.0["@ + decimal(f.offset as nat) + ".."@ + decimal(
        f.offset as nat + f.width as nat / 8,
    ) + "], &expected_"@ + f.name@ + "[..]);\n"@
}

/// The line that checks that field `j` is read as it was written.
pub open spec fn read_checked(w: Wire, j: int) -> Seq<char> {
    "        assert_eq!(v."@ + w.fields@[j].name@ + "(), "@ + written_text(w, j) + ");\n"@
}

proof fn lemma_bytes_checked(o: Seq<char>, w: Wire, n: nat, j: int)
    requires
        0 <= j < n <= w.fields@.len(),
    ensures
        contains(byte_checks_text(o, w, n), bytes_checked(w, j)),
    decreases n,
{
    broadcast use {lemma_leads_more, lemma_leads_self};

    let m = (n - 1) as nat;
    let p = byte_checks_text(o, w, m);
    let whole = byte_checks_text(o, w, n);
    let f = w.fields@[m as int];
    let q = p + "        // "@ + f.name@ + " field — "@ + order_of(w, f).label_name()
        + "-endian raw bytes\n"@ + "        let mut expected_"@ + f.name@ + " = [0u8; "@ + decimal(
        field_bytes(f),
    ) + "];\n"@;
    assert(leads(p, q));
    lemma_order_spelling(w, f);
    let order = if is_big(w, f) {
        "to_be_bytes"@
    } else {
        "to_le_bytes"@
    };
    assert(order_of(w, f).to_bytes_name() == order);
    lemma_join7(
        q,
        "        expected_"@,
        f.name@,
        ".copy_from_slice(&"@,
        written_text(w, m as int),
        "."@,
        order,
        "());\n"@,
    );
    let x = "        expected_"@ + f.name@ + ".copy_from_slice(&"@ + written_text(w, m as int) + "."@
        + order + "());\n"@;
    let from = decimal(f.offset as nat);
    let to = decimal(f.offset as nat + f.width as nat / 8);
    lemma_join5(q, x, "        assert_eq!(&v.0["@, from, ".."@, to, "], &expected_"@);
    let y = x + "        assert_eq!(&v.0["@ + from + ".."@ + to + "], &expected_"@;
    assert(q + y + f.name@ + "[..]);\n"@ =~= q + (y + f.name@ + "[..]);\n"@));
    let lines = bytes_checked(w, m as int);
    assert(lines == y + f.name@ + "[..]);\n"@);
    assert(whole == q + lines);
    lemma_ends_with(q, lines);
    if j < m {
        lemma_bytes_checked(o, w, m, j);
        assert(leads(p, whole));
        lemma_leads_contains(p, whole, bytes_checked(w, j));
    }
}

proof fn lemma_read_checked(o: Seq<char>, w: Wire, n: nat, j: int)
    requires
        0 <= j < n <= w.fields@.len(),
    ensures
        contains(read_checks_text(o, w, n), read_checked(w, j)),
    decreases n,
{
    let m = (n - 1) as nat;
    let p = read_checks_text(o, w, m);
    let whole = read_checks_text(o, w, n);
    let f = w.fields@[m as int];
    lemma_join3(p, "        assert_eq!(v."@, f.name@, "(), "@, written_text(w, m as int));
    let x = "        assert_eq!(v."@ + f.name@ + "(), "@ + written_text(w, m as int);
    assert(p + x + ");\n"@ =~= p + (x + ");\n"@));
    assert(whole == p + read_checked(w, m as int));
    lemma_ends_with(p, read_checked(w, m as int));
    if j < m {
        lemma_read_checked(o, w, m, j);
        lemma_contains_front(p, whole, read_checked(w, j));
    }
}

/// The tests of a structure check every field: its bytes, in its own byte order and at its own
/// place, and what is read of it.
pub proof fn lemma_structure_tested(o: Seq<char>, w: Wire, j: int)
    requires
        0 <= j < w.fields@.len(),
    ensures
        contains(wire_tests_text(o, w), bytes_checked(w, j)),
        contains(wire_tests_text(o, w), read_checked(w, j)),
{
    broadcast use {lemma_leads_more, lemma_leads_self};

    let name = w.name@;
    let stem = crate::letter_case::snake(name);
    let n = w.fields@.len();
    let o1 = o + "    #[test]\n"@ + "    fn "@ + stem + "_size_and_align() {\n"@;
    let o2 = o1 + "        assert_eq!(core::mem::size_of::<"@ + name + ">(), "@ + decimal(
        w.size as nat,
    ) + ");\n"@;
    let o3 = o2 + "        assert_eq!(core::mem::align_of::<"@ + name + ">(), 1);\n"@ + "    }\n"@
        + "\n"@;
    let o4 = o3 + "    #[test]\n"@ + "    fn "@ + stem + "_roundtrip() {\n"@;
    let o5 = o4 + "        let v = "@ + name + "::new("@;
    let o6 = arguments_text(o5, w, n) + ");\n"@ + "\n"@;
    let b = byte_checks_text(o6, w, n);
    lemma_bytes_checked(o6, w, n, j);
    let o7 = b + "\n"@;
    let c = read_checks_text(o7, w, n);
    lemma_read_checked(o7, w, n, j);
    let whole = wire_tests_text(o, w);
    assert(whole == c + "    }\n"@ + "\n"@);
    assert(leads(c, whole));
    assert(leads(b, o7));
    lemma_read_checks_prefix(o7, w, n);
    assert(leads(o7, c)) by {
        reveal(leads);
    }
    lemma_leads_contains(c, whole, read_checked(w, j));
    lemma_leads_contains(b, o7, bytes_checked(w, j));
    lemma_leads_contains(o7, c, bytes_checked(w, j));
    lemma_leads_contains(c, whole, bytes_checked(w, j));
}

proof fn lemma_all_tested(o: Seq<char>, wires: Seq<Wire>, n: nat, k: int, j: int)
    requires
        0 <= k < n <= wires.len(),
        0 <= j < wires[k].fields@.len(),
    ensures
        contains(wires_tests_text(o, wires, n), bytes_checked(wires[k], j)),
        contains(wires_tests_text(o, wires, n), read_checked(wires[k], j)),
    decreases n,
{
    let m = (n - 1) as nat;
    let p = wires_tests_text(o, wires, m);
    if k == m {
        lemma_structure_tested(p, wires[k], j);
    } else {
        lemma_all_tested(o, wires, m, k, j);
        lemma_wire_tests_prefix(p, wires[m as int]);
        let whole = wires_tests_text(o, wires, n);
        lemma_contains_front(p, whole, bytes_checked(wires[k], j));
        lemma_contains_front(p, whole, read_checked(wires[k], j));
    }
}

/// The module of a family tests every field of every structure.
pub proof fn lemma_family_tested(spec: Spec, path: Seq<char>, k: int, j: int)
    requires
        0 <= k < spec.wire@.len(),
        0 <= j < spec.wire@[k].fields@.len(),
    ensures
        contains(family_text(spec, path), bytes_checked(spec.wire@[k], j)),
        contains(family_text(spec, path), read_checked(spec.wire@[k], j)),
{
    let n = spec.wire@.len();
    let a = wires_text(header_text(Seq::empty(), spec, path), spec.wire@, n);
    let b = a + "#[cfg(test)]\n"@ + "mod tests {\n"@ + "    use super::*;\n"@ + "\n"@;
    let t = wires_tests_text(b, spec.wire@, n);
    lemma_all_tested(b, spec.wire@, n, k, j);
    assert(family_text(spec, path) == t + "}\n"@);
    lemma_prefix_self(t);
    lemma_prefix1(t, t, "}\n"@);
    lemma_contains_front(t, t + "}\n"@, bytes_checked(spec.wire@[k], j));
    lemma_contains_front(t, t + "}\n"@, read_checked(spec.wire@[k], j));
}

} // verus!
