//! Where the generated struct puts the registers.

use super::emit::{
    cell_for, cell_name, cell_type_text, cells_text, cursor_at, gaps, int_type, layout_fault_from,
    layout_order, lemma_layout_disjoint, lemma_layout_order,
};
use super::model::{Access, Register};
use crate::numerals::{decimal, hex};
use crate::text::lemma_join3;
use vstd::prelude::*;

verus! {

/// One line of the struct.
pub enum Item {
    /// So many bytes that no register has.
    Pad(nat),
    /// A comment.
    Doc(Seq<char>),
    /// A register: its name, what may be done with it, and its bits.
    Register(Seq<char>, Seq<char>, u8),
}

/// The bytes that a line takes up.
pub open spec fn item_size(i: Item) -> nat {
    match i {
        Item::Pad(n) => n,
        Item::Doc(_) => 0,
        Item::Register(_, _, width) => (width / 8) as nat,
    }
}

/// The bytes that lines take up, one behind the other.
pub open spec fn items_size(v: Seq<Item>) -> nat
    decreases v.len(),
{
    if v.len() == 0 {
        0
    } else {
        items_size(v.drop_last()) + item_size(v.last())
    }
}

/// The number of pads.
pub open spec fn pads(v: Seq<Item>) -> nat
    decreases v.len(),
{
    if v.len() == 0 {
        0
    } else if v.last() is Pad {
        pads(v.drop_last()) + 1
    } else {
        pads(v.drop_last())
    }
}

/// How a line is spelled, where so many pads stand above it.
pub open spec fn item_text(i: Item, above: nat) -> Seq<char> {
    match i {
        Item::Pad(n) => "    _pad"@ + decimal(above) + ": [u8; 0x"@ + hex(n) + "],\n"@,
        Item::Doc(t) => "    /// "@ + t + "\n"@,
        Item::Register(name, kind, width) => "    "@ + name + ": "@ + (kind + "<"@ + ("u"@
            + decimal(width as nat)) + ">"@) + ",\n"@,
    }
}

/// How the lines are spelled.
pub open spec fn items_text(v: Seq<Item>) -> Seq<char>
    decreases v.len(),
{
    if v.len() == 0 {
        Seq::empty()
    } else {
        items_text(v.drop_last()) + item_text(v.last(), pads(v.drop_last()))
    }
}

/// What may be done with a register of the given access, by the name of the cell that holds it.
pub open spec fn kind_of(a: Access) -> Seq<char> {
    match a {
        Access::Ro => "Ro"@,
        Access::Rw => "Rw"@,
        Access::Wo => "Wo"@,
        Access::Trigger => "Wo"@,
        Access::W1c => "W1c"@,
    }
}

/// The lines of the first `n` registers in memory order: each register stands where its offset
/// says, behind a pad where there is a gap.
pub open spec fn items_of(regs: Seq<Register>, order: Seq<int>, n: nat) -> Seq<Item>
    decreases n,
{
    if n == 0 {
        Seq::empty()
    } else {
        let v = items_of(regs, order, (n - 1) as nat);
        let r = regs[order[n - 1]];
        let padded = if r.offset > items_size(v) {
            v.push(Item::Pad((r.offset - items_size(v)) as nat))
        } else {
            v
        };
        let said = match r.description {
            Some(d) => padded.push(Item::Doc(d@)),
            None => padded,
        };
        said.push(Item::Register(r.name@, kind_of(r.access), r.width))
    }
}

proof fn lemma_push(v: Seq<Item>, i: Item)
    ensures
        items_size(v.push(i)) == items_size(v) + item_size(i),
        pads(v.push(i)) == pads(v) + if i is Pad {
            1nat
        } else {
            0nat
        },
        items_text(v.push(i)) == items_text(v) + item_text(i, pads(v)),
{
    assert(v.push(i).drop_last() =~= v);
}

proof fn lemma_joined(o: Seq<char>, v: Seq<Item>, i: Item)
    ensures
        o + items_text(v) + item_text(i, pads(v)) == o + items_text(v.push(i)),
{
    lemma_push(v, i);
    assert(o + items_text(v) + item_text(i, pads(v)) =~= o + (items_text(v) + item_text(
        i,
        pads(v),
    )));
}

proof fn lemma_pad_line(o: Seq<char>, v: Seq<Item>, n: nat)
    ensures
        o + items_text(v) + "    _pad"@ + decimal(pads(v)) + ": [u8; 0x"@ + hex(n) + "],\n"@ == o
            + items_text(v.push(Item::Pad(n))),
{
    let h = o + items_text(v);
    lemma_join3(h, "    _pad"@, decimal(pads(v)), ": [u8; 0x"@, hex(n));
    let m = "    _pad"@ + decimal(pads(v)) + ": [u8; 0x"@ + hex(n);
    assert(h + m + "],\n"@ =~= h + (m + "],\n"@));
    lemma_joined(o, v, Item::Pad(n));
}

proof fn lemma_doc_line(o: Seq<char>, v: Seq<Item>, t: Seq<char>)
    ensures
        o + items_text(v) + "    /// "@ + t + "\n"@ == o + items_text(v.push(Item::Doc(t))),
{
    let h = o + items_text(v);
    assert(h + "    /// "@ + t + "\n"@ =~= h + ("    /// "@ + t + "\n"@));
    lemma_joined(o, v, Item::Doc(t));
}

proof fn lemma_register_line(o: Seq<char>, v: Seq<Item>, r: Register)
    ensures
        o + items_text(v) + "    "@ + r.name@ + ": "@ + cell_type_text(r.access, r.width) + ",\n"@
            == o + items_text(v.push(Item::Register(r.name@, kind_of(r.access), r.width))),
{
    let h = o + items_text(v);
    let cell = cell_type_text(r.access, r.width);
    assert(cell_name(cell_for(r.access)) == kind_of(r.access));
    assert(int_type(r.width) == "u"@ + decimal(r.width as nat));
    assert(cell == kind_of(r.access) + "<"@ + ("u"@ + decimal(r.width as nat)) + ">"@);
    lemma_join3(h, "    "@, r.name@, ": "@, cell);
    let m = "    "@ + r.name@ + ": "@ + cell;
    assert(h + m + ",\n"@ =~= h + (m + ",\n"@));
    lemma_joined(o, v, Item::Register(r.name@, kind_of(r.access), r.width));
}

/// The struct is spelled as those lines, and the lines end where the last register does.
pub proof fn lemma_cells_text(o: Seq<char>, regs: Seq<Register>, n: nat)
    requires
        layout_fault_from(regs, layout_order(regs), 0) is None,
        n <= regs.len(),
    ensures
        ({
            let order = layout_order(regs);
            let v = items_of(regs, order, n);
            &&& cells_text(o, regs, order, n) == o + items_text(v)
            &&& items_size(v) == cursor_at(regs, order, n)
            &&& pads(v) == gaps(regs, order, n)
        }),
    decreases n,
{
    let order = layout_order(regs);
    lemma_layout_order(regs);
    if n == 0 {
        assert(o + Seq::<char>::empty() =~= o);
    } else {
        let m = (n - 1) as nat;
        lemma_cells_text(o, regs, m);
        let r = regs[order[m as int]];
        lemma_layout_disjoint(regs, m as int);
        let v = items_of(regs, order, m);
        let gap = Item::Pad((r.offset - items_size(v)) as nat);
        lemma_push(v, gap);
        let padded = if r.offset > items_size(v) {
            v.push(gap)
        } else {
            v
        };
        if r.offset > items_size(v) {
            lemma_pad_line(o, v, (r.offset - items_size(v)) as nat);
        }
        let said = match r.description {
            Some(d) => padded.push(Item::Doc(d@)),
            None => padded,
        };
        if let Some(d) = r.description {
            lemma_doc_line(o, padded, d@);
            lemma_push(padded, Item::Doc(d@));
        }
        lemma_register_line(o, said, r);
        lemma_push(said, Item::Register(r.name@, kind_of(r.access), r.width));
        assert(items_size(padded) == r.offset);
    }
}

/// Whether item `j` is the register, and the items before it take up as many bytes as its offset
/// says.
pub open spec fn stands_at(v: Seq<Item>, j: int, r: Register) -> bool {
    &&& 0 <= j < v.len()
    &&& v[j] == Item::Register(r.name@, kind_of(r.access), r.width)
    &&& items_size(v.take(j)) == r.offset
}

proof fn lemma_stands_before(v: Seq<Item>, w: Seq<Item>, r: Register)
    requires
        v.is_prefix_of(w),
        exists|j: int| #[trigger] stands_at(v, j, r),
    ensures
        exists|j: int| #[trigger] stands_at(w, j, r),
{
    let j = choose|j: int| #[trigger] stands_at(v, j, r);
    assert(w.take(j) =~= v.take(j));
    assert(v[j] == w.subrange(0, v.len() as int)[j]);
    assert(stands_at(w, j, r));
}

/// In the struct every register stands at its own offset: the lines before it take up exactly as
/// many bytes.
pub proof fn lemma_registers_placed(regs: Seq<Register>, n: nat, k: int)
    requires
        layout_fault_from(regs, layout_order(regs), 0) is None,
        0 <= k < n <= regs.len(),
    ensures
        exists|j: int| #[trigger]
            stands_at(items_of(regs, layout_order(regs), n), j, regs[layout_order(regs)[k]]),
    decreases n,
{
    let order = layout_order(regs);
    lemma_layout_order(regs);
    let m = (n - 1) as nat;
    lemma_cells_text(Seq::empty(), regs, m);
    lemma_layout_disjoint(regs, m as int);
    let v = items_of(regs, order, m);
    let r = regs[order[m as int]];
    let gap = Item::Pad((r.offset - items_size(v)) as nat);
    lemma_push(v, gap);
    let padded = if r.offset > items_size(v) {
        v.push(gap)
    } else {
        v
    };
    let said = match r.description {
        Some(d) => padded.push(Item::Doc(d@)),
        None => padded,
    };
    if let Some(d) = r.description {
        lemma_push(padded, Item::Doc(d@));
    }
    let w = items_of(regs, order, n);
    let last = Item::Register(r.name@, kind_of(r.access), r.width);
    assert(w == said.push(last));
    if k < m {
        lemma_registers_placed(regs, m, k);
        assert(v =~= w.subrange(0, v.len() as int));
        lemma_stands_before(v, w, regs[order[k]]);
    } else {
        let j = said.len() as int;
        assert(w.take(j) =~= said);
        assert(items_size(said) == r.offset);
        assert(stands_at(w, j, r));
    }
}

} // verus!
