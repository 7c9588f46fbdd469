//! The text of the module generated for one device.

use super::accessors::{
    accessors_text, emit_accessors, emit_u64_pairs, emit_windowed, pairs_text, windows_text,
};
use super::model::{Access, Register, RegisterKind, Spec};
use super::newtypes::{
    emit_fields_newtype, emit_flags_newtype, fields_newtype_text, flags_newtype_text,
};
use super::self_tests::{emit_tests, tests_text};
use super::validate::{field_fits, is_valid, lemma_valid_field, lemma_valid_register};
use crate::letter_case::{kebab, to_kebab};
use crate::numerals::{dec, decimal, hex, hex_of};
use crate::text::same_text;
use crate::writer::{put2, put3, put5};
use vstd::prelude::*;

verus! {

/// Why no module can be generated for a valid description.
#[derive(Clone, Copy, PartialEq, Eq, Structural)]
pub enum EmitFault {
    /// A stream register has flags or fields; its reads and writes touch different state.
    StreamTyped { reg: usize },
    /// A password-protected register is not 32 bits wide.
    PasswdWidth { reg: usize },
    /// A password-protected register is neither `rw` nor `wo`.
    PasswdAccess { reg: usize },
    /// A password-protected register has a byte order.
    PasswdEndian { reg: usize },
    /// The register's kind has no generated form.
    Kind { reg: usize },
    /// A register with a byte order is not plain `ro`, `rw` or `wo`.
    EndianAccess { reg: usize },
    /// A register with a byte order has flags or fields.
    EndianTyped { reg: usize },
    /// The register has parts or aliases.
    PartsOrAliases { reg: usize },
    Descriptors,
    /// The register starts before the end of the one below it.
    Overlap { reg: usize },
    /// The register ends beyond the last address.
    EndOfSpace { reg: usize },
}

/// Whether the register's accessors work on a type of its own.
pub open spec fn is_typed(r: Register) -> bool {
    r.flags@.len() > 0 || r.fields@.len() > 0
}

/// Why one register cannot be generated, its place and neighbours aside.
pub open spec fn register_emit_fault(r: Register, at: usize) -> Option<EmitFault> {
    let plain = r.access is Ro || r.access is Rw || r.access is Wo;
    if r.kind == Some(RegisterKind::Stream) && is_typed(r) {
        Some(EmitFault::StreamTyped { reg: at })
    } else if r.kind == Some(RegisterKind::PasswdProtected) && r.width != 32 {
        Some(EmitFault::PasswdWidth { reg: at })
    } else if r.kind == Some(RegisterKind::PasswdProtected) && !(r.access is Rw || r.access is Wo) {
        Some(EmitFault::PasswdAccess { reg: at })
    } else if r.kind == Some(RegisterKind::PasswdProtected) && r.endian is Some {
        Some(EmitFault::PasswdEndian { reg: at })
    } else if r.kind == Some(RegisterKind::CombinedTrigger) || r.kind == Some(
        RegisterKind::Aliased,
    ) {
        Some(EmitFault::Kind { reg: at })
    } else if r.endian is Some && !plain {
        Some(EmitFault::EndianAccess { reg: at })
    } else if r.endian is Some && is_typed(r) {
        Some(EmitFault::EndianTyped { reg: at })
    } else if r.parts@.len() > 0 || r.aliases@.len() > 0 {
        Some(EmitFault::PartsOrAliases { reg: at })
    } else {
        None
    }
}

/// The first register, from `i` on, that cannot be generated.
pub open spec fn registers_emit_fault_from(regs: Seq<Register>, i: int) -> Option<EmitFault>
    decreases regs.len() - i,
{
    if i < 0 || i >= regs.len() {
        None
    } else {
        match register_emit_fault(regs[i], i as usize) {
            Some(fault) => Some(fault),
            None => registers_emit_fault_from(regs, i + 1),
        }
    }
}

fn check_register(r: &Register, at: usize) -> (fault: Option<EmitFault>)
    ensures
        fault == register_emit_fault(*r, at),
{
    let typed = r.flags.len() > 0 || r.fields.len() > 0;
    let plain = match r.access {
        Access::Ro | Access::Rw | Access::Wo => true,
        _ => false,
    };
    match r.kind {
        Some(RegisterKind::Stream) => {
            if typed {
                return Some(EmitFault::StreamTyped { reg: at });
            }
        },
        Some(RegisterKind::PasswdProtected) => {
            if r.width != 32 {
                return Some(EmitFault::PasswdWidth { reg: at });
            }
            match r.access {
                Access::Rw | Access::Wo => {},
                _ => {
                    return Some(EmitFault::PasswdAccess { reg: at });
                },
            }
            if r.endian.is_some() {
                return Some(EmitFault::PasswdEndian { reg: at });
            }
        },
        Some(_) => {
            return Some(EmitFault::Kind { reg: at });
        },
        None => {},
    }
    if r.endian.is_some() && !plain {
        return Some(EmitFault::EndianAccess { reg: at });
    }
    if r.endian.is_some() && typed {
        return Some(EmitFault::EndianTyped { reg: at });
    }
    if r.parts.len() > 0 || r.aliases.len() > 0 {
        return Some(EmitFault::PartsOrAliases { reg: at });
    }
    None
}

fn check_registers(regs: &Vec<Register>) -> (fault: Option<EmitFault>)
    ensures
        fault == registers_emit_fault_from(regs@, 0),
{
    let mut i: usize = 0;
    while i < regs.len()
        invariant
            i <= regs@.len(),
            registers_emit_fault_from(regs@, 0) == registers_emit_fault_from(regs@, i as int),
        decreases regs@.len() - i,
    {
        let fault = check_register(&regs[i], i);
        if fault.is_some() {
            return fault;
        }
        i += 1;
    }
    None
}

// ---------------------------------------------------------------------------
// The order of the registers in memory
// ---------------------------------------------------------------------------

/// `order` with register `i` after every register that does not lie above it.
pub open spec fn inserted(order: Seq<int>, regs: Seq<Register>, i: int) -> Seq<int>
    decreases order.len(),
{
    if order.len() == 0 || regs[order.last()].offset <= regs[i].offset {
        order.push(i)
    } else {
        inserted(order.drop_last(), regs, i).push(order.last())
    }
}

/// The first `n` registers by ascending offset; registers with one offset keep their
/// order.
pub open spec fn by_offset(regs: Seq<Register>, n: nat) -> Seq<int>
    decreases n,
{
    if n == 0 {
        Seq::empty()
    } else {
        inserted(by_offset(regs, (n - 1) as nat), regs, n - 1)
    }
}

/// The order of a device's registers in memory.
pub open spec fn layout_order(regs: Seq<Register>) -> Seq<int> {
    by_offset(regs, regs.len())
}

/// Whether `order` ascends by offset, and by index where offsets agree.
pub open spec fn ascends(order: Seq<int>, regs: Seq<Register>) -> bool {
    forall|a: int, b: int|
        0 <= a < b < order.len() ==> {
            ||| regs[#[trigger] order[a]].offset < regs[#[trigger] order[b]].offset
            ||| regs[order[a]].offset == regs[order[b]].offset && order[a] < order[b]
        }
}

proof fn lemma_inserted(order: Seq<int>, regs: Seq<Register>, i: int)
    requires
        0 <= i,
        ascends(order, regs),
        forall|a: int| 0 <= a < order.len() ==> 0 <= #[trigger] order[a] < i,
    ensures
        inserted(order, regs, i).len() == order.len() + 1,
        ascends(inserted(order, regs, i), regs),
        inserted(order, regs, i).to_multiset() == order.to_multiset().insert(i),
        forall|a: int|
            0 <= a < inserted(order, regs, i).len() ==> 0 <= #[trigger] inserted(
                order,
                regs,
                i,
            )[a] <= i,
    decreases order.len(),
{
    broadcast use vstd::seq_lib::group_to_multiset_ensures;

    let r = inserted(order, regs, i);
    if order.len() == 0 || regs[order.last()].offset <= regs[i].offset {
        assert(r == order.push(i));
        assert forall|a: int, b: int| 0 <= a < b < r.len() implies {
            ||| regs[#[trigger] r[a]].offset < regs[#[trigger] r[b]].offset
            ||| regs[r[a]].offset == regs[r[b]].offset && r[a] < r[b]
        } by {
            if b == order.len() && a < order.len() - 1 {
                assert(order[a] == r[a]);
                assert(order[order.len() - 1] == order.last());
            }
        }
    } else {
        let head = order.drop_last();
        let last = order.last();
        assert forall|a: int, b: int| 0 <= a < b < head.len() implies {
            ||| regs[#[trigger] head[a]].offset < regs[#[trigger] head[b]].offset
            ||| regs[head[a]].offset == regs[head[b]].offset && head[a] < head[b]
        } by {
            assert(head[a] == order[a] && head[b] == order[b]);
        }
        lemma_inserted(head, regs, i);
        let s = inserted(head, regs, i);
        assert(r == s.push(last));
        assert(order =~= head.push(last));
        assert(r.to_multiset() == order.to_multiset().insert(i)) by {
            assert(s.push(last).to_multiset() == s.to_multiset().insert(last));
            assert(head.push(last).to_multiset() == head.to_multiset().insert(last));
            assert(head.to_multiset().insert(i).insert(last) =~= head.to_multiset().insert(
                last,
            ).insert(i));
        }
        assert forall|a: int, b: int| 0 <= a < b < r.len() implies {
            ||| regs[#[trigger] r[a]].offset < regs[#[trigger] r[b]].offset
            ||| regs[r[a]].offset == regs[r[b]].offset && r[a] < r[b]
        } by {
            if b == s.len() {
                assert(s.to_multiset().count(s[a]) > 0) by {
                    assert(s.contains(s[a]));
                }
                if s[a] != i {
                    assert(head.to_multiset().count(s[a]) > 0);
                    assert(head.contains(s[a]));
                    let c = choose|c: int| 0 <= c < head.len() && head[c] == s[a];
                    assert(order[c] == s[a] && order[order.len() - 1] == last);
                }
            } else {
                assert(r[a] == s[a] && r[b] == s[b]);
            }
        }
        assert forall|a: int| 0 <= a < r.len() implies 0 <= #[trigger] r[a] <= i by {
            if a < s.len() {
                assert(r[a] == s[a]);
            } else {
                assert(order[order.len() - 1] == last);
            }
        }
    }
}

proof fn lemma_by_offset(regs: Seq<Register>, n: nat)
    requires
        n <= regs.len(),
    ensures
        by_offset(regs, n).len() == n,
        ascends(by_offset(regs, n), regs),
        by_offset(regs, n).to_multiset() == Seq::new(n, |i: int| i).to_multiset(),
        forall|a: int| 0 <= a < n ==> 0 <= #[trigger] by_offset(regs, n)[a] < n,
    decreases n,
{
    broadcast use vstd::seq_lib::group_to_multiset_ensures;

    if n > 0 {
        let m = (n - 1) as nat;
        lemma_by_offset(regs, m);
        lemma_inserted(by_offset(regs, m), regs, m as int);
        assert(Seq::new(n, |i: int| i) =~= Seq::new(m, |i: int| i).push(m as int));
    } else {
        assert(Seq::new(n, |i: int| i) =~= Seq::<int>::empty());
    }
}

/// The registers stand in memory each once, by ascending offset.
pub proof fn lemma_layout_order(regs: Seq<Register>)
    ensures
        layout_order(regs).len() == regs.len(),
        ascends(layout_order(regs), regs),
        layout_order(regs).to_multiset() == Seq::new(regs.len(), |i: int| i).to_multiset(),
        forall|a: int|
            0 <= a < regs.len() ==> 0 <= #[trigger] layout_order(regs)[a] < regs.len(),
{
    lemma_by_offset(regs, regs.len());
}

/// Indices as numbers.
pub open spec fn as_ints(v: Seq<usize>) -> Seq<int> {
    v.map_values(|i: usize| i as int)
}

proof fn lemma_insert_position(order: Seq<int>, regs: Seq<Register>, i: int, p: int)
    requires
        0 <= p <= order.len(),
        p > 0 ==> regs[order[p - 1]].offset <= regs[i].offset,
        forall|k: int| p <= k < order.len() ==> regs[#[trigger] order[k]].offset > regs[i].offset,
    ensures
        inserted(order, regs, i) == order.insert(p, i),
    decreases order.len(),
{
    if p == order.len() {
        assert(order.insert(p, i) =~= order.push(i));
    } else {
        assert(order[order.len() - 1] == order.last());
        lemma_insert_position(order.drop_last(), regs, i, p);
        assert(order.drop_last().insert(p, i).push(order.last()) =~= order.insert(p, i));
    }
}

fn sort_by_offset(regs: &Vec<Register>) -> (order: Vec<usize>)
    ensures
        as_ints(order@) == layout_order(regs@),
        order@.len() == regs@.len(),
        forall|a: int| 0 <= a < order@.len() ==> #[trigger] order@[a] < regs@.len(),
{
    let mut order: Vec<usize> = Vec::new();
    let mut i: usize = 0;
    assert(as_ints(order@) =~= Seq::<int>::empty());
    while i < regs.len()
        invariant
            i <= regs@.len(),
            order@.len() == i,
            as_ints(order@) == by_offset(regs@, i as nat),
            forall|a: int| 0 <= a < order@.len() ==> #[trigger] order@[a] < i,
        decreases regs@.len() - i,
    {
        let mut p: usize = order.len();
        while p > 0 && regs[order[p - 1]].offset > regs[i].offset
            invariant
                i < regs@.len(),
                p <= order@.len(),
                forall|a: int| 0 <= a < order@.len() ==> #[trigger] order@[a] < i,
                forall|k: int|
                    p <= k < order@.len() ==> regs@[#[trigger] order@[k] as int].offset
                        > regs@[i as int].offset,
            decreases p,
        {
            p -= 1;
        }
        let ghost before = order@;
        order.insert(p, i);
        proof {
            let ints = as_ints(before);
            assert forall|k: int| p <= k < ints.len() implies regs@[#[trigger] ints[k]].offset
                > regs@[i as int].offset by {
                assert(ints[k] == before[k] as int);
            }
            if p > 0 {
                assert(ints[p - 1] == before[p - 1] as int);
            }
            lemma_insert_position(ints, regs@, i as int, p as int);
            assert(as_ints(order@) =~= ints.insert(p as int, i as int));
        }
        i += 1;
    }
    order
}

/// The address behind the register.
pub open spec fn end_of(r: Register) -> int {
    r.offset + r.width / 8
}

/// The first register in memory order, from `n` on, that overlaps the one below it or
/// ends beyond the last address.
pub open spec fn layout_fault_from(regs: Seq<Register>, order: Seq<int>, n: int) -> Option<
    EmitFault,
>
    decreases order.len() - n,
{
    if n < 0 || n >= order.len() {
        None
    } else {
        let r = regs[order[n]];
        let at = order[n] as usize;
        if n > 0 && r.offset < end_of(regs[order[n - 1]]) {
            Some(EmitFault::Overlap { reg: at })
        } else if end_of(r) > u64::MAX {
            Some(EmitFault::EndOfSpace { reg: at })
        } else {
            layout_fault_from(regs, order, n + 1)
        }
    }
}

fn check_layout(regs: &Vec<Register>, order: &Vec<usize>) -> (fault: Option<EmitFault>)
    requires
        forall|a: int| 0 <= a < order@.len() ==> #[trigger] order@[a] < regs@.len(),
    ensures
        fault == layout_fault_from(regs@, as_ints(order@), 0),
{
    let ghost ints = as_ints(order@);
    let mut n: usize = 0;
    let mut cursor: u64 = 0;
    while n < order.len()
        invariant
            n <= order@.len(),
            ints == as_ints(order@),
            forall|a: int| 0 <= a < order@.len() ==> #[trigger] order@[a] < regs@.len(),
            n > 0 ==> cursor == end_of(regs@[order@[n - 1] as int]),
            n == 0 ==> cursor == 0,
            layout_fault_from(regs@, ints, 0) == layout_fault_from(regs@, ints, n as int),
        decreases order@.len() - n,
    {
        let at = order[n];
        let r = &regs[at];
        proof {
            assert(ints[n as int] == at as int);
            if n > 0 {
                assert(ints[n - 1] == order@[n - 1] as int);
            }
        }
        if r.offset < cursor {
            return Some(EmitFault::Overlap { reg: at });
        }
        let size: u64 = (r.width / 8) as u64;
        if r.offset > u64::MAX - size {
            return Some(EmitFault::EndOfSpace { reg: at });
        }
        cursor = r.offset + size;
        n += 1;
    }
    None
}

// ---------------------------------------------------------------------------
// Faults
// ---------------------------------------------------------------------------

/// Why no module can be generated for a valid description.
pub open spec fn emit_fault(spec: Spec) -> Option<EmitFault> {
    let regs = spec.registers@;
    if registers_emit_fault_from(regs, 0) is Some {
        registers_emit_fault_from(regs, 0)
    } else if spec.descriptors@.len() > 0 {
        Some(EmitFault::Descriptors)
    } else {
        layout_fault_from(regs, layout_order(regs), 0)
    }
}

// ---------------------------------------------------------------------------
// Header
// ---------------------------------------------------------------------------

/// The kinds of register cell that a layout is made of.
#[derive(Clone, Copy, PartialEq, Eq, Structural)]
pub enum Cell {
    Ro,
    Rw,
    W1c,
    Wo,
}

/// The cell that holds a register of the given access.
pub open spec fn cell_for(a: Access) -> Cell {
    match a {
        Access::Ro => Cell::Ro,
        Access::Rw => Cell::Rw,
        Access::Wo | Access::Trigger => Cell::Wo,
        Access::W1c => Cell::W1c,
    }
}

fn cell_of(a: Access) -> (c: Cell)
    ensures
        c == cell_for(a),
{
    match a {
        Access::Ro => Cell::Ro,
        Access::Rw => Cell::Rw,
        Access::Wo | Access::Trigger => Cell::Wo,
        Access::W1c => Cell::W1c,
    }
}

/// Whether a register is held in a cell of the given kind.
pub open spec fn uses_cell(regs: Seq<Register>, c: Cell) -> bool {
    exists|i: int| 0 <= i < regs.len() && cell_for(#[trigger] regs[i].access) == c
}

fn uses(regs: &Vec<Register>, c: Cell) -> (r: bool)
    ensures
        r == uses_cell(regs@, c),
{
    let mut i: usize = 0;
    while i < regs.len()
        invariant
            i <= regs@.len(),
            forall|k: int| 0 <= k < i ==> cell_for(#[trigger] regs@[k].access) != c,
        decreases regs@.len() - i,
    {
        if cell_of(regs[i].access) == c {
            assert(cell_for(regs@[i as int].access) == c);
            return true;
        }
        i += 1;
    }
    false
}

/// A list with `name` behind it, where `name` belongs to it.
pub open spec fn listed(list: Seq<char>, belongs: bool, name: Seq<char>) -> Seq<char> {
    if !belongs {
        list
    } else if list.len() == 0 {
        name
    } else {
        list + ", "@ + name
    }
}

/// The cells in use, by name.
pub open spec fn cell_imports(regs: Seq<Register>) -> Seq<char> {
    let a = listed(Seq::empty(), uses_cell(regs, Cell::Ro), "Ro"@);
    let b = listed(a, uses_cell(regs, Cell::Rw), "Rw"@);
    let c = listed(b, uses_cell(regs, Cell::W1c), "W1c"@);
    listed(c, uses_cell(regs, Cell::Wo), "Wo"@)
}

fn list_more(list: String, belongs: bool, name: &str) -> (out: String)
    ensures
        out@ == listed(list@, belongs, name@),
{
    let mut out = list;
    if belongs {
        if out.as_str().is_empty() {
            return crate::text::copy_of(name);
        }
        put2(&mut out, ", ", name);
    }
    out
}

fn list_cells(regs: &Vec<Register>) -> (out: String)
    ensures
        out@ == cell_imports(regs@),
{
    let a = list_more(String::new(), uses(regs, Cell::Ro), "Ro");
    let b = list_more(a, uses(regs, Cell::Rw), "Rw");
    let c = list_more(b, uses(regs, Cell::W1c), "W1c");
    list_more(c, uses(regs, Cell::Wo), "Wo")
}

/// The text that a description holds, if any.
pub open spec fn text_or_empty(d: Option<String>) -> Seq<char> {
    match d {
        Some(s) => s@,
        None => ""@,
    }
}

/// `o` and the head of the module.
pub open spec fn header_text(o: Seq<char>, spec: Spec) -> Seq<char> {
    let o = o + "//! "@ + text_or_empty(spec.device.description) + "\n"@;
    let o = o + "//!\n"@;
    let o = o + "//! GENERATED FILE — do not edit by hand.\n"@;
    let o = o + "//! Source: user/regspecs/"@ + kebab(spec.device.name@) + ".toml\n"@;
    let o = o + "//! Regenerate with: `cargo xtask gen-regs`.\n"@;
    let o = o + "//! Drift is caught by: `cargo xtask gen-regs --check` (CI).\n"@;
    let o = o + "\n"@;
    let o = o + "#![allow(dead_code, missing_docs)]\n"@;
    let o = o + "\n"@;
    let o = o + "use lockjaw_mmio::cell::{"@ + cell_imports(spec.registers@) + "};\n"@;
    o + "\n"@
}

/// Writes the head of the module.
pub fn emit_header(out: &mut String, spec: &Spec)
    ensures
        final(out)@ == header_text(old(out)@, *spec),
{
    match &spec.device.description {
        Some(d) => put3(out, "//! ", d.as_str(), "\n"),
        None => put3(out, "//! ", "", "\n"),
    }
    out.append("//!\n");
    out.append("//! GENERATED FILE — do not edit by hand.\n");
    let name = to_kebab(spec.device.name.as_str());
    put3(out, "//! Source: user/regspecs/", name.as_str(), ".toml\n");
    out.append("//! Regenerate with: `cargo xtask gen-regs`.\n");
    out.append("//! Drift is caught by: `cargo xtask gen-regs --check` (CI).\n");
    out.append("\n");
    out.append("#![allow(dead_code, missing_docs)]\n");
    out.append("\n");
    let cells = list_cells(&spec.registers);
    put3(out, "use lockjaw_mmio::cell::{", cells.as_str(), "};\n");
    out.append("\n");
}

// ---------------------------------------------------------------------------
// Coverage of the verified offsets
// ---------------------------------------------------------------------------

/// Whether one of the first `n` verified offsets names the register `name`.
pub open spec fn bound_before(spec: Spec, name: Seq<char>, n: int) -> bool {
    exists|i: int|
        0 <= i < n && i < spec.verify_offsets@.len() && (#[trigger] spec.verify_offsets@[i]).reg@
            == name
}

/// Whether a verified offset names the register `name`.
pub open spec fn is_bound(spec: Spec, name: Seq<char>) -> bool {
    bound_before(spec, name, spec.verify_offsets@.len() as int)
}

/// The number of different registers that the first `n` verified offsets name.
pub open spec fn bound_count(spec: Spec, n: nat) -> nat
    decreases n,
{
    if n == 0 {
        0
    } else {
        let m = (n - 1) as nat;
        if bound_before(spec, spec.verify_offsets@[m as int].reg@, m as int) {
            bound_count(spec, m)
        } else {
            bound_count(spec, m) + 1
        }
    }
}

/// `o` and the first `n` registers that no verified offset names.
pub open spec fn unmatched_text(o: Seq<char>, spec: Spec, n: nat) -> Seq<char>
    decreases n,
{
    if n == 0 {
        o
    } else {
        let o = unmatched_text(o, spec, (n - 1) as nat);
        let name = spec.registers@[n - 1].name@;
        if is_bound(spec, name) {
            o
        } else {
            o + "//   - "@ + name + "\n"@
        }
    }
}

/// Whether some register is named by no verified offset.
pub open spec fn has_unmatched(spec: Spec) -> bool {
    exists|i: int|
        0 <= i < spec.registers@.len() && !is_bound(spec, (#[trigger] spec.registers@[i]).name@)
}

/// `o` and the comment that says how many registers are verified.
pub open spec fn coverage_text(o: Seq<char>, spec: Spec) -> Seq<char> {
    match spec.device.verify_against {
        None => o,
        Some(against) => {
            let o = o + "//\n"@;
            let o = o + "// verify_against: "@ + against@ + "\n"@;
            let matched = decimal(bound_count(spec, spec.verify_offsets@.len()));
            let total = decimal(spec.registers@.len());
            let o = o + "// Coverage: "@ + matched + "/"@ + total
                + " registers cross-checked against constants.\n"@;
            let o = if has_unmatched(spec) {
                unmatched_text(
                    o + "// Unmatched (no constant binding in [[verify_offsets]]):\n"@,
                    spec,
                    spec.registers@.len(),
                )
            } else {
                o
            };
            o + "//\n"@ + "\n"@
        },
    }
}

fn bound_in(spec: &Spec, name: &str, n: usize) -> (r: bool)
    requires
        n <= spec.verify_offsets@.len(),
    ensures
        r == bound_before(*spec, name@, n as int),
{
    let mut i: usize = 0;
    while i < n
        invariant
            i <= n <= spec.verify_offsets@.len(),
            forall|k: int| 0 <= k < i ==> (#[trigger] spec.verify_offsets@[k]).reg@ != name@,
        decreases n - i,
    {
        if same_text(spec.verify_offsets[i].reg.as_str(), name) {
            assert(spec.verify_offsets@[i as int].reg@ == name@);
            return true;
        }
        i += 1;
    }
    false
}

fn count_bound(spec: &Spec) -> (c: usize)
    ensures
        c == bound_count(*spec, spec.verify_offsets@.len()),
{
    let mut c: usize = 0;
    let mut i: usize = 0;
    while i < spec.verify_offsets.len()
        invariant
            c <= i <= spec.verify_offsets@.len(),
            c == bound_count(*spec, i as nat),
        decreases spec.verify_offsets@.len() - i,
    {
        if !bound_in(spec, spec.verify_offsets[i].reg.as_str(), i) {
            c += 1;
        }
        i += 1;
    }
    c
}

fn any_unmatched(spec: &Spec) -> (r: bool)
    ensures
        r == has_unmatched(*spec),
{
    let mut i: usize = 0;
    while i < spec.registers.len()
        invariant
            i <= spec.registers@.len(),
            forall|k: int|
                0 <= k < i ==> is_bound(*spec, (#[trigger] spec.registers@[k]).name@),
        decreases spec.registers@.len() - i,
    {
        if !bound_in(spec, spec.registers[i].name.as_str(), spec.verify_offsets.len()) {
            assert(!is_bound(*spec, spec.registers@[i as int].name@));
            return true;
        }
        i += 1;
    }
    false
}

/// Writes the comment that says how many registers are verified.
pub fn emit_verify_coverage_comment(out: &mut String, spec: &Spec)
    ensures
        final(out)@ == coverage_text(old(out)@, *spec),
{
    match &spec.device.verify_against {
        None => {},
        Some(against) => {
            out.append("//\n");
            put3(out, "// verify_against: ", against.as_str(), "\n");
            let matched = dec(count_bound(spec) as u64);
            let total = dec(spec.registers.len() as u64);
            put5(
                out,
                "// Coverage: ",
                matched.as_str(),
                "/",
                total.as_str(),
                " registers cross-checked against constants.\n",
            );
            if any_unmatched(spec) {
                out.append("// Unmatched (no constant binding in [[verify_offsets]]):\n");
                let ghost o = out@;
                let mut i: usize = 0;
                while i < spec.registers.len()
                    invariant
                        i <= spec.registers@.len(),
                        out@ == unmatched_text(o, *spec, i as nat),
                    decreases spec.registers@.len() - i,
                {
                    if !bound_in(
                        spec,
                        spec.registers[i].name.as_str(),
                        spec.verify_offsets.len(),
                    ) {
                        put3(out, "//   - ", spec.registers[i].name.as_str(), "\n");
                    }
                    i += 1;
                }
            }
            put2(out, "//\n", "\n");
        },
    }
}

// ---------------------------------------------------------------------------
// Layout
// ---------------------------------------------------------------------------

/// The integer type of `width` bits.
pub open spec fn int_type(width: u8) -> Seq<char> {
    "u"@ + decimal(width as nat)
}

/// The integer type of `width` bits.
pub fn int_type_of(width: u8) -> (out: String)
    ensures
        out@ == int_type(width),
{
    let mut out = crate::text::copy_of("u");
    out.append(dec(width as u64).as_str());
    out
}

/// The name of a cell kind.
pub open spec fn cell_name(c: Cell) -> Seq<char> {
    match c {
        Cell::Ro => "Ro"@,
        Cell::Rw => "Rw"@,
        Cell::Wo => "Wo"@,
        Cell::W1c => "W1c"@,
    }
}

/// The type of the cell that holds a register.
pub open spec fn cell_type_text(access: Access, width: u8) -> Seq<char> {
    cell_name(cell_for(access)) + "<"@ + int_type(width) + ">"@
}

/// The type of the cell that holds a register.
pub fn cell_type(access: Access, width: u8) -> (out: String)
    ensures
        out@ == cell_type_text(access, width),
{
    let name = match cell_of(access) {
        Cell::Ro => "Ro",
        Cell::Rw => "Rw",
        Cell::Wo => "Wo",
        Cell::W1c => "W1c",
    };
    let mut out = crate::text::copy_of(name);
    let wty = int_type_of(width);
    put3(&mut out, "<", wty.as_str(), ">");
    out
}

/// `o` and a comment line with the description, where there is one.
pub open spec fn doc_text(o: Seq<char>, lead: Seq<char>, d: Option<String>) -> Seq<char> {
    match d {
        Some(s) => o + lead + s@ + "\n"@,
        None => o,
    }
}

/// Writes a comment line with the description, where there is one.
pub fn emit_doc(out: &mut String, lead: &str, d: &Option<String>)
    ensures
        final(out)@ == doc_text(old(out)@, lead@, *d),
{
    match d {
        Some(s) => put3(out, lead, s.as_str(), "\n"),
        None => {},
    }
}

/// The number of gaps below the first `n` registers in memory order.
pub open spec fn gaps(regs: Seq<Register>, order: Seq<int>, n: nat) -> nat
    decreases n,
{
    if n == 0 {
        0
    } else {
        let m = (n - 1) as nat;
        if regs[order[m as int]].offset > cursor_at(regs, order, m) {
            gaps(regs, order, m) + 1
        } else {
            gaps(regs, order, m)
        }
    }
}

/// Where the first `n` registers in memory order end.
pub open spec fn cursor_at(regs: Seq<Register>, order: Seq<int>, n: nat) -> int {
    if n == 0 {
        0
    } else {
        end_of(regs[order[n - 1]])
    }
}

/// `o` and the cells of the first `n` registers in memory order, each behind the
/// padding that fills the gap below it.
pub open spec fn cells_text(o: Seq<char>, regs: Seq<Register>, order: Seq<int>, n: nat) -> Seq<
    char,
>
    decreases n,
{
    if n == 0 {
        o
    } else {
        let m = (n - 1) as nat;
        let o = cells_text(o, regs, order, m);
        let r = regs[order[m as int]];
        let cursor = cursor_at(regs, order, m);
        let o = if r.offset > cursor {
            o + "    _pad"@ + decimal(gaps(regs, order, m)) + ": [u8; 0x"@ + hex(
                (r.offset - cursor) as nat,
            ) + "],\n"@
        } else {
            o
        };
        let o = doc_text(o, "    /// "@, r.description);
        o + "    "@ + r.name@ + ": "@ + cell_type_text(r.access, r.width) + ",\n"@
    }
}

/// `o` and the struct that mirrors the device's memory.
pub open spec fn layout_text(o: Seq<char>, spec: Spec) -> Seq<char> {
    let o = doc_text(o, "/// "@, spec.device.description);
    let o = o + "#[repr(C)]\n"@;
    let o = o + "pub struct "@ + spec.device.name@ + " {\n"@;
    let o = cells_text(
        o,
        spec.registers@,
        layout_order(spec.registers@),
        spec.registers@.len(),
    );
    o + "}\n"@ + "\n"@
}

proof fn lemma_layout_step(regs: Seq<Register>, order: Seq<int>, n: int, k: int)
    requires
        0 <= n <= k < order.len(),
        layout_fault_from(regs, order, n) is None,
    ensures
        k > 0 && k > n ==> regs[order[k]].offset >= end_of(regs[order[k - 1]]),
        end_of(regs[order[k]]) <= u64::MAX,
    decreases k - n,
{
    if n < k {
        lemma_layout_step(regs, order, n + 1, k);
    }
}

/// Where a layout has no fault, each register starts at or after the end of the one
/// below it, and ends within the address space.
pub proof fn lemma_layout_disjoint(regs: Seq<Register>, k: int)
    requires
        layout_fault_from(regs, layout_order(regs), 0) is None,
        0 <= k < regs.len(),
    ensures
        k > 0 ==> regs[layout_order(regs)[k]].offset >= end_of(regs[layout_order(regs)[k - 1]]),
        end_of(regs[layout_order(regs)[k]]) <= u64::MAX,
{
    lemma_layout_order(regs);
    lemma_layout_step(regs, layout_order(regs), 0, k);
}

/// Writes the struct that mirrors the device's memory.
pub fn emit_layout(out: &mut String, spec: &Spec)
    requires
        layout_fault_from(spec.registers@, layout_order(spec.registers@), 0) is None,
    ensures
        final(out)@ == layout_text(old(out)@, *spec),
{
    emit_doc(out, "/// ", &spec.device.description);
    out.append("#[repr(C)]\n");
    put3(out, "pub struct ", spec.device.name.as_str(), " {\n");
    let order = sort_by_offset(&spec.registers);
    let ghost ints = layout_order(spec.registers@);
    let ghost o = out@;
    let mut n: usize = 0;
    let mut cursor: u64 = 0;
    let mut pads: usize = 0;
    while n < order.len()
        invariant
            n <= order@.len(),
            order@.len() == spec.registers@.len(),
            ints == layout_order(spec.registers@),
            ints == as_ints(order@),
            layout_fault_from(spec.registers@, layout_order(spec.registers@), 0) is None,
            forall|a: int| 0 <= a < order@.len() ==> #[trigger] order@[a] < spec.registers@.len(),
            out@ == cells_text(o, spec.registers@, ints, n as nat),
            cursor == cursor_at(spec.registers@, ints, n as nat),
            pads == gaps(spec.registers@, ints, n as nat),
            pads <= n,
        decreases order@.len() - n,
    {
        let r = &spec.registers[order[n]];
        proof {
            assert(ints[n as int] == order@[n as int] as int);
            lemma_layout_disjoint(spec.registers@, n as int);
        }
        if r.offset > cursor {
            let idx = dec(pads as u64);
            let gap = hex_of(r.offset - cursor);
            put5(out, "    _pad", idx.as_str(), ": [u8; 0x", gap.as_str(), "],\n");
            pads += 1;
        }
        emit_doc(out, "    /// ", &r.description);
        let cell = cell_type(r.access, r.width);
        put5(out, "    ", r.name.as_str(), ": ", cell.as_str(), ",\n");
        cursor = r.offset + (r.width / 8) as u64;
        n += 1;
    }
    put2(out, "}\n", "\n");
}

// ---------------------------------------------------------------------------
// The whole module
// ---------------------------------------------------------------------------

/// `o` and the types of the first `n` registers.
pub open spec fn types_text(o: Seq<char>, regs: Seq<Register>, n: nat) -> Seq<char>
    decreases n,
{
    if n == 0 {
        o
    } else {
        let o = types_text(o, regs, (n - 1) as nat);
        let r = regs[n - 1];
        let o = if r.flags@.len() > 0 {
            flags_newtype_text(o, r)
        } else {
            o
        };
        if r.fields@.len() > 0 {
            fields_newtype_text(o, r)
        } else {
            o
        }
    }
}

/// `o` and the type that a failed decode returns.
pub open spec fn reserved_bits_text(o: Seq<char>) -> Seq<char> {
    let o = o + "/// Returned when an enum decode sees a bit pattern that does not\n"@;
    let o = o + "/// correspond to any declared variant.\n"@;
    let o = o + "#[derive(Copy, Clone, Debug, PartialEq, Eq)]\n"@;
    let o = o + "pub struct ReservedBits(pub u64);\n"@;
    o + "\n"@
}

/// Writes the type that a failed decode returns.
pub fn emit_reserved_bits(out: &mut String)
    ensures
        final(out)@ == reserved_bits_text(old(out)@),
{
    out.append("/// Returned when an enum decode sees a bit pattern that does not\n");
    out.append("/// correspond to any declared variant.\n");
    out.append("#[derive(Copy, Clone, Debug, PartialEq, Eq)]\n");
    out.append("pub struct ReservedBits(pub u64);\n");
    out.append("\n");
}

/// The module generated for a device.
pub open spec fn device_text(spec: Spec) -> Seq<char> {
    let o = header_text(Seq::empty(), spec);
    let o = coverage_text(o, spec);
    let o = layout_text(o, spec);
    let o = types_text(o, spec.registers@, spec.registers@.len());
    let o = reserved_bits_text(o);
    let o = accessors_text(o, spec);
    let o = pairs_text(o, spec);
    let o = windows_text(o, spec);
    tests_text(o, spec)
}

fn emit_types(out: &mut String, spec: &Spec)
    requires
        is_valid(*spec),
    ensures
        final(out)@ == types_text(old(out)@, spec.registers@, spec.registers@.len()),
{
    let ghost o = out@;
    let mut i: usize = 0;
    while i < spec.registers.len()
        invariant
            is_valid(*spec),
            i <= spec.registers@.len(),
            out@ == types_text(o, spec.registers@, i as nat),
        decreases spec.registers@.len() - i,
    {
        let reg = &spec.registers[i];
        proof {
            lemma_valid_register(*spec, i as int);
        }
        if reg.flags.len() > 0 {
            emit_flags_newtype(out, reg);
        }
        if reg.fields.len() > 0 {
            proof {
                assert forall|k: int| 0 <= k < reg.fields@.len() implies field_fits(
                    #[trigger] reg.fields@[k],
                    reg.width,
                ) by {
                    lemma_valid_field(*spec, i as int, k);
                }
            }
            emit_fields_newtype(out, reg);
        }
        i += 1;
    }
}

fn write_device(spec: &Spec) -> (out: String)
    requires
        is_valid(*spec),
        layout_fault_from(spec.registers@, layout_order(spec.registers@), 0) is None,
    ensures
        out@ == device_text(*spec),
{
    let mut out = String::new();
    emit_header(&mut out, spec);
    emit_verify_coverage_comment(&mut out, spec);
    emit_layout(&mut out, spec);
    emit_types(&mut out, spec);
    emit_reserved_bits(&mut out);
    emit_accessors(&mut out, spec);
    emit_u64_pairs(&mut out, spec);
    emit_windowed(&mut out, spec);
    emit_tests(&mut out, spec);
    out
}

/// Generates the module for a device, or says why there is none.
pub fn emit_device(spec: &Spec) -> (r: Result<String, EmitFault>)
    requires
        is_valid(*spec),
    ensures
        match r {
            Ok(text) => emit_fault(*spec) is None && text@ == device_text(*spec),
            Err(fault) => emit_fault(*spec) == Some(fault),
        },
{
    if let Some(fault) = check_registers(&spec.registers) {
        return Err(fault);
    }
    if spec.descriptors.len() > 0 {
        return Err(EmitFault::Descriptors);
    }
    let order = sort_by_offset(&spec.registers);
    if let Some(fault) = check_layout(&spec.registers, &order) {
        return Err(fault);
    }
    Ok(write_device(spec))
}

// ---------------------------------------------------------------------------
// What can be generated
// ---------------------------------------------------------------------------

/// Whether accessors can be generated for a register: a stream has no type of its own; what is
/// behind a password has 32 bits, can be written and has no byte order; what has a byte order is
/// plain; and nothing is combined, aliased or split.
pub open spec fn can_emit(r: Register) -> bool {
    &&& r.kind == Some(RegisterKind::Stream) ==> r.flags@.len() == 0 && r.fields@.len() == 0
    &&& r.kind == Some(RegisterKind::PasswdProtected) ==> r.width == 32 && r.endian is None && (
    r.access == Access::Rw || r.access == Access::Wo)
    &&& r.kind != Some(RegisterKind::CombinedTrigger)
    &&& r.kind != Some(RegisterKind::Aliased)
    &&& r.endian is Some ==> (r.access == Access::Ro || r.access == Access::Rw || r.access
        == Access::Wo) && r.flags@.len() == 0 && r.fields@.len() == 0
    &&& r.parts@.len() == 0
    &&& r.aliases@.len() == 0
}

/// A register is refused if and only if accessors for it cannot be generated.
pub proof fn lemma_register_emit_fault(r: Register, at: usize)
    ensures
        register_emit_fault(r, at) is None <==> can_emit(r),
{
}

proof fn lemma_registers_emit_fault(regs: Seq<Register>, i: int)
    requires
        0 <= i <= regs.len(),
    ensures
        registers_emit_fault_from(regs, i) is None <==> forall|k: int|
            i <= k < regs.len() ==> can_emit(#[trigger] regs[k]),
    decreases regs.len() - i,
{
    if i < regs.len() {
        lemma_register_emit_fault(regs[i], i as usize);
        lemma_registers_emit_fault(regs, i + 1);
        assert(regs[i] == regs[i]);
    }
}

proof fn lemma_layout_fault(regs: Seq<Register>, order: Seq<int>, n: int)
    requires
        0 <= n <= order.len(),
    ensures
        layout_fault_from(regs, order, n) is None <==> forall|k: int|
            n <= k < order.len() ==> #[trigger] fits_behind(regs, order, k),
    decreases order.len() - n,
{
    if n < order.len() {
        lemma_layout_fault(regs, order, n + 1);
        assert(fits_behind(regs, order, n) == !(n > 0 && regs[order[n]].offset < end_of(
            regs[order[n - 1]],
        ) || end_of(regs[order[n]]) > u64::MAX));
    }
}

/// Whether the register at place `k` in memory starts no earlier than the one below it ends, and
/// ends within the addresses.
pub open spec fn fits_behind(regs: Seq<Register>, order: Seq<int>, k: int) -> bool {
    let r = regs[order[k]];
    &&& k > 0 ==> regs[order[k - 1]].offset + regs[order[k - 1]].width / 8 <= r.offset
    &&& r.offset + r.width / 8 <= u64::MAX
}

/// A module can be generated if and only if accessors can be for every register, there are no
/// descriptors, and no two registers overlap in memory.
pub proof fn lemma_emit_fault(spec: Spec)
    ensures
        emit_fault(spec) is None <==> {
            &&& forall|k: int| 0 <= k < spec.registers@.len() ==> can_emit(#[trigger] spec.registers@[k])
            &&& spec.descriptors@.len() == 0
            &&& forall|k: int|
                0 <= k < spec.registers@.len() ==> #[trigger] fits_behind(
                    spec.registers@,
                    layout_order(spec.registers@),
                    k,
                )
        },
{
    lemma_layout_order(spec.registers@);
    lemma_registers_emit_fault(spec.registers@, 0);
    lemma_layout_fault(spec.registers@, layout_order(spec.registers@), 0);
}

/// The cell of every register is among those that the module imports.
pub proof fn lemma_imports(regs: Seq<Register>, i: int)
    requires
        0 <= i < regs.len(),
    ensures
        crate::text::contains(
            cell_imports(regs),
            match regs[i].access {
                Access::Ro => "Ro"@,
                Access::Rw => "Rw"@,
                Access::W1c => "W1c"@,
                Access::Wo => "Wo"@,
                Access::Trigger => "Wo"@,
            },
        ),
{
    let c = cell_for(regs[i].access);
    assert(uses_cell(regs, c));
    let a = listed(Seq::empty(), uses_cell(regs, Cell::Ro), "Ro"@);
    let b = listed(a, uses_cell(regs, Cell::Rw), "Rw"@);
    let d = listed(b, uses_cell(regs, Cell::W1c), "W1c"@);
    let e = listed(d, uses_cell(regs, Cell::Wo), "Wo"@);
    lemma_listed(Seq::empty(), uses_cell(regs, Cell::Ro), "Ro"@);
    lemma_listed(a, uses_cell(regs, Cell::Rw), "Rw"@);
    lemma_listed(b, uses_cell(regs, Cell::W1c), "W1c"@);
    lemma_listed(d, uses_cell(regs, Cell::Wo), "Wo"@);
    if c == Cell::Ro {
        crate::text::lemma_contains_front(a, b, "Ro"@);
        crate::text::lemma_contains_front(b, d, "Ro"@);
        crate::text::lemma_contains_front(d, e, "Ro"@);
    } else if c == Cell::Rw {
        crate::text::lemma_contains_front(b, d, "Rw"@);
        crate::text::lemma_contains_front(d, e, "Rw"@);
    } else if c == Cell::W1c {
        crate::text::lemma_contains_front(d, e, "W1c"@);
    }
}

proof fn lemma_listed(list: Seq<char>, belongs: bool, name: Seq<char>)
    ensures
        list.is_prefix_of(listed(list, belongs, name)),
        belongs ==> crate::text::contains(listed(list, belongs, name), name),
{
    let t = listed(list, belongs, name);
    assert(list =~= t.subrange(0, list.len() as int));
    if belongs {
        if list.len() == 0 {
            crate::text::lemma_ends_with(Seq::empty(), name);
            assert(Seq::<char>::empty() + name =~= t);
        } else {
            crate::text::lemma_ends_with(list + ", "@, name);
        }
    }
}

} // verus!
