//! What the module of a device holds: the accessors of every register, pair and window, and the
//! constants of every flag and field.

use super::accessors::{
    accessors_text, barrier_text, clear_text, inline_line, modify_raw_text, modify_typed_text,
    note, pair_access, pair_text, pairs_body, pairs_text, raw_read_text, raw_write_text, read_expr,
    register_text, registers_text, set_text, snapshot_text, stored, window_bits, window_int_bits,
    window_read_text, window_write_text, windows_body, windows_text,
};
use super::emit::{int_type, is_typed};
use super::laws::{
    lemma_pair_text, lemma_reader_text, lemma_writer_text, loop_text, pair_reader, pair_writer,
    reader_steps, writer_steps,
};
use super::model::{
    Access, Endian, Register, RegisterKind, Spec, U64Pair, Windowed, WindowedDirection,
};
use crate::letter_case::pascal;
use crate::numerals::decimal;
use crate::text::{
    contains, lemma_contains_front, lemma_contains_middle, lemma_ends_with, lemma_join3,
    lemma_join7, lemma_prefix1, lemma_prefix3, lemma_prefix5, lemma_prefix_self,
    lemma_prefix_step,
};
use vstd::prelude::*;

verus! {

// ---------------------------------------------------------------------------
// Registers
// ---------------------------------------------------------------------------

/// The expression that reads a register: one that is stored with its highest byte first is turned
/// round.
pub open spec fn reading(r: Register) -> Seq<char> {
    if r.endian == Some(Endian::Big) {
        "u"@ + decimal(r.width as nat) + "::from_be(self."@ + r.name@ + ".read())"@
    } else {
        "self."@ + r.name@ + ".read()"@
    }
}

/// The reader of an untyped register.
pub open spec fn read_line(r: Register) -> Seq<char> {
    "    pub fn read_"@ + r.name@ + "(&self) -> "@ + int_type(r.width) + " { "@ + reading(r)
        + " }\n"@
}

/// The writer of an untyped register.
pub open spec fn write_line(r: Register) -> Seq<char> {
    "    pub fn write_"@ + r.name@ + "(&self, v: "@ + int_type(r.width) + ") { self."@ + r.name@
        + ".write("@ + (stored(r, "v"@) + "); }\n"@)
}

/// The change of an untyped register by what is read of it.
pub open spec fn modify_line(r: Register) -> Seq<char> {
    if r.endian == Some(Endian::Big) || r.kind == Some(RegisterKind::PasswdProtected) {
        "        self."@ + r.name@ + ".modify(|v| "@ + stored(r, "f(v)"@) + ");\n"@
    } else {
        "        self."@ + r.name@ + ".modify(f);\n"@
    }
}

/// The reader of a typed register.
pub open spec fn snapshot_line(r: Register) -> Seq<char> {
    "    pub fn "@ + r.name@ + "(&self) -> "@ + pascal(r.name@) + " { "@ + pascal(r.name@)
        + "(self."@ + (r.name@ + ".read()) }\n"@)
}

/// The writer of a typed register.
pub open spec fn set_line(r: Register) -> Seq<char> {
    "    pub fn set_"@ + r.name@ + "(&self, v: "@ + pascal(r.name@) + ") { self."@ + r.name@
        + ".write("@ + (stored(r, "v.0"@) + "); }\n"@)
}

/// The change of a typed register by what is read of it.
pub open spec fn modify_typed_line(r: Register) -> Seq<char> {
    "        self."@ + r.name@ + ".modify(|v| "@ + stored(
        r,
        "f("@ + pascal(r.name@) + "(v)).0"@,
    ) + ");\n"@
}

/// The clearer of a register whose bits are cleared by writing ones.
pub open spec fn clear_line(r: Register) -> Seq<char> {
    if is_typed(r) {
        "    pub fn clear_"@ + r.name@ + "(&self, mask: "@ + pascal(r.name@) + ") { self."@
            + r.name@ + ".clear(mask.0); }\n"@
    } else {
        "    pub fn clear_"@ + r.name@ + "(&self, mask: "@ + int_type(r.width) + ") { self."@
            + r.name@ + ".clear(mask); }\n"@
    }
}

/// What can be done with a register: it can be read where its access says so, and written where
/// its access says so; what can be both can be changed, unless its reads and writes touch different
/// state.
pub open spec fn register_lines(r: Register) -> Seq<Seq<char>> {
    if is_typed(r) {
        match r.access {
            Access::Ro => seq![snapshot_line(r)],
            Access::Rw => seq![snapshot_line(r), set_line(r), modify_typed_line(r)],
            Access::Wo => seq![set_line(r)],
            Access::Trigger => seq![set_line(r)],
            Access::W1c => seq![clear_line(r)],
        }
    } else {
        match r.access {
            Access::Ro => seq![read_line(r)],
            Access::Rw => if r.kind == Some(RegisterKind::Stream) {
                seq![read_line(r), write_line(r)]
            } else {
                seq![read_line(r), write_line(r), modify_line(r)]
            },
            Access::Wo => seq![write_line(r)],
            Access::Trigger => seq![write_line(r)],
            Access::W1c => seq![clear_line(r)],
        }
    }
}

/// Whether a text contains all the lines.
pub open spec fn holds_all(t: Seq<char>, lines: Seq<Seq<char>>) -> bool {
    forall|i: int| 0 <= i < lines.len() ==> contains(t, #[trigger] lines[i])
}

proof fn lemma_holds_front(o: Seq<char>, t: Seq<char>, lines: Seq<Seq<char>>)
    requires
        o.is_prefix_of(t),
        holds_all(o, lines),
    ensures
        holds_all(t, lines),
{
    assert forall|i: int| 0 <= i < lines.len() implies contains(t, #[trigger] lines[i]) by {
        lemma_contains_front(o, t, lines[i]);
    }
}

proof fn lemma_reading(r: Register)
    ensures
        read_expr(r) == reading(r),
{
}

proof fn lemma_read(o: Seq<char>, r: Register)
    ensures
        o.is_prefix_of(raw_read_text(o, r)),
        contains(raw_read_text(o, r), read_line(r)),
{
    let wty = int_type(r.width);
    lemma_reading(r);
    lemma_prefix_self(o);
    lemma_prefix5(o, o, "    /// Volatile read of `"@, r.name@, "` as `"@, wty, "`"@);
    let h1 = o + "    /// Volatile read of `"@ + r.name@ + "` as `"@ + wty + "`"@;
    lemma_prefix3(o, h1, note(r), ".\n"@, inline_line());
    let h = h1 + note(r) + ".\n"@ + inline_line();
    lemma_join7(
        h,
        "    pub fn read_"@,
        r.name@,
        "(&self) -> "@,
        wty,
        " { "@,
        read_expr(r),
        " }\n"@,
    );
    lemma_ends_with(h, read_line(r));
    lemma_prefix_step(o, h, raw_read_text(o, r));
}

/// Joins what a writer's line is made of.
proof fn lemma_call_line(
    h: Seq<char>,
    a: Seq<char>,
    b: Seq<char>,
    c: Seq<char>,
    d: Seq<char>,
    e: Seq<char>,
    f: Seq<char>,
    g: Seq<char>,
    x: Seq<char>,
    y: Seq<char>,
)
    ensures
        h + a + b + c + d + e + f + g + x + y == h + (a + b + c + d + e + f + g + (x + y)),
{
    lemma_join7(h, a, b, c, d, e, f, g);
    let m = a + b + c + d + e + f + g;
    assert(h + m + x + y =~= h + (m + (x + y)));
}

proof fn lemma_write(o: Seq<char>, r: Register)
    ensures
        o.is_prefix_of(raw_write_text(o, r)),
        contains(raw_write_text(o, r), write_line(r)),
{
    lemma_prefix_self(o);
    lemma_prefix3(o, o, "    /// Volatile write of `"@, r.name@, "`"@);
    let h1 = o + "    /// Volatile write of `"@ + r.name@ + "`"@;
    lemma_prefix3(o, h1, note(r), ".\n"@, inline_line());
    let h = h1 + note(r) + ".\n"@ + inline_line();
    lemma_call_line(
        h,
        "    pub fn write_"@,
        r.name@,
        "(&self, v: "@,
        int_type(r.width),
        ") { self."@,
        r.name@,
        ".write("@,
        stored(r, "v"@),
        "); }\n"@,
    );
    lemma_ends_with(h, write_line(r));
    lemma_prefix_step(o, h, raw_write_text(o, r));
}

proof fn lemma_snapshot(o: Seq<char>, r: Register)
    ensures
        o.is_prefix_of(snapshot_text(o, r)),
        contains(snapshot_text(o, r), snapshot_line(r)),
{
    let ty = pascal(r.name@);
    lemma_prefix_self(o);
    lemma_prefix3(o, o, "    /// Read a typed snapshot of `"@, r.name@, "`.\n"@);
    let h1 = o + "    /// Read a typed snapshot of `"@ + r.name@ + "`.\n"@;
    lemma_prefix1(o, h1, inline_line());
    let h = h1 + inline_line();
    lemma_call_line(
        h,
        "    pub fn "@,
        r.name@,
        "(&self) -> "@,
        ty,
        " { "@,
        ty,
        "(self."@,
        r.name@,
        ".read()) }\n"@,
    );
    lemma_ends_with(h, snapshot_line(r));
    lemma_prefix_step(o, h, snapshot_text(o, r));
}

proof fn lemma_set(o: Seq<char>, r: Register, lead: Seq<char>)
    ensures
        o.is_prefix_of(set_text(o, r, lead)),
        contains(set_text(o, r, lead), set_line(r)),
{
    lemma_prefix_self(o);
    lemma_prefix3(o, o, lead, r.name@, "`"@);
    let h1 = o + lead + r.name@ + "`"@;
    lemma_prefix3(o, h1, note(r), ".\n"@, inline_line());
    let h = h1 + note(r) + ".\n"@ + inline_line();
    lemma_call_line(
        h,
        "    pub fn set_"@,
        r.name@,
        "(&self, v: "@,
        pascal(r.name@),
        ") { self."@,
        r.name@,
        ".write("@,
        stored(r, "v.0"@),
        "); }\n"@,
    );
    lemma_ends_with(h, set_line(r));
    lemma_prefix_step(o, h, set_text(o, r, lead));
}

proof fn lemma_modify_typed(o: Seq<char>, r: Register)
    ensures
        o.is_prefix_of(modify_typed_text(o, r)),
        contains(modify_typed_text(o, r), modify_typed_line(r)),
{
    let ty = pascal(r.name@);
    let x = stored(r, "f("@ + ty + "(v)).0"@);
    lemma_prefix_self(o);
    lemma_prefix5(
        o,
        o,
        "    /// Read-modify-write `"@,
        r.name@,
        "` via a typed closure"@,
        note(r),
        ".\n"@,
    );
    let h1 = o + "    /// Read-modify-write `"@ + r.name@ + "` via a typed closure"@ + note(r)
        + ".\n"@;
    lemma_prefix1(o, h1, inline_line());
    let h2 = h1 + inline_line();
    lemma_prefix5(o, h2, "    pub fn modify_"@, r.name@, "<F: FnOnce("@, ty, ") -> "@);
    let h3 = h2 + "    pub fn modify_"@ + r.name@ + "<F: FnOnce("@ + ty + ") -> "@;
    lemma_prefix1(o, h3, ty);
    lemma_prefix1(o, h3 + ty, ">(&self, f: F) {\n"@);
    let h = h3 + ty + ">(&self, f: F) {\n"@;
    lemma_join3(h, "        self."@, r.name@, ".modify(|v| "@, x);
    let m = "        self."@ + r.name@ + ".modify(|v| "@ + x;
    assert(h + m + ");\n"@ =~= h + (m + ");\n"@));
    lemma_contains_middle(h, modify_typed_line(r), "    }\n"@);
    lemma_prefix1(o, h, modify_typed_line(r));
    lemma_prefix1(o, h + modify_typed_line(r), "    }\n"@);
}

proof fn lemma_modify(o: Seq<char>, r: Register)
    ensures
        o.is_prefix_of(modify_raw_text(o, r)),
        contains(modify_raw_text(o, r), modify_line(r)),
{
    let wty = int_type(r.width);
    let x = stored(r, "f(v)"@);
    lemma_prefix_self(o);
    lemma_prefix5(o, o, "    /// Read-modify-write `"@, r.name@, "`"@, note(r), ".\n"@);
    let h1 = o + "    /// Read-modify-write `"@ + r.name@ + "`"@ + note(r) + ".\n"@;
    lemma_prefix1(o, h1, inline_line());
    let h2 = h1 + inline_line();
    lemma_prefix5(o, h2, "    pub fn modify_"@, r.name@, "<F: FnOnce("@, wty, ") -> "@);
    let h3 = h2 + "    pub fn modify_"@ + r.name@ + "<F: FnOnce("@ + wty + ") -> "@;
    lemma_prefix1(o, h3, wty);
    lemma_prefix1(o, h3 + wty, ">(&self, f: F) {\n"@);
    let h = h3 + wty + ">(&self, f: F) {\n"@;
    lemma_join3(h, "        self."@, r.name@, ".modify(|v| "@, x);
    let m = "        self."@ + r.name@ + ".modify(|v| "@ + x;
    assert(h + m + ");\n"@ =~= h + (m + ");\n"@));
    let p = "        self."@ + r.name@ + ".modify(f);\n"@;
    assert(h + "        self."@ + r.name@ + ".modify(f);\n"@ =~= h + p);
    lemma_contains_middle(h, modify_line(r), "    }\n"@);
    lemma_prefix1(o, h, modify_line(r));
    lemma_prefix1(o, h + modify_line(r), "    }\n"@);
}

proof fn lemma_clear(o: Seq<char>, r: Register)
    ensures
        o.is_prefix_of(clear_text(o, r)),
        contains(clear_text(o, r), clear_line(r)),
{
    lemma_prefix_self(o);
    lemma_prefix3(o, o, "    /// Clear bits in `"@, r.name@, "` (write-1-to-clear).\n"@);
    let h1 = o + "    /// Clear bits in `"@ + r.name@ + "` (write-1-to-clear).\n"@;
    lemma_prefix1(o, h1, inline_line());
    let h = h1 + inline_line();
    let ty = if is_typed(r) {
        pascal(r.name@)
    } else {
        int_type(r.width)
    };
    let end = if is_typed(r) {
        ".clear(mask.0); }\n"@
    } else {
        ".clear(mask); }\n"@
    };
    lemma_join7(
        h,
        "    pub fn clear_"@,
        r.name@,
        "(&self, mask: "@,
        ty,
        ") { self."@,
        r.name@,
        end,
    );
    lemma_ends_with(h, clear_line(r));
    lemma_prefix_step(o, h, clear_text(o, r));
}

/// A register has the accessors that its access calls for.
pub proof fn lemma_register_holds(o: Seq<char>, r: Register)
    ensures
        o.is_prefix_of(register_text(o, r)),
        holds_all(register_text(o, r), register_lines(r)),
{
    let t = register_text(o, r);
    match r.access {
        Access::Ro => {
            lemma_snapshot(o, r);
            lemma_read(o, r);
        },
        Access::Rw => if is_typed(r) {
            let a = snapshot_text(o, r);
            lemma_snapshot(o, r);
            let lead = "    /// Write the value back to `"@;
            let b = set_text(a, r, lead);
            lemma_set(a, r, lead);
            lemma_modify_typed(b, r);
            lemma_prefix_step(o, a, b);
            lemma_prefix_step(o, b, t);
            lemma_prefix_step(a, b, t);
            lemma_contains_front(a, t, snapshot_line(r));
            lemma_contains_front(b, t, set_line(r));
        } else {
            let a = raw_read_text(o, r);
            lemma_read(o, r);
            let b = raw_write_text(a, r);
            lemma_write(a, r);
            lemma_modify(b, r);
            lemma_prefix_step(o, a, b);
            lemma_contains_front(a, b, read_line(r));
            let c = modify_raw_text(b, r);
            lemma_prefix_step(o, b, c);
            lemma_contains_front(b, c, read_line(r));
            lemma_contains_front(b, c, write_line(r));
        },
        Access::Wo => {
            lemma_set(o, r, "    /// Write a typed value to `"@);
            lemma_write(o, r);
        },
        Access::Trigger => {
            lemma_set(o, r, "    /// Write a typed value to `"@);
            lemma_write(o, r);
        },
        Access::W1c => {
            lemma_clear(o, r);
        },
    }
}

proof fn lemma_registers_hold(o: Seq<char>, regs: Seq<Register>, n: nat, k: int)
    requires
        n <= regs.len(),
    ensures
        o.is_prefix_of(registers_text(o, regs, n)),
        0 <= k < n ==> holds_all(registers_text(o, regs, n), register_lines(regs[k])),
    decreases n,
{
    if n == 0 {
        lemma_prefix_self(o);
    } else {
        let a = registers_text(o, regs, (n - 1) as nat);
        lemma_registers_hold(o, regs, (n - 1) as nat, k);
        lemma_register_holds(a, regs[n - 1]);
        let t = registers_text(o, regs, n);
        lemma_prefix_step(o, a, t);
        if 0 <= k < n - 1 {
            lemma_holds_front(a, t, register_lines(regs[k]));
        }
    }
}

// ---------------------------------------------------------------------------
// Pairs
// ---------------------------------------------------------------------------

/// What can be done with a pair: what can be done with its halves.
pub open spec fn pair_lines(regs: Seq<Register>, p: U64Pair) -> Seq<Seq<char>> {
    match pair_access(regs, p) {
        Access::Ro => seq![pair_reader(p)],
        Access::Wo => seq![pair_writer(p)],
        Access::Rw => seq![pair_reader(p), pair_writer(p)],
        _ => Seq::empty(),
    }
}

proof fn lemma_pair_prefix(o: Seq<char>, regs: Seq<Register>, p: U64Pair)
    ensures
        o.is_prefix_of(pair_text(o, regs, p)),
{
    let access = pair_access(regs, p);
    lemma_prefix_self(o);
    lemma_prefix5(o, o, "    /// Composed read of `"@, p.name@, "` (low="@, p.low@, ", high="@);
    let a1 = o + "    /// Composed read of `"@ + p.name@ + "` (low="@ + p.low@ + ", high="@;
    lemma_prefix3(o, a1, p.high@, ", le).\n"@, inline_line());
    let a2 = a1 + p.high@ + ", le).\n"@ + inline_line();
    lemma_prefix3(o, a2, "    pub fn read_"@, p.name@, "(&self) -> u64 {\n"@);
    let a3 = a2 + "    pub fn read_"@ + p.name@ + "(&self) -> u64 {\n"@;
    lemma_prefix5(
        o,
        a3,
        "        self.read_"@,
        p.low@,
        "() as u64 | ((self.read_"@,
        p.high@,
        "() as u64) << 32)\n"@,
    );
    let a4 = a3 + "        self.read_"@ + p.low@ + "() as u64 | ((self.read_"@ + p.high@
        + "() as u64) << 32)\n"@;
    lemma_prefix1(o, a4, "    }\n"@);
    let b = if access is Ro || access is Rw {
        a4 + "    }\n"@
    } else {
        o
    };
    lemma_prefix3(
        o,
        b,
        "    /// Composed write of `"@,
        p.name@,
        "` (writes low first, then high; le).\n"@,
    );
    let b1 = b + "    /// Composed write of `"@ + p.name@
        + "` (writes low first, then high; le).\n"@;
    lemma_prefix1(o, b1, inline_line());
    let b2 = b1 + inline_line();
    lemma_prefix3(o, b2, "    pub fn write_"@, p.name@, "(&self, v: u64) {\n"@);
    let b3 = b2 + "    pub fn write_"@ + p.name@ + "(&self, v: u64) {\n"@;
    lemma_prefix3(o, b3, "        self.write_"@, p.low@, "(v as u32);\n"@);
    let b4 = b3 + "        self.write_"@ + p.low@ + "(v as u32);\n"@;
    lemma_prefix3(o, b4, "        self.write_"@, p.high@, "((v >> 32) as u32);\n"@);
    let b5 = b4 + "        self.write_"@ + p.high@ + "((v >> 32) as u32);\n"@;
    lemma_prefix1(o, b5, "    }\n"@);
}

/// A pair has the accessors that the access of its halves calls for.
pub proof fn lemma_pair_holds(o: Seq<char>, regs: Seq<Register>, p: U64Pair)
    ensures
        o.is_prefix_of(pair_text(o, regs, p)),
        holds_all(pair_text(o, regs, p), pair_lines(regs, p)),
{
    lemma_pair_prefix(o, regs, p);
    lemma_pair_text(o, regs, p);
    let t = pair_text(o, regs, p);
    match pair_access(regs, p) {
        Access::Ro => {
            let h = choose|h: Seq<char>| #[trigger] (h + pair_reader(p)) == t;
            lemma_ends_with(h, pair_reader(p));
        },
        Access::Wo => {
            let h = choose|h: Seq<char>| #[trigger] (h + pair_writer(p)) == t;
            lemma_ends_with(h, pair_writer(p));
        },
        Access::Rw => {
            let (h, m) = choose|h: Seq<char>, m: Seq<char>|
                #![trigger (h + pair_reader(p)) + m]
                (h + pair_reader(p)) + m + pair_writer(p) == t;
            lemma_ends_with(h + pair_reader(p) + m, pair_writer(p));
            lemma_contains_middle(h, pair_reader(p), m);
            lemma_contains_front(h + pair_reader(p) + m, t, pair_reader(p));
        },
        _ => {},
    }
}

proof fn lemma_pairs_hold(o: Seq<char>, spec: Spec, n: nat, k: int)
    requires
        n <= spec.u64_pairs@.len(),
    ensures
        o.is_prefix_of(pairs_body(o, spec, n)),
        0 <= k < n ==> holds_all(
            pairs_body(o, spec, n),
            pair_lines(spec.registers@, spec.u64_pairs@[k]),
        ),
    decreases n,
{
    if n == 0 {
        lemma_prefix_self(o);
    } else {
        let a = pairs_body(o, spec, (n - 1) as nat);
        lemma_pairs_hold(o, spec, (n - 1) as nat, k);
        lemma_pair_holds(a, spec.registers@, spec.u64_pairs@[n - 1]);
        let t = pairs_body(o, spec, n);
        lemma_prefix_step(o, a, t);
        if 0 <= k < n - 1 {
            lemma_holds_front(a, t, pair_lines(spec.registers@, spec.u64_pairs@[k]));
        }
    }
}

// ---------------------------------------------------------------------------
// Windows
// ---------------------------------------------------------------------------

/// The integer that a window is read into or written from holds all its chunks, and has at least
/// 64 bits.
pub proof fn lemma_window_fits(win: Windowed)
    ensures
        window_bits(win) == win.chunk_width * win.chunk_count,
        window_int_bits(win) >= window_bits(win),
        window_int_bits(win) >= 64,
        window_int_bits(win) == 64 || window_int_bits(win) == window_bits(win),
{
    assert(win.chunk_width * win.chunk_count >= 0) by (nonlinear_arith);
}

/// What can be done with a window: it can be read, or written, as it is declared; the accessor has
/// the window's name and its bits, and the loop walks its chunks.
pub open spec fn window_lines(win: Windowed) -> Seq<Seq<char>> {
    let bits = decimal(window_bits(win));
    let wide = decimal(window_int_bits(win));
    match win.direction {
        WindowedDirection::Read => seq![
            "    pub fn read_"@ + win.name@ + "_"@ + bits + "(&self) -> u"@ + wide + " {\n"@,
            loop_text(win.chunk_count as nat, reader_steps(win)),
        ],
        WindowedDirection::Write => seq![
            "    pub fn write_"@ + win.name@ + "_"@ + bits + "(&self, v: u"@ + wide + ") {\n"@,
            loop_text(win.chunk_count as nat, writer_steps(win)),
        ],
    }
}

proof fn lemma_barrier_prefix(o: Seq<char>, h: Seq<char>, win: Windowed)
    requires
        o.is_prefix_of(h),
    ensures
        o.is_prefix_of(barrier_text(h, win)),
{
    lemma_prefix1(o, h, "            dmb_ish();\n"@);
}

/// What stands before the body of a window's reader.
spec fn read_head(o: Seq<char>, win: Windowed) -> Seq<char> {
    let count = decimal(win.chunk_count as nat);
    let width = decimal(win.chunk_width as nat);
    let wide = decimal(window_int_bits(win));
    let a = o + "    /// Walk `"@ + win.name@ + "` (selector="@ + win.selector@ + ", value="@
        + win.value@ + ") across "@ + count + " chunks of "@ + width + " bits;\n"@;
    let b = a + "    /// compose into a u"@ + wide
        + " (chunk 0 supplies the least-significant bits).\n"@;
    b + inline_line()
}

proof fn lemma_read_head(o: Seq<char>, win: Windowed)
    ensures
        o.is_prefix_of(read_head(o, win)),
{
    let count = decimal(win.chunk_count as nat);
    let width = decimal(win.chunk_width as nat);
    let wide = decimal(window_int_bits(win));
    lemma_prefix_self(o);
    lemma_prefix5(
        o,
        o,
        "    /// Walk `"@,
        win.name@,
        "` (selector="@,
        win.selector@,
        ", value="@,
    );
    let a1 = o + "    /// Walk `"@ + win.name@ + "` (selector="@ + win.selector@ + ", value="@;
    lemma_prefix3(o, a1, win.value@, ") across "@, count);
    let a2 = a1 + win.value@ + ") across "@ + count;
    lemma_prefix3(o, a2, " chunks of "@, width, " bits;\n"@);
    let a3 = a2 + " chunks of "@ + width + " bits;\n"@;
    lemma_prefix3(
        o,
        a3,
        "    /// compose into a u"@,
        wide,
        " (chunk 0 supplies the least-significant bits).\n"@,
    );
    let b = a3 + "    /// compose into a u"@ + wide
        + " (chunk 0 supplies the least-significant bits).\n"@;
    lemma_prefix1(o, b, inline_line());
}

proof fn lemma_window_read(o: Seq<char>, win: Windowed)
    ensures
        o.is_prefix_of(window_read_text(o, win)),
        contains(
            window_read_text(o, win),
            "    pub fn read_"@ + win.name@ + "_"@ + decimal(window_bits(win)) + "(&self) -> u"@
                + decimal(window_int_bits(win)) + " {\n"@,
        ),
        contains(
            window_read_text(o, win),
            loop_text(win.chunk_count as nat, reader_steps(win)),
        ),
{
    let count = decimal(win.chunk_count as nat);
    let width = decimal(win.chunk_width as nat);
    let wide = decimal(window_int_bits(win));
    let bits = decimal(window_bits(win));
    let line = "    pub fn read_"@ + win.name@ + "_"@ + bits + "(&self) -> u"@ + wide + " {\n"@;
    let h = read_head(o, win);
    lemma_read_head(o, win);
    lemma_join7(
        h,
        "    pub fn read_"@,
        win.name@,
        "_"@,
        bits,
        "(&self) -> u"@,
        wide,
        " {\n"@,
    );
    let c = h + line;
    lemma_ends_with(h, line);
    lemma_prefix_step(o, h, c);
    lemma_prefix_self(c);
    lemma_prefix3(c, c, "        let mut acc: u"@, wide, " = 0;\n"@);
    let c1 = c + "        let mut acc: u"@ + wide + " = 0;\n"@;
    lemma_prefix3(c, c1, "        for i in 0.."@, count, " {\n"@);
    let c2 = c1 + "        for i in 0.."@ + count + " {\n"@;
    lemma_prefix3(c, c2, "            self.write_"@, win.selector@, "(i as u32);\n"@);
    let c3 = c2 + "            self.write_"@ + win.selector@ + "(i as u32);\n"@;
    lemma_barrier_prefix(c, c3, win);
    let c4 = barrier_text(c3, win);
    lemma_prefix5(c, c4, "            let chunk = self.read_"@, win.value@, "() as u"@, wide, ";\n"@);
    let c5 = c4 + "            let chunk = self.read_"@ + win.value@ + "() as u"@ + wide + ";\n"@;
    lemma_prefix3(c, c5, "            acc |= chunk << (i * "@, width, ");\n"@);
    let c6 = c5 + "            acc |= chunk << (i * "@ + width + ");\n"@;
    lemma_prefix3(c, c6, "        }\n"@, "        acc\n"@, "    }\n"@);
    let t = window_read_text(o, win);
    assert(t == c6 + "        }\n"@ + "        acc\n"@ + "    }\n"@);
    lemma_prefix_step(o, c, t);
    lemma_contains_front(c, t, line);
    lemma_reader_text(o, win);
    let l = loop_text(win.chunk_count as nat, reader_steps(win));
    let x = choose|x: Seq<char>| #[trigger]
        (x + "        let mut acc: u"@ + wide + " = 0;\n"@ + l) + "        acc\n"@ + "    }\n"@ == t;
    let y = x + "        let mut acc: u"@ + wide + " = 0;\n"@;
    lemma_contains_middle(y, l, "        acc\n"@);
    lemma_prefix_self(y + l + "        acc\n"@);
    lemma_prefix1(y + l + "        acc\n"@, y + l + "        acc\n"@, "    }\n"@);
    lemma_contains_front(y + l + "        acc\n"@, t, l);
}

proof fn lemma_window_write(o: Seq<char>, win: Windowed)
    ensures
        o.is_prefix_of(window_write_text(o, win)),
        contains(
            window_write_text(o, win),
            "    pub fn write_"@ + win.name@ + "_"@ + decimal(window_bits(win)) + "(&self, v: u"@
                + decimal(window_int_bits(win)) + ") {\n"@,
        ),
        contains(
            window_write_text(o, win),
            loop_text(win.chunk_count as nat, writer_steps(win)),
        ),
{
    let count = decimal(win.chunk_count as nat);
    let width = decimal(win.chunk_width as nat);
    let wide = decimal(window_int_bits(win));
    let bits = decimal(window_bits(win));
    let line = "    pub fn write_"@ + win.name@ + "_"@ + bits + "(&self, v: u"@ + wide + ") {\n"@;
    lemma_prefix_self(o);
    lemma_prefix5(o, o, "    /// Walk `"@, win.name@, "` writing "@, count, " chunks of "@);
    let a1 = o + "    /// Walk `"@ + win.name@ + "` writing "@ + count + " chunks of "@;
    lemma_prefix1(o, a1, width);
    lemma_prefix1(o, a1 + width, " bits;\n"@);
    let a2 = a1 + width + " bits;\n"@;
    lemma_prefix1(o, a2, "    /// chunk 0 carries the least-significant bits of `v`.\n"@);
    let a3 = a2 + "    /// chunk 0 carries the least-significant bits of `v`.\n"@;
    lemma_prefix1(o, a3, inline_line());
    let h = a3 + inline_line();
    lemma_join7(
        h,
        "    pub fn write_"@,
        win.name@,
        "_"@,
        bits,
        "(&self, v: u"@,
        wide,
        ") {\n"@,
    );
    let c = h + line;
    lemma_ends_with(h, line);
    lemma_prefix_step(o, h, c);
    lemma_prefix_self(c);
    lemma_prefix3(c, c, "        for i in 0.."@, count, " {\n"@);
    let c2 = c + "        for i in 0.."@ + count + " {\n"@;
    lemma_prefix3(c, c2, "            self.write_"@, win.selector@, "(i as u32);\n"@);
    let c3 = c2 + "            self.write_"@ + win.selector@ + "(i as u32);\n"@;
    lemma_barrier_prefix(c, c3, win);
    let c4 = barrier_text(c3, win);
    lemma_prefix5(
        c,
        c4,
        "            let chunk = (v >> (i * "@,
        width,
        ")) as u"@,
        width,
        ";\n"@,
    );
    let c5 = c4 + "            let chunk = (v >> (i * "@ + width + ")) as u"@ + width + ";\n"@;
    lemma_prefix3(c, c5, "            self.write_"@, win.value@, "(chunk);\n"@);
    let c6 = c5 + "            self.write_"@ + win.value@ + "(chunk);\n"@;
    lemma_prefix1(c, c6, "        }\n"@);
    lemma_prefix1(c, c6 + "        }\n"@, "    }\n"@);
    let t = window_write_text(o, win);
    assert(t == c6 + "        }\n"@ + "    }\n"@);
    lemma_prefix_step(o, c, t);
    lemma_contains_front(c, t, line);
    lemma_writer_text(o, win);
    let l = loop_text(win.chunk_count as nat, writer_steps(win));
    let x = choose|x: Seq<char>| #[trigger] (x + l) + "    }\n"@ == t;
    lemma_contains_middle(x, l, "    }\n"@);
}

/// A window has the accessor that its direction calls for.
pub proof fn lemma_window_holds(o: Seq<char>, win: Windowed)
    ensures
        ({
            let t = match win.direction {
                WindowedDirection::Read => window_read_text(o, win),
                WindowedDirection::Write => window_write_text(o, win),
            };
            o.is_prefix_of(t) && holds_all(t, window_lines(win))
        }),
{
    lemma_window_read(o, win);
    lemma_window_write(o, win);
}

proof fn lemma_windows_hold(o: Seq<char>, spec: Spec, n: nat, k: int)
    requires
        n <= spec.windowed@.len(),
    ensures
        o.is_prefix_of(windows_body(o, spec, n)),
        0 <= k < n ==> holds_all(windows_body(o, spec, n), window_lines(spec.windowed@[k])),
    decreases n,
{
    if n == 0 {
        lemma_prefix_self(o);
    } else {
        let a = windows_body(o, spec, (n - 1) as nat);
        lemma_windows_hold(o, spec, (n - 1) as nat, k);
        lemma_window_holds(a, spec.windowed@[n - 1]);
        let t = windows_body(o, spec, n);
        lemma_prefix_step(o, a, t);
        if 0 <= k < n - 1 {
            lemma_holds_front(a, t, window_lines(spec.windowed@[k]));
        }
    }
}

// ---------------------------------------------------------------------------
// The parts of the module
// ---------------------------------------------------------------------------

/// The accessors of a device are those of every register, and none is left out.
pub proof fn lemma_accessors_hold(o: Seq<char>, spec: Spec, k: int)
    requires
        0 <= k < spec.registers@.len(),
    ensures
        o.is_prefix_of(accessors_text(o, spec)),
        holds_all(accessors_text(o, spec), register_lines(spec.registers@[k])),
{
    let dev = spec.device.name@;
    lemma_prefix_self(o);
    lemma_prefix3(o, o, "// ---------- "@, dev, " accessors ----------\n"@);
    let a = o + "// ---------- "@ + dev + " accessors ----------\n"@;
    lemma_prefix1(o, a, "\n"@);
    lemma_prefix3(o, a + "\n"@, "impl "@, dev, " {\n"@);
    let b = a + "\n"@ + "impl "@ + dev + " {\n"@;
    let n = spec.registers@.len();
    let c = registers_text(b, spec.registers@, n);
    lemma_registers_hold(b, spec.registers@, n, k);
    lemma_prefix_step(o, b, c);
    lemma_prefix_self(c);
    lemma_prefix1(c, c, "}\n"@);
    lemma_prefix1(c, c + "}\n"@, "\n"@);
    lemma_prefix_step(o, c, accessors_text(o, spec));
    lemma_holds_front(c, accessors_text(o, spec), register_lines(spec.registers@[k]));
}

/// The accessors of the pairs of a device are those of every pair.
pub proof fn lemma_all_pairs_hold(o: Seq<char>, spec: Spec, k: int)
    requires
        0 <= k < spec.u64_pairs@.len(),
    ensures
        o.is_prefix_of(pairs_text(o, spec)),
        holds_all(pairs_text(o, spec), pair_lines(spec.registers@, spec.u64_pairs@[k])),
{
    let dev = spec.device.name@;
    lemma_prefix_self(o);
    lemma_prefix3(o, o, "// ---------- "@, dev, " u64-pair accessors ----------\n"@);
    let a = o + "// ---------- "@ + dev + " u64-pair accessors ----------\n"@;
    lemma_prefix1(o, a, "\n"@);
    lemma_prefix3(o, a + "\n"@, "impl "@, dev, " {\n"@);
    let b = a + "\n"@ + "impl "@ + dev + " {\n"@;
    let n = spec.u64_pairs@.len();
    let c = pairs_body(b, spec, n);
    lemma_pairs_hold(b, spec, n, k);
    lemma_prefix_step(o, b, c);
    lemma_prefix_self(c);
    lemma_prefix1(c, c, "}\n"@);
    lemma_prefix1(c, c + "}\n"@, "\n"@);
    lemma_prefix_step(o, c, pairs_text(o, spec));
    lemma_holds_front(
        c,
        pairs_text(o, spec),
        pair_lines(spec.registers@, spec.u64_pairs@[k]),
    );
}

/// The accessors of the windows of a device are those of every window.
pub proof fn lemma_all_windows_hold(o: Seq<char>, spec: Spec, k: int)
    requires
        0 <= k < spec.windowed@.len(),
    ensures
        o.is_prefix_of(windows_text(o, spec)),
        holds_all(windows_text(o, spec), window_lines(spec.windowed@[k])),
{
    let dev = spec.device.name@;
    lemma_prefix_self(o);
    lemma_prefix3(o, o, "// ---------- "@, dev, " windowed accessors ----------\n"@);
    let a = o + "// ---------- "@ + dev + " windowed accessors ----------\n"@;
    lemma_prefix1(o, a, "\n"@);
    let a1 = a + "\n"@;
    lemma_prefix1(o, a1, "use lockjaw_mmio::barrier::dmb_ish;\n"@);
    lemma_prefix1(o, a1 + "use lockjaw_mmio::barrier::dmb_ish;\n"@, "\n"@);
    let a2 = if super::accessors::needs_barrier(spec) {
        a1 + "use lockjaw_mmio::barrier::dmb_ish;\n"@ + "\n"@
    } else {
        a1
    };
    lemma_prefix3(o, a2, "impl "@, dev, " {\n"@);
    let b = a2 + "impl "@ + dev + " {\n"@;
    let n = spec.windowed@.len();
    let c = windows_body(b, spec, n);
    lemma_windows_hold(b, spec, n, k);
    lemma_prefix_step(o, b, c);
    lemma_prefix_self(c);
    lemma_prefix1(c, c, "}\n"@);
    lemma_prefix1(c, c + "}\n"@, "\n"@);
    lemma_prefix_step(o, c, windows_text(o, spec));
    lemma_holds_front(c, windows_text(o, spec), window_lines(spec.windowed@[k]));
}

} // verus!
