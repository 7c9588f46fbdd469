//! The accessors generated for a device's registers, pairs and windows.

use super::emit::{int_type, int_type_of, is_typed};
use super::model::{
    find_register, register_named, Access, Endian, Register, RegisterKind, Spec, U64Pair, Windowed,
    WindowedDirection,
};
use super::newtypes::with_suffix;
use super::validate::{is_valid, lemma_valid_pair};
use crate::letter_case::{pascal, to_pascal};
use crate::numerals::{dec, decimal};
use crate::writer::{put2, put3, put5, put7, put9};
use vstd::prelude::*;

verus! {

/// Whether the register's bytes stand in memory with the most significant first.
pub open spec fn is_big_endian(r: Register) -> bool {
    r.endian == Some(Endian::Big)
}

/// Whether every write to the register carries the password.
pub open spec fn is_passwd(r: Register) -> bool {
    r.kind == Some(RegisterKind::PasswdProtected)
}

/// Whether the register's bytes stand in memory with the most significant first.
pub fn big_endian(r: &Register) -> (b: bool)
    ensures
        b == is_big_endian(*r),
{
    match r.endian {
        Some(Endian::Big) => true,
        _ => false,
    }
}

/// Whether every write to the register carries the password.
pub fn passwd(r: &Register) -> (b: bool)
    ensures
        b == is_passwd(*r),
{
    match r.kind {
        Some(RegisterKind::PasswdProtected) => true,
        _ => false,
    }
}

/// The expression that is stored where `val` is written to the register.
pub open spec fn stored(r: Register, val: Seq<char>) -> Seq<char> {
    if is_big_endian(r) {
        val + ".to_be()"@
    } else if is_passwd(r) {
        "(("@ + val + ") & 0x00FF_FFFFu32) | (0x5Au32 << 24)"@
    } else {
        val
    }
}

fn stored_of(r: &Register, val: &str) -> (out: String)
    ensures
        out@ == stored(*r, val@),
{
    if big_endian(r) {
        with_suffix(val, ".to_be()")
    } else if passwd(r) {
        let mut out = crate::text::copy_of("((");
        put2(&mut out, val, ") & 0x00FF_FFFFu32) | (0x5Au32 << 24)");
        out
    } else {
        crate::text::copy_of(val)
    }
}

/// What the comments say of how the register is stored.
pub open spec fn note(r: Register) -> Seq<char> {
    if is_big_endian(r) {
        " (big-endian on the wire)"@
    } else if is_passwd(r) {
        " (PASSWD prefix injected automatically)"@
    } else {
        ""@
    }
}

fn note_of(r: &Register) -> (out: &'static str)
    ensures
        out@ == note(*r),
{
    if big_endian(r) {
        " (big-endian on the wire)"
    } else if passwd(r) {
        " (PASSWD prefix injected automatically)"
    } else {
        ""
    }
}

/// The expression that reads the register.
pub open spec fn read_expr(r: Register) -> Seq<char> {
    if is_big_endian(r) {
        int_type(r.width) + "::from_be(self."@ + r.name@ + ".read())"@
    } else {
        "self."@ + r.name@ + ".read()"@
    }
}

fn read_expr_of(r: &Register) -> (out: String)
    ensures
        out@ == read_expr(*r),
{
    if big_endian(r) {
        let mut out = int_type_of(r.width);
        put3(&mut out, "::from_be(self.", r.name.as_str(), ".read())");
        out
    } else {
        let mut out = crate::text::copy_of("self.");
        put2(&mut out, r.name.as_str(), ".read()");
        out
    }
}

/// The attribute line of an accessor.
pub open spec fn inline_line() -> Seq<char> {
    "    #[inline(always)]\n"@
}

/// `o` and the reader of an untyped register.
pub open spec fn raw_read_text(o: Seq<char>, r: Register) -> Seq<char> {
    let wty = int_type(r.width);
    let o = o + "    /// Volatile read of `"@ + r.name@ + "` as `"@ + wty + "`"@ + note(r) + ".\n"@;
    let o = o + inline_line();
    o + "    pub fn read_"@ + r.name@ + "(&self) -> "@ + wty + " { "@ + read_expr(r) + " }\n"@
}

/// `o` and the writer of an untyped register.
pub open spec fn raw_write_text(o: Seq<char>, r: Register) -> Seq<char> {
    let o = o + "    /// Volatile write of `"@ + r.name@ + "`"@ + note(r) + ".\n"@;
    let o = o + inline_line();
    o + "    pub fn write_"@ + r.name@ + "(&self, v: "@ + int_type(r.width) + ") { self."@ + r.name@
        + ".write("@ + stored(r, "v"@) + "); }\n"@
}

/// `o` and the reader of a typed register.
pub open spec fn snapshot_text(o: Seq<char>, r: Register) -> Seq<char> {
    let ty = pascal(r.name@);
    let o = o + "    /// Read a typed snapshot of `"@ + r.name@ + "`.\n"@;
    let o = o + inline_line();
    o + "    pub fn "@ + r.name@ + "(&self) -> "@ + ty + " { "@ + ty + "(self."@ + r.name@
        + ".read()) }\n"@
}

/// `o` and the writer of a typed register, under the given comment.
pub open spec fn set_text(o: Seq<char>, r: Register, lead: Seq<char>) -> Seq<char> {
    let o = o + lead + r.name@ + "`"@ + note(r) + ".\n"@;
    let o = o + inline_line();
    o + "    pub fn set_"@ + r.name@ + "(&self, v: "@ + pascal(r.name@) + ") { self."@ + r.name@
        + ".write("@ + stored(r, "v.0"@) + "); }\n"@
}

/// `o` and the read-modify-write of a typed register.
pub open spec fn modify_typed_text(o: Seq<char>, r: Register) -> Seq<char> {
    let ty = pascal(r.name@);
    let o = o + "    /// Read-modify-write `"@ + r.name@ + "` via a typed closure"@ + note(r)
        + ".\n"@;
    let o = o + inline_line();
    let o = o + "    pub fn modify_"@ + r.name@ + "<F: FnOnce("@ + ty + ") -> "@ + ty
        + ">(&self, f: F) {\n"@;
    let o = o + "        self."@ + r.name@ + ".modify(|v| "@ + stored(
        r,
        "f("@ + ty + "(v)).0"@,
    ) + ");\n"@;
    o + "    }\n"@
}

/// `o` and the read-modify-write of an untyped register.
pub open spec fn modify_raw_text(o: Seq<char>, r: Register) -> Seq<char> {
    let wty = int_type(r.width);
    let o = o + "    /// Read-modify-write `"@ + r.name@ + "`"@ + note(r) + ".\n"@;
    let o = o + inline_line();
    let o = o + "    pub fn modify_"@ + r.name@ + "<F: FnOnce("@ + wty + ") -> "@ + wty
        + ">(&self, f: F) {\n"@;
    let o = if is_big_endian(r) || is_passwd(r) {
        o + "        self."@ + r.name@ + ".modify(|v| "@ + stored(r, "f(v)"@) + ");\n"@
    } else {
        o + "        self."@ + r.name@ + ".modify(f);\n"@
    };
    o + "    }\n"@
}

/// `o` and the clearer of a write-one-to-clear register.
pub open spec fn clear_text(o: Seq<char>, r: Register) -> Seq<char> {
    let o = o + "    /// Clear bits in `"@ + r.name@ + "` (write-1-to-clear).\n"@;
    let o = o + inline_line();
    if is_typed(r) {
        o + "    pub fn clear_"@ + r.name@ + "(&self, mask: "@ + pascal(r.name@) + ") { self."@
            + r.name@ + ".clear(mask.0); }\n"@
    } else {
        o + "    pub fn clear_"@ + r.name@ + "(&self, mask: "@ + int_type(r.width) + ") { self."@
            + r.name@ + ".clear(mask); }\n"@
    }
}

/// `o` and the accessors of one register.
pub open spec fn register_text(o: Seq<char>, r: Register) -> Seq<char> {
    match r.access {
        Access::Ro => if is_typed(r) {
            snapshot_text(o, r)
        } else {
            raw_read_text(o, r)
        },
        Access::Rw => if is_typed(r) {
            modify_typed_text(
                set_text(snapshot_text(o, r), r, "    /// Write the value back to `"@),
                r,
            )
        } else if r.kind == Some(RegisterKind::Stream) {
            raw_write_text(raw_read_text(o, r), r)
        } else {
            modify_raw_text(raw_write_text(raw_read_text(o, r), r), r)
        },
        Access::Wo | Access::Trigger => if is_typed(r) {
            set_text(o, r, "    /// Write a typed value to `"@)
        } else {
            raw_write_text(o, r)
        },
        Access::W1c => clear_text(o, r),
    }
}

/// `o` and the accessors of the first `n` registers.
pub open spec fn registers_text(o: Seq<char>, regs: Seq<Register>, n: nat) -> Seq<char>
    decreases n,
{
    if n == 0 {
        o
    } else {
        register_text(registers_text(o, regs, (n - 1) as nat), regs[n - 1])
    }
}

/// `o` and the accessors of every register.
pub open spec fn accessors_text(o: Seq<char>, spec: Spec) -> Seq<char> {
    let dev = spec.device.name@;
    let o = o + "// ---------- "@ + dev + " accessors ----------\n"@;
    let o = o + "\n"@;
    let o = o + "impl "@ + dev + " {\n"@;
    let o = registers_text(o, spec.registers@, spec.registers@.len());
    o + "}\n"@ + "\n"@
}

fn emit_raw_read(out: &mut String, r: &Register)
    ensures
        final(out)@ == raw_read_text(old(out)@, *r),
{
    let name = r.name.as_str();
    let wide = int_type_of(r.width);
    let wty = wide.as_str();
    let expr = read_expr_of(r);
    put7(out, "    /// Volatile read of `", name, "` as `", wty, "`", note_of(r), ".\n");
    out.append("    #[inline(always)]\n");
    put7(
        out,
        "    pub fn read_",
        name,
        "(&self) -> ",
        wty,
        " { ",
        expr.as_str(),
        " }\n",
    );
}

fn emit_raw_write(out: &mut String, r: &Register)
    ensures
        final(out)@ == raw_write_text(old(out)@, *r),
{
    let name = r.name.as_str();
    let wide = int_type_of(r.width);
    let expr = stored_of(r, "v");
    put5(out, "    /// Volatile write of `", name, "`", note_of(r), ".\n");
    out.append("    #[inline(always)]\n");
    put9(
        out,
        "    pub fn write_",
        name,
        "(&self, v: ",
        wide.as_str(),
        ") { self.",
        name,
        ".write(",
        expr.as_str(),
        "); }\n",
    );
}

fn emit_snapshot(out: &mut String, r: &Register, ty: &str)
    requires
        ty@ == pascal(r.name@),
    ensures
        final(out)@ == snapshot_text(old(out)@, *r),
{
    let name = r.name.as_str();
    put3(out, "    /// Read a typed snapshot of `", name, "`.\n");
    out.append("    #[inline(always)]\n");
    put9(out, "    pub fn ", name, "(&self) -> ", ty, " { ", ty, "(self.", name, ".read()) }\n");
}

fn emit_set(out: &mut String, r: &Register, ty: &str, lead: &str)
    requires
        ty@ == pascal(r.name@),
    ensures
        final(out)@ == set_text(old(out)@, *r, lead@),
{
    let name = r.name.as_str();
    let expr = stored_of(r, "v.0");
    put5(out, lead, name, "`", note_of(r), ".\n");
    out.append("    #[inline(always)]\n");
    put9(
        out,
        "    pub fn set_",
        name,
        "(&self, v: ",
        ty,
        ") { self.",
        name,
        ".write(",
        expr.as_str(),
        "); }\n",
    );
}

fn emit_modify_typed(out: &mut String, r: &Register, ty: &str)
    requires
        ty@ == pascal(r.name@),
    ensures
        final(out)@ == modify_typed_text(old(out)@, *r),
{
    let name = r.name.as_str();
    let mut call = crate::text::copy_of("f(");
    put2(&mut call, ty, "(v)).0");
    let expr = stored_of(r, call.as_str());
    put5(out, "    /// Read-modify-write `", name, "` via a typed closure", note_of(r), ".\n");
    out.append("    #[inline(always)]\n");
    put7(
        out,
        "    pub fn modify_",
        name,
        "<F: FnOnce(",
        ty,
        ") -> ",
        ty,
        ">(&self, f: F) {\n",
    );
    put5(out, "        self.", name, ".modify(|v| ", expr.as_str(), ");\n");
    out.append("    }\n");
}

fn emit_modify_raw(out: &mut String, r: &Register)
    ensures
        final(out)@ == modify_raw_text(old(out)@, *r),
{
    let name = r.name.as_str();
    let wide = int_type_of(r.width);
    let wty = wide.as_str();
    put5(out, "    /// Read-modify-write `", name, "`", note_of(r), ".\n");
    out.append("    #[inline(always)]\n");
    put7(
        out,
        "    pub fn modify_",
        name,
        "<F: FnOnce(",
        wty,
        ") -> ",
        wty,
        ">(&self, f: F) {\n",
    );
    if big_endian(r) || passwd(r) {
        let expr = stored_of(r, "f(v)");
        put5(out, "        self.", name, ".modify(|v| ", expr.as_str(), ");\n");
    } else {
        put3(out, "        self.", name, ".modify(f);\n");
    }
    out.append("    }\n");
}

fn emit_clear(out: &mut String, r: &Register, ty: &str)
    requires
        ty@ == pascal(r.name@),
    ensures
        final(out)@ == clear_text(old(out)@, *r),
{
    let name = r.name.as_str();
    put3(out, "    /// Clear bits in `", name, "` (write-1-to-clear).\n");
    out.append("    #[inline(always)]\n");
    if r.flags.len() > 0 || r.fields.len() > 0 {
        put7(
            out,
            "    pub fn clear_",
            name,
            "(&self, mask: ",
            ty,
            ") { self.",
            name,
            ".clear(mask.0); }\n",
        );
    } else {
        let wide = int_type_of(r.width);
        put7(
            out,
            "    pub fn clear_",
            name,
            "(&self, mask: ",
            wide.as_str(),
            ") { self.",
            name,
            ".clear(mask); }\n",
        );
    }
}

fn emit_register(out: &mut String, r: &Register)
    ensures
        final(out)@ == register_text(old(out)@, *r),
{
    let name = to_pascal(r.name.as_str());
    let ty = name.as_str();
    let typed = r.flags.len() > 0 || r.fields.len() > 0;
    let stream = match r.kind {
        Some(RegisterKind::Stream) => true,
        _ => false,
    };
    match r.access {
        Access::Ro => {
            if typed {
                emit_snapshot(out, r, ty);
            } else {
                emit_raw_read(out, r);
            }
        },
        Access::Rw => {
            if typed {
                emit_snapshot(out, r, ty);
                emit_set(out, r, ty, "    /// Write the value back to `");
                emit_modify_typed(out, r, ty);
            } else {
                emit_raw_read(out, r);
                emit_raw_write(out, r);
                if !stream {
                    emit_modify_raw(out, r);
                }
            }
        },
        Access::Wo | Access::Trigger => {
            if typed {
                emit_set(out, r, ty, "    /// Write a typed value to `");
            } else {
                emit_raw_write(out, r);
            }
        },
        Access::W1c => emit_clear(out, r, ty),
    }
}

/// Writes the accessors of every register.
pub fn emit_accessors(out: &mut String, spec: &Spec)
    ensures
        final(out)@ == accessors_text(old(out)@, *spec),
{
    let dev = spec.device.name.as_str();
    put3(out, "// ---------- ", dev, " accessors ----------\n");
    out.append("\n");
    put3(out, "impl ", dev, " {\n");
    let ghost o = out@;
    let mut i: usize = 0;
    while i < spec.registers.len()
        invariant
            i <= spec.registers@.len(),
            out@ == registers_text(o, spec.registers@, i as nat),
        decreases spec.registers@.len() - i,
    {
        emit_register(out, &spec.registers[i]);
        i += 1;
    }
    put2(out, "}\n", "\n");
}

// ---------------------------------------------------------------------------
// Pairs
// ---------------------------------------------------------------------------

/// The access of a pair, which both halves share.
pub open spec fn pair_access(regs: Seq<Register>, pair: U64Pair) -> Access {
    regs[register_named(regs, pair.low@)].access
}

/// `o` and the accessors of one pair.
pub open spec fn pair_text(o: Seq<char>, regs: Seq<Register>, pair: U64Pair) -> Seq<char> {
    let access = pair_access(regs, pair);
    let o = if access is Ro || access is Rw {
        let o = o + "    /// Composed read of `"@ + pair.name@ + "` (low="@ + pair.low@ + ", high="@
            + pair.high@ + ", le).\n"@;
        let o = o + inline_line();
        let o = o + "    pub fn read_"@ + pair.name@ + "(&self) -> u64 {\n"@;
        let o = o + "        self.read_"@ + pair.low@ + "() as u64 | ((self.read_"@ + pair.high@
            + "() as u64) << 32)\n"@;
        o + "    }\n"@
    } else {
        o
    };
    if access is Wo || access is Rw {
        let o = o + "    /// Composed write of `"@ + pair.name@
            + "` (writes low first, then high; le).\n"@;
        let o = o + inline_line();
        let o = o + "    pub fn write_"@ + pair.name@ + "(&self, v: u64) {\n"@;
        let o = o + "        self.write_"@ + pair.low@ + "(v as u32);\n"@;
        let o = o + "        self.write_"@ + pair.high@ + "((v >> 32) as u32);\n"@;
        o + "    }\n"@
    } else {
        o
    }
}

/// `o` and the accessors of the first `n` pairs.
pub open spec fn pairs_body(o: Seq<char>, spec: Spec, n: nat) -> Seq<char>
    decreases n,
{
    if n == 0 {
        o
    } else {
        pair_text(pairs_body(o, spec, (n - 1) as nat), spec.registers@, spec.u64_pairs@[n - 1])
    }
}

/// `o` and the accessors of every pair.
pub open spec fn pairs_text(o: Seq<char>, spec: Spec) -> Seq<char> {
    let dev = spec.device.name@;
    if spec.u64_pairs@.len() == 0 {
        o
    } else {
        let o = o + "// ---------- "@ + dev + " u64-pair accessors ----------\n"@;
        let o = o + "\n"@;
        let o = o + "impl "@ + dev + " {\n"@;
        let o = pairs_body(o, spec, spec.u64_pairs@.len());
        o + "}\n"@ + "\n"@
    }
}

/// The access of a pair, which both halves share.
pub fn pair_access_of(spec: &Spec, k: usize) -> (a: Access)
    requires
        is_valid(*spec),
        k < spec.u64_pairs@.len(),
    ensures
        a == pair_access(spec.registers@, spec.u64_pairs@[k as int]),
{
    proof {
        lemma_valid_pair(*spec, k as int);
    }
    match find_register(&spec.registers, spec.u64_pairs[k].low.as_str()) {
        Some(i) => spec.registers[i].access,
        None => Access::Ro,
    }
}

fn emit_pair(out: &mut String, spec: &Spec, k: usize)
    requires
        is_valid(*spec),
        k < spec.u64_pairs@.len(),
    ensures
        final(out)@ == pair_text(old(out)@, spec.registers@, spec.u64_pairs@[k as int]),
{
    let access = pair_access_of(spec, k);
    let pair = &spec.u64_pairs[k];
    let name = pair.name.as_str();
    let low = pair.low.as_str();
    let high = pair.high.as_str();
    let (readable, writable) = match access {
        Access::Ro => (true, false),
        Access::Rw => (true, true),
        Access::Wo => (false, true),
        _ => (false, false),
    };
    if readable {
        put7(
            out,
            "    /// Composed read of `",
            name,
            "` (low=",
            low,
            ", high=",
            high,
            ", le).\n",
        );
        out.append("    #[inline(always)]\n");
        put3(out, "    pub fn read_", name, "(&self) -> u64 {\n");
        put5(
            out,
            "        self.read_",
            low,
            "() as u64 | ((self.read_",
            high,
            "() as u64) << 32)\n",
        );
        out.append("    }\n");
    }
    if writable {
        put3(
            out,
            "    /// Composed write of `",
            name,
            "` (writes low first, then high; le).\n",
        );
        out.append("    #[inline(always)]\n");
        put3(out, "    pub fn write_", name, "(&self, v: u64) {\n");
        put3(out, "        self.write_", low, "(v as u32);\n");
        put3(out, "        self.write_", high, "((v >> 32) as u32);\n");
        out.append("    }\n");
    }
}

/// Writes the accessors of every pair.
pub fn emit_u64_pairs(out: &mut String, spec: &Spec)
    requires
        is_valid(*spec),
    ensures
        final(out)@ == pairs_text(old(out)@, *spec),
{
    if spec.u64_pairs.len() == 0 {
        return;
    }
    let dev = spec.device.name.as_str();
    put3(out, "// ---------- ", dev, " u64-pair accessors ----------\n");
    out.append("\n");
    put3(out, "impl ", dev, " {\n");
    let ghost o = out@;
    let mut i: usize = 0;
    while i < spec.u64_pairs.len()
        invariant
            is_valid(*spec),
            i <= spec.u64_pairs@.len(),
            out@ == pairs_body(o, *spec, i as nat),
        decreases spec.u64_pairs@.len() - i,
    {
        emit_pair(out, spec, i);
        i += 1;
    }
    put2(out, "}\n", "\n");
}

// ---------------------------------------------------------------------------
// Windows
// ---------------------------------------------------------------------------

/// The bits that a window's chunks make up.
pub open spec fn window_bits(win: Windowed) -> nat {
    (win.chunk_width * win.chunk_count) as nat
}

/// The bits of the integer that a window is read into or written from.
pub open spec fn window_int_bits(win: Windowed) -> nat {
    if window_bits(win) < 64 {
        64
    } else {
        window_bits(win)
    }
}

/// The bits that a window's chunks make up.
pub fn window_bits_of(win: &Windowed) -> (n: u64)
    ensures
        n == window_bits(*win),
        n <= 65025,
{
    assert(0 <= win.chunk_width * win.chunk_count <= 255 * 255) by (nonlinear_arith)
        requires
            0 <= win.chunk_width <= 255,
            0 <= win.chunk_count <= 255,
    ;
    (win.chunk_width as u64) * (win.chunk_count as u64)
}

/// `o` and a barrier line, where the window needs it.
pub open spec fn barrier_text(o: Seq<char>, win: Windowed) -> Seq<char> {
    if win.requires_barrier {
        o + "            dmb_ish();\n"@
    } else {
        o
    }
}

/// `o` and the reader of one window.
pub open spec fn window_read_text(o: Seq<char>, win: Windowed) -> Seq<char> {
    let count = decimal(win.chunk_count as nat);
    let width = decimal(win.chunk_width as nat);
    let wide = decimal(window_int_bits(win));
    let o = o + "    /// Walk `"@ + win.name@ + "` (selector="@ + win.selector@ + ", value="@
        + win.value@ + ") across "@ + count + " chunks of "@ + width + " bits;\n"@;
    let o = o + "    /// compose into a u"@ + wide
        + " (chunk 0 supplies the least-significant bits).\n"@;
    let o = o + inline_line();
    let o = o + "    pub fn read_"@ + win.name@ + "_"@ + decimal(window_bits(win))
        + "(&self) -> u"@ + wide + " {\n"@;
    let o = o + "        let mut acc: u"@ + wide + " = 0;\n"@;
    let o = o + "        for i in 0.."@ + count + " {\n"@;
    let o = o + "            self.write_"@ + win.selector@ + "(i as u32);\n"@;
    let o = barrier_text(o, win);
    let o = o + "            let chunk = self.read_"@ + win.value@ + "() as u"@ + wide + ";\n"@;
    let o = o + "            acc |= chunk << (i * "@ + width + ");\n"@;
    let o = o + "        }\n"@;
    let o = o + "        acc\n"@;
    o + "    }\n"@
}

/// `o` and the writer of one window.
pub open spec fn window_write_text(o: Seq<char>, win: Windowed) -> Seq<char> {
    let count = decimal(win.chunk_count as nat);
    let width = decimal(win.chunk_width as nat);
    let o = o + "    /// Walk `"@ + win.name@ + "` writing "@ + count + " chunks of "@ + width
        + " bits;\n"@;
    let o = o + "    /// chunk 0 carries the least-significant bits of `v`.\n"@;
    let o = o + inline_line();
    let o = o + "    pub fn write_"@ + win.name@ + "_"@ + decimal(window_bits(win))
        + "(&self, v: u"@ + decimal(window_int_bits(win)) + ") {\n"@;
    let o = o + "        for i in 0.."@ + count + " {\n"@;
    let o = o + "            self.write_"@ + win.selector@ + "(i as u32);\n"@;
    let o = barrier_text(o, win);
    let o = o + "            let chunk = (v >> (i * "@ + width + ")) as u"@ + width + ";\n"@;
    let o = o + "            self.write_"@ + win.value@ + "(chunk);\n"@;
    let o = o + "        }\n"@;
    o + "    }\n"@
}

/// `o` and the accessors of the first `n` windows.
pub open spec fn windows_body(o: Seq<char>, spec: Spec, n: nat) -> Seq<char>
    decreases n,
{
    if n == 0 {
        o
    } else {
        let o = windows_body(o, spec, (n - 1) as nat);
        let win = spec.windowed@[n - 1];
        match win.direction {
            WindowedDirection::Read => window_read_text(o, win),
            WindowedDirection::Write => window_write_text(o, win),
        }
    }
}

/// Whether some window needs a barrier.
pub open spec fn needs_barrier(spec: Spec) -> bool {
    exists|i: int|
        0 <= i < spec.windowed@.len() && (#[trigger] spec.windowed@[i]).requires_barrier
}

/// `o` and the accessors of every window.
pub open spec fn windows_text(o: Seq<char>, spec: Spec) -> Seq<char> {
    let dev = spec.device.name@;
    if spec.windowed@.len() == 0 {
        o
    } else {
        let o = o + "// ---------- "@ + dev + " windowed accessors ----------\n"@;
        let o = o + "\n"@;
        let o = if needs_barrier(spec) {
            o + "use lockjaw_mmio::barrier::dmb_ish;\n"@ + "\n"@
        } else {
            o
        };
        let o = o + "impl "@ + dev + " {\n"@;
        let o = windows_body(o, spec, spec.windowed@.len());
        o + "}\n"@ + "\n"@
    }
}

fn emit_window_read(out: &mut String, win: &Windowed)
    ensures
        final(out)@ == window_read_text(old(out)@, *win),
{
    let name = win.name.as_str();
    let selector = win.selector.as_str();
    let value = win.value.as_str();
    let n = window_bits_of(win);
    let bits = dec(n);
    let wide = dec(if n < 64 {
        64
    } else {
        n
    });
    let count = dec(win.chunk_count as u64);
    let width = dec(win.chunk_width as u64);
    put9(
        out,
        "    /// Walk `",
        name,
        "` (selector=",
        selector,
        ", value=",
        value,
        ") across ",
        count.as_str(),
        " chunks of ",
    );
    put2(out, width.as_str(), " bits;\n");
    put3(
        out,
        "    /// compose into a u",
        wide.as_str(),
        " (chunk 0 supplies the least-significant bits).\n",
    );
    out.append("    #[inline(always)]\n");
    put7(
        out,
        "    pub fn read_",
        name,
        "_",
        bits.as_str(),
        "(&self) -> u",
        wide.as_str(),
        " {\n",
    );
    put3(out, "        let mut acc: u", wide.as_str(), " = 0;\n");
    put3(out, "        for i in 0..", count.as_str(), " {\n");
    put3(out, "            self.write_", selector, "(i as u32);\n");
    if win.requires_barrier {
        out.append("            dmb_ish();\n");
    }
    put5(out, "            let chunk = self.read_", value, "() as u", wide.as_str(), ";\n");
    put3(out, "            acc |= chunk << (i * ", width.as_str(), ");\n");
    out.append("        }\n");
    out.append("        acc\n");
    out.append("    }\n");
}

fn emit_window_write(out: &mut String, win: &Windowed)
    ensures
        final(out)@ == window_write_text(old(out)@, *win),
{
    let name = win.name.as_str();
    let n = window_bits_of(win);
    let bits = dec(n);
    let wide = dec(if n < 64 {
        64
    } else {
        n
    });
    let count = dec(win.chunk_count as u64);
    let width = dec(win.chunk_width as u64);
    put7(
        out,
        "    /// Walk `",
        name,
        "` writing ",
        count.as_str(),
        " chunks of ",
        width.as_str(),
        " bits;\n",
    );
    out.append("    /// chunk 0 carries the least-significant bits of `v`.\n");
    out.append("    #[inline(always)]\n");
    put7(
        out,
        "    pub fn write_",
        name,
        "_",
        bits.as_str(),
        "(&self, v: u",
        wide.as_str(),
        ") {\n",
    );
    put3(out, "        for i in 0..", count.as_str(), " {\n");
    put3(out, "            self.write_", win.selector.as_str(), "(i as u32);\n");
    if win.requires_barrier {
        out.append("            dmb_ish();\n");
    }
    put5(
        out,
        "            let chunk = (v >> (i * ",
        width.as_str(),
        ")) as u",
        width.as_str(),
        ";\n",
    );
    put3(out, "            self.write_", win.value.as_str(), "(chunk);\n");
    out.append("        }\n");
    out.append("    }\n");
}

fn barrier_needed(spec: &Spec) -> (r: bool)
    ensures
        r == needs_barrier(*spec),
{
    let mut i: usize = 0;
    while i < spec.windowed.len()
        invariant
            i <= spec.windowed@.len(),
            forall|k: int| 0 <= k < i ==> !(#[trigger] spec.windowed@[k]).requires_barrier,
        decreases spec.windowed@.len() - i,
    {
        if spec.windowed[i].requires_barrier {
            assert(spec.windowed@[i as int].requires_barrier);
            return true;
        }
        i += 1;
    }
    false
}

/// Writes the accessors of every window.
pub fn emit_windowed(out: &mut String, spec: &Spec)
    ensures
        final(out)@ == windows_text(old(out)@, *spec),
{
    if spec.windowed.len() == 0 {
        return;
    }
    let dev = spec.device.name.as_str();
    put3(out, "// ---------- ", dev, " windowed accessors ----------\n");
    out.append("\n");
    if barrier_needed(spec) {
        put2(out, "use lockjaw_mmio::barrier::dmb_ish;\n", "\n");
    }
    put3(out, "impl ", dev, " {\n");
    let ghost o = out@;
    let mut i: usize = 0;
    while i < spec.windowed.len()
        invariant
            i <= spec.windowed@.len(),
            out@ == windows_body(o, *spec, i as nat),
        decreases spec.windowed@.len() - i,
    {
        match spec.windowed[i].direction {
            WindowedDirection::Read => emit_window_read(out, &spec.windowed[i]),
            WindowedDirection::Write => emit_window_write(out, &spec.windowed[i]),
        }
        i += 1;
    }
    put2(out, "}\n", "\n");
}

} // verus!
