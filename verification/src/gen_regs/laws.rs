//! What the generated accessors do.

use super::accessors::{
    barrier_text, inline_line, pair_access, pair_text, window_bits, window_int_bits,
    window_read_text, window_write_text,
};
use super::meaning::{
    bit_or, bits_at, lemma_or_above, lemma_pow2_step, spelled, value, Expr,
};
use super::model::{Register, U64Pair, Windowed};
use crate::numerals::decimal;
use vstd::arithmetic::power2::{lemma_pow2_adds, pow2};
use vstd::prelude::*;

verus! {

// ---------------------------------------------------------------------------
// Loops of the generated text
// ---------------------------------------------------------------------------

/// A statement within a loop of the generated text.
pub enum Step {
    /// Write the register of the given name.
    Write(Seq<char>, Expr),
    Barrier,
    /// Name the value `chunk`.
    Chunk(Expr),
    /// Put the value's bits into `acc`.
    Gather(Expr),
}

/// How a statement is spelled.
pub open spec fn step_text(s: Step) -> Seq<char> {
    match s {
        Step::Write(reg, e) => "            self.write_"@ + reg + "("@ + spelled(e) + ");\n"@,
        Step::Barrier => "            dmb_ish();\n"@,
        Step::Chunk(e) => "            let chunk = "@ + spelled(e) + ";\n"@,
        Step::Gather(e) => "            acc |= "@ + spelled(e) + ";\n"@,
    }
}

/// How the first `n` statements are spelled.
pub open spec fn steps_text(steps: Seq<Step>, n: nat) -> Seq<char>
    decreases n,
{
    if n == 0 {
        Seq::empty()
    } else {
        steps_text(steps, (n - 1) as nat) + step_text(steps[n - 1])
    }
}

/// How a loop that runs `count` times is spelled.
pub open spec fn loop_text(count: nat, steps: Seq<Step>) -> Seq<char> {
    "        for i in 0.."@ + decimal(count) + " {\n"@ + steps_text(steps, steps.len())
        + "        }\n"@
}

/// What the names stand for, and the writes that were made: register and value.
pub struct Run {
    pub env: Map<Seq<char>, nat>,
    pub writes: Seq<(Seq<char>, nat)>,
}

/// What a statement does, in numbers of `w` bits.
pub open spec fn after_step(r: Run, s: Step, w: nat) -> Run {
    match s {
        Step::Write(reg, e) => Run { writes: r.writes.push((reg, value(e, r.env, w))), ..r },
        Step::Barrier => r,
        Step::Chunk(e) => Run { env: r.env.insert("chunk"@, value(e, r.env, w)), ..r },
        Step::Gather(e) => Run {
            env: r.env.insert("acc"@, bit_or(r.env["acc"@], value(e, r.env, w))),
            ..r
        },
    }
}

/// What the first `n` statements do.
pub open spec fn after_steps(r: Run, steps: Seq<Step>, n: nat, w: nat) -> Run
    decreases n,
{
    if n == 0 {
        r
    } else {
        after_step(after_steps(r, steps, (n - 1) as nat, w), steps[n - 1], w)
    }
}

/// What the first `n` rounds of a loop do, where in round `i` the name `reads` stands for
/// `inputs[i]`.
pub open spec fn after_rounds(
    r: Run,
    steps: Seq<Step>,
    n: nat,
    w: nat,
    reads: Seq<char>,
    inputs: Seq<nat>,
) -> Run
    decreases n,
{
    if n == 0 {
        r
    } else {
        let before = after_rounds(r, steps, (n - 1) as nat, w, reads, inputs);
        let env = before.env.insert("i"@, (n - 1) as nat).insert(reads, inputs[n - 1]);
        after_steps(Run { env, ..before }, steps, steps.len(), w)
    }
}

/// The chunks put together, the first in the lowest bits.
pub open spec fn composed(chunks: Seq<nat>, n: nat, width: nat) -> nat
    decreases n,
{
    if n == 0 {
        0
    } else {
        composed(chunks, (n - 1) as nat, width) + chunks[n - 1] * pow2(((n - 1) * width) as nat)
    }
}

/// A number of `n` chunks is put together from its chunks.
pub proof fn lemma_chunks_give_back(v: nat, n: nat, width: nat)
    ensures
        composed(Seq::new(n, |i: int| bits_at(v, (i * width) as nat, width)), n, width) == v
            % pow2((n * width) as nat),
    decreases n,
{
    let all = Seq::new(n, |i: int| bits_at(v, (i * width) as nat, width));
    lemma_pow2_step(0);
    assert(n * width >= 0) by (nonlinear_arith)
        requires
            n >= 0,
            width >= 0,
    ;
    if n == 0 {
        assert(0 * width == 0) by (nonlinear_arith);
        assert(v % 1 == 0);
    } else {
        let m = (n - 1) as nat;
        let less = Seq::new(m, |i: int| bits_at(v, (i * width) as nat, width));
        lemma_chunks_give_back(v, m, width);
        lemma_composed_prefix(all, less, m, width);
        let k = (m * width) as nat;
        assert(m * width >= 0) by (nonlinear_arith)
            requires
                m >= 0,
                width >= 0,
        ;
        assert(n * width == k + width) by (nonlinear_arith)
            requires
                n == m + 1,
                k == m * width,
        ;
        lemma_pow2_adds(k, width);
        lemma_pow2_step(k);
        lemma_pow2_step(width);
        let a = pow2(k);
        let b = pow2(width);
        assert(v % (a * b) == v % a + a * ((v / a) % b)) by {
            vstd::arithmetic::div_mod::lemma_mod_breakdown(v as int, a as int, b as int);
        }
        assert(a * ((v / a) % b) == ((v / a) % b) * a) by (nonlinear_arith);
        assert(all[n - 1] == bits_at(v, k, width));
    }
}

proof fn lemma_composed_prefix(a: Seq<nat>, b: Seq<nat>, n: nat, width: nat)
    requires
        n <= a.len(),
        n <= b.len(),
        forall|i: int| 0 <= i < n ==> a[i] == b[i],
    ensures
        composed(a, n, width) == composed(b, n, width),
    decreases n,
{
    if n > 0 {
        lemma_composed_prefix(a, b, (n - 1) as nat, width);
    }
}

// ---------------------------------------------------------------------------
// Windows
// ---------------------------------------------------------------------------

/// The number of the round, as the selector is written.
pub open spec fn round_expr() -> Expr {
    Expr::Cast(Box::new(Expr::Name("i"@)), 32)
}

/// How far chunk `i` stands in the whole.
pub open spec fn distance_expr(win: Windowed) -> Expr {
    Expr::Paren(
        Box::new(
            Expr::Mul(Box::new(Expr::Name("i"@)), Box::new(Expr::Num(win.chunk_width as nat))),
        ),
    )
}

/// The chunk that a writer stores.
pub open spec fn chunk_expr(win: Windowed) -> Expr {
    Expr::Cast(
        Box::new(
            Expr::Paren(
                Box::new(Expr::Shr(Box::new(Expr::Name("v"@)), Box::new(distance_expr(win)))),
            ),
        ),
        win.chunk_width as nat,
    )
}

/// The call that reads the value register.
pub open spec fn read_call(win: Windowed) -> Seq<char> {
    "self.read_"@ + win.value@ + "()"@
}

/// The statements of a window's writer.
pub open spec fn writer_steps(win: Windowed) -> Seq<Step> {
    let select = Step::Write(win.selector@, round_expr());
    let chunk = Step::Chunk(chunk_expr(win));
    let store = Step::Write(win.value@, Expr::Name("chunk"@));
    if win.requires_barrier {
        seq![select, Step::Barrier, chunk, store]
    } else {
        seq![select, chunk, store]
    }
}

/// The statements of a window's reader.
pub open spec fn reader_steps(win: Windowed) -> Seq<Step> {
    let select = Step::Write(win.selector@, round_expr());
    let chunk = Step::Chunk(
        Expr::Cast(Box::new(Expr::Name(read_call(win))), window_int_bits(win)),
    );
    let gather = Step::Gather(
        Expr::Shl(Box::new(Expr::Name("chunk"@)), Box::new(distance_expr(win))),
    );
    if win.requires_barrier {
        seq![select, Step::Barrier, chunk, gather]
    } else {
        seq![select, chunk, gather]
    }
}

proof fn lemma_steps3(s: Seq<Step>)
    requires
        s.len() == 3,
    ensures
        steps_text(s, 3) == step_text(s[0]) + step_text(s[1]) + step_text(s[2]),
{
    reveal_with_fuel(steps_text, 4);
    assert(Seq::<char>::empty() + step_text(s[0]) =~= step_text(s[0]));
}

proof fn lemma_steps4(s: Seq<Step>)
    requires
        s.len() == 4,
    ensures
        steps_text(s, 4) == step_text(s[0]) + step_text(s[1]) + step_text(s[2]) + step_text(s[3]),
{
    reveal_with_fuel(steps_text, 5);
    assert(Seq::<char>::empty() + step_text(s[0]) =~= step_text(s[0]));
}

proof fn lemma_select_text(win: Windowed, p: Seq<char>)
    ensures
        p + "            self.write_"@ + win.selector@ + "(i as u32);\n"@ == p + step_text(
            Step::Write(win.selector@, round_expr()),
        ),
{
    reveal_strlit("(");
    reveal_strlit("i");
    reveal_strlit(" as u");
    reveal_strlit(");\n");
    reveal_strlit("(i as u32);\n");
    lemma_decimal_32();
    reveal_with_fuel(spelled, 3);
    assert("("@ + spelled(round_expr()) + ");\n"@ =~= "(i as u32);\n"@);
    assert(p + "            self.write_"@ + win.selector@ + "(i as u32);\n"@ =~= p + step_text(
        Step::Write(win.selector@, round_expr()),
    ));
}

proof fn lemma_decimal_32()
    ensures
        decimal(32) =~= seq!['3', '2'],
        decimal(64) =~= seq!['6', '4'],
{
    reveal_with_fuel(crate::numerals::numeral, 3);
}

proof fn lemma_distance_text(win: Windowed)
    ensures
        spelled(distance_expr(win)) == "(i * "@ + decimal(win.chunk_width as nat) + ")"@,
{
    reveal_with_fuel(spelled, 4);
    reveal_strlit("(");
    reveal_strlit("i");
    reveal_strlit(" * ");
    reveal_strlit(")");
    reveal_strlit("(i * ");
    assert("("@ + ("i"@ + " * "@ + decimal(win.chunk_width as nat)) + ")"@ =~= "(i * "@ + decimal(
        win.chunk_width as nat,
    ) + ")"@);
}

proof fn lemma_chunk_text(win: Windowed, p: Seq<char>)
    ensures
        ({
            let width = decimal(win.chunk_width as nat);
            p + "            let chunk = (v >> (i * "@ + width + ")) as u"@ + width + ";\n"@ == p
                + step_text(Step::Chunk(chunk_expr(win)))
        }),
{
    let width = decimal(win.chunk_width as nat);
    lemma_distance_text(win);
    reveal_with_fuel(spelled, 4);
    reveal_strlit("            let chunk = ");
    reveal_strlit("            let chunk = (v >> (i * ");
    reveal_strlit("(");
    reveal_strlit("v");
    reveal_strlit(" >> ");
    reveal_strlit("(i * ");
    reveal_strlit(")");
    reveal_strlit(")) as u");
    reveal_strlit(" as u");
    let e = chunk_expr(win);
    assert(spelled(e) == "("@ + ("v"@ + " >> "@ + spelled(distance_expr(win))) + ")"@ + " as u"@
        + width);
    assert("            let chunk = "@ + spelled(e) =~= "            let chunk = (v >> (i * "@ + width
        + ")) as u"@ + width);
    assert(p + "            let chunk = (v >> (i * "@ + width + ")) as u"@ + width + ";\n"@ =~= p + (
    "            let chunk = (v >> (i * "@ + width + ")) as u"@ + width + ";\n"@));
}

proof fn lemma_store_text(win: Windowed, p: Seq<char>)
    ensures
        p + "            self.write_"@ + win.value@ + "(chunk);\n"@ == p + step_text(
            Step::Write(win.value@, Expr::Name("chunk"@)),
        ),
{
    reveal_strlit("(");
    reveal_strlit("chunk");
    reveal_strlit(");\n");
    reveal_strlit("(chunk);\n");
    assert("("@ + "chunk"@ + ");\n"@ =~= "(chunk);\n"@);
    assert(p + "            self.write_"@ + win.value@ + "(chunk);\n"@ =~= p + step_text(
        Step::Write(win.value@, Expr::Name("chunk"@)),
    ));
}

/// The writer of a window is a loop over its statements.
pub proof fn lemma_writer_text(o: Seq<char>, win: Windowed)
    ensures
        exists|head: Seq<char>| #[trigger]
            (head + loop_text(win.chunk_count as nat, writer_steps(win))) + "    }\n"@
                == window_write_text(o, win),
{
    let count = decimal(win.chunk_count as nat);
    let width = decimal(win.chunk_width as nat);
    let o1 = o + "    /// Walk `"@ + win.name@ + "` writing "@ + count + " chunks of "@ + width
        + " bits;\n"@;
    let o2 = o1 + "    /// chunk 0 carries the least-significant bits of `v`.\n"@;
    let o3 = o2 + inline_line();
    let head = o3 + "    pub fn write_"@ + win.name@ + "_"@ + decimal(window_bits(win))
        + "(&self, v: u"@ + decimal(window_int_bits(win)) + ") {\n"@;
    let top = "        for i in 0.."@ + count + " {\n"@;
    let p0 = head + "        for i in 0.."@ + count + " {\n"@;
    assert(p0 =~= head + top);
    lemma_select_text(win, p0);
    let select = step_text(Step::Write(win.selector@, round_expr()));
    let p1 = p0 + select;
    let p2 = barrier_text(p1, win);
    lemma_chunk_text(win, p2);
    let chunk = step_text(Step::Chunk(chunk_expr(win)));
    let p3 = p2 + chunk;
    lemma_store_text(win, p3);
    let store = step_text(Step::Write(win.value@, Expr::Name("chunk"@)));
    let p4 = p3 + store;
    let steps = writer_steps(win);
    let whole = head + loop_text(win.chunk_count as nat, steps);
    if win.requires_barrier {
        lemma_steps4(steps);
        let bar = "            dmb_ish();\n"@;
        assert(p4 + "        }\n"@ =~= head + (top + (select + bar + chunk + store)
            + "        }\n"@));
    } else {
        lemma_steps3(steps);
        assert(p4 + "        }\n"@ =~= head + (top + (select + chunk + store) + "        }\n"@));
    }
    assert(whole + "    }\n"@ == window_write_text(o, win));
}

/// Whether round `i` wrote `i` to the selector and then `x` to the value register.
pub open spec fn wrote(writes: Seq<(Seq<char>, nat)>, win: Windowed, i: int, x: nat) -> bool {
    writes[2 * i] == (win.selector@, i as nat) && writes[2 * i + 1] == (win.value@, x)
}

/// The values of every second write.
pub open spec fn stored_chunks(writes: Seq<(Seq<char>, nat)>, n: nat) -> Seq<nat> {
    Seq::new(n, |i: int| writes[2 * i + 1].1)
}

/// What the writer of a window does to the device: round `i` writes `i` to the selector and
/// then chunk `i` of the value to the value register, bits `i * width` up to
/// `(i + 1) * width`. Together the chunks give the value back.
pub proof fn lemma_writer_meaning(win: Windowed, v: nat, n: nat, inputs: Seq<nat>)
    requires
        n <= win.chunk_count,
    ensures
        ({
            let start = Run { env: map!["v"@ => v], writes: Seq::empty() };
            let w = window_int_bits(win);
            let end = after_rounds(start, writer_steps(win), n, w, "none"@, inputs);
            let width = win.chunk_width as nat;
            let stored = stored_chunks(end.writes, n);
            &&& end.writes.len() == 2 * n
            &&& forall|i: int|
                0 <= i < n ==> #[trigger] wrote(
                    end.writes,
                    win,
                    i,
                    bits_at(v, (i * width) as nat, width),
                )
            &&& composed(stored, n, width) == v % pow2((n * width) as nat)
        }),
{
    let start = Run { env: map!["v"@ => v], writes: Seq::empty() };
    let w = window_int_bits(win);
    let width = win.chunk_width as nat;
    let end = after_rounds(start, writer_steps(win), n, w, "none"@, inputs);
    lemma_writer_rounds(win, v, n, inputs);
    let stored = stored_chunks(end.writes, n);
    let chunks = Seq::new(n, |i: int| bits_at(v, (i * width) as nat, width));
    lemma_chunks_give_back(v, n, width);
    assert forall|i: int| 0 <= i < n implies stored[i] == chunks[i] by {
        assert(wrote(end.writes, win, i, bits_at(v, (i * width) as nat, width)));
    }
    lemma_composed_prefix(stored, chunks, n, width);
}

proof fn lemma_names()
    ensures
        "v"@ != "i"@,
        "v"@ != "chunk"@,
        "v"@ != "none"@,
        "v"@ != "acc"@,
        "i"@ != "chunk"@,
        "i"@ != "none"@,
        "i"@ != "acc"@,
        "chunk"@ != "none"@,
        "chunk"@ != "acc"@,
{
    reveal_strlit("v");
    reveal_strlit("i");
    reveal_strlit("chunk");
    reveal_strlit("none");
    reveal_strlit("acc");
    assert("v"@[0] == 'v' && "i"@[0] == 'i' && "chunk"@[0] == 'c' && "none"@[0] == 'n'
        && "acc"@[0] == 'a');
}

proof fn lemma_writer_rounds(win: Windowed, v: nat, n: nat, inputs: Seq<nat>)
    requires
        n <= win.chunk_count,
    ensures
        ({
            let start = Run { env: map!["v"@ => v], writes: Seq::empty() };
            let w = window_int_bits(win);
            let end = after_rounds(start, writer_steps(win), n, w, "none"@, inputs);
            let width = win.chunk_width as nat;
            &&& end.env["v"@] == v
            &&& end.writes.len() == 2 * n
            &&& forall|i: int|
                0 <= i < n ==> #[trigger] wrote(
                    end.writes,
                    win,
                    i,
                    bits_at(v, (i * width) as nat, width),
                )
        }),
    decreases n,
{
    let start = Run { env: map!["v"@ => v], writes: Seq::empty() };
    let w = window_int_bits(win);
    let width = win.chunk_width as nat;
    let steps = writer_steps(win);
    let end = after_rounds(start, steps, n, w, "none"@, inputs);
    lemma_names();
    if n > 0 {
        let m = (n - 1) as nat;
        lemma_writer_rounds(win, v, m, inputs);
        let before = after_rounds(start, steps, m, w, "none"@, inputs);
        let env = before.env.insert("i"@, m).insert("none"@, inputs[n - 1]);
        assert(env["i"@] == m && env["v"@] == v);
        let r0 = Run { env, ..before };
        let x = bits_at(v, (m * width) as nat, width);
        assert(m * width >= 0) by (nonlinear_arith)
            requires
                m >= 0,
                width >= 0,
        ;
        reveal_with_fuel(value, 5);
        assert(value(round_expr(), env, w) == m) by {
            vstd::arithmetic::power2::lemma2_to64();
            assert(m % 0x1_0000_0000 == m);
        }
        assert(value(chunk_expr(win), env, w) == x) by {
            assert(value(distance_expr(win), env, w) == m * width);
        }
        let r1 = after_step(r0, steps[0], w);
        reveal_with_fuel(after_steps, 5);
        let r2 = Run { env: env.insert("chunk"@, x), ..r1 };
        let r3 = Run { writes: r2.writes.push((win.value@, x)), ..r2 };
        assert(r2.env["chunk"@] == x);
        assert(end == r3);
        assert(end.writes == before.writes.push((win.selector@, m)).push((win.value@, x)));
        assert forall|i: int| 0 <= i < n implies #[trigger] wrote(
            end.writes,
            win,
            i,
            bits_at(v, (i * width) as nat, width),
        ) by {
            if i < m {
                assert(wrote(before.writes, win, i, bits_at(v, (i * width) as nat, width)));
                assert(end.writes[2 * i] == before.writes[2 * i]);
                assert(end.writes[2 * i + 1] == before.writes[2 * i + 1]);
            } else {
                assert(i == m);
                assert(2 * i == before.writes.len());
                assert(end.writes[2 * i] == (win.selector@, m));
                assert(end.writes[2 * i + 1] == (win.value@, x));
            }
        }
    }
}

proof fn lemma_regroup(
    p: Seq<char>,
    top: Seq<char>,
    a: Seq<char>,
    b: Seq<char>,
    c: Seq<char>,
    d: Seq<char>,
    end: Seq<char>,
)
    ensures
        p + top + a + b + c + end == p + (top + (a + b + c) + end),
        p + top + a + b + c + d + end == p + (top + (a + b + c + d) + end),
{
    assert(p + top + a + b + c + end =~= p + (top + (a + b + c) + end));
    assert(p + top + a + b + c + d + end =~= p + (top + (a + b + c + d) + end));
}

proof fn lemma_reader_chunk_text(win: Windowed, p: Seq<char>)
    ensures
        ({
            let wide = decimal(window_int_bits(win));
            let e = Expr::Cast(Box::new(Expr::Name(read_call(win))), window_int_bits(win));
            p + "            let chunk = self.read_"@ + win.value@ + "() as u"@ + wide + ";\n"@ == p
                + step_text(Step::Chunk(e))
        }),
{
    let wide = decimal(window_int_bits(win));
    let e = Expr::Cast(Box::new(Expr::Name(read_call(win))), window_int_bits(win));
    reveal_with_fuel(spelled, 3);
    reveal_strlit("            let chunk = self.read_");
    reveal_strlit("            let chunk = ");
    reveal_strlit("self.read_");
    reveal_strlit("()");
    reveal_strlit("() as u");
    reveal_strlit(" as u");
    assert(spelled(e) == read_call(win) + " as u"@ + wide);
    assert("            let chunk = "@ + spelled(e) =~= "            let chunk = self.read_"@
        + win.value@ + "() as u"@ + wide);
    assert(p + "            let chunk = self.read_"@ + win.value@ + "() as u"@ + wide + ";\n"@ =~= p
        + ("            let chunk = self.read_"@ + win.value@ + "() as u"@ + wide + ";\n"@));
}

proof fn lemma_gather_text(win: Windowed, p: Seq<char>)
    ensures
        ({
            let width = decimal(win.chunk_width as nat);
            let e = Expr::Shl(Box::new(Expr::Name("chunk"@)), Box::new(distance_expr(win)));
            p + "            acc |= chunk << (i * "@ + width + ");\n"@ == p + step_text(
                Step::Gather(e),
            )
        }),
{
    let width = decimal(win.chunk_width as nat);
    let e = Expr::Shl(Box::new(Expr::Name("chunk"@)), Box::new(distance_expr(win)));
    lemma_distance_text(win);
    reveal_with_fuel(spelled, 2);
    reveal_strlit("            acc |= chunk << (i * ");
    reveal_strlit("            acc |= ");
    reveal_strlit("chunk");
    reveal_strlit(" << ");
    reveal_strlit("(i * ");
    reveal_strlit(")");
    reveal_strlit(");\n");
    reveal_strlit(";\n");
    assert(spelled(e) == "chunk"@ + " << "@ + spelled(distance_expr(win)));
    assert("            acc |= "@ + spelled(e) + ";\n"@ =~= "            acc |= chunk << (i * "@ + width
        + ");\n"@);
    assert(p + "            acc |= chunk << (i * "@ + width + ");\n"@ =~= p + (
    "            acc |= chunk << (i * "@ + width + ");\n"@));
}

/// The reader of a window is a loop over its statements, with `acc` zero before and returned
/// after it.
pub proof fn lemma_reader_text(o: Seq<char>, win: Windowed)
    ensures
        exists|head: Seq<char>| #[trigger]
            (head + "        let mut acc: u"@ + decimal(window_int_bits(win)) + " = 0;\n"@
                + loop_text(win.chunk_count as nat, reader_steps(win))) + "        acc\n"@
                + "    }\n"@ == window_read_text(o, win),
{
    let count = decimal(win.chunk_count as nat);
    let width = decimal(win.chunk_width as nat);
    let wide = decimal(window_int_bits(win));
    let o1 = o + "    /// Walk `"@ + win.name@ + "` (selector="@ + win.selector@ + ", value="@
        + win.value@ + ") across "@ + count + " chunks of "@ + width + " bits;\n"@;
    let o2 = o1 + "    /// compose into a u"@ + wide
        + " (chunk 0 supplies the least-significant bits).\n"@;
    let o3 = o2 + inline_line();
    let head = o3 + "    pub fn read_"@ + win.name@ + "_"@ + decimal(window_bits(win))
        + "(&self) -> u"@ + wide + " {\n"@;
    let body = head + "        let mut acc: u"@ + wide + " = 0;\n"@;
    let top = "        for i in 0.."@ + count + " {\n"@;
    let p0 = body + "        for i in 0.."@ + count + " {\n"@;
    assert(p0 =~= body + top);
    lemma_select_text(win, p0);
    let select = step_text(Step::Write(win.selector@, round_expr()));
    let p1 = p0 + select;
    let p2 = barrier_text(p1, win);
    lemma_reader_chunk_text(win, p2);
    let steps = reader_steps(win);
    let chunk = step_text(
        Step::Chunk(Expr::Cast(Box::new(Expr::Name(read_call(win))), window_int_bits(win))),
    );
    let p3 = p2 + chunk;
    lemma_gather_text(win, p3);
    let gather = step_text(
        Step::Gather(Expr::Shl(Box::new(Expr::Name("chunk"@)), Box::new(distance_expr(win)))),
    );
    let p4 = p3 + gather;
    if win.requires_barrier {
        lemma_steps4(steps);
        let bar = "            dmb_ish();\n"@;
        lemma_regroup(body, top, select, bar, chunk, gather, "        }\n"@);
    } else {
        lemma_steps3(steps);
        lemma_regroup(body, top, select, chunk, gather, gather, "        }\n"@);
    }
    assert((head + "        let mut acc: u"@ + decimal(window_int_bits(win)) + " = 0;\n"@ + loop_text(
        win.chunk_count as nat,
        steps,
    )) + "        acc\n"@ + "    }\n"@ == window_read_text(o, win));
}

proof fn lemma_composed_bound(chunks: Seq<nat>, n: nat, width: nat)
    requires
        n <= chunks.len(),
        forall|i: int| 0 <= i < n ==> (#[trigger] chunks[i]) < pow2(width),
    ensures
        composed(chunks, n, width) < pow2((n * width) as nat),
    decreases n,
{
    lemma_pow2_step(0);
    assert(n * width >= 0) by (nonlinear_arith)
        requires
            n >= 0,
            width >= 0,
    ;
    if n == 0 {
        assert(0 * width == 0) by (nonlinear_arith);
    } else {
        let m = (n - 1) as nat;
        lemma_composed_bound(chunks, m, width);
        let k = (m * width) as nat;
        assert(m * width >= 0) by (nonlinear_arith)
            requires
                m >= 0,
                width >= 0,
        ;
        assert(n * width == k + width) by (nonlinear_arith)
            requires
                n == m + 1,
                k == m * width,
        ;
        lemma_pow2_adds(k, width);
        lemma_pow2_step(k);
        let a = pow2(k);
        let b = pow2(width);
        let c = chunks[n - 1];
        assert(c * a <= (b - 1) * a && (b - 1) * a + a == a * b) by (nonlinear_arith)
            requires
                0 <= c <= b - 1,
                a > 0,
        ;
    }
}

/// What the reader of a window gives: with the value register reading chunk `i` in round `i`,
/// after the selector was written `i`, `acc` is the chunks put together, the first in the
/// lowest bits.
pub proof fn lemma_reader_meaning(win: Windowed, n: nat, chunks: Seq<nat>)
    requires
        n <= win.chunk_count,
        n <= chunks.len(),
        forall|i: int| 0 <= i < n ==> (#[trigger] chunks[i]) < pow2(win.chunk_width as nat),
        read_call(win) != "chunk"@,
        read_call(win) != "acc"@,
        read_call(win) != "i"@,
    ensures
        ({
            let start = Run { env: map!["acc"@ => 0nat], writes: Seq::empty() };
            let w = window_int_bits(win);
            let end = after_rounds(start, reader_steps(win), n, w, read_call(win), chunks);
            &&& end.env["acc"@] == composed(chunks, n, win.chunk_width as nat)
            &&& end.writes.len() == n
            &&& forall|i: int|
                0 <= i < n ==> #[trigger] end.writes[i] == (win.selector@, i as nat)
        }),
    decreases n,
{
    let start = Run { env: map!["acc"@ => 0nat], writes: Seq::empty() };
    let w = window_int_bits(win);
    let width = win.chunk_width as nat;
    let steps = reader_steps(win);
    let call = read_call(win);
    let end = after_rounds(start, steps, n, w, call, chunks);
    lemma_names();
    if n > 0 {
        let m = (n - 1) as nat;
        lemma_reader_meaning(win, m, chunks);
        let before = after_rounds(start, steps, m, w, call, chunks);
        let env = before.env.insert("i"@, m).insert(call, chunks[n - 1]);
        let acc = composed(chunks, m, width);
        assert(env["i"@] == m && env[call] == chunks[n - 1] && env["acc"@] == acc);
        let r0 = Run { env, ..before };
        let c = chunks[n - 1];
        let k = (m * width) as nat;
        assert(m * width >= 0 && n * width == m * width + width && n * width <= win.chunk_count
            * width) by (nonlinear_arith)
            requires
                n == m + 1,
                m >= 0,
                width >= 0,
                n <= win.chunk_count,
        ;
        assert(win.chunk_count * width == win.chunk_width * win.chunk_count) by (nonlinear_arith)
            requires
                width == win.chunk_width,
        ;
        assert(k + width <= w);
        lemma_pow2_adds(k, width);
        lemma_pow2_step(k);
        lemma_pow2_step(width);
        lemma_pow2_step(w);
        assert(pow2(width) <= pow2(w)) by {
            if width < w {
                vstd::arithmetic::power2::lemma_pow2_strictly_increases(width, w);
            }
        }
        assert(pow2((k + width) as nat) <= pow2(w)) by {
            if k + width < w {
                vstd::arithmetic::power2::lemma_pow2_strictly_increases((k + width) as nat, w);
            }
        }
        assert(c * pow2(k) < pow2(w)) by {
            let a = pow2(k);
            let b = pow2(width);
            assert(c * a < a * b) by (nonlinear_arith)
                requires
                    0 <= c < b,
                    a > 0,
            ;
        }
        reveal_with_fuel(value, 5);
        assert(value(round_expr(), env, w) == m) by {
            vstd::arithmetic::power2::lemma2_to64();
            assert(m % 0x1_0000_0000 == m);
        }
        let ce = Expr::Cast(Box::new(Expr::Name(call)), w);
        assert(value(ce, env, w) == c) by {
            vstd::arithmetic::div_mod::lemma_small_mod(c, pow2(w));
        }
        let env2 = env.insert("chunk"@, c);
        let ge = Expr::Shl(Box::new(Expr::Name("chunk"@)), Box::new(distance_expr(win)));
        assert(value(distance_expr(win), env2, w) == k);
        assert(value(ge, env2, w) == c * pow2(k)) by {
            vstd::arithmetic::div_mod::lemma_small_mod((c * pow2(k)) as nat, pow2(w));
        }
        lemma_composed_bound(chunks, m, width);
        lemma_or_above(acc, c, k);
        reveal_with_fuel(after_steps, 5);
        let r1 = Run { writes: before.writes.push((win.selector@, m)), ..r0 };
        let r2 = Run { env: env2, ..r1 };
        let r3 = Run { env: env2.insert("acc"@, acc + c * pow2(k)), ..r2 };
        assert(env2["acc"@] == acc);
        assert(end == r3);
        assert forall|i: int| 0 <= i < n implies #[trigger] end.writes[i] == (
            win.selector@,
            i as nat,
        ) by {
            if i < m {
                assert(end.writes[i] == before.writes[i]);
            }
        }
    }
}

// ---------------------------------------------------------------------------
// Pairs
// ---------------------------------------------------------------------------

/// What a pair's reader returns.
pub open spec fn pair_read_expr(pair: U64Pair) -> Expr {
    let low = Expr::Name("self.read_"@ + pair.low@ + "()"@);
    let high = Expr::Name("self.read_"@ + pair.high@ + "()"@);
    Expr::Or(
        Box::new(Expr::Cast(Box::new(low), 64)),
        Box::new(
            Expr::Paren(
                Box::new(
                    Expr::Shl(
                        Box::new(Expr::Paren(Box::new(Expr::Cast(Box::new(high), 64)))),
                        Box::new(Expr::Num(32)),
                    ),
                ),
            ),
        ),
    )
}

/// What a pair's writer writes to the low half.
pub open spec fn pair_low_expr() -> Expr {
    Expr::Cast(Box::new(Expr::Name("v"@)), 32)
}

/// What a pair's writer writes to the high half.
pub open spec fn pair_high_expr() -> Expr {
    Expr::Cast(
        Box::new(
            Expr::Paren(
                Box::new(Expr::Shr(Box::new(Expr::Name("v"@)), Box::new(Expr::Num(32)))),
            ),
        ),
        32,
    )
}

/// The reader of a pair, as it is spelled.
pub open spec fn pair_reader(pair: U64Pair) -> Seq<char> {
    "    pub fn read_"@ + pair.name@ + "(&self) -> u64 {\n"@ + "        "@ + spelled(
        pair_read_expr(pair),
    ) + "\n"@ + "    }\n"@
}

/// The writer of a pair, as it is spelled: the low half first.
pub open spec fn pair_writer(pair: U64Pair) -> Seq<char> {
    "    pub fn write_"@ + pair.name@ + "(&self, v: u64) {\n"@ + "        self.write_"@ + pair.low@
        + "("@ + spelled(pair_low_expr()) + ");\n"@ + "        self.write_"@ + pair.high@ + "("@
        + spelled(pair_high_expr()) + ");\n"@ + "    }\n"@
}

proof fn lemma_pair_spelling(pair: U64Pair)
    ensures
        "        "@ + spelled(pair_read_expr(pair)) + "\n"@ == "        self.read_"@ + pair.low@
            + "() as u64 | ((self.read_"@ + pair.high@ + "() as u64) << 32)\n"@,
        "("@ + spelled(pair_low_expr()) + ");\n"@ == "(v as u32);\n"@,
        "("@ + spelled(pair_high_expr()) + ");\n"@ == "((v >> 32) as u32);\n"@,
{
    lemma_decimal_32();
    reveal_with_fuel(spelled, 6);
    reveal_strlit("        ");
    reveal_strlit("self.read_");
    reveal_strlit("()");
    reveal_strlit(" as u");
    reveal_strlit(" | ");
    reveal_strlit("(");
    reveal_strlit(")");
    reveal_strlit(" << ");
    reveal_strlit(" >> ");
    reveal_strlit("\n");
    reveal_strlit("v");
    reveal_strlit(");\n");
    reveal_strlit("        self.read_");
    reveal_strlit("() as u64 | ((self.read_");
    reveal_strlit("() as u64) << 32)\n");
    reveal_strlit("(v as u32);\n");
    reveal_strlit("((v >> 32) as u32);\n");
    assert("("@ + spelled(pair_low_expr()) + ");\n"@ =~= "(v as u32);\n"@);
    assert("("@ + spelled(pair_high_expr()) + ");\n"@ =~= "((v >> 32) as u32);\n"@);
    let low = "self.read_"@ + pair.low@ + "()"@ + " as u"@ + decimal(64);
    let high = "self.read_"@ + pair.high@ + "()"@ + " as u"@ + decimal(64);
    let shifted = "("@ + ("("@ + high + ")"@ + " << "@ + decimal(32)) + ")"@;
    assert(spelled(pair_read_expr(pair)) == low + " | "@ + shifted);
    assert("        "@ + low =~= "        self.read_"@ + pair.low@ + "() as u64"@) by {
        reveal_strlit("() as u64");
    }
    assert(" | "@ + shifted + "\n"@ =~= " | ((self.read_"@ + pair.high@ + "() as u64) << 32)\n"@) by {
        reveal_strlit(" | ((self.read_");
    }
    assert("        "@ + spelled(pair_read_expr(pair)) + "\n"@ =~= ("        "@ + low) + (" | "@
        + shifted + "\n"@));
    assert("        self.read_"@ + pair.low@ + "() as u64 | ((self.read_"@ + pair.high@
        + "() as u64) << 32)\n"@ =~= ("        self.read_"@ + pair.low@ + "() as u64"@) + (
    " | ((self.read_"@ + pair.high@ + "() as u64) << 32)\n"@)) by {
        reveal_strlit("() as u64");
        reveal_strlit(" | ((self.read_");
    }
}

proof fn lemma_pair_reader_part(h: Seq<char>, pair: U64Pair)
    ensures
        h + "    pub fn read_"@ + pair.name@ + "(&self) -> u64 {\n"@ + "        self.read_"@
            + pair.low@ + "() as u64 | ((self.read_"@ + pair.high@ + "() as u64) << 32)\n"@
            + "    }\n"@ == h + pair_reader(pair),
{
    lemma_pair_spelling(pair);
    let head = "    pub fn read_"@ + pair.name@ + "(&self) -> u64 {\n"@;
    let line = "        self.read_"@ + pair.low@ + "() as u64 | ((self.read_"@ + pair.high@
        + "() as u64) << 32)\n"@;
    let spell = spelled(pair_read_expr(pair));
    assert(pair_reader(pair) =~= head + ("        "@ + spell + "\n"@) + "    }\n"@);
    assert(h + "    pub fn read_"@ + pair.name@ + "(&self) -> u64 {\n"@ =~= h + head);
    assert(h + head + "        self.read_"@ + pair.low@ + "() as u64 | ((self.read_"@ + pair.high@
        + "() as u64) << 32)\n"@ =~= h + head + line);
    assert(h + head + line + "    }\n"@ =~= h + (head + line + "    }\n"@));
}

proof fn lemma_pair_writer_part(h: Seq<char>, pair: U64Pair)
    ensures
        h + "    pub fn write_"@ + pair.name@ + "(&self, v: u64) {\n"@ + "        self.write_"@
            + pair.low@ + "(v as u32);\n"@ + "        self.write_"@ + pair.high@
            + "((v >> 32) as u32);\n"@ + "    }\n"@ == h + pair_writer(pair),
{
    lemma_pair_spelling(pair);
    let head = "    pub fn write_"@ + pair.name@ + "(&self, v: u64) {\n"@;
    let a = "("@ + spelled(pair_low_expr()) + ");\n"@;
    let b = "("@ + spelled(pair_high_expr()) + ");\n"@;
    let one = "        self.write_"@ + pair.low@ + a;
    let two = "        self.write_"@ + pair.high@ + b;
    assert(pair_writer(pair) =~= head + one + two + "    }\n"@);
    assert(h + "    pub fn write_"@ + pair.name@ + "(&self, v: u64) {\n"@ =~= h + head);
    assert(h + head + "        self.write_"@ + pair.low@ + a =~= h + head + one);
    assert(h + head + one + "        self.write_"@ + pair.high@ + b =~= h + head + one + two);
    assert(h + head + one + two + "    }\n"@ =~= h + (head + one + two + "    }\n"@));
}

/// A pair that can be read has its reader, one that can be written its writer; where it has
/// both, the writer comes last.
pub proof fn lemma_pair_text(o: Seq<char>, regs: Seq<Register>, pair: U64Pair)
    ensures
        pair_access(regs, pair) is Ro ==> exists|head: Seq<char>| #[trigger]
            (head + pair_reader(pair)) == pair_text(o, regs, pair),
        pair_access(regs, pair) is Wo ==> exists|head: Seq<char>| #[trigger]
            (head + pair_writer(pair)) == pair_text(o, regs, pair),
        pair_access(regs, pair) is Rw ==> exists|head: Seq<char>, mid: Seq<char>|
            #![trigger (head + pair_reader(pair)) + mid]
            (head + pair_reader(pair)) + mid + pair_writer(pair) == pair_text(o, regs, pair),
{
    let access = pair_access(regs, pair);
    let h1 = o + "    /// Composed read of `"@ + pair.name@ + "` (low="@ + pair.low@ + ", high="@
        + pair.high@ + ", le).\n"@ + inline_line();
    lemma_pair_reader_part(h1, pair);
    let base = if access is Ro || access is Rw {
        h1 + pair_reader(pair)
    } else {
        o
    };
    let mid = "    /// Composed write of `"@ + pair.name@
        + "` (writes low first, then high; le).\n"@ + inline_line();
    let h2 = base + "    /// Composed write of `"@ + pair.name@
        + "` (writes low first, then high; le).\n"@ + inline_line();
    assert(h2 =~= base + mid);
    lemma_pair_writer_part(h2, pair);
    if access is Ro {
        assert(h1 + pair_reader(pair) == pair_text(o, regs, pair));
    }
    if access is Wo {
        assert(h2 + pair_writer(pair) == pair_text(o, regs, pair));
    }
    if access is Rw {
        assert((h1 + pair_reader(pair)) + mid + pair_writer(pair) == pair_text(o, regs, pair));
    }
}

/// What the accessors of a pair do: the reader gives the number whose low half is what the low
/// register reads and whose high half is what the high one reads; the writer writes the low
/// half and the high half of the number. What was written is what is read.
pub proof fn lemma_pair_meaning(pair: U64Pair, env: Map<Seq<char>, nat>, lo: nat, hi: nat, v: nat)
    requires
        env["self.read_"@ + pair.low@ + "()"@] == lo,
        env["self.read_"@ + pair.high@ + "()"@] == hi,
        env["v"@] == v,
        lo < 0x1_0000_0000,
        hi < 0x1_0000_0000,
        v < 0x1_0000_0000_0000_0000,
    ensures
        value(pair_read_expr(pair), env, 64) == lo + hi * 0x1_0000_0000,
        value(pair_low_expr(), env, 64) == v % 0x1_0000_0000,
        value(pair_high_expr(), env, 64) == v / 0x1_0000_0000,
{
    vstd::arithmetic::power2::lemma2_to64();
    reveal_with_fuel(value, 6);
    lemma_or_above(lo, hi, 32);
    assert((hi * pow2(32)) % pow2(64) == hi * pow2(32));
    assert(lo % pow2(64) == lo && hi % pow2(64) == hi);
    assert((v / 0x1_0000_0000) % 0x1_0000_0000 == v / 0x1_0000_0000);
}

} // verus!
