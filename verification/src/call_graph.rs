//! The call graph of a program, read from its disassembly.

use crate::text::{
    chars_of, copy_of, cut, ends_with, find_char, finishes, first_word, first_word_of, has_char,
    has_name, index_of, is_white, last_index_of, lemma_bare_word, lemma_first_word_of,
    lemma_index_of, lemma_index_of_is, lemma_last_index_of, lemma_last_index_of_is, lemma_trimmed,
    lines, lines_of, rfind_char, same_text, string_of, texts, trim, trimmed,
};
use vstd::prelude::*;

verus! {

/// One function and the functions that it calls.
pub struct CallNode {
    pub name: String,
    pub callees: Vec<String>,
}

/// The functions of a program, each with the functions that it calls.
pub struct CallGraph {
    pub nodes: Vec<CallNode>,
}

/// A call graph as a list of names, each with the names called.
pub type Nodes = Seq<(Seq<char>, Seq<Seq<char>>)>;

impl View for CallNode {
    type V = (Seq<char>, Seq<Seq<char>>);

    open spec fn view(&self) -> (Seq<char>, Seq<Seq<char>>) {
        (self.name@, self.callees.deep_view())
    }
}

impl View for CallGraph {
    type V = Nodes;

    open spec fn view(&self) -> Nodes {
        Seq::new(self.nodes@.len(), |i: int| self.nodes@[i]@)
    }
}

/// The index of the function `name` from `i` on, or the number of functions.
pub open spec fn node_from(g: Nodes, name: Seq<char>, i: int) -> int
    decreases g.len() - i,
{
    if i < 0 || i >= g.len() {
        g.len() as int
    } else if g[i].0 == name {
        i
    } else {
        node_from(g, name, i + 1)
    }
}

/// The index of the function `name`, or the number of functions.
pub open spec fn node_at(g: Nodes, name: Seq<char>) -> int {
    node_from(g, name, 0)
}

/// Whether the graph has a function `name`.
pub open spec fn is_node(g: Nodes, name: Seq<char>) -> bool {
    node_at(g, name) < g.len()
}

/// The functions that `name` calls.
pub open spec fn callees(g: Nodes, name: Seq<char>) -> Seq<Seq<char>> {
    if is_node(g, name) {
        g[node_at(g, name)].1
    } else {
        Seq::empty()
    }
}

/// Whether `a` calls `b`.
pub open spec fn calls(g: Nodes, a: Seq<char>, b: Seq<char>) -> bool {
    callees(g, a).contains(b)
}

pub proof fn lemma_node_from(g: Nodes, name: Seq<char>, i: int)
    requires
        0 <= i <= g.len(),
    ensures
        i <= node_from(g, name, i) <= g.len(),
        node_from(g, name, i) < g.len() ==> g[node_from(g, name, i)].0 == name,
        forall|j: int| i <= j < node_from(g, name, i) ==> (#[trigger] g[j]).0 != name,
    decreases g.len() - i,
{
    if i < g.len() && g[i].0 != name {
        lemma_node_from(g, name, i + 1);
    }
}

/// The graph with a function `name`, which calls nothing where it is new.
pub open spec fn with_node(g: Nodes, name: Seq<char>) -> Nodes {
    if is_node(g, name) {
        g
    } else {
        g.push((name, Seq::empty()))
    }
}

/// The graph in which `from` calls `to` as well.
pub open spec fn with_call(g: Nodes, from: Seq<char>, to: Seq<char>) -> Nodes {
    if !is_node(g, from) || calls(g, from, to) {
        g
    } else {
        g.update(node_at(g, from), (from, callees(g, from).push(to)))
    }
}

impl CallGraph {
    /// A graph without functions.
    pub fn new() -> (g: CallGraph)
        ensures
            g@ == Seq::<(Seq<char>, Seq<Seq<char>>)>::empty(),
    {
        let g = CallGraph { nodes: Vec::new() };
        assert(g@ =~= Seq::<(Seq<char>, Seq<Seq<char>>)>::empty());
        g
    }

    /// The index of the function `name`.
    pub fn find(&self, name: &str) -> (r: Option<usize>)
        ensures
            match r {
                Some(i) => i < self.nodes@.len() && i == node_at(self@, name@),
                None => !is_node(self@, name@),
            },
            r matches Some(i) ==> self.nodes@[i as int].name@ == name@
                && self.nodes@[i as int].callees.deep_view() == callees(self@, name@),
    {
        let mut i: usize = 0;
        while i < self.nodes.len()
            invariant
                i <= self.nodes@.len(),
                node_at(self@, name@) == node_from(self@, name@, i as int),
            decreases self.nodes@.len() - i,
        {
            assert(self@[i as int] == self.nodes@[i as int]@);
            if same_text(self.nodes[i].name.as_str(), name) {
                return Some(i);
            }
            i += 1;
        }
        None
    }

    /// Whether the graph has a function `name`.
    pub fn contains(&self, name: &str) -> (r: bool)
        ensures
            r == is_node(self@, name@),
    {
        self.find(name).is_some()
    }

    /// Makes sure that the graph has a function `name`.
    pub fn add_node(&mut self, name: &str)
        ensures
            final(self)@ == with_node(old(self)@, name@),
    {
        if !self.contains(name) {
            let ghost before = self@;
            let node = CallNode { name: copy_of(name), callees: Vec::new() };
            assert(node.callees.deep_view() =~= Seq::<Seq<char>>::empty());
            self.nodes.push(node);
            assert(self@ =~= before.push((name@, Seq::empty())));
        }
    }

    /// Lets `from` call `to` as well. Says whether the call is new.
    pub fn add_call(&mut self, from: &str, to: &str) -> (added: bool)
        ensures
            final(self)@ == with_call(old(self)@, from@, to@),
            added == (is_node(old(self)@, from@) && !calls(old(self)@, from@, to@)),
    {
        match self.find(from) {
            None => false,
            Some(i) => {
                if has_name(&self.nodes[i].callees, to) {
                    return false;
                }
                let ghost before = self@;
                let ghost list = self.nodes@[i as int].callees.deep_view();
                let target = copy_of(to);
                self.nodes[i].callees.push(target);
                proof {
                    assert(self.nodes@[i as int].callees.deep_view() =~= list.push(to@));
                    assert(self@ =~= before.update(i as int, (from@, list.push(to@))));
                }
                true
            },
        }
    }
}

// ---------------------------------------------------------------------------
// Reading a disassembly
// ---------------------------------------------------------------------------

/// The target that a call or branch names between angle brackets: what stands between
/// the first `<` and the last `>`.
pub open spec fn call_target(insn: Seq<char>) -> Option<Seq<char>> {
    let start = index_of(insn, '<');
    let end = last_index_of(insn, '>');
    if start < insn.len() && start < end {
        Some(insn.subrange(start + 1, end))
    } else {
        None
    }
}

/// The target that a call or branch names.
pub fn extract_call_target(insn: &Vec<char>) -> (r: Option<String>)
    ensures
        match r {
            Some(t) => call_target(insn@) == Some(t@),
            None => call_target(insn@) is None,
        },
{
    proof {
        lemma_last_index_of(insn@, '>');
        lemma_index_of(insn@, '<');
    }
    match (find_char(insn, '<'), rfind_char(insn, '>')) {
        (Some(start), Some(end)) => {
            if end > start {
                let name = cut(insn, start + 1, end);
                Some(string_of(&name))
            } else {
                None
            }
        },
        _ => None,
    }
}

/// How far a disassembly has been read.
pub struct Scan {
    /// The function that the lines now belong to; empty before the first.
    pub current: Seq<char>,
    pub graph: Nodes,
    /// The functions with calls through a register, in order of appearance.
    pub indirect: Seq<Seq<char>>,
    /// The number of different direct calls.
    pub bl: nat,
    /// The number of different tail calls.
    pub tail: nat,
}

/// The name in a header line `address <name>:`, where the line ends like one.
pub open spec fn header_name(line: Seq<char>) -> Option<Seq<char>> {
    let start = index_of(line, '<');
    if start + 3 <= line.len() {
        Some(line.subrange(start + 1, line.len() - 2))
    } else {
        None
    }
}

/// What one instruction of the current function adds.
pub open spec fn after_insn(s: Scan, insn: Seq<char>) -> Scan {
    let word = first_word_of(insn);
    let target = call_target(insn);
    let graph = with_call(s.graph, s.current, target->0);
    let new = is_node(s.graph, s.current) && !calls(s.graph, s.current, target->0);
    if word == "bl"@ && target is Some {
        Scan { graph, bl: s.bl + (if new { 1nat } else { 0nat }), ..s }
    } else if word == "b"@ && target is Some && !target->0.contains('+') && target->0
        != s.current {
        Scan { graph, tail: s.tail + (if new { 1nat } else { 0nat }), ..s }
    } else if word == "blr"@ && !s.indirect.contains(s.current) {
        Scan { indirect: s.indirect.push(s.current), ..s }
    } else {
        s
    }
}

/// What one line adds.
pub open spec fn after_line(s: Scan, line: Seq<char>) -> Scan {
    let line = trimmed(line);
    if ends_with(line, ">:"@) {
        match header_name(line) {
            Some(name) => Scan { current: name, graph: with_node(s.graph, name), ..s },
            None => s,
        }
    } else if s.current.len() == 0 || index_of(line, ':') >= line.len() {
        s
    } else {
        after_insn(s, trimmed(line.skip(index_of(line, ':') + 1)))
    }
}

/// A disassembly of which nothing has been read.
pub open spec fn scan_start() -> Scan {
    Scan {
        current: Seq::empty(),
        graph: Seq::empty(),
        indirect: Seq::empty(),
        bl: 0,
        tail: 0,
    }
}

/// What the first `n` lines say.
pub open spec fn scanned(lines: Seq<Seq<char>>, n: nat) -> Scan
    decreases n,
{
    if n == 0 {
        scan_start()
    } else {
        after_line(scanned(lines, (n - 1) as nat), lines[n - 1])
    }
}

/// What a disassembly says.
pub open spec fn disassembled(text: Seq<char>) -> Scan {
    scanned(lines_of(text), lines_of(text).len())
}

/// A call graph and what else a disassembly says.
pub struct Extracted {
    /// The function that the last lines belong to.
    pub current: String,
    pub graph: CallGraph,
    /// The functions with calls through a register.
    pub indirect: Vec<String>,
    /// The number of different direct calls.
    pub bl_count: usize,
    /// The number of different tail calls.
    pub tail_count: usize,
}

impl View for Extracted {
    type V = Scan;

    open spec fn view(&self) -> Scan {
        Scan {
            current: self.current@,
            graph: self.graph@,
            indirect: self.indirect.deep_view(),
            bl: self.bl_count as nat,
            tail: self.tail_count as nat,
        }
    }
}

fn read_insn(st: &mut Extracted, insn: &Vec<char>)
    requires
        old(st).bl_count < usize::MAX,
        old(st).tail_count < usize::MAX,
    ensures
        final(st)@ == after_insn(old(st)@, insn@),
        final(st).bl_count <= old(st).bl_count + 1,
        final(st).tail_count <= old(st).tail_count + 1,
{
    let word = first_word(insn);
    let name = string_of(&word);
    let current = copy_of(st.current.as_str());
    proof {
        reveal_strlit("bl");
        reveal_strlit("b");
        reveal_strlit("blr");
        assert("b"@.len() == 1 && "bl"@.len() == 2 && "blr"@.len() == 3);
    }
    if same_text(name.as_str(), "bl") {
        match extract_call_target(insn) {
            Some(target) => {
                if st.graph.add_call(current.as_str(), target.as_str()) {
                    st.bl_count += 1;
                }
            },
            None => {},
        }
    } else if same_text(name.as_str(), "b") {
        match extract_call_target(insn) {
            Some(target) => {
                let chars = chars_of(target.as_str());
                if !has_char(&chars, '+') && !same_text(target.as_str(), current.as_str()) {
                    if st.graph.add_call(current.as_str(), target.as_str()) {
                        st.tail_count += 1;
                    }
                }
            },
            None => {},
        }
    } else if same_text(name.as_str(), "blr") {
        if !has_name(&st.indirect, current.as_str()) {
            let ghost before = st.indirect.deep_view();
            st.indirect.push(current);
            assert(st.indirect.deep_view() =~= before.push(st.current@));
        }
    }
}

fn read_line(st: &mut Extracted, line: &Vec<char>)
    requires
        old(st).bl_count < usize::MAX,
        old(st).tail_count < usize::MAX,
    ensures
        final(st)@ == after_line(old(st)@, line@),
        final(st).bl_count <= old(st).bl_count + 1,
        final(st).tail_count <= old(st).tail_count + 1,
{
    let line = trim(line);
    proof {
        reveal_strlit(">:");
    }
    if finishes(&line, ">:") {
        proof {
            lemma_index_of(line@, '<');
            let n = line@.len();
            assert(line@.skip(n - 2)[0] == line@[n - 2] && line@.skip(n - 2)[1] == line@[n - 1]);
        }
        match find_char(&line, '<') {
            Some(start) => {
                assert(start < line.len());
                let chars = cut(&line, start + 1, line.len() - 2);
                let name = string_of(&chars);
                st.graph.add_node(name.as_str());
                st.current = name;
            },
            None => {},
        }
        return;
    }
    if st.current.as_str().is_empty() {
        return;
    }
    match find_char(&line, ':') {
        Some(colon) => {
            assert(colon < line.len());
            let rest = cut(&line, colon + 1, line.len());
            assert(rest@ =~= line@.skip(colon + 1));
            let insn = trim(&rest);
            read_insn(st, &insn);
        },
        None => {},
    }
}

/// Reads the call graph out of a disassembly.
pub fn extract_call_graph(disassembly: &str) -> (r: Extracted)
    ensures
        r@ == disassembled(disassembly@),
{
    let text = chars_of(disassembly);
    let all = lines(&text);
    let mut st = Extracted {
        current: String::new(),
        graph: CallGraph::new(),
        indirect: Vec::new(),
        bl_count: 0,
        tail_count: 0,
    };
    assert(st.indirect.deep_view() =~= Seq::<Seq<char>>::empty());
    let mut i: usize = 0;
    while i < all.len()
        invariant
            i <= all.len(),
            st.bl_count <= i,
            st.tail_count <= i,
            st@ == scanned(texts(all@), i as nat),
        decreases all.len() - i,
    {
        read_line(&mut st, &all[i]);
        i += 1;
    }
    st
}

// ---------------------------------------------------------------------------
// What the graph of a disassembly holds
// ---------------------------------------------------------------------------

/// Whether a line names the function that the lines behind it belong to: `.. <f>:`.
pub open spec fn names_function(line: Seq<char>, f: Seq<char>) -> bool {
    exists|a: Seq<char>| !#[trigger] a.contains('<') && trimmed(line) == a + "<"@ + f + ">:"@
}

/// Whether line `i` belongs to the function `f`: the last line before it that names a function
/// names `f`.
pub open spec fn in_body(lines: Seq<Seq<char>>, i: int, f: Seq<char>) -> bool {
    exists|h: int|
        0 <= h < i && names_function(#[trigger] lines[h], f) && forall|k: int, g: Seq<char>|
            h < k < i ==> !#[trigger] names_function(lines[k], g)
}

/// Whether a line holds an instruction: what stands behind its first colon.
pub open spec fn holds_insn(line: Seq<char>, insn: Seq<char>) -> bool {
    !ends_with(trimmed(line), ">:"@) && exists|a: Seq<char>, rest: Seq<char>|
        !#[trigger] a.contains(':') && insn == #[trigger] trimmed(rest) && trimmed(line) == a
            + ":"@ + rest
}

/// Whether an instruction starts with the given word.
pub open spec fn has_opcode(insn: Seq<char>, w: Seq<char>) -> bool {
    insn.len() >= w.len() && insn.take(w.len() as int) == w && (insn.len() > w.len() ==> is_white(
        insn[w.len() as int],
    ))
}

/// Whether an instruction names a target: `.. <t> ..`.
pub open spec fn has_target(insn: Seq<char>, t: Seq<char>) -> bool {
    exists|p: Seq<char>, q: Seq<char>|
        !#[trigger] p.contains('<') && !#[trigger] q.contains('>') && insn == p + "<"@ + t + ">"@
            + q
}

/// Whether a line is an instruction of the given word that names a target.
pub open spec fn goes_to(line: Seq<char>, w: Seq<char>, t: Seq<char>) -> bool {
    exists|insn: Seq<char>|
        #[trigger] holds_insn(line, insn) && has_opcode(insn, w) && has_target(insn, t)
}

/// Whether line `i`, which belongs to `f`, calls `t`: it is a `bl` to `t`, or a `b` to `t` where
/// that is the start of another function.
pub open spec fn calls_at(lines: Seq<Seq<char>>, i: int, f: Seq<char>, t: Seq<char>) -> bool {
    &&& f.len() > 0
    &&& in_body(lines, i, f)
    &&& goes_to(lines[i], "bl"@, t) || goes_to(lines[i], "b"@, t) && !t.contains('+') && t != f
}

proof fn lemma_header(line: Seq<char>, f: Seq<char>)
    ensures
        names_function(line, f) <==> ends_with(trimmed(line), ">:"@) && header_name(trimmed(line))
            == Some(f),
{
    let l = trimmed(line);
    reveal_strlit("<");
    reveal_strlit(">:");
    lemma_index_of(l, '<');
    if names_function(line, f) {
        let a = choose|a: Seq<char>|
            !#[trigger] a.contains('<') && trimmed(line) == a + "<"@ + f + ">:"@;
        let k = a.len() as int;
        assert(l[k] == '<');
        assert forall|j: int| 0 <= j < k implies l[j] != '<' by {
            assert(l[j] == a[j]);
            assert(a.contains(a[j]));
        }
        lemma_index_of_is(l, '<', k);
        assert(l.skip(l.len() - 2) =~= ">:"@);
        assert(l.subrange(k + 1, l.len() - 2) =~= f);
    }
    if ends_with(l, ">:"@) && header_name(l) == Some(f) {
        let k = index_of(l, '<');
        let a = l.take(k);
        assert(!a.contains('<')) by {
            if a.contains('<') {
                let j = choose|j: int| 0 <= j < a.len() && a[j] == '<';
                assert(l[j] == '<');
            }
        }
        assert(l.skip(l.len() - 2)[0] == l[l.len() - 2] && l.skip(l.len() - 2)[1] == l[l.len() - 1]);
        assert(l =~= a + "<"@ + f + ">:"@);
    }
}

proof fn lemma_insn(line: Seq<char>, insn: Seq<char>)
    ensures
        holds_insn(line, insn) <==> !ends_with(trimmed(line), ">:"@) && index_of(
            trimmed(line),
            ':',
        ) < trimmed(line).len() && insn == trimmed(
            trimmed(line).skip(index_of(trimmed(line), ':') + 1),
        ),
{
    let l = trimmed(line);
    reveal_strlit(":");
    lemma_index_of(l, ':');
    let k = index_of(l, ':');
    if holds_insn(line, insn) {
        let (a, rest) = choose|a: Seq<char>, rest: Seq<char>|
            !#[trigger] a.contains(':') && insn == #[trigger] trimmed(rest) && trimmed(line) == a
                + ":"@ + rest;
        let n = a.len() as int;
        assert(l[n] == ':');
        assert forall|j: int| 0 <= j < n implies l[j] != ':' by {
            assert(l[j] == a[j]);
            assert(a.contains(a[j]));
        }
        lemma_index_of_is(l, ':', n);
        assert(l.skip(n + 1) =~= rest);
    }
    if k < l.len() {
        let a = l.take(k);
        let rest = l.skip(k + 1);
        assert(!a.contains(':')) by {
            if a.contains(':') {
                let j = choose|j: int| 0 <= j < a.len() && a[j] == ':';
                assert(l[j] == ':');
            }
        }
        assert(l =~= a + ":"@ + rest);
        if insn == trimmed(rest) && !ends_with(l, ">:"@) {
            assert(holds_insn(line, insn));
        }
    }
}

proof fn lemma_opcode(insn: Seq<char>, w: Seq<char>)
    requires
        crate::text::is_bare(insn),
        w.len() > 0,
        forall|i: int| 0 <= i < w.len() ==> !is_white(#[trigger] w[i]),
    ensures
        has_opcode(insn, w) <==> first_word_of(insn) == w,
{
    lemma_bare_word(insn);
    if has_opcode(insn, w) {
        let r = insn.skip(w.len() as int);
        assert(insn =~= Seq::<char>::empty() + w + r) by {
            assert(insn =~= insn.take(w.len() as int) + r);
        }
        lemma_first_word_of(Seq::empty(), w, r);
    }
    if first_word_of(insn) == w {
        assert((w + insn.skip(w.len() as int)).take(w.len() as int) =~= w);
    }
}

proof fn lemma_target(insn: Seq<char>, t: Seq<char>)
    ensures
        has_target(insn, t) <==> call_target(insn) == Some(t),
{
    reveal_strlit("<");
    reveal_strlit(">");
    lemma_index_of(insn, '<');
    lemma_last_index_of(insn, '>');
    if has_target(insn, t) {
        let (p, q) = choose|p: Seq<char>, q: Seq<char>|
            !#[trigger] p.contains('<') && !#[trigger] q.contains('>') && insn == p + "<"@ + t
                + ">"@ + q;
        let a = p.len() as int;
        let b = a + 1 + t.len();
        assert(insn[a] == '<' && insn[b] == '>');
        assert forall|j: int| 0 <= j < a implies insn[j] != '<' by {
            assert(insn[j] == p[j]);
            assert(p.contains(p[j]));
        }
        assert forall|j: int| b < j < insn.len() implies insn[j] != '>' by {
            assert(insn[j] == q[j - b - 1]);
            assert(q.contains(q[j - b - 1]));
        }
        lemma_index_of_is(insn, '<', a);
        lemma_last_index_of_is(insn, '>', b);
        assert(insn.subrange(a + 1, b) =~= t);
    }
    if call_target(insn) == Some(t) {
        let a = index_of(insn, '<');
        let b = last_index_of(insn, '>');
        let p = insn.take(a);
        let q = insn.skip(b + 1);
        assert(!p.contains('<')) by {
            if p.contains('<') {
                let j = choose|j: int| 0 <= j < p.len() && p[j] == '<';
                assert(insn[j] == '<');
            }
        }
        assert(!q.contains('>')) by {
            if q.contains('>') {
                let j = choose|j: int| 0 <= j < q.len() && q[j] == '>';
                assert(insn[b + 1 + j] == '>');
            }
        }
        assert(insn =~= p + "<"@ + t + ">"@ + q);
    }
}

/// The instruction of a line, as the reader takes it.
spec fn insn_of(line: Seq<char>) -> Seq<char> {
    trimmed(trimmed(line).skip(index_of(trimmed(line), ':') + 1))
}

proof fn lemma_goes_to(line: Seq<char>, w: Seq<char>, t: Seq<char>)
    requires
        w.len() > 0,
        forall|i: int| 0 <= i < w.len() ==> !is_white(#[trigger] w[i]),
    ensures
        goes_to(line, w, t) <==> holds_insn(line, insn_of(line)) && first_word_of(insn_of(line))
            == w && call_target(insn_of(line)) == Some(t),
{
    let insn = insn_of(line);
    lemma_insn(line, insn);
    lemma_trimmed(trimmed(line).skip(index_of(trimmed(line), ':') + 1));
    lemma_opcode(insn, w);
    lemma_target(insn, t);
    if goes_to(line, w, t) {
        let other = choose|i: Seq<char>|
            #[trigger] holds_insn(line, i) && has_opcode(i, w) && has_target(i, t);
        lemma_insn(line, other);
    }
}

proof fn lemma_words()
    ensures
        "b"@ != "bl"@,
        "b"@ != "blr"@,
        "bl"@ != "blr"@,
        "b"@.len() == 1,
        "bl"@.len() == 2,
        "blr"@.len() == 3,
        forall|i: int| 0 <= i < "b"@.len() ==> !is_white(#[trigger] "b"@[i]),
        forall|i: int| 0 <= i < "bl"@.len() ==> !is_white(#[trigger] "bl"@[i]),
        forall|i: int| 0 <= i < "blr"@.len() ==> !is_white(#[trigger] "blr"@[i]),
{
    reveal_strlit("b");
    reveal_strlit("bl");
    reveal_strlit("blr");
    assert("b"@.len() == 1 && "bl"@.len() == 2 && "blr"@.len() == 3);
}

/// A call that is added is there, and no other comes with it.
pub proof fn lemma_with_call(g: Nodes, from: Seq<char>, to: Seq<char>, f: Seq<char>, t: Seq<char>)
    ensures
        is_node(with_call(g, from, to), f) == is_node(g, f),
        calls(with_call(g, from, to), f, t) <==> calls(g, f, t) || is_node(g, from) && f == from
            && t == to,
{
    let h = with_call(g, from, to);
    lemma_node_from(g, from, 0);
    lemma_node_from(g, f, 0);
    lemma_node_from(h, f, 0);
    let i = node_at(g, from);
    if is_node(g, from) && !calls(g, from, to) {
        let list = callees(g, from);
        assert(h[i].1 == list.push(to));
        if is_node(g, f) {
            assert(h[node_at(g, f)].0 == f);
        }
        if is_node(h, f) {
            assert(g[node_at(h, f)].0 == f);
        }
        assert(node_at(h, f) == node_at(g, f)) by {
            let a = node_at(g, f);
            let b = node_at(h, f);
            if a < b {
                assert(h[a].0 != f);
                assert(g[a].0 == h[a].0);
            } else if b < a {
                assert(g[b].0 != f);
                assert(g[b].0 == h[b].0);
            }
        }
        if f == from {
            let more = list.push(to);
            assert(more[list.len() as int] == to);
            if list.contains(t) {
                let j = choose|j: int| 0 <= j < list.len() && list[j] == t;
                assert(more[j] == t);
            }
            if more.contains(t) && t != to {
                let j = choose|j: int| 0 <= j < more.len() && more[j] == t;
                assert(list[j] == t);
            }
        } else if is_node(g, f) {
            assert(g[node_at(g, f)].0 == f && g[i].0 == from);
            assert(h[node_at(g, f)] == g[node_at(g, f)]);
        }
    }
}

proof fn lemma_with_node(g: Nodes, name: Seq<char>, f: Seq<char>, t: Seq<char>)
    ensures
        is_node(with_node(g, name), f) <==> is_node(g, f) || f == name,
        calls(with_node(g, name), f, t) <==> calls(g, f, t),
{
    let h = with_node(g, name);
    lemma_node_from(g, name, 0);
    lemma_node_from(g, f, 0);
    lemma_node_from(h, f, 0);
    if !is_node(g, name) {
        let n = g.len() as int;
        assert(h[n] == (name, Seq::<Seq<char>>::empty()));
        let a = node_at(g, f);
        let b = node_at(h, f);
        if a < n {
            if b < a {
                assert(g[b] == h[b]);
            } else if a < b {
                assert(h[a].0 != f);
                assert(g[a] == h[a]);
            }
        } else if b < n {
            assert(g[b] == h[b]);
        }
        if f == name && b > n {
            assert(h[n].0 != f);
        }
        if a < n {
            assert(h[a] == g[a]);
        }
    }
}

/// What the reader knows after `n` lines.
spec fn follows(lines: Seq<Seq<char>>, n: nat, s: Scan) -> bool {
    &&& s.current.len() > 0 ==> in_body(lines, n as int, s.current) && is_node(s.graph, s.current)
    &&& forall|f: Seq<char>| #[trigger] in_body(lines, n as int, f) ==> s.current == f
    &&& forall|f: Seq<char>, t: Seq<char>| #[trigger]
        calls(s.graph, f, t) <==> exists|i: int| 0 <= i < n && #[trigger] calls_at(lines, i, f, t)
    &&& forall|f: Seq<char>| #[trigger]
        is_node(s.graph, f) <==> exists|h: int|
            0 <= h < n && names_function(#[trigger] lines[h], f)
    &&& s.indirect.no_duplicates()
    &&& forall|f: Seq<char>| #[trigger]
        s.indirect.contains(f) <==> exists|i: int| 0 <= i < n && #[trigger] branches_at(lines, i, f)
}

/// Whether line `i`, which belongs to `f`, calls through a register.
pub open spec fn branches_at(lines: Seq<Seq<char>>, i: int, f: Seq<char>) -> bool {
    &&& f.len() > 0
    &&& in_body(lines, i, f)
    &&& exists|insn: Seq<char>| #[trigger] holds_insn(lines[i], insn) && has_opcode(insn, "blr"@)
}

proof fn lemma_branches(line: Seq<char>)
    ensures
        (exists|insn: Seq<char>| #[trigger] holds_insn(line, insn) && has_opcode(insn, "blr"@))
            <==> holds_insn(line, insn_of(line)) && first_word_of(insn_of(line)) == "blr"@,
{
    lemma_words();
    let insn = insn_of(line);
    lemma_insn(line, insn);
    lemma_trimmed(trimmed(line).skip(index_of(trimmed(line), ':') + 1));
    lemma_opcode(insn, "blr"@);
    if exists|i: Seq<char>| #[trigger] holds_insn(line, i) && has_opcode(i, "blr"@) {
        let other = choose|i: Seq<char>|
            #[trigger] holds_insn(line, i) && has_opcode(i, "blr"@);
        lemma_insn(line, other);
    }
}

proof fn lemma_body_on(lines: Seq<Seq<char>>, n: int, f: Seq<char>)
    requires
        0 <= n < lines.len(),
    ensures
        names_function(lines[n], f) ==> in_body(lines, n + 1, f),
        (forall|g: Seq<char>| !#[trigger] names_function(lines[n], g)) ==> (in_body(lines, n + 1, f)
            <==> in_body(lines, n, f)),
        in_body(lines, n + 1, f) ==> names_function(lines[n], f) || (in_body(lines, n, f)
            && forall|g: Seq<char>| !#[trigger] names_function(lines[n], g)),
{
    if in_body(lines, n + 1, f) {
        let h = choose|h: int|
            0 <= h < n + 1 && names_function(#[trigger] lines[h], f) && forall|
                k: int,
                g: Seq<char>,
            |
                h < k < n + 1 ==> !#[trigger] names_function(lines[k], g);
        if h < n {
            assert(names_function(lines[h], f));
        }
    }
    if in_body(lines, n, f) && forall|g: Seq<char>| !#[trigger] names_function(lines[n], g) {
        let h = choose|h: int|
            0 <= h < n && names_function(#[trigger] lines[h], f) && forall|k: int, g: Seq<char>|
                h < k < n ==> !#[trigger] names_function(lines[k], g);
        assert(names_function(lines[h], f));
        assert forall|k: int, g: Seq<char>| h < k < n + 1 implies !#[trigger] names_function(
            lines[k],
            g,
        ) by {}
    }
}

proof fn lemma_follows(lines: Seq<Seq<char>>, n: nat)
    requires
        n <= lines.len(),
    ensures
        follows(lines, n, scanned(lines, n)),
    decreases n,
{
    let e = scan_start();
    if n == 0 {
        assert forall|f: Seq<char>, t: Seq<char>| !#[trigger] calls(e.graph, f, t) by {}
    } else {
        lemma_follows(lines, (n - 1) as nat);
        lemma_follows_line(lines, (n - 1) as nat, scanned(lines, (n - 1) as nat));
    }
}

proof fn lemma_follows_line(lines: Seq<Seq<char>>, n: nat, s: Scan)
    requires
        n < lines.len(),
        follows(lines, n, s),
    ensures
        follows(lines, n + 1, after_line(s, lines[n as int])),
{
    let line = lines[n as int];
    let l = trimmed(line);
    let next = after_line(s, line);
    let insn = insn_of(line);
    lemma_words();
    lemma_index_of(l, '<');
    reveal_strlit(">:");
    assert forall|f: Seq<char>| true implies #[trigger] names_function(line, f) == (ends_with(
        l,
        ">:"@,
    ) && header_name(l) == Some(f)) by {
        lemma_header(line, f);
    }
    lemma_insn(line, insn);
    lemma_branches(line);
    if ends_with(l, ">:"@) {
        assert(!holds_insn(line, insn));
    }
    // The function that the next line belongs to.
    assert forall|f: Seq<char>| #[trigger] in_body(lines, (n + 1) as int, f) implies next.current
        == f by {
        lemma_body_on(lines, n as int, f);
        if header_name(l) is Some {
            assert(names_function(line, header_name(l)->0) == ends_with(l, ">:"@));
        }
        if !names_function(line, f) {
            assert(in_body(lines, n as int, f));
        }
    }
    if next.current.len() > 0 {
        lemma_body_on(lines, n as int, next.current);
        if names_function(line, next.current) {
            lemma_with_node(s.graph, next.current, next.current, next.current);
        } else {
            assert(next.current == s.current);
        }
    }
    // What the line adds.
    assert forall|f: Seq<char>, t: Seq<char>| #[trigger]
        calls(next.graph, f, t) == (calls(s.graph, f, t) || calls_at(lines, n as int, f, t)) by {
        lemma_goes_to(line, "bl"@, t);
        lemma_goes_to(line, "b"@, t);
        if ends_with(l, ">:"@) {
            if let Some(name) = header_name(l) {
                lemma_with_node(s.graph, name, f, t);
            }
        } else if s.current.len() > 0 && holds_insn(line, insn) {
            if let Some(target) = call_target(insn) {
                lemma_with_call(s.graph, s.current, target, f, t);
            }
        }
    }
    assert forall|f: Seq<char>| #[trigger]
        is_node(next.graph, f) == (is_node(s.graph, f) || names_function(line, f)) by {
        if ends_with(l, ">:"@) {
            if let Some(name) = header_name(l) {
                lemma_with_node(s.graph, name, f, f);
            }
        } else if s.current.len() > 0 && holds_insn(line, insn) {
            if let Some(target) = call_target(insn) {
                lemma_with_call(s.graph, s.current, target, f, f);
            }
        }
    }
    assert forall|f: Seq<char>| #[trigger]
        next.indirect.contains(f) == (s.indirect.contains(f) || branches_at(lines, n as int, f)) by {
        let more = s.indirect.push(s.current);
        assert(more[s.indirect.len() as int] == s.current);
        if s.indirect.contains(f) {
            let j = choose|j: int| 0 <= j < s.indirect.len() && s.indirect[j] == f;
            assert(more[j] == f);
        }
        if more.contains(f) && f != s.current {
            let j = choose|j: int| 0 <= j < more.len() && more[j] == f;
            assert(s.indirect[j] == f);
        }
    }
    assert(next.indirect.no_duplicates()) by {
        if next.indirect != s.indirect {
            assert(next.indirect == s.indirect.push(s.current));
            assert(!s.indirect.contains(s.current));
        }
    }
    // Up to the next line.
    assert forall|f: Seq<char>, t: Seq<char>| #[trigger]
        calls(next.graph, f, t) <==> exists|i: int|
            0 <= i < n + 1 && #[trigger] calls_at(lines, i, f, t) by {
        if calls(s.graph, f, t) {
            let i = choose|i: int| 0 <= i < n && #[trigger] calls_at(lines, i, f, t);
            assert(calls_at(lines, i, f, t));
        }
        if exists|i: int| 0 <= i < n + 1 && #[trigger] calls_at(lines, i, f, t) {
            let i = choose|i: int| 0 <= i < n + 1 && #[trigger] calls_at(lines, i, f, t);
            if i < n {
                assert(calls(s.graph, f, t));
            }
        }
    }
    assert forall|f: Seq<char>| #[trigger]
        is_node(next.graph, f) <==> exists|h: int|
            0 <= h < n + 1 && names_function(#[trigger] lines[h], f) by {
        if is_node(s.graph, f) {
            let h = choose|h: int| 0 <= h < n && names_function(#[trigger] lines[h], f);
            assert(names_function(lines[h], f));
        }
        if names_function(line, f) {
            assert(names_function(lines[n as int], f));
        }
        if exists|h: int| 0 <= h < n + 1 && names_function(#[trigger] lines[h], f) {
            let h = choose|h: int| 0 <= h < n + 1 && names_function(#[trigger] lines[h], f);
            if h < n {
                assert(is_node(s.graph, f));
            }
        }
    }
    assert forall|f: Seq<char>| #[trigger]
        next.indirect.contains(f) <==> exists|i: int|
            0 <= i < n + 1 && #[trigger] branches_at(lines, i, f) by {
        if s.indirect.contains(f) {
            let i = choose|i: int| 0 <= i < n && #[trigger] branches_at(lines, i, f);
            assert(branches_at(lines, i, f));
        }
        if exists|i: int| 0 <= i < n + 1 && #[trigger] branches_at(lines, i, f) {
            let i = choose|i: int| 0 <= i < n + 1 && #[trigger] branches_at(lines, i, f);
            if i < n {
                assert(s.indirect.contains(f));
            }
        }
    }
}

/// The graph of a disassembly has exactly the calls that its lines make, in whatever order
/// the functions stand: `f` calls `t` where a line of `f` is a `bl` to `t`, or a `b` to `t` and
/// `t` is the start of another function; and nowhere else. It has exactly the functions that
/// the lines name.
pub proof fn lemma_graph_of_lines(text: Seq<char>, f: Seq<char>, t: Seq<char>)
    ensures
        calls(disassembled(text).graph, f, t) <==> exists|i: int|
            0 <= i < lines_of(text).len() && #[trigger] calls_at(lines_of(text), i, f, t),
        is_node(disassembled(text).graph, f) <==> exists|h: int|
            0 <= h < lines_of(text).len() && names_function(#[trigger] lines_of(text)[h], f),
{
    lemma_follows(lines_of(text), lines_of(text).len());
}

/// The functions with calls through a register are exactly those with a line that is a `blr`,
/// each once.
pub proof fn lemma_indirect_of_lines(text: Seq<char>, f: Seq<char>)
    ensures
        disassembled(text).indirect.contains(f) <==> exists|i: int|
            0 <= i < lines_of(text).len() && #[trigger] branches_at(lines_of(text), i, f),
        disassembled(text).indirect.no_duplicates(),
{
    lemma_follows(lines_of(text), lines_of(text).len());
}

/// Whether line `i` is an instruction of the given word and the first that makes its call.
pub open spec fn first_calls_at(lines: Seq<Seq<char>>, i: int, w: Seq<char>) -> bool {
    exists|f: Seq<char>, t: Seq<char>| #[trigger]
        calls_at(lines, i, f, t) && goes_to(lines[i], w, t) && forall|j: int|
            0 <= j < i ==> !#[trigger] calls_at(lines, j, f, t)
}

/// The number of the first `n` lines that are an instruction of the given word and the first
/// that makes its call.
pub open spec fn first_calls(lines: Seq<Seq<char>>, w: Seq<char>, n: nat) -> nat
    decreases n,
{
    if n == 0 {
        0
    } else {
        first_calls(lines, w, (n - 1) as nat) + (if first_calls_at(lines, n - 1, w) {
            1nat
        } else {
            0nat
        })
    }
}

proof fn lemma_counts_line(lines: Seq<Seq<char>>, n: nat, s: Scan)
    requires
        n < lines.len(),
        follows(lines, n, s),
    ensures
        ({
            let next = after_line(s, lines[n as int]);
            &&& next.bl == s.bl + (if first_calls_at(lines, n as int, "bl"@) {
                1nat
            } else {
                0nat
            })
            &&& next.tail == s.tail + (if first_calls_at(lines, n as int, "b"@) {
                1nat
            } else {
                0nat
            })
        }),
{
    let line = lines[n as int];
    let l = trimmed(line);
    let insn = insn_of(line);
    lemma_words();
    lemma_insn(line, insn);
    assert forall|w: Seq<char>, t: Seq<char>| w == "bl"@ || w == "b"@ implies #[trigger] goes_to(
        line,
        w,
        t,
    ) == (holds_insn(line, insn) && first_word_of(insn) == w && call_target(insn) == Some(t)) by {
        lemma_goes_to(line, w, t);
    }
    if s.current.len() > 0 && holds_insn(line, insn) && call_target(insn) is Some {
        let f = s.current;
        let t = call_target(insn)->0;
        assert(in_body(lines, n as int, f));
        assert(calls(s.graph, f, t) <==> exists|i: int|
            0 <= i < n && #[trigger] calls_at(lines, i, f, t));
        if calls_at(lines, n as int, f, t) && !calls(s.graph, f, t) {
            if first_word_of(insn) == "bl"@ {
                assert(goes_to(line, "bl"@, t));
                assert(first_calls_at(lines, n as int, "bl"@));
            } else {
                assert(goes_to(line, "b"@, t));
                assert(first_calls_at(lines, n as int, "b"@));
            }
        }
        assert(goes_to(line, "bl"@, t) == (first_word_of(insn) == "bl"@));
        assert(goes_to(line, "b"@, t) == (first_word_of(insn) == "b"@));
        assert forall|w: Seq<char>| (w == "bl"@ || w == "b"@) && #[trigger] first_calls_at(
            lines,
            n as int,
            w,
        ) implies calls_at(lines, n as int, f, t) && !calls(s.graph, f, t) && first_word_of(insn)
            == w by {
            let (g, u) = choose|g: Seq<char>, u: Seq<char>| #[trigger]
                calls_at(lines, n as int, g, u) && goes_to(lines[n as int], w, u) && forall|j: int|
                    0 <= j < n ==> !#[trigger] calls_at(lines, j, g, u);
            assert(goes_to(line, w, u));
            assert(in_body(lines, n as int, g));
        }
    } else {
        assert forall|w: Seq<char>| w == "bl"@ || w == "b"@ implies !#[trigger] first_calls_at(
            lines,
            n as int,
            w,
        ) by {
            if first_calls_at(lines, n as int, w) {
                let (g, u) = choose|g: Seq<char>, u: Seq<char>| #[trigger]
                    calls_at(lines, n as int, g, u) && goes_to(lines[n as int], w, u) && forall|
                        j: int,
                    |
                        0 <= j < n ==> !#[trigger] calls_at(lines, j, g, u);
                assert(goes_to(line, w, u));
                assert(in_body(lines, n as int, g));
            }
        }
    }
}

proof fn lemma_counts(lines: Seq<Seq<char>>, n: nat)
    requires
        n <= lines.len(),
    ensures
        scanned(lines, n).bl == first_calls(lines, "bl"@, n),
        scanned(lines, n).tail == first_calls(lines, "b"@, n),
    decreases n,
{
    if n > 0 {
        lemma_counts(lines, (n - 1) as nat);
        lemma_follows(lines, (n - 1) as nat);
        lemma_counts_line(lines, (n - 1) as nat, scanned(lines, (n - 1) as nat));
    }
}

/// The number of direct calls is that of the `bl` lines that are the first to make their call;
/// the number of tail calls is that of the `b` lines that are.
pub proof fn lemma_counts_of_lines(text: Seq<char>)
    ensures
        disassembled(text).bl == first_calls(lines_of(text), "bl"@, lines_of(text).len()),
        disassembled(text).tail == first_calls(lines_of(text), "b"@, lines_of(text).len()),
{
    lemma_counts(lines_of(text), lines_of(text).len());
}

} // verus!
