//! The annotations that the stack and code-pointer checks are given.
//!
//! The file has sections headed by `[name]`, with one `key = value` per line and `#`
//! comments.

use crate::table::{lemma_mapped, mapped, put, Entries, Table};
use crate::text::{
    begins, chars_of, cut, find_char, has_name, hex_or_dec_of, index_of, lines, lines_of,
    parse_hex_or_dec, pieces, pieces_of, same, starts_with, string_of, strip, strip_end,
    strip_start, stripped, stripped_end, stripped_start, texts, trim, trimmed,
};
use vstd::prelude::*;

verus! {

/// What is known of the calls through registers that a function makes.
pub enum IndirectAnnotation {
    /// Calls of formatting code, which add nothing to the call graph.
    FmtInternal,
    /// Calls of the named functions.
    Targets(Vec<String>),
}

/// What is known of the calls through registers that a function makes.
pub enum Indirect {
    FmtInternal,
    Targets(Seq<Seq<char>>),
}

impl View for IndirectAnnotation {
    type V = Indirect;

    open spec fn view(&self) -> Indirect {
        match self {
            IndirectAnnotation::FmtInternal => Indirect::FmtInternal,
            IndirectAnnotation::Targets(t) => Indirect::Targets(t.deep_view()),
        }
    }
}

/// The annotations of a program.
pub struct Annotations {
    /// What functions call through registers.
    pub indirect_calls: Table<IndirectAnnotation>,
    /// Functions through which recursion is allowed.
    pub allowed_cycles: Vec<String>,
    /// Frame sizes of functions written in assembly.
    pub known_assembly: Table<u64>,
    /// Code pointers that may stand in data, with the reason.
    pub allowed_vtables: Table<String>,
}

/// The annotations of a program.
pub struct Noted {
    pub indirect: Entries<Indirect>,
    pub cycles: Seq<Seq<char>>,
    pub assembly: Entries<u64>,
    pub vtables: Entries<Seq<char>>,
}

impl View for Annotations {
    type V = Noted;

    open spec fn view(&self) -> Noted {
        Noted {
            indirect: mapped(self.indirect_calls@, |a: IndirectAnnotation| a@),
            cycles: self.allowed_cycles.deep_view(),
            assembly: self.known_assembly@,
            vtables: mapped(self.allowed_vtables@, |s: String| s@),
        }
    }
}

/// The section that a line belongs to.
#[derive(Clone, Copy, PartialEq, Eq, Structural)]
pub enum Section {
    Other,
    IndirectCalls,
    AllowedCycles,
    KnownAssembly,
    AllowedVtables,
}

/// The section that a line heads, where it is a heading.
pub open spec fn heading(line: Seq<char>) -> Option<Section> {
    if line == "[indirect_calls]"@ {
        Some(Section::IndirectCalls)
    } else if line == "[allowed_cycles]"@ {
        Some(Section::AllowedCycles)
    } else if line == "[known_assembly]"@ {
        Some(Section::KnownAssembly)
    } else if line == "[allowed_vtables]"@ {
        Some(Section::AllowedVtables)
    } else if starts_with(line, "["@) {
        Some(Section::Other)
    } else {
        None
    }
}

/// The names in a list `["a", "b"]` among its first `n` pieces.
pub open spec fn list_names(pieces: Seq<Seq<char>>, n: nat) -> Seq<Seq<char>>
    decreases n,
{
    if n == 0 {
        Seq::empty()
    } else {
        let head = list_names(pieces, (n - 1) as nat);
        let name = stripped(trimmed(pieces[n - 1]), '"');
        if name.len() == 0 {
            head
        } else {
            head.push(name)
        }
    }
}

/// The names in a list `["a", "b"]`.
pub open spec fn targets_of(value: Seq<char>) -> Seq<Seq<char>> {
    let inner = pieces_of(stripped_end(stripped_start(value, '['), ']'), ',');
    list_names(inner, inner.len())
}

/// What the entry `key = value` of a section adds.
pub open spec fn with_entry(a: Noted, section: Section, key: Seq<char>, value: Seq<char>) -> Noted {
    match section {
        Section::Other => a,
        Section::IndirectCalls => if value == "\"fmt-internal\""@ {
            Noted { indirect: put(a.indirect, key, Indirect::FmtInternal), ..a }
        } else if starts_with(value, "["@) {
            Noted { indirect: put(a.indirect, key, Indirect::Targets(targets_of(value))), ..a }
        } else {
            a
        },
        Section::AllowedCycles => if a.cycles.contains(key) {
            a
        } else {
            Noted { cycles: a.cycles.push(key), ..a }
        },
        Section::KnownAssembly => match hex_or_dec_of(value) {
            Some(n) => Noted { assembly: put(a.assembly, key, n as u64), ..a },
            None => a,
        },
        Section::AllowedVtables => Noted {
            vtables: put(a.vtables, key, stripped(value, '"')),
            ..a
        },
    }
}

/// The section that the next line belongs to, and the annotations so far.
pub open spec fn after_line(st: (Section, Noted), raw: Seq<char>) -> (Section, Noted) {
    let line = trimmed(raw);
    if line.len() == 0 || starts_with(line, "#"@) {
        st
    } else if heading(line) is Some {
        (heading(line)->0, st.1)
    } else {
        let k = index_of(line, '=');
        if k >= line.len() {
            st
        } else {
            let key = stripped(trimmed(line.take(k)), '"');
            (st.0, with_entry(st.1, st.0, key, trimmed(line.skip(k + 1))))
        }
    }
}

/// No annotations.
pub open spec fn nothing_noted() -> Noted {
    Noted {
        indirect: Seq::empty(),
        cycles: Seq::empty(),
        assembly: Seq::empty(),
        vtables: Seq::empty(),
    }
}

/// What the first `n` lines say.
pub open spec fn noted(lines: Seq<Seq<char>>, n: nat) -> (Section, Noted)
    decreases n,
{
    if n == 0 {
        (Section::Other, nothing_noted())
    } else {
        after_line(noted(lines, (n - 1) as nat), lines[n - 1])
    }
}

/// The annotations that a file holds.
pub open spec fn annotations_of(text: Seq<char>) -> Noted {
    noted(lines_of(text), lines_of(text).len()).1
}

fn is_text(v: &Vec<char>, s: &str) -> (r: bool)
    ensures
        r == (v@ == s@),
{
    let c = chars_of(s);
    same(v, &c)
}

fn read_heading(line: &Vec<char>) -> (r: Option<Section>)
    ensures
        r == heading(line@),
{
    if is_text(line, "[indirect_calls]") {
        Some(Section::IndirectCalls)
    } else if is_text(line, "[allowed_cycles]") {
        Some(Section::AllowedCycles)
    } else if is_text(line, "[known_assembly]") {
        Some(Section::KnownAssembly)
    } else if is_text(line, "[allowed_vtables]") {
        Some(Section::AllowedVtables)
    } else if begins(line, "[") {
        Some(Section::Other)
    } else {
        None
    }
}

fn read_targets(value: &Vec<char>) -> (out: Vec<String>)
    ensures
        out.deep_view() == targets_of(value@),
{
    let a = strip_start(value, '[');
    let b = strip_end(&a, ']');
    let parts = pieces(&b, ',');
    let mut out: Vec<String> = Vec::new();
    assert(out.deep_view() =~= Seq::<Seq<char>>::empty());
    let mut i: usize = 0;
    while i < parts.len()
        invariant
            i <= parts@.len(),
            out.deep_view() == list_names(texts(parts@), i as nat),
        decreases parts@.len() - i,
    {
        let t = trim(&parts[i]);
        let name = strip(&t, '"');
        assert(texts(parts@)[i as int] == parts@[i as int]@);
        if name.len() > 0 {
            let ghost before = out.deep_view();
            out.push(string_of(&name));
            assert(out.deep_view() =~= before.push(name@));
        }
        i += 1;
    }
    out
}

fn add_entry(a: &mut Annotations, section: Section, key: String, value: &Vec<char>)
    ensures
        final(a)@ == with_entry(old(a)@, section, key@, value@),
{
    let ghost act = |x: IndirectAnnotation| x@;
    let ghost reason = |s: String| s@;
    match section {
        Section::Other => {},
        Section::IndirectCalls => {
            if is_text(value, "\"fmt-internal\"") {
                proof {
                    lemma_mapped(
                        a.indirect_calls@,
                        act,
                        key@,
                        IndirectAnnotation::FmtInternal,
                    );
                }
                a.indirect_calls.put(key, IndirectAnnotation::FmtInternal);
            } else if begins(value, "[") {
                let targets = IndirectAnnotation::Targets(read_targets(value));
                proof {
                    lemma_mapped(a.indirect_calls@, act, key@, targets);
                }
                a.indirect_calls.put(key, targets);
            }
        },
        Section::AllowedCycles => {
            if !has_name(&a.allowed_cycles, key.as_str()) {
                let ghost before = a.allowed_cycles.deep_view();
                a.allowed_cycles.push(key);
                assert(a.allowed_cycles.deep_view() =~= before.push(key@));
            }
        },
        Section::KnownAssembly => {
            match parse_hex_or_dec(value) {
                Some(n) => a.known_assembly.put(key, n),
                None => {},
            }
        },
        Section::AllowedVtables => {
            let text = string_of(&strip(value, '"'));
            proof {
                lemma_mapped(a.allowed_vtables@, reason, key@, text);
            }
            a.allowed_vtables.put(key, text);
        },
    }
}

fn read_line(section: Section, a: &mut Annotations, raw: &Vec<char>) -> (next: Section)
    ensures
        (next, final(a)@) == after_line((section, old(a)@), raw@),
{
    let line = trim(raw);
    if line.len() == 0 || begins(&line, "#") {
        return section;
    }
    match read_heading(&line) {
        Some(s) => {
            return s;
        },
        None => {},
    }
    match find_char(&line, '=') {
        None => {},
        Some(k) => {
            assert(k < line.len());
            let left = cut(&line, 0, k);
            let right = cut(&line, k + 1, line.len());
            assert(left@ =~= line@.take(k as int));
            assert(right@ =~= line@.skip(k + 1));
            let name = trim(&left);
            let key = string_of(&strip(&name, '"'));
            let value = trim(&right);
            add_entry(a, section, key, &value);
        },
    }
    section
}

/// Reads the annotations that a file holds.
pub fn load_annotations(content: &str) -> (a: Annotations)
    ensures
        a@ == annotations_of(content@),
{
    let text = chars_of(content);
    let all = lines(&text);
    let mut a = Annotations {
        indirect_calls: Table::new(),
        allowed_cycles: Vec::new(),
        known_assembly: Table::new(),
        allowed_vtables: Table::new(),
    };
    let mut section = Section::Other;
    proof {
        let n = nothing_noted();
        assert(a@.indirect =~= n.indirect);
        assert(a@.cycles =~= n.cycles);
        assert(a@.vtables =~= n.vtables);
    }
    let mut i: usize = 0;
    while i < all.len()
        invariant
            i <= all@.len(),
            (section, a@) == noted(texts(all@), i as nat),
        decreases all@.len() - i,
    {
        assert(texts(all@)[i as int] == all@[i as int]@);
        section = read_line(section, &mut a, &all[i]);
        i += 1;
    }
    a
}

// ---------------------------------------------------------------------------
// Laws
// ---------------------------------------------------------------------------

/// A line in square brackets starts the section that it names; what is noted so far stays.
pub proof fn lemma_headings(st: (Section, Noted), raw: Seq<char>)
    ensures
        trimmed(raw) == "[indirect_calls]"@ ==> after_line(st, raw) == (
            Section::IndirectCalls,
            st.1,
        ),
        trimmed(raw) == "[allowed_cycles]"@ ==> after_line(st, raw) == (
            Section::AllowedCycles,
            st.1,
        ),
        trimmed(raw) == "[known_assembly]"@ ==> after_line(st, raw) == (
            Section::KnownAssembly,
            st.1,
        ),
        trimmed(raw) == "[allowed_vtables]"@ ==> after_line(st, raw) == (
            Section::AllowedVtables,
            st.1,
        ),
        trimmed(raw).len() == 0 || starts_with(trimmed(raw), "#"@) ==> after_line(st, raw) == st,
{
    reveal_strlit("#");
    reveal_strlit("[indirect_calls]");
    reveal_strlit("[allowed_cycles]");
    reveal_strlit("[known_assembly]");
    reveal_strlit("[allowed_vtables]");
    let line = trimmed(raw);
    assert("[indirect_calls]"@.len() == 16 && "[allowed_cycles]"@.len() == 16
        && "[known_assembly]"@.len() == 16 && "[allowed_vtables]"@.len() == 17);
    assert("[indirect_calls]"@[1] == 'i' && "[allowed_cycles]"@[1] == 'a'
        && "[known_assembly]"@[1] == 'k' && "[allowed_vtables]"@[1] == 'a');
    if line.len() > 0 && line[0] == '[' && starts_with(line, "#"@) {
        assert(line.take(1)[0] == '#');
    }
}

/// The line `"key" = value` notes the value under the key in the section that it stands in.
pub proof fn lemma_entry_line(st: (Section, Noted), raw: Seq<char>, key: Seq<char>, value: Seq<char>)
    requires
        trimmed(raw) == seq!['"'] + key + seq!['"', ' ', '='] + value,
        !key.contains('='),
        !key.contains('"'),
    ensures
        after_line(st, raw) == (st.0, with_entry(st.1, st.0, key, trimmed(value))),
{
    let line = trimmed(raw);
    reveal_strlit("#");
    reveal_strlit("[");
    reveal_strlit("[indirect_calls]");
    reveal_strlit("[allowed_cycles]");
    reveal_strlit("[known_assembly]");
    reveal_strlit("[allowed_vtables]");
    assert(line[0] == '"');
    assert("[indirect_calls]"@[0] == '[' && "[allowed_cycles]"@[0] == '[' && "[known_assembly]"@[0]
        == '[' && "[allowed_vtables]"@[0] == '[');
    if starts_with(line, "#"@) {
        assert(line.take(1)[0] == '#');
    }
    if starts_with(line, "["@) {
        assert(line.take(1)[0] == '[');
    }
    let k = key.len() as int + 3;
    assert forall|i: int| 0 <= i < k implies line[i] != '=' by {
        if 1 <= i <= key.len() {
            assert(line[i] == key[i - 1]);
            assert(key.contains(key[i - 1]));
        }
    }
    assert(line[k] == '=');
    crate::text::lemma_index_of_is(line, '=', k);
    assert(line.skip(k + 1) =~= value);
    let quoted = seq!['"'] + key + seq!['"'];
    assert(line.take(k) =~= Seq::<char>::empty() + quoted + seq![' ']);
    assert(crate::text::all_white(seq![' ']));
    assert(crate::text::all_white(Seq::<char>::empty()));
    assert(quoted[0] == '"' && quoted.last() == '"');
    crate::text::lemma_trimmed_of(Seq::empty(), quoted, seq![' ']);
    if key.len() > 0 {
        assert(key.contains(key[0]));
        assert(key.contains(key.last()));
    }
    crate::text::lemma_stripped_of(key, '"');
}

/// What an entry notes in each section: a list of targets or the mark of formatting code, a
/// function that may recur, a frame size, or the reason for a table of functions; and nothing
/// else changes.
pub proof fn lemma_entries(a: Noted, key: Seq<char>, value: Seq<char>, n: u64)
    ensures
        with_entry(a, Section::IndirectCalls, key, "\"fmt-internal\""@) == (Noted {
            indirect: put(a.indirect, key, Indirect::FmtInternal),
            ..a
        }),
        starts_with(value, "["@) && value != "\"fmt-internal\""@ ==> with_entry(
            a,
            Section::IndirectCalls,
            key,
            value,
        ) == (Noted { indirect: put(a.indirect, key, Indirect::Targets(targets_of(value))), ..a }),
        with_entry(a, Section::AllowedCycles, key, value).cycles.contains(key),
        forall|f: Seq<char>|
            a.cycles.contains(f) ==> #[trigger] with_entry(
                a,
                Section::AllowedCycles,
                key,
                value,
            ).cycles.contains(f),
        with_entry(a, Section::KnownAssembly, key, crate::numerals::decimal(n as nat)) == (Noted {
            assembly: put(a.assembly, key, n),
            ..a
        }),
        with_entry(a, Section::KnownAssembly, key, "0x"@ + crate::numerals::hex(n as nat)) == (
        Noted { assembly: put(a.assembly, key, n), ..a }),
        with_entry(a, Section::AllowedVtables, key, value).vtables == put(
            a.vtables,
            key,
            stripped(value, '"'),
        ),
        with_entry(a, Section::Other, key, value) == a,
{
    crate::text::lemma_hex_or_dec(n);
    let more = with_entry(a, Section::AllowedCycles, key, value).cycles;
    if !a.cycles.contains(key) {
        assert(more == a.cycles.push(key));
        assert(more[a.cycles.len() as int] == key);
        assert forall|f: Seq<char>| a.cycles.contains(f) implies #[trigger] more.contains(f) by {
            let i = choose|i: int| 0 <= i < a.cycles.len() && a.cycles[i] == f;
            assert(more[i] == f);
        }
    }
}

/// The targets of a list are the names between its commas, without blanks and quotes; empty ones
/// are left out.
pub proof fn lemma_list_names(pieces: Seq<Seq<char>>, n: nat, x: Seq<char>)
    requires
        n <= pieces.len(),
    ensures
        list_names(pieces, n).contains(x) <==> x.len() > 0 && exists|i: int|
            0 <= i < n && stripped(trimmed(#[trigger] pieces[i]), '"') == x,
    decreases n,
{
    if n > 0 {
        let m = (n - 1) as nat;
        lemma_list_names(pieces, m, x);
        let head = list_names(pieces, m);
        let all = list_names(pieces, n);
        assert(pieces[n - 1] == pieces[n - 1]);
        if head.contains(x) {
            let i = choose|i: int| 0 <= i < head.len() && head[i] == x;
            assert(all[i] == x);
        }
        if all.contains(x) {
            let i = choose|i: int| 0 <= i < all.len() && all[i] == x;
            if i < head.len() {
                assert(head[i] == x);
            }
        }
        if all.len() > head.len() {
            assert(all[head.len() as int] == stripped(trimmed(pieces[n - 1]), '"'));
        }
    }
}

/// Whether a line says nothing: it is blank or a comment.
pub open spec fn says_nothing(raw: Seq<char>) -> bool {
    trimmed(raw).len() == 0 || starts_with(trimmed(raw), "#"@)
}

proof fn lemma_silent_lines(lines: Seq<Seq<char>>, a: nat, b: nat)
    requires
        a <= b <= lines.len(),
        forall|i: int| a <= i < b ==> says_nothing(#[trigger] lines[i]),
    ensures
        noted(lines, b) == noted(lines, a),
    decreases b - a,
{
    if a < b {
        lemma_silent_lines(lines, a, (b - 1) as nat);
        assert(says_nothing(lines[b - 1]));
    }
}

/// An entry counts under the heading above it, wherever in the file they stand: before them may
/// be anything, between and behind them blank lines and comments.
pub proof fn lemma_entry_counts(
    text: Seq<char>,
    h: int,
    e: int,
    key: Seq<char>,
    value: Seq<char>,
    n: u64,
)
    requires
        0 <= h < e < lines_of(text).len(),
        forall|i: int|
            h < i < lines_of(text).len() && i != e ==> says_nothing(#[trigger] lines_of(text)[i]),
        trimmed(lines_of(text)[e]) == seq!['"'] + key + seq!['"', ' ', '='] + value,
        !key.contains('='),
        !key.contains('"'),
    ensures
        trimmed(lines_of(text)[h]) == "[known_assembly]"@ && (trimmed(value)
            == crate::numerals::decimal(n as nat) || trimmed(value) == "0x"@ + crate::numerals::hex(
            n as nat,
        )) ==> crate::table::get(annotations_of(text).assembly, key) == Some(n),
        trimmed(lines_of(text)[h]) == "[allowed_cycles]"@ ==> annotations_of(text).cycles.contains(
            key,
        ),
        trimmed(lines_of(text)[h]) == "[indirect_calls]"@ && trimmed(value)
            == "\"fmt-internal\""@ ==> crate::table::get(annotations_of(text).indirect, key)
            == Some(Indirect::FmtInternal),
        trimmed(lines_of(text)[h]) == "[indirect_calls]"@ && trimmed(value)
            != "\"fmt-internal\""@ && starts_with(trimmed(value), "["@) ==> crate::table::get(
            annotations_of(text).indirect,
            key,
        ) == Some(Indirect::Targets(targets_of(trimmed(value)))),
        trimmed(lines_of(text)[h]) == "[allowed_vtables]"@ ==> crate::table::get(
            annotations_of(text).vtables,
            key,
        ) == Some(stripped(trimmed(value), '"')),
{
    let all = lines_of(text);
    let v = trimmed(value);
    let before = noted(all, h as nat);
    lemma_headings(before, all[h]);
    assert(noted(all, (h + 1) as nat) == after_line(before, all[h]));
    lemma_silent_lines(all, (h + 1) as nat, e as nat);
    let st = noted(all, e as nat);
    lemma_entry_line(st, all[e], key, value);
    assert(noted(all, (e + 1) as nat) == after_line(st, all[e]));
    lemma_silent_lines(all, (e + 1) as nat, all.len());
    lemma_entries(st.1, key, v, n);
    crate::table::lemma_get_put(st.1.assembly, key, n, key);
    crate::table::lemma_get_put(st.1.indirect, key, Indirect::FmtInternal, key);
    crate::table::lemma_get_put(st.1.indirect, key, Indirect::Targets(targets_of(v)), key);
    crate::table::lemma_get_put(st.1.vtables, key, stripped(v, '"'), key);
}

} // verus!
