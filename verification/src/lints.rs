//! Line-based checks of source files and disassemblies.

use crate::text::{
    after_prefix, begins, chars_of, contains, copy_of, cut, ends_with, find_char, finishes, has,
    has_char, index_of, lemma_index_of, lines, lines_of, parse_unsigned, pieces, pieces_of,
    same_text, starts_with, string_of, texts, trim, trimmed, unsigned_of,
};
use vstd::prelude::*;

verus! {

/// Whether a line is a comment.
pub open spec fn is_comment(trimmed_line: Seq<char>) -> bool {
    starts_with(trimmed_line, "//"@) || starts_with(trimmed_line, "*"@)
}

fn comment(line: &Vec<char>) -> (r: bool)
    ensures
        r == is_comment(line@),
{
    begins(line, "//") || begins(line, "*")
}

// ---------------------------------------------------------------------------
// Pointer casts
// ---------------------------------------------------------------------------

/// Whether a line casts to a raw pointer.
pub open spec fn is_pointer_cast(line: Seq<char>) -> bool {
    contains(line, "as *const"@) || contains(line, "as *mut"@)
}

/// Whether a line casts to a raw pointer.
pub fn has_pointer_cast(line: &Vec<char>) -> (r: bool)
    ensures
        r == is_pointer_cast(line@),
{
    has(line, "as *const") || has(line, "as *mut")
}

/// Whether line `i` of a file is a pointer cast, comments aside.
pub open spec fn is_cast_line(lines: Seq<Seq<char>>, i: int) -> bool {
    !is_comment(trimmed(lines[i])) && is_pointer_cast(trimmed(lines[i]))
}

/// Whether a reason stands on line `i`.
pub open spec fn has_reason(lines: Seq<Seq<char>>, i: int) -> bool {
    contains(trimmed(lines[i]), "// SAFETY:"@)
}

/// Whether a reason stands on line `i` or on the one above it.
pub open spec fn is_justified(lines: Seq<Seq<char>>, i: int) -> bool {
    has_reason(lines, i) || (i > 0 && has_reason(lines, i - 1))
}

/// The number of pointer casts in the first `n` lines.
pub open spec fn cast_count(lines: Seq<Seq<char>>, n: nat) -> nat
    decreases n,
{
    if n == 0 {
        0
    } else {
        cast_count(lines, (n - 1) as nat) + (if is_cast_line(lines, n - 1) {
            1nat
        } else {
            0nat
        })
    }
}

/// The pointer casts without a reason in the first `n` lines: line number and text.
pub open spec fn bare_casts(lines: Seq<Seq<char>>, n: nat) -> Seq<(nat, Seq<char>)>
    decreases n,
{
    if n == 0 {
        Seq::empty()
    } else {
        let head = bare_casts(lines, (n - 1) as nat);
        if is_cast_line(lines, n - 1) && !is_justified(lines, n - 1) {
            head.push((n, trimmed(lines[n - 1])))
        } else {
            head
        }
    }
}

/// A line that breaks a rule.
pub struct Finding {
    /// The line number, from one.
    pub line: usize,
    pub text: String,
}

/// Findings as plain values.
pub open spec fn findings_view(v: Seq<Finding>) -> Seq<(nat, Seq<char>)> {
    Seq::new(v.len(), |i: int| (v[i].line as nat, v[i].text@))
}

/// The pointer casts of a file.
pub struct CastReport {
    pub casts: usize,
    /// The casts without a reason.
    pub findings: Vec<Finding>,
}

fn reason_on(all: &Vec<Vec<char>>, i: usize) -> (r: bool)
    requires
        i < all@.len(),
    ensures
        r == has_reason(texts(all@), i as int),
{
    assert(texts(all@)[i as int] == all@[i as int]@);
    let line = trim(&all[i]);
    has(&line, "// SAFETY:")
}

/// Finds the pointer casts of a file that give no reason.
pub fn check_pointers(source: &str) -> (r: CastReport)
    ensures
        r.casts == cast_count(lines_of(source@), lines_of(source@).len()),
        findings_view(r.findings@) == bare_casts(lines_of(source@), lines_of(source@).len()),
{
    let text = chars_of(source);
    let all = lines(&text);
    let ghost ls = texts(all@);
    let mut casts: usize = 0;
    let mut findings: Vec<Finding> = Vec::new();
    assert(findings_view(findings@) =~= Seq::<(nat, Seq<char>)>::empty());
    let mut i: usize = 0;
    while i < all.len()
        invariant
            ls == texts(all@),
            i <= all@.len(),
            casts <= i,
            casts == cast_count(ls, i as nat),
            findings_view(findings@) == bare_casts(ls, i as nat),
        decreases all@.len() - i,
    {
        assert(ls[i as int] == all@[i as int]@);
        let line = trim(&all[i]);
        if !comment(&line) && has_pointer_cast(&line) {
            casts += 1;
            let justified = reason_on(&all, i) || (i > 0 && reason_on(&all, i - 1));
            if !justified {
                let ghost before = findings_view(findings@);
                findings.push(Finding { line: i + 1, text: string_of(&line) });
                assert(findings_view(findings@) =~= before.push(((i + 1) as nat, line@)));
            }
        }
        i += 1;
    }
    CastReport { casts, findings }
}

// ---------------------------------------------------------------------------
// Linker symbols
// ---------------------------------------------------------------------------

/// Whether a line takes the address of a linker symbol, a boot variable or a function.
pub open spec fn is_symbol_site(line: Seq<char>) -> bool {
    ||| contains(line, "&__"@)
    ||| contains(line, "&raw const __"@)
    ||| contains(line, "&raw const BOOT_"@)
    ||| contains(line, "&raw const KERNEL_"@)
    ||| contains(line, " as *const () as u64"@)
}

/// Whether a line takes the address of a linker symbol, a boot variable or a function.
pub fn line_has_linker_symbol_site(line: &Vec<char>) -> (r: bool)
    ensures
        r == is_symbol_site(line@),
{
    has(line, "&__") || has(line, "&raw const __") || has(line, "&raw const BOOT_") || has(
        line,
        "&raw const KERNEL_",
    ) || has(line, " as *const () as u64")
}

/// The line numbers of the sites in the first `n` lines.
pub open spec fn site_lines(lines: Seq<Seq<char>>, n: nat) -> Seq<usize>
    decreases n,
{
    if n == 0 {
        Seq::empty()
    } else {
        let head = site_lines(lines, (n - 1) as nat);
        if !is_comment(trimmed(lines[n - 1])) && is_symbol_site(lines[n - 1]) {
            head.push(n as usize)
        } else {
            head
        }
    }
}

/// The line numbers of the sites in a file.
pub fn find_linker_symbol_sites(source: &str) -> (out: Vec<usize>)
    ensures
        out@ == site_lines(lines_of(source@), lines_of(source@).len()),
{
    let text = chars_of(source);
    let all = lines(&text);
    let mut out: Vec<usize> = Vec::new();
    let mut i: usize = 0;
    while i < all.len()
        invariant
            i <= all@.len(),
            out@ == site_lines(texts(all@), i as nat),
        decreases all@.len() - i,
    {
        assert(texts(all@)[i as int] == all@[i as int]@);
        let line = trim(&all[i]);
        if !comment(&line) && line_has_linker_symbol_site(&all[i]) {
            out.push(i + 1);
        }
        i += 1;
    }
    out
}

/// A place in a source file.
pub struct Site {
    pub file: String,
    pub line: usize,
}

/// Places as plain values.
pub open spec fn sites_view(v: Seq<Site>) -> Seq<(Seq<char>, usize)> {
    Seq::new(v.len(), |i: int| (v[i].file@, v[i].line))
}

/// The file that a heading names between backticks.
pub open spec fn heading_file(line: Seq<char>) -> Option<Seq<char>> {
    let rest = line.skip(4);
    let start = index_of(rest, '`');
    let name = rest.skip(start + 1);
    let end = index_of(name, '`');
    if starts_with(line, "### "@) && start < rest.len() && end < name.len() {
        Some(name.take(end))
    } else {
        None
    }
}

/// The line number in the first cell of a table row.
pub open spec fn row_line(line: Seq<char>) -> Option<int> {
    if starts_with(line, "|"@) {
        unsigned_of(trimmed(pieces_of(line.skip(1), '|')[0]), 10, usize::MAX as int)
    } else {
        None
    }
}

/// The file that the next rows belong to, and the places listed so far.
pub open spec fn after_audit_line(
    st: (Option<Seq<char>>, Seq<(Seq<char>, usize)>),
    raw: Seq<char>,
) -> (Option<Seq<char>>, Seq<(Seq<char>, usize)>) {
    let line = trimmed(raw);
    if heading_file(line) is Some {
        (heading_file(line), st.1)
    } else if st.0 is Some && row_line(line) is Some && !st.1.contains(
        (st.0->0, row_line(line)->0 as usize),
    ) {
        (st.0, st.1.push((st.0->0, row_line(line)->0 as usize)))
    } else {
        st
    }
}

/// What the first `n` lines of the audit list.
pub open spec fn audit_lines(lines: Seq<Seq<char>>, n: nat) -> (
    Option<Seq<char>>,
    Seq<(Seq<char>, usize)>,
)
    decreases n,
{
    if n == 0 {
        (None, Seq::empty())
    } else {
        after_audit_line(audit_lines(lines, (n - 1) as nat), lines[n - 1])
    }
}

/// The places that the audit lists.
pub open spec fn audited(text: Seq<char>) -> Seq<(Seq<char>, usize)> {
    audit_lines(lines_of(text), lines_of(text).len()).1
}

fn read_heading_file(line: &Vec<char>) -> (r: Option<String>)
    ensures
        match r {
            Some(f) => heading_file(line@) == Some(f@),
            None => heading_file(line@) is None,
        },
{
    proof {
        reveal_strlit("### ");
        assert("### "@.len() == 4);
    }
    match after_prefix(line, "### ") {
        None => None,
        Some(rest) => {
            proof {
                lemma_index_of(rest@, '`');
            }
            match find_char(&rest, '`') {
                None => None,
                Some(start) => {
                    assert(start < rest.len());
                    let name = cut(&rest, start + 1, rest.len());
                    assert(name@ =~= rest@.skip(start + 1));
                    match find_char(&name, '`') {
                        None => None,
                        Some(end) => {
                            let file = cut(&name, 0, end);
                            assert(file@ =~= name@.take(end as int));
                            Some(string_of(&file))
                        },
                    }
                },
            }
        },
    }
}

proof fn lemma_pieces_some(s: Seq<char>, c: char)
    ensures
        pieces_of(s, c).len() > 0,
{
}

fn read_row_line(line: &Vec<char>) -> (r: Option<usize>)
    ensures
        match r {
            Some(n) => row_line(line@) == Some(n as int),
            None => row_line(line@) is None,
        },
{
    proof {
        reveal_strlit("|");
        assert("|"@.len() == 1);
    }
    match after_prefix(line, "|") {
        None => None,
        Some(rest) => {
            let cells = pieces(&rest, '|');
            proof {
                lemma_pieces_some(rest@, '|');
                assert(texts(cells@).len() == cells@.len());
                assert(texts(cells@)[0] == cells@[0]@);
            }
            let cell = trim(&cells[0]);
            match parse_unsigned(&cell, 10, usize::MAX as u64) {
                Some(n) => Some(n as usize),
                None => None,
            }
        },
    }
}

fn has_site(v: &Vec<Site>, file: &str, line: usize) -> (r: bool)
    ensures
        r == sites_view(v@).contains((file@, line)),
{
    let mut i: usize = 0;
    while i < v.len()
        invariant
            i <= v@.len(),
            forall|k: int| 0 <= k < i ==> sites_view(v@)[k] != (file@, line),
        decreases v@.len() - i,
    {
        if v[i].line == line && same_text(v[i].file.as_str(), file) {
            assert(sites_view(v@)[i as int] == (file@, line));
            return true;
        }
        i += 1;
    }
    assert(!sites_view(v@).contains((file@, line)));
    false
}

/// Reads the places that the audit lists.
pub fn parse_audit(text: &str) -> (out: Vec<Site>)
    ensures
        sites_view(out@) == audited(text@),
{
    let chars = chars_of(text);
    let all = lines(&chars);
    let mut current: Option<String> = None;
    let mut out: Vec<Site> = Vec::new();
    assert(sites_view(out@) =~= Seq::<(Seq<char>, usize)>::empty());
    let mut i: usize = 0;
    while i < all.len()
        invariant
            i <= all@.len(),
            audit_lines(texts(all@), i as nat) == (
                match current {
                    Some(f) => Some(f@),
                    None => None,
                },
                sites_view(out@),
            ),
        decreases all@.len() - i,
    {
        assert(texts(all@)[i as int] == all@[i as int]@);
        let line = trim(&all[i]);
        match read_heading_file(&line) {
            Some(file) => {
                current = Some(file);
            },
            None => {
                match (&current, read_row_line(&line)) {
                    (Some(file), Some(n)) => {
                        if !has_site(&out, file.as_str(), n) {
                            let ghost before = sites_view(out@);
                            let site = Site { file: copy_of(file.as_str()), line: n };
                            out.push(site);
                            assert(sites_view(out@) =~= before.push((file@, n)));
                        }
                    },
                    _ => {},
                }
            },
        }
        i += 1;
    }
    out
}

/// Whether one place comes before another: by file, then by line.
pub open spec fn site_before(a: (Seq<char>, usize), b: (Seq<char>, usize)) -> bool {
    crate::sorting::precedes(a.0, b.0) || (a.0 == b.0 && a.1 < b.1)
}

/// Whether every place comes before those behind it.
pub open spec fn sites_ascend(v: Seq<(Seq<char>, usize)>) -> bool {
    forall|i: int, j: int| 0 <= i < j < v.len() ==> site_before(#[trigger] v[i], #[trigger] v[j])
}

fn add_site(v: &mut Vec<Site>, file: &str, line: usize)
    requires
        sites_ascend(sites_view(old(v)@)),
    ensures
        sites_ascend(sites_view(final(v)@)),
        forall|x: (Seq<char>, usize)|
            sites_view(final(v)@).contains(x) <==> sites_view(old(v)@).contains(x) || x == (
                file@,
                line,
            ),
{
    let ghost list = sites_view(v@);
    let ghost e = (file@, line);
    let mut p: usize = v.len();
    while p > 0 && (crate::sorting::before(file, v[p - 1].file.as_str()) || (same_text(
        file,
        v[p - 1].file.as_str(),
    ) && line < v[p - 1].line))
        invariant
            p <= v@.len(),
            list == sites_view(v@),
            e == (file@, line),
            forall|k: int| p <= k < list.len() ==> site_before(e, #[trigger] list[k]),
        decreases p,
    {
        assert(list[p - 1] == (v@[p - 1].file@, v@[p - 1].line));
        p -= 1;
    }
    if p > 0 && same_text(file, v[p - 1].file.as_str()) && line == v[p - 1].line {
        assert(list[p - 1] == e);
        return;
    }
    proof {
        if p > 0 {
            crate::sorting::lemma_precedes_total(list[p - 1].0, file@);
            assert(site_before(list[p - 1], e));
        }
    }
    v.insert(p, Site { file: copy_of(file), line });
    proof {
        let out = sites_view(v@);
        assert(out =~= list.insert(p as int, e));
        assert forall|i: int, j: int| 0 <= i < j < out.len() implies site_before(
            #[trigger] out[i],
            #[trigger] out[j],
        ) by {
            if j == p {
                if i < p - 1 {
                    assert(site_before(list[i], list[p - 1]));
                    lemma_site_transitive(list[i], list[p - 1], e);
                }
            } else if i == p {
                assert(out[j] == list[j - 1]);
            } else {
                let a = if i < p {
                    i
                } else {
                    i - 1
                };
                let b = if j < p {
                    j
                } else {
                    j - 1
                };
                assert(out[i] == list[a] && out[j] == list[b]);
            }
        }
        assert forall|x: (Seq<char>, usize)| out.contains(x) <==> list.contains(x) || x == e by {
            if out.contains(x) {
                let i = choose|i: int| 0 <= i < out.len() && out[i] == x;
                if i < p {
                    assert(list[i] == x);
                } else if i > p {
                    assert(list[i - 1] == x);
                }
            }
            if list.contains(x) {
                let i = choose|i: int| 0 <= i < list.len() && list[i] == x;
                if i < p {
                    assert(out[i] == x);
                } else {
                    assert(out[i + 1] == x);
                }
            }
            if x == e {
                assert(out[p as int] == x);
            }
        }
    }
}

proof fn lemma_site_transitive(
    a: (Seq<char>, usize),
    b: (Seq<char>, usize),
    c: (Seq<char>, usize),
)
    requires
        site_before(a, b),
        site_before(b, c),
    ensures
        site_before(a, c),
{
    if crate::sorting::precedes(a.0, b.0) && crate::sorting::precedes(b.0, c.0) {
        crate::sorting::lemma_precedes_transitive(a.0, b.0, c.0);
    }
}

fn sites_without(a: &Vec<Site>, b: &Vec<Site>) -> (out: Vec<Site>)
    ensures
        sites_ascend(sites_view(out@)),
        forall|x: (Seq<char>, usize)|
            sites_view(out@).contains(x) <==> sites_view(a@).contains(x) && !sites_view(
                b@,
            ).contains(x),
{
    let ghost all = sites_view(a@);
    let mut out: Vec<Site> = Vec::new();
    assert(sites_view(out@) =~= Seq::<(Seq<char>, usize)>::empty());
    let mut i: usize = 0;
    while i < a.len()
        invariant
            all == sites_view(a@),
            i <= a@.len(),
            sites_ascend(sites_view(out@)),
            forall|x: (Seq<char>, usize)|
                sites_view(out@).contains(x) <==> all.take(i as int).contains(x) && !sites_view(
                    b@,
                ).contains(x),
        decreases a@.len() - i,
    {
        let ghost now = all.take(i as int);
        let ghost next = all.take(i + 1);
        proof {
            assert(next =~= now.push(all[i as int]));
            assert(all[i as int] == (a@[i as int].file@, a@[i as int].line));
            assert forall|x: (Seq<char>, usize)| next.contains(x) <==> now.contains(x) || x
                == all[i as int] by {
                if now.contains(x) {
                    let j = choose|j: int| 0 <= j < now.len() && now[j] == x;
                    assert(next[j] == x);
                }
                if next.contains(x) {
                    let j = choose|j: int| 0 <= j < next.len() && next[j] == x;
                    if j < now.len() {
                        assert(now[j] == x);
                    }
                }
                if x == all[i as int] {
                    assert(next[i as int] == x);
                }
            }
        }
        if !has_site(b, a[i].file.as_str(), a[i].line) {
            add_site(&mut out, a[i].file.as_str(), a[i].line);
        }
        i += 1;
    }
    assert(all.take(i as int) =~= all);
    out
}

/// How the sites in the source and those that the audit lists differ.
pub struct AuditReport {
    /// The sites that the audit does not list, in order.
    pub missing: Vec<Site>,
    /// The listed places that are no sites, in order.
    pub stale: Vec<Site>,
}

/// Compares the sites in the source with those that the audit lists.
pub fn check_linker_symbols(source: &Vec<Site>, audit: &Vec<Site>) -> (r: AuditReport)
    ensures
        sites_ascend(sites_view(r.missing@)),
        sites_ascend(sites_view(r.stale@)),
        forall|x: (Seq<char>, usize)|
            sites_view(r.missing@).contains(x) <==> sites_view(source@).contains(x)
                && !sites_view(audit@).contains(x),
        forall|x: (Seq<char>, usize)|
            sites_view(r.stale@).contains(x) <==> sites_view(audit@).contains(x) && !sites_view(
                source@,
            ).contains(x),
{
    AuditReport { missing: sites_without(source, audit), stale: sites_without(audit, source) }
}

/// The comparison finds nothing if and only if the source and the audit name the same
/// places.
pub proof fn lemma_audit_clean(
    source: Seq<(Seq<char>, usize)>,
    audit: Seq<(Seq<char>, usize)>,
    missing: Seq<(Seq<char>, usize)>,
    stale: Seq<(Seq<char>, usize)>,
)
    requires
        forall|x: (Seq<char>, usize)|
            missing.contains(x) <==> source.contains(x) && !audit.contains(x),
        forall|x: (Seq<char>, usize)|
            stale.contains(x) <==> audit.contains(x) && !source.contains(x),
    ensures
        missing.len() == 0 && stale.len() == 0 <==> source.to_set() == audit.to_set(),
{
    if missing.len() == 0 && stale.len() == 0 {
        assert forall|x: (Seq<char>, usize)| source.to_set().contains(x)
            == audit.to_set().contains(x) by {
            assert(!missing.contains(x));
            assert(!stale.contains(x));
        }
        assert(source.to_set() =~= audit.to_set());
    }
    if source.to_set() == audit.to_set() {
        if missing.len() > 0 {
            assert(missing.contains(missing[0]));
            assert(source.to_set().contains(missing[0]));
            assert(audit.to_set().contains(missing[0]));
        }
        if stale.len() > 0 {
            assert(stale.contains(stale[0]));
            assert(audit.to_set().contains(stale[0]));
            assert(source.to_set().contains(stale[0]));
        }
    }
}

// ---------------------------------------------------------------------------
// Floating-point registers
// ---------------------------------------------------------------------------

/// Whether `c` is a decimal digit.
pub open spec fn is_digit(c: char) -> bool {
    '0' as int <= c as int <= '9' as int
}

/// Whether `c` separates operands.
pub open spec fn is_blank(c: char) -> bool {
    c == ' ' || c == '\t'
}

/// Whether `c`, behind a register of the given letter, ends its name.
pub open spec fn ends_register(letter: char, c: char) -> bool {
    if letter == 'v' {
        c == '.'
    } else {
        c == ',' || c == ']' || c == '\t' || c == ' '
    }
}

/// Whether a vector or floating-point register of `len` characters stands at `i` in an
/// instruction: behind a blank, a letter, one or two digits, and what ends its name. The end
/// of the line ends any name but that of a `v` register, which a lane follows.
pub open spec fn register_at(s: Seq<char>, i: int, len: int) -> bool {
    &&& 1 <= i
    &&& i + len <= s.len()
    &&& len == 2 || len == 3
    &&& is_blank(s[i - 1])
    &&& s[i] == 'v' || s[i] == 'q' || s[i] == 'd' || s[i] == 's'
    &&& is_digit(s[i + 1])
    &&& len == 3 ==> is_digit(s[i + 2])
    &&& if i + len == s.len() {
        s[i] != 'v'
    } else {
        ends_register(s[i], s[i + len])
    }
}

/// Whether an instruction names a vector or floating-point register.
pub open spec fn names_register(s: Seq<char>) -> bool {
    exists|i: int, len: int| register_at(s, i, len)
}

/// Whether a line of a disassembly, behind its first tab, names a vector or floating-point
/// register.
pub open spec fn is_neon_line(line: Seq<char>) -> bool {
    let t = index_of(line, '\t');
    t < line.len() && names_register(line.skip(t + 1))
}

fn digit(c: char) -> (r: bool)
    ensures
        r == is_digit(c),
{
    let n = c as u32;
    48 <= n && n <= 57
}

fn register_len(s: &Vec<char>, i: usize) -> (r: bool)
    requires
        1 <= i < s@.len(),
        is_blank(s@[i - 1]),
    ensures
        r == (register_at(s@, i as int, 2) || register_at(s@, i as int, 3)),
{
    let c = s[i];
    if c != 'v' && c != 'q' && c != 'd' && c != 's' {
        return false;
    }
    if s.len() - i < 2 || !digit(s[i + 1]) {
        return false;
    }
    let end: usize = if s.len() - i > 2 && digit(s[i + 2]) {
        i + 3
    } else {
        i + 2
    };
    if end == s.len() {
        return c != 'v';
    }
    let e = s[end];
    if c == 'v' {
        e == '.'
    } else {
        e == ',' || e == ']' || e == '\t' || e == ' '
    }
}

/// Whether a line of a disassembly names a vector or floating-point register.
pub fn line_has_neon_reference(line: &str) -> (r: bool)
    ensures
        r == is_neon_line(line@),
{
    let chars = chars_of(line);
    proof {
        lemma_index_of(chars@, '\t');
    }
    let s = match find_char(&chars, '\t') {
        Some(t) => {
            assert(t < chars.len());
            let rest = cut(&chars, t + 1, chars.len());
            assert(rest@ =~= chars@.skip(t + 1));
            rest
        },
        None => {
            return false;
        },
    };
    let mut i: usize = 1;
    while i < s.len()
        invariant
            1 <= i,
            i <= s@.len() || s@.len() == 0,
            index_of(line@, '\t') < line@.len(),
            s@ == line@.skip(index_of(line@, '\t') + 1),
            forall|k: int, len: int| 0 <= k < i ==> !register_at(s@, k, len),
        decreases s@.len() - i,
    {
        let p = s[i - 1];
        if p == ' ' || p == '\t' {
            if register_len(&s, i) {
                return true;
            }
            assert forall|len: int| !register_at(s@, i as int, len) by {}
        }
        i += 1;
    }
    assert(!names_register(s@)) by {
        assert forall|k: int, len: int| !register_at(s@, k, len) by {}
    }
    false
}

/// Whether a line heads a function.
pub open spec fn heads_function(line: Seq<char>) -> bool {
    ends_with(line, ":"@) && line.contains('<') && line.contains('>')
}

/// Whether the next lines belong to the one function that may use such registers, and
/// the offending lines so far, of which no more than twenty are kept.
pub open spec fn after_code_line(
    st: (bool, Seq<(nat, Seq<char>)>),
    line: Seq<char>,
    number: nat,
) -> (bool, Seq<(nat, Seq<char>)>) {
    if st.1.len() >= 20 {
        st
    } else if heads_function(line) {
        (ends_with(line, "<context_switch>:"@), st.1)
    } else if line.contains('\t') && !st.0 && is_neon_line(line) {
        (st.0, st.1.push((number, line)))
    } else {
        st
    }
}

/// What the first `n` lines of a disassembly show.
pub open spec fn code_lines(lines: Seq<Seq<char>>, n: nat) -> (bool, Seq<(nat, Seq<char>)>)
    decreases n,
{
    if n == 0 {
        (false, Seq::empty())
    } else {
        after_code_line(code_lines(lines, (n - 1) as nat), lines[n - 1], n)
    }
}

/// The lines of a disassembly that use vector or floating-point registers outside
/// `context_switch`, the first twenty of them.
pub open spec fn neon_offenders(text: Seq<char>) -> Seq<(nat, Seq<char>)> {
    code_lines(lines_of(text), lines_of(text).len()).1
}

proof fn lemma_full_stays(lines: Seq<Seq<char>>, n: nat, m: nat)
    requires
        n <= m,
        code_lines(lines, n).1.len() >= 20,
    ensures
        code_lines(lines, m) == code_lines(lines, n),
    decreases m,
{
    if n < m {
        lemma_full_stays(lines, n, (m - 1) as nat);
    }
}

/// Finds the lines of a disassembly that use vector or floating-point registers outside
/// `context_switch`, the first twenty of them.
pub fn check_kernel_no_neon(disassembly: &str) -> (out: Vec<Finding>)
    ensures
        findings_view(out@) == neon_offenders(disassembly@),
{
    let text = chars_of(disassembly);
    let all = lines(&text);
    let ghost ls = texts(all@);
    let mut allowed = false;
    let mut out: Vec<Finding> = Vec::new();
    assert(findings_view(out@) =~= Seq::<(nat, Seq<char>)>::empty());
    let mut i: usize = 0;
    while i < all.len()
        invariant
            ls == texts(all@),
            ls == lines_of(disassembly@),
            i <= all@.len(),
            out@.len() < 20,
            (allowed, findings_view(out@)) == code_lines(ls, i as nat),
        decreases all@.len() - i,
    {
        let line = &all[i];
        assert(ls[i as int] == line@);
        if finishes(line, ":") && has_char(line, '<') && has_char(line, '>') {
            allowed = finishes(line, "<context_switch>:");
        } else if has_char(line, '\t') && !allowed {
            let s = string_of(line);
            if line_has_neon_reference(s.as_str()) {
                let ghost before = findings_view(out@);
                out.push(Finding { line: i + 1, text: s });
                assert(findings_view(out@) =~= before.push(((i + 1) as nat, line@)));
                if out.len() >= 20 {
                    proof {
                        lemma_full_stays(ls, (i + 1) as nat, ls.len());
                    }
                    return out;
                }
            }
        }
        i += 1;
    }
    out
}

// ---------------------------------------------------------------------------
// Laws
// ---------------------------------------------------------------------------

/// Whether line `i`, counted from zero, is a pointer cast without a reason: it is no comment, it
/// casts to a raw pointer, and neither it nor the line above it says why that is sound.
pub open spec fn is_bare(lines: Seq<Seq<char>>, i: int) -> bool {
    let line = trimmed(lines[i]);
    &&& !starts_with(line, "//"@)
    &&& !starts_with(line, "*"@)
    &&& contains(line, "as *const"@) || contains(line, "as *mut"@)
    &&& !contains(line, "// SAFETY:"@)
    &&& i > 0 ==> !contains(trimmed(lines[i - 1]), "// SAFETY:"@)
}

/// The findings are the casts without a reason, each with its line number from one and its
/// text, and nothing else.
pub proof fn lemma_bare_casts(lines: Seq<Seq<char>>, n: nat, f: (nat, Seq<char>))
    requires
        n <= lines.len(),
    ensures
        bare_casts(lines, n).contains(f) <==> 1 <= f.0 <= n && is_bare(lines, f.0 - 1) && f.1
            == trimmed(lines[f.0 - 1]),
        bare_casts(lines, n).len() <= cast_count(lines, n),
        cast_count(lines, n) == 0 <==> forall|i: int|
            0 <= i < n ==> !#[trigger] is_cast_line(lines, i),
    decreases n,
{
    if n > 0 {
        let m = (n - 1) as nat;
        lemma_bare_casts(lines, m, f);
        let head = bare_casts(lines, m);
        let all = bare_casts(lines, n);
        assert((is_cast_line(lines, n - 1) && !is_justified(lines, n - 1)) == is_bare(
            lines,
            n - 1,
        ));
        if head.contains(f) {
            let i = choose|i: int| 0 <= i < head.len() && head[i] == f;
            assert(all[i] == f);
        }
        if all.contains(f) {
            let i = choose|i: int| 0 <= i < all.len() && all[i] == f;
            if i < head.len() {
                assert(head[i] == f);
            }
        }
        if is_bare(lines, n - 1) {
            assert(all[head.len() as int] == (n, trimmed(lines[n - 1])));
        }
    }
}

/// The sites of a file are the lines, comments aside, that take the address of a linker symbol,
/// a boot variable or a function.
pub proof fn lemma_site_lines(lines: Seq<Seq<char>>, n: nat, k: usize)
    requires
        n <= lines.len(),
        lines.len() <= usize::MAX,
    ensures
        site_lines(lines, n).contains(k) <==> 1 <= k <= n && !starts_with(
            trimmed(lines[k - 1]),
            "//"@,
        ) && !starts_with(trimmed(lines[k - 1]), "*"@) && (contains(lines[k - 1], "&__"@)
            || contains(lines[k - 1], "&raw const __"@) || contains(
            lines[k - 1],
            "&raw const BOOT_"@,
        ) || contains(lines[k - 1], "&raw const KERNEL_"@) || contains(
            lines[k - 1],
            " as *const () as u64"@,
        )),
    decreases n,
{
    if n > 0 {
        let m = (n - 1) as nat;
        lemma_site_lines(lines, m, k);
        let head = site_lines(lines, m);
        let all = site_lines(lines, n);
        if head.contains(k) {
            let i = choose|i: int| 0 <= i < head.len() && head[i] == k;
            assert(all[i] == k);
        }
        if all.contains(k) {
            let i = choose|i: int| 0 <= i < all.len() && all[i] == k;
            if i < head.len() {
                assert(head[i] == k);
            }
        }
        if all.len() > head.len() {
            assert(all[head.len() as int] == n as usize);
        }
    }
}

/// A heading of the audit names its file between backticks.
pub proof fn lemma_heading_file(a: Seq<char>, file: Seq<char>, rest: Seq<char>)
    requires
        !a.contains('`'),
        !file.contains('`'),
    ensures
        heading_file("### "@ + a + seq!['`'] + file + seq!['`'] + rest) == Some(file),
{
    reveal_strlit("### ");
    let line = "### "@ + a + seq!['`'] + file + seq!['`'] + rest;
    assert(line.take(4) =~= "### "@);
    let r = line.skip(4);
    assert(r =~= a + seq!['`'] + file + seq!['`'] + rest);
    assert forall|i: int| 0 <= i < a.len() implies r[i] != '`' by {
        assert(r[i] == a[i]);
        assert(a.contains(a[i]));
    }
    assert(r[a.len() as int] == '`');
    crate::text::lemma_index_of_is(r, '`', a.len() as int);
    let name = r.skip(a.len() as int + 1);
    assert(name =~= file + seq!['`'] + rest);
    assert forall|i: int| 0 <= i < file.len() implies name[i] != '`' by {
        assert(name[i] == file[i]);
        assert(file.contains(file[i]));
    }
    assert(name[file.len() as int] == '`');
    crate::text::lemma_index_of_is(name, '`', file.len() as int);
    assert(name.take(file.len() as int) =~= file);
}

/// A row of the audit lists the line that stands in its first cell.
pub proof fn lemma_row_line(a: Seq<char>, n: usize, b: Seq<char>, rest: Seq<char>)
    requires
        crate::text::all_white(a),
        crate::text::all_white(b),
    ensures
        row_line("|"@ + (a + crate::numerals::decimal(n as nat) + b) + seq!['|'] + rest) == Some(
            n as int,
        ),
{
    reveal_strlit("|");
    let d = crate::numerals::decimal(n as nat);
    let cell = a + d + b;
    let line = "|"@ + cell + seq!['|'] + rest;
    crate::numerals::lemma_numeral_back(n as nat, 10, false);
    crate::numerals::lemma_written_then_read(n as nat, usize::MAX as int);
    assert(line.take(1) =~= "|"@);
    let s = line.skip(1);
    assert(s =~= cell + seq!['|'] + rest);
    assert forall|i: int| 0 <= i < cell.len() implies s[i] != '|' by {
        assert(s[i] == cell[i]);
        if i < a.len() {
            assert(cell[i] == a[i]);
            assert(crate::text::is_white(a[i]));
        } else if i < a.len() + d.len() {
            assert(cell[i] == d[i - a.len()]);
            assert(crate::text::digit_value(d[i - a.len()], 10) >= 0);
        } else {
            assert(cell[i] == b[i - a.len() - d.len()]);
            assert(crate::text::is_white(b[i - a.len() - d.len()]));
        }
    }
    assert(s[cell.len() as int] == '|');
    crate::text::lemma_index_of_is(s, '|', cell.len() as int);
    assert(s.take(cell.len() as int) =~= cell);
    assert forall|i: int| 0 <= i < d.len() implies !crate::text::is_white(#[trigger] d[i]) by {
        assert(crate::text::digit_value(d[i], 10) >= 0);
    }
    crate::text::lemma_trimmed_of(a, d, b);
}

/// A row that follows the heading of a file lists a place in that file, once; a row before any
/// heading lists nothing; every place listed before stays.
pub proof fn lemma_audit_row(
    st: (Option<Seq<char>>, Seq<(Seq<char>, usize)>),
    heading: Seq<char>,
    row: Seq<char>,
    file: Seq<char>,
    n: usize,
    p: (Seq<char>, usize),
)
    requires
        heading_file(trimmed(heading)) == Some(file),
        heading_file(trimmed(row)) is None,
        row_line(trimmed(row)) == Some(n as int),
    ensures
        ({
            let listed = after_audit_line(after_audit_line(st, heading), row).1;
            &&& listed.contains((file, n))
            &&& listed.contains(p) <==> st.1.contains(p) || p == (file, n)
            &&& st.0 is None ==> after_audit_line(st, row).1 == st.1
        }),
{
    let listed = after_audit_line(after_audit_line(st, heading), row).1;
    if !st.1.contains((file, n)) {
        assert(listed == st.1.push((file, n)));
        assert(listed[st.1.len() as int] == (file, n));
        if st.1.contains(p) {
            let i = choose|i: int| 0 <= i < st.1.len() && st.1[i] == p;
            assert(listed[i] == p);
        }
        if listed.contains(p) && p != (file, n) {
            let i = choose|i: int| 0 <= i < listed.len() && listed[i] == p;
            assert(st.1[i] == p);
        }
    }
}

/// Whether the line before which `n` lines stand belongs to `context_switch`: the last heading
/// before it is that function's.
pub open spec fn in_switch(lines: Seq<Seq<char>>, n: nat) -> bool {
    exists|j: int|
        0 <= j < n && #[trigger] heads_function(lines[j]) && ends_with(
            lines[j],
            "<context_switch>:"@,
        ) && forall|i: int| j < i < n ==> !#[trigger] heads_function(lines[i])
}

/// Whether line `i`, counted from zero, uses a vector or floating-point register where it may
/// not: it heads no function, is outside `context_switch`, and names such a register behind its
/// first tab.
pub open spec fn offends(lines: Seq<Seq<char>>, i: int) -> bool {
    !heads_function(lines[i]) && !in_switch(lines, i as nat) && is_neon_line(lines[i])
}

/// As long as fewer than twenty lines are found, every offending line is, with its number from
/// one, and nothing else; never are more than twenty.
pub proof fn lemma_code_lines(lines: Seq<Seq<char>>, n: nat, f: (nat, Seq<char>))
    requires
        n <= lines.len(),
    ensures
        code_lines(lines, n).1.len() <= 20,
        code_lines(lines, n).1.len() < 20 ==> code_lines(lines, n).0 == in_switch(lines, n),
        code_lines(lines, n).1.len() < 20 ==> (code_lines(lines, n).1.contains(f) <==> 1 <= f.0 <= n
            && offends(lines, f.0 - 1) && f.1 == lines[f.0 - 1]),
        code_lines(lines, n).1.contains(f) ==> 1 <= f.0 <= n && offends(lines, f.0 - 1) && f.1
            == lines[f.0 - 1],
    decreases n,
{
    if n > 0 {
        let m = (n - 1) as nat;
        lemma_code_lines(lines, m, f);
        let line = lines[n - 1];
        let head = code_lines(lines, m);
        let all = code_lines(lines, n);
        crate::text::lemma_index_of(line, '\t');
        assert(is_neon_line(line) ==> line.contains('\t'));
        if head.1.len() < 20 {
            if heads_function(line) {
                if ends_with(line, "<context_switch>:"@) {
                    assert(heads_function(lines[n - 1]));
                    assert(in_switch(lines, n));
                }
                if in_switch(lines, n) {
                    let j = choose|j: int|
                        0 <= j < n && #[trigger] heads_function(lines[j]) && ends_with(
                            lines[j],
                            "<context_switch>:"@,
                        ) && forall|i: int| j < i < n ==> !#[trigger] heads_function(lines[i]);
                    assert(j == n - 1) by {
                        if j < n - 1 {
                            assert(!heads_function(lines[n - 1]));
                        }
                    }
                }
            } else {
                if in_switch(lines, m) {
                    let j = choose|j: int|
                        0 <= j < m && #[trigger] heads_function(lines[j]) && ends_with(
                            lines[j],
                            "<context_switch>:"@,
                        ) && forall|i: int| j < i < m ==> !#[trigger] heads_function(lines[i]);
                    assert forall|i: int| j < i < n implies !#[trigger] heads_function(
                        lines[i],
                    ) by {}
                    assert(in_switch(lines, n));
                }
                if in_switch(lines, n) {
                    let j = choose|j: int|
                        0 <= j < n && #[trigger] heads_function(lines[j]) && ends_with(
                            lines[j],
                            "<context_switch>:"@,
                        ) && forall|i: int| j < i < n ==> !#[trigger] heads_function(lines[i]);
                    assert(j < m);
                    assert(in_switch(lines, m));
                }
            }
            if head.1.contains(f) {
                let i = choose|i: int| 0 <= i < head.1.len() && head.1[i] == f;
                assert(all.1[i] == f);
            }
            if all.1.contains(f) {
                let i = choose|i: int| 0 <= i < all.1.len() && all.1[i] == f;
                if i < head.1.len() {
                    assert(head.1[i] == f);
                    assert(head.1.contains(f));
                }
            }
            if all.1.len() > head.1.len() {
                assert(all.1[head.1.len() as int] == (n, line));
            }
        }
    }
}

/// An instruction names a register where, behind a blank, one of the letters `q`, `d`, `s`
/// stands with one or two digits and then a comma, a closing bracket, a blank or the end; or
/// the letter `v` with one or two digits and a dot.
pub proof fn lemma_names_register(
    pre: Seq<char>,
    blank: char,
    name: Seq<char>,
    post: Seq<char>,
)
    requires
        blank == ' ' || blank == '\t',
        name.len() == 2 || name.len() == 3,
        forall|i: int| 1 <= i < name.len() ==> '0' as int <= #[trigger] name[i] as int <= '9' as int,
        ({
            ||| (name[0] == 'q' || name[0] == 'd' || name[0] == 's') && (post.len() == 0 || post[0]
                == ',' || post[0] == ']' || post[0] == ' ' || post[0] == '\t')
            ||| name[0] == 'v' && post.len() > 0 && post[0] == '.'
        }),
    ensures
        names_register(pre + seq![blank] + name + post),
{
    let s = pre + seq![blank] + name + post;
    let i = pre.len() as int + 1;
    assert(s[i - 1] == blank);
    assert(s[i] == name[0]);
    assert(s[i + 1] == name[1]);
    assert(is_digit(name[1]));
    if name.len() == 3 {
        assert(s[i + 2] == name[2]);
        assert(is_digit(name[2]));
    }
    if post.len() > 0 {
        assert(s[i + name.len()] == post[0]);
    }
    assert(register_at(s, i, name.len() as int));
}

/// An instruction in which no digit follows one of the letters `v`, `q`, `d`, `s` behind a blank
/// names no such register.
pub proof fn lemma_names_no_register(s: Seq<char>)
    requires
        forall|i: int|
            1 <= i && i + 1 < s.len() && (s[i - 1] == ' ' || s[i - 1] == '\t') && (#[trigger] s[i]
                == 'v' || s[i] == 'q' || s[i] == 'd' || s[i] == 's') ==> !('0' as int
                <= s[i + 1] as int <= '9' as int),
    ensures
        !names_register(s),
{
    if names_register(s) {
        let (i, len) = choose|i: int, len: int| register_at(s, i, len);
        assert(s[i] == 'v' || s[i] == 'q' || s[i] == 'd' || s[i] == 's');
        assert(is_digit(s[i + 1]));
    }
}

/// The offenders of a listing: where there are fewer than the limit, they are all the lines that
/// offend, each with its number.
pub proof fn lemma_neon_offenders(text: Seq<char>, f: (nat, Seq<char>))
    ensures
        neon_offenders(text).len() <= 20,
        neon_offenders(text).len() < 20 ==> (neon_offenders(text).contains(f) <==> 1 <= f.0
            <= lines_of(text).len() && offends(lines_of(text), f.0 - 1) && f.1 == lines_of(
            text,
        )[f.0 - 1]),
        neon_offenders(text).contains(f) ==> 1 <= f.0 <= lines_of(text).len() && offends(
            lines_of(text),
            f.0 - 1,
        ) && f.1 == lines_of(text)[f.0 - 1],
{
    lemma_code_lines(lines_of(text), lines_of(text).len(), f);
}

/// Whether the last heading among the first `n` lines is that of a file.
pub open spec fn headed(lines: Seq<Seq<char>>, n: int, file: Seq<char>) -> bool {
    exists|h: int|
        0 <= h < n && heading_file(trimmed(#[trigger] lines[h])) == Some(file) && forall|i: int|
            h < i < n ==> heading_file(trimmed(#[trigger] lines[i])) is None
}

/// Whether line `i` is a row of a file's table that names a line.
pub open spec fn lists_line(lines: Seq<Seq<char>>, i: int, p: (Seq<char>, usize)) -> bool {
    &&& heading_file(trimmed(lines[i])) is None
    &&& headed(lines, i, p.0)
    &&& row_line(trimmed(lines[i])) is Some
    &&& row_line(trimmed(lines[i]))->0 as usize == p.1
}

proof fn lemma_headed(lines: Seq<Seq<char>>, n: nat, file: Seq<char>)
    requires
        n <= lines.len(),
    ensures
        audit_lines(lines, n).0 == Some(file) <==> headed(lines, n as int, file),
    decreases n,
{
    if n > 0 {
        let m = (n - 1) as nat;
        lemma_headed(lines, m, file);
        let line = lines[m as int];
        if heading_file(trimmed(line)) is Some {
            if heading_file(trimmed(line)) == Some(file) {
                assert(heading_file(trimmed(lines[m as int])) == Some(file));
                assert(headed(lines, n as int, file));
            } else if headed(lines, n as int, file) {
                let h = choose|h: int|
                    0 <= h < n && heading_file(trimmed(#[trigger] lines[h])) == Some(file)
                        && forall|i: int|
                        h < i < n ==> heading_file(trimmed(#[trigger] lines[i])) is None;
                assert(h == m);
            }
        } else {
            if headed(lines, m as int, file) {
                let h = choose|h: int|
                    0 <= h < m && heading_file(trimmed(#[trigger] lines[h])) == Some(file)
                        && forall|i: int|
                        h < i < m ==> heading_file(trimmed(#[trigger] lines[i])) is None;
                assert(heading_file(trimmed(lines[h])) == Some(file));
                assert(headed(lines, n as int, file));
            }
            if headed(lines, n as int, file) {
                let h = choose|h: int|
                    0 <= h < n && heading_file(trimmed(#[trigger] lines[h])) == Some(file)
                        && forall|i: int|
                        h < i < n ==> heading_file(trimmed(#[trigger] lines[i])) is None;
                assert(h < m);
                assert(heading_file(trimmed(lines[h])) == Some(file));
                assert(headed(lines, m as int, file));
            }
        }
    }
}

proof fn lemma_listed_lines(lines: Seq<Seq<char>>, n: nat, p: (Seq<char>, usize))
    requires
        n <= lines.len(),
    ensures
        audit_lines(lines, n).1.contains(p) <==> exists|i: int|
            0 <= i < n && #[trigger] lists_line(lines, i, p),
    decreases n,
{
    if n > 0 {
        let m = (n - 1) as nat;
        lemma_listed_lines(lines, m, p);
        lemma_headed(lines, m, p.0);
        let st = audit_lines(lines, m);
        let line = trimmed(lines[m as int]);
        if heading_file(line) is None && st.0 is Some && row_line(line) is Some {
            lemma_headed(lines, m, st.0->0);
            let x = (st.0->0, row_line(line)->0 as usize);
            let u = st.1.push(x);
            assert(u[u.len() - 1] == x);
            if st.1.contains(p) {
                let k = choose|k: int| 0 <= k < st.1.len() && st.1[k] == p;
                assert(u[k] == p);
            }
            if u.contains(p) {
                let k = choose|k: int| 0 <= k < u.len() && u[k] == p;
                if k < st.1.len() {
                    assert(st.1[k] == p);
                } else {
                    assert(p == x);
                    assert(lists_line(lines, m as int, p));
                }
            }
            if lists_line(lines, m as int, p) {
                assert(st.0 == Some(p.0));
                assert(p == x);
            }
        } else if lists_line(lines, m as int, p) {
            assert(st.0 == Some(p.0));
        }
        assert forall|i: int| 0 <= i < n && #[trigger] lists_line(lines, i, p) implies audit_lines(
            lines,
            n,
        ).1.contains(p) by {
            if i < m {
                assert(st.1.contains(p));
            }
        }
    } else {
        assert(!audit_lines(lines, n).1.contains(p));
    }
}

/// The audit lists a line of a file if and only if a row under the file's heading names it.
pub proof fn lemma_audited(text: Seq<char>, p: (Seq<char>, usize))
    ensures
        audited(text).contains(p) <==> exists|i: int|
            0 <= i < lines_of(text).len() && #[trigger] lists_line(lines_of(text), i, p),
{
    lemma_listed_lines(lines_of(text), lines_of(text).len(), p);
}

} // verus!
