//! Text as sequences of characters: cutting, searching, splitting and
//! reading numbers.
//!
//! The line-oriented checks of this crate read tool output and source files.
//! They work on `Vec<char>`, whose view is the `Seq<char>` that the contracts
//! speak of.

use vstd::prelude::*;

verus! {

/// `String::push` appends one character to the end of the string.
pub assume_specification[ String::push ](s: &mut String, c: char)
    ensures
        final(s)@ == old(s)@.push(c),
;

/// The characters of `s`, in order.
pub fn chars_of(s: &str) -> (out: Vec<char>)
    ensures
        out@ == s@,
{
    let mut out: Vec<char> = Vec::new();
    for c in it: s.chars()
        invariant
            out@ == it.seq().take(it.index() as int),
            it.seq() == s@,
    {
        out.push(c);
    }
    out
}

/// The string whose characters are `v`.
pub fn string_of(v: &Vec<char>) -> (out: String)
    ensures
        out@ == v@,
{
    let mut out = String::new();
    let mut i: usize = 0;
    while i < v.len()
        invariant
            i <= v@.len(),
            out@ == v@.take(i as int),
        decreases v@.len() - i,
    {
        out.push(v[i]);
        i += 1;
    }
    out
}

/// A fresh copy of `s`.
pub fn copy_of(s: &str) -> (out: String)
    ensures
        out@ == s@,
{
    let mut out = String::new();
    out.append(s);
    out
}

/// The characters of `v` from `from` up to, and without, `to`.
pub fn cut(v: &Vec<char>, from: usize, to: usize) -> (out: Vec<char>)
    requires
        from <= to <= v@.len(),
    ensures
        out@ == v@.subrange(from as int, to as int),
{
    let mut out: Vec<char> = Vec::new();
    let mut i: usize = from;
    while i < to
        invariant
            from <= i <= to <= v@.len(),
            out@ == v@.subrange(from as int, i as int),
        decreases to - i,
    {
        out.push(v[i]);
        i += 1;
    }
    out
}

/// Whether two character vectors hold the same text.
pub fn same(a: &Vec<char>, b: &Vec<char>) -> (r: bool)
    ensures
        r == (a@ == b@),
{
    if a.len() != b.len() {
        return false;
    }
    let mut i: usize = 0;
    while i < a.len()
        invariant
            a@.len() == b@.len(),
            i <= a@.len(),
            a@.take(i as int) == b@.take(i as int),
        decreases a@.len() - i,
    {
        if a[i] != b[i] {
            return false;
        }
        assert(a@.take(i + 1) =~= a@.take(i as int).push(a@[i as int]));
        assert(b@.take(i + 1) =~= b@.take(i as int).push(b@[i as int]));
        i += 1;
    }
    assert(a@.take(i as int) =~= a@);
    assert(b@.take(i as int) =~= b@);
    true
}

/// Whether two strings hold the same text.
pub fn same_text(a: &str, b: &str) -> (r: bool)
    ensures
        r == (a@ == b@),
{
    let x = chars_of(a);
    let y = chars_of(b);
    same(&x, &y)
}

/// Whether the list `names` holds the text `name`.
pub fn has_name(names: &Vec<String>, name: &str) -> (r: bool)
    ensures
        r == names.deep_view().contains(name@),
{
    let mut i: usize = 0;
    while i < names.len()
        invariant
            i <= names@.len(),
            forall|j: int| 0 <= j < i ==> names.deep_view()[j] != name@,
        decreases names@.len() - i,
    {
        if same_text(names[i].as_str(), name) {
            assert(names.deep_view()[i as int] == name@);
            return true;
        }
        i += 1;
    }
    assert(!names.deep_view().contains(name@));
    false
}

// ---------------------------------------------------------------------------
// White space
// ---------------------------------------------------------------------------

/// The characters with the Unicode property `White_Space`.
pub open spec fn is_white(c: char) -> bool {
    let n = c as u32;
    ||| 0x09 <= n <= 0x0d
    ||| n == 0x20
    ||| n == 0x85
    ||| n == 0xa0
    ||| n == 0x1680
    ||| 0x2000 <= n <= 0x200a
    ||| n == 0x2028
    ||| n == 0x2029
    ||| n == 0x202f
    ||| n == 0x205f
    ||| n == 0x3000
}

/// Whether `c` is white space.
pub fn white(c: char) -> (r: bool)
    ensures
        r == is_white(c),
{
    let n = c as u32;
    (0x09 <= n && n <= 0x0d) || n == 0x20 || n == 0x85 || n == 0xa0 || n == 0x1680 || (0x2000 <= n
        && n <= 0x200a) || n == 0x2028 || n == 0x2029 || n == 0x202f || n == 0x205f || n == 0x3000
}

/// `s` without the white space at its start.
pub open spec fn trimmed_start(s: Seq<char>) -> Seq<char>
    decreases s.len(),
{
    if s.len() > 0 && is_white(s[0]) {
        trimmed_start(s.skip(1))
    } else {
        s
    }
}

/// `s` without the white space at its end.
pub open spec fn trimmed_end(s: Seq<char>) -> Seq<char>
    decreases s.len(),
{
    if s.len() > 0 && is_white(s.last()) {
        trimmed_end(s.drop_last())
    } else {
        s
    }
}

/// `s` without the white space at either end.
pub open spec fn trimmed(s: Seq<char>) -> Seq<char> {
    trimmed_end(trimmed_start(s))
}

/// `v` without the white space at either end.
pub fn trim(v: &Vec<char>) -> (out: Vec<char>)
    ensures
        out@ == trimmed(v@),
{
    let mut from: usize = 0;
    proof {
        assert(v@.skip(0) =~= v@);
    }
    while from < v.len() && white(v[from])
        invariant
            from <= v@.len(),
            trimmed_start(v@) == trimmed_start(v@.skip(from as int)),
        decreases v@.len() - from,
    {
        assert(v@.skip(from as int).skip(1) =~= v@.skip(from + 1));
        from += 1;
    }
    let mut to: usize = v.len();
    proof {
        assert(trimmed_start(v@) == v@.skip(from as int));
        assert(v@.subrange(from as int, to as int) =~= v@.skip(from as int));
    }
    while to > from && white(v[to - 1])
        invariant
            from <= to <= v@.len(),
            trimmed(v@) == trimmed_end(v@.subrange(from as int, to as int)),
        decreases to,
    {
        assert(v@.subrange(from as int, to as int).drop_last() =~= v@.subrange(
            from as int,
            to - 1,
        ));
        to -= 1;
    }
    cut(v, from, to)
}

/// `s` without the leading run of `c`.
pub open spec fn stripped_start(s: Seq<char>, c: char) -> Seq<char>
    decreases s.len(),
{
    if s.len() > 0 && s[0] == c {
        stripped_start(s.skip(1), c)
    } else {
        s
    }
}

/// `s` without the trailing run of `c`.
pub open spec fn stripped_end(s: Seq<char>, c: char) -> Seq<char>
    decreases s.len(),
{
    if s.len() > 0 && s.last() == c {
        stripped_end(s.drop_last(), c)
    } else {
        s
    }
}

/// `s` without the runs of `c` at either end.
pub open spec fn stripped(s: Seq<char>, c: char) -> Seq<char> {
    stripped_end(stripped_start(s, c), c)
}

/// `v` without the leading run of `c`.
pub fn strip_start(v: &Vec<char>, c: char) -> (out: Vec<char>)
    ensures
        out@ == stripped_start(v@, c),
{
    let mut from: usize = 0;
    proof {
        assert(v@.skip(0) =~= v@);
    }
    while from < v.len() && v[from] == c
        invariant
            from <= v@.len(),
            stripped_start(v@, c) == stripped_start(v@.skip(from as int), c),
        decreases v@.len() - from,
    {
        assert(v@.skip(from as int).skip(1) =~= v@.skip(from + 1));
        from += 1;
    }
    assert(v@.subrange(from as int, v@.len() as int) =~= v@.skip(from as int));
    cut(v, from, v.len())
}

/// `v` without the trailing run of `c`.
pub fn strip_end(v: &Vec<char>, c: char) -> (out: Vec<char>)
    ensures
        out@ == stripped_end(v@, c),
{
    let mut to: usize = v.len();
    proof {
        assert(v@.take(to as int) =~= v@);
    }
    while to > 0 && v[to - 1] == c
        invariant
            to <= v@.len(),
            stripped_end(v@, c) == stripped_end(v@.take(to as int), c),
        decreases to,
    {
        assert(v@.take(to as int).drop_last() =~= v@.take(to - 1));
        to -= 1;
    }
    assert(v@.subrange(0, to as int) =~= v@.take(to as int));
    cut(v, 0, to)
}

/// `v` without the runs of `c` at either end.
pub fn strip(v: &Vec<char>, c: char) -> (out: Vec<char>)
    ensures
        out@ == stripped(v@, c),
{
    let a = strip_start(v, c);
    strip_end(&a, c)
}

// ---------------------------------------------------------------------------
// Searching
// ---------------------------------------------------------------------------

/// Whether `pat` stands in `s` at index `i`.
pub open spec fn occurs_at(s: Seq<char>, pat: Seq<char>, i: int) -> bool {
    0 <= i && i + pat.len() <= s.len() && s.subrange(i, i + pat.len()) == pat
}

/// Whether `pat` stands anywhere in `s`.
pub open spec fn contains(s: Seq<char>, pat: Seq<char>) -> bool {
    exists|i: int| occurs_at(s, pat, i)
}

/// Whether `s` starts with `pat`.
pub open spec fn starts_with(s: Seq<char>, pat: Seq<char>) -> bool {
    pat.len() <= s.len() && s.take(pat.len() as int) == pat
}

/// Whether `s` ends with `pat`.
pub open spec fn ends_with(s: Seq<char>, pat: Seq<char>) -> bool {
    pat.len() <= s.len() && s.skip(s.len() - pat.len()) == pat
}

/// The first index at which `c` stands in `s`, or the length of `s`.
pub open spec fn index_of(s: Seq<char>, c: char) -> int
    decreases s.len(),
{
    if s.len() == 0 || s[0] == c {
        0
    } else {
        1 + index_of(s.skip(1), c)
    }
}

/// `index_of` is the first place of `c`, or the length where `c` is absent.
pub proof fn lemma_index_of(s: Seq<char>, c: char)
    ensures
        0 <= index_of(s, c) <= s.len(),
        index_of(s, c) < s.len() ==> s[index_of(s, c)] == c,
        forall|j: int| 0 <= j < index_of(s, c) ==> s[j] != c,
    decreases s.len(),
{
    if s.len() > 0 && s[0] != c {
        lemma_index_of(s.skip(1), c);
        assert forall|j: int| 0 <= j < index_of(s, c) implies s[j] != c by {
            if j > 0 {
                assert(s.skip(1)[j - 1] == s[j]);
            }
        }
    }
}

/// `index_of` is fixed by its two properties.
pub proof fn lemma_index_of_is(s: Seq<char>, c: char, k: int)
    requires
        0 <= k <= s.len(),
        k < s.len() ==> s[k] == c,
        forall|j: int| 0 <= j < k ==> s[j] != c,
    ensures
        index_of(s, c) == k,
{
    lemma_index_of(s, c);
    let i = index_of(s, c);
    if i < k {
        assert(s[i] != c);
    } else if k < i {
        assert(s[k] != c);
    }
}

/// The last index at which `c` stands in `s`, or `-1`.
pub open spec fn last_index_of(s: Seq<char>, c: char) -> int
    decreases s.len(),
{
    if s.len() == 0 {
        -1
    } else if s.last() == c {
        s.len() - 1
    } else {
        last_index_of(s.drop_last(), c)
    }
}

/// `last_index_of` is the last place of `c`, or `-1` where `c` is absent.
pub proof fn lemma_last_index_of(s: Seq<char>, c: char)
    ensures
        -1 <= last_index_of(s, c) < s.len(),
        last_index_of(s, c) >= 0 ==> s[last_index_of(s, c)] == c,
        forall|j: int| last_index_of(s, c) < j < s.len() ==> s[j] != c,
    decreases s.len(),
{
    if s.len() > 0 && s.last() != c {
        lemma_last_index_of(s.drop_last(), c);
        assert forall|j: int| last_index_of(s, c) < j < s.len() implies s[j] != c by {
            if j < s.len() - 1 {
                assert(s.drop_last()[j] == s[j]);
            }
        }
    }
}

/// The first index of `c` in `v`.
pub fn find_char(v: &Vec<char>, c: char) -> (r: Option<usize>)
    ensures
        match r {
            Some(i) => i < v@.len() && i == index_of(v@, c),
            None => index_of(v@, c) == v@.len(),
        },
{
    let mut i: usize = 0;
    while i < v.len()
        invariant
            i <= v@.len(),
            forall|j: int| 0 <= j < i ==> v@[j] != c,
        decreases v@.len() - i,
    {
        if v[i] == c {
            proof {
                lemma_index_of_is(v@, c, i as int);
            }
            return Some(i);
        }
        i += 1;
    }
    proof {
        lemma_index_of_is(v@, c, v@.len() as int);
    }
    None
}

/// The last index of `c` in `v`.
pub fn rfind_char(v: &Vec<char>, c: char) -> (r: Option<usize>)
    ensures
        match r {
            Some(i) => i < v@.len() && i == last_index_of(v@, c),
            None => last_index_of(v@, c) == -1,
        },
{
    proof {
        lemma_last_index_of(v@, c);
    }
    let mut i: usize = v.len();
    while i > 0
        invariant
            i <= v@.len(),
            -1 <= last_index_of(v@, c) < i,
            last_index_of(v@, c) >= 0 ==> v@[last_index_of(v@, c)] == c,
            forall|j: int| last_index_of(v@, c) < j < v@.len() ==> v@[j] != c,
        decreases i,
    {
        if v[i - 1] == c {
            return Some(i - 1);
        }
        i -= 1;
    }
    None
}

/// Whether `c` stands in `v`.
pub fn has_char(v: &Vec<char>, c: char) -> (r: bool)
    ensures
        r == v@.contains(c),
{
    let r = find_char(v, c);
    proof {
        lemma_index_of(v@, c);
        if r is None {
            assert(!v@.contains(c));
        }
    }
    r.is_some()
}

/// Whether `pat` stands in `v` at index `i`.
pub fn occurs(v: &Vec<char>, pat: &Vec<char>, i: usize) -> (r: bool)
    ensures
        r == occurs_at(v@, pat@, i as int),
{
    if i > v.len() || pat.len() > v.len() - i {
        return false;
    }
    let mut k: usize = 0;
    while k < pat.len()
        invariant
            i + pat@.len() <= v.len(),
            k <= pat@.len(),
            forall|j: int| 0 <= j < k ==> v@[i + j] == pat@[j],
        decreases pat@.len() - k,
    {
        if v[i + k] != pat[k] {
            assert(v@.subrange(i as int, i + pat@.len())[k as int] == v@[i + k]);
            return false;
        }
        k += 1;
    }
    assert(v@.subrange(i as int, i + pat@.len()) =~= pat@);
    true
}

/// The first index, from `from` on, at which `pat` stands in `s`, or `-1`.
pub open spec fn find_from(s: Seq<char>, pat: Seq<char>, from: int) -> int
    decreases s.len() + 1 - from,
{
    if from < 0 || from + pat.len() > s.len() {
        -1
    } else if occurs_at(s, pat, from) {
        from
    } else {
        find_from(s, pat, from + 1)
    }
}

/// `find_from` gives the first place of `pat` at or after `from`.
pub proof fn lemma_find_from(s: Seq<char>, pat: Seq<char>, from: int)
    requires
        0 <= from,
    ensures
        find_from(s, pat, from) == -1 ==> forall|i: int| from <= i ==> !occurs_at(s, pat, i),
        find_from(s, pat, from) != -1 ==> from <= find_from(s, pat, from) && occurs_at(
            s,
            pat,
            find_from(s, pat, from),
        ) && forall|i: int| from <= i < find_from(s, pat, from) ==> !occurs_at(s, pat, i),
    decreases s.len() + 1 - from,
{
    if from + pat.len() <= s.len() && !occurs_at(s, pat, from) {
        lemma_find_from(s, pat, from + 1);
    }
}

/// The first index at which `pat` stands in `v`.
pub fn find(v: &Vec<char>, pat: &str) -> (r: Option<usize>)
    ensures
        match r {
            Some(i) => i == find_from(v@, pat@, 0),
            None => find_from(v@, pat@, 0) == -1,
        },
        r is Some <==> contains(v@, pat@),
{
    let p = chars_of(pat);
    let mut i: usize = 0;
    proof {
        lemma_find_from(v@, pat@, 0);
    }
    while p.len() <= v.len() && i < v.len() - p.len()
        invariant
            p@ == pat@,
            i == 0 || i <= v.len() - p.len(),
            find_from(v@, pat@, 0) == find_from(v@, pat@, i as int),
            find_from(v@, pat@, 0) == -1 ==> forall|k: int| 0 <= k ==> !occurs_at(v@, pat@, k),
        decreases v@.len() - i,
    {
        if occurs(v, &p, i) {
            return Some(i);
        }
        i += 1;
    }
    if occurs(v, &p, i) {
        return Some(i);
    }
    proof {
        assert(find_from(v@, pat@, i + 1) == -1);
    }
    None
}

/// Whether `pat` stands anywhere in `v`.
pub fn has(v: &Vec<char>, pat: &str) -> (r: bool)
    ensures
        r == contains(v@, pat@),
{
    find(v, pat).is_some()
}

/// Whether `v` starts with `pat`.
pub fn begins(v: &Vec<char>, pat: &str) -> (r: bool)
    ensures
        r == starts_with(v@, pat@),
{
    let p = chars_of(pat);
    proof {
        if pat@.len() <= v@.len() {
            assert(v@.subrange(0, pat@.len() as int) =~= v@.take(pat@.len() as int));
        }
    }
    occurs(v, &p, 0)
}

/// Whether `v` ends with `pat`.
pub fn finishes(v: &Vec<char>, pat: &str) -> (r: bool)
    ensures
        r == ends_with(v@, pat@),
{
    let p = chars_of(pat);
    if p.len() > v.len() {
        return false;
    }
    proof {
        assert(v@.subrange(v@.len() - pat@.len(), v@.len() as int) =~= v@.skip(
            v@.len() - pat@.len(),
        ));
    }
    occurs(v, &p, v.len() - p.len())
}

/// What follows `pat` in `v`, where `v` starts with `pat`.
pub fn after_prefix(v: &Vec<char>, pat: &str) -> (r: Option<Vec<char>>)
    ensures
        r is Some <==> starts_with(v@, pat@),
        r matches Some(rest) ==> rest@ == v@.skip(pat@.len() as int),
{
    if begins(v, pat) {
        let n = chars_of(pat).len();
        assert(v@.subrange(n as int, v@.len() as int) =~= v@.skip(n as int));
        Some(cut(v, n, v.len()))
    } else {
        None
    }
}

// ---------------------------------------------------------------------------
// Splitting
// ---------------------------------------------------------------------------

/// A line without the carriage return before its line feed.
pub open spec fn chomped(s: Seq<char>) -> Seq<char> {
    if s.len() > 0 && s.last() == '\r' {
        s.drop_last()
    } else {
        s
    }
}

/// The lines of `s`: what stands between line feeds, each without the carriage
/// return before its line feed; nothing follows a final line feed.
pub open spec fn lines_of(s: Seq<char>) -> Seq<Seq<char>>
    decreases s.len(),
    via lines_of_decreases
{
    if s.len() == 0 {
        Seq::empty()
    } else {
        let k = index_of(s, '\n');
        if k >= s.len() {
            seq![s]
        } else {
            seq![chomped(s.take(k))] + lines_of(s.skip(k + 1))
        }
    }
}

#[via_fn]
proof fn lines_of_decreases(s: Seq<char>) {
    lemma_index_of(s, '\n');
}

/// The texts that a list of character vectors holds.
pub open spec fn texts(v: Seq<Vec<char>>) -> Seq<Seq<char>> {
    Seq::new(v.len(), |i: int| v[i]@)
}

/// The lines of `v`.
pub fn lines(v: &Vec<char>) -> (out: Vec<Vec<char>>)
    ensures
        texts(out@) == lines_of(v@),
{
    let mut out: Vec<Vec<char>> = Vec::new();
    let mut from: usize = 0;
    proof {
        assert(v@.skip(0) =~= v@);
        assert(texts(out@) + lines_of(v@.skip(0)) =~= lines_of(v@));
    }
    while from < v.len()
        invariant
            from <= v@.len(),
            texts(out@) + lines_of(v@.skip(from as int)) == lines_of(v@),
        decreases v@.len() - from,
    {
        let mut to: usize = from;
        while to < v.len() && v[to] != '\n'
            invariant
                from <= to <= v@.len(),
                forall|j: int| from <= j < to ==> v@[j] != '\n',
            decreases v@.len() - to,
        {
            to += 1;
        }
        let ghost rest = v@.skip(from as int);
        proof {
            lemma_index_of_is(rest, '\n', to - from);
        }
        let ghost before = texts(out@);
        if to >= v.len() {
            let line = cut(v, from, to);
            assert(line@ =~= rest);
            out.push(line);
            assert(texts(out@) =~= before.push(rest));
            assert(before + seq![rest] =~= before.push(rest));
            assert(texts(out@) =~= lines_of(v@));
            return out;
        }
        let end: usize = if to > from && v[to - 1] == '\r' {
            to - 1
        } else {
            to
        };
        let line = cut(v, from, end);
        assert(rest.take(to - from).len() > 0 ==> rest.take(to - from).last() == v@[to - 1]);
        assert(line@ =~= chomped(rest.take(to - from)));
        out.push(line);
        proof {
            let tail = lines_of(rest.skip(to - from + 1));
            assert(texts(out@) =~= before.push(chomped(rest.take(to - from))));
            assert(before + (seq![chomped(rest.take(to - from))] + tail) =~= before.push(
                chomped(rest.take(to - from)),
            ) + tail);
            assert(rest.skip(to - from + 1) =~= v@.skip(to + 1));
        }
        from = to + 1;
    }
    assert(v@.skip(from as int) =~= Seq::<char>::empty());
    assert(texts(out@) + Seq::<Seq<char>>::empty() =~= texts(out@));
    out
}

/// The pieces of `s` between the occurrences of `c`.
pub open spec fn pieces_of(s: Seq<char>, c: char) -> Seq<Seq<char>>
    decreases s.len(),
    via pieces_of_decreases
{
    let k = index_of(s, c);
    if k >= s.len() {
        seq![s]
    } else {
        seq![s.take(k)] + pieces_of(s.skip(k + 1), c)
    }
}

#[via_fn]
proof fn pieces_of_decreases(s: Seq<char>, c: char) {
    lemma_index_of(s, c);
}

/// The pieces of `v` between the occurrences of `c`.
pub fn pieces(v: &Vec<char>, c: char) -> (out: Vec<Vec<char>>)
    ensures
        texts(out@) == pieces_of(v@, c),
{
    let mut out: Vec<Vec<char>> = Vec::new();
    let mut from: usize = 0;
    proof {
        assert(v@.skip(0) =~= v@);
        assert(texts(out@) + pieces_of(v@.skip(0), c) =~= pieces_of(v@, c));
    }
    loop
        invariant
            from <= v@.len(),
            texts(out@) + pieces_of(v@.skip(from as int), c) == pieces_of(v@, c),
        decreases v@.len() - from,
    {
        let mut to: usize = from;
        while to < v.len() && v[to] != c
            invariant
                from <= to <= v@.len(),
                forall|j: int| from <= j < to ==> v@[j] != c,
            decreases v@.len() - to,
        {
            to += 1;
        }
        let ghost rest = v@.skip(from as int);
        proof {
            lemma_index_of_is(rest, c, to - from);
        }
        let ghost before = texts(out@);
        let piece = cut(v, from, to);
        if to >= v.len() {
            assert(piece@ =~= rest);
            out.push(piece);
            assert(texts(out@) =~= before.push(rest));
            assert(before + seq![rest] =~= before.push(rest));
            return out;
        }
        assert(piece@ =~= rest.take(to - from));
        out.push(piece);
        proof {
            let tail = pieces_of(rest.skip(to - from + 1), c);
            assert(texts(out@) =~= before.push(rest.take(to - from)));
            assert(before + (seq![rest.take(to - from)] + tail) =~= before.push(
                rest.take(to - from),
            ) + tail);
            assert(rest.skip(to - from + 1) =~= v@.skip(to + 1));
        }
        from = to + 1;
    }
}

/// The first run of characters of `s` that are not white space.
pub open spec fn first_word_of(s: Seq<char>) -> Seq<char> {
    word_prefix(trimmed_start(s))
}

/// The characters of `s` before its first white space.
pub open spec fn word_prefix(s: Seq<char>) -> Seq<char>
    decreases s.len(),
{
    if s.len() == 0 || is_white(s[0]) {
        Seq::empty()
    } else {
        seq![s[0]] + word_prefix(s.skip(1))
    }
}

proof fn lemma_word_prefix(s: Seq<char>, k: int)
    requires
        0 <= k <= s.len(),
        forall|j: int| 0 <= j < k ==> !is_white(s[j]),
        k < s.len() ==> is_white(s[k]),
    ensures
        word_prefix(s) == s.take(k),
    decreases s.len(),
{
    if k == 0 {
        assert(s.take(0) =~= Seq::<char>::empty());
    } else {
        assert forall|j: int| 0 <= j < k - 1 implies !is_white(s.skip(1)[j]) by {
            assert(s.skip(1)[j] == s[j + 1]);
        }
        lemma_word_prefix(s.skip(1), k - 1);
        assert(seq![s[0]] + s.skip(1).take(k - 1) =~= s.take(k));
    }
}

/// The first run of characters of `v` that are not white space.
pub fn first_word(v: &Vec<char>) -> (out: Vec<char>)
    ensures
        out@ == first_word_of(v@),
{
    let mut from: usize = 0;
    proof {
        assert(v@.skip(0) =~= v@);
    }
    while from < v.len() && white(v[from])
        invariant
            from <= v@.len(),
            trimmed_start(v@) == trimmed_start(v@.skip(from as int)),
        decreases v@.len() - from,
    {
        assert(v@.skip(from as int).skip(1) =~= v@.skip(from + 1));
        from += 1;
    }
    let mut to: usize = from;
    while to < v.len() && !white(v[to])
        invariant
            from <= to <= v@.len(),
            forall|j: int| from <= j < to ==> !is_white(v@[j]),
        decreases v@.len() - to,
    {
        to += 1;
    }
    proof {
        let rest = v@.skip(from as int);
        assert(trimmed_start(v@) == rest);
        lemma_word_prefix(rest, to - from);
        assert(v@.subrange(from as int, to as int) =~= rest.take(to - from));
    }
    cut(v, from, to)
}

// ---------------------------------------------------------------------------
// Numbers
// ---------------------------------------------------------------------------

/// The value of `c` as a digit in base ten or sixteen, or `-1`.
pub open spec fn digit_value(c: char, radix: int) -> int {
    let n = c as int;
    let d = if '0' as int <= n <= '9' as int {
        n - '0' as int
    } else if 'a' as int <= n <= 'f' as int {
        n - 'a' as int + 10
    } else if 'A' as int <= n <= 'F' as int {
        n - 'A' as int + 10
    } else {
        -1
    };
    if d < radix {
        d
    } else {
        -1
    }
}

/// Whether every character of `s` is a digit in base `radix`.
pub open spec fn all_digits(s: Seq<char>, radix: int) -> bool {
    forall|i: int| 0 <= i < s.len() ==> digit_value(#[trigger] s[i], radix) >= 0
}

/// The number that the digits of `s` write in base `radix`.
pub open spec fn number_of(s: Seq<char>, radix: int) -> int
    decreases s.len(),
{
    if s.len() == 0 {
        0
    } else {
        number_of(s.drop_last(), radix) * radix + digit_value(s.last(), radix)
    }
}

/// What reading `s` as an unsigned number in base `radix` of at most `max` gives.
///
/// One leading `+` is allowed; at least one digit must follow, nothing else
/// may stand in `s`, and the number must not exceed `max`.
pub open spec fn unsigned_of(s: Seq<char>, radix: int, max: int) -> Option<int> {
    let d = if s.len() > 0 && s[0] == '+' {
        s.skip(1)
    } else {
        s
    };
    if d.len() > 0 && all_digits(d, radix) && number_of(d, radix) <= max {
        Some(number_of(d, radix))
    } else {
        None
    }
}

fn digit(c: char, radix: u64) -> (r: Option<u64>)
    requires
        radix == 10 || radix == 16,
    ensures
        match r {
            Some(d) => d == digit_value(c, radix as int) && d < radix,
            None => digit_value(c, radix as int) == -1,
        },
{
    let n = c as u32;
    let d: u64 = if 48 <= n && n <= 57 {
        (n - 48) as u64
    } else if 97 <= n && n <= 102 {
        (n - 97 + 10) as u64
    } else if 65 <= n && n <= 70 {
        (n - 65 + 10) as u64
    } else {
        return None;
    };
    if d < radix {
        Some(d)
    } else {
        None
    }
}

proof fn lemma_number_grows(s: Seq<char>, radix: int, k: int)
    requires
        radix >= 1,
        0 <= k <= s.len(),
        all_digits(s, radix),
    ensures
        0 <= number_of(s.take(k), radix) <= number_of(s, radix),
    decreases s.len(),
{
    if k == s.len() {
        assert(s.take(k) =~= s);
        if s.len() > 0 {
            assert forall|i: int| 0 <= i < s.drop_last().len() implies digit_value(
                #[trigger] s.drop_last()[i],
                radix,
            ) >= 0 by {
                assert(s.drop_last()[i] == s[i]);
            }
            lemma_number_grows(s.drop_last(), radix, s.len() - 1);
            assert(s.drop_last().take(s.len() - 1) =~= s.drop_last());
            assert(digit_value(s.last(), radix) >= 0);
            assert(number_of(s.drop_last(), radix) * radix >= 0) by (nonlinear_arith)
                requires
                    number_of(s.drop_last(), radix) >= 0,
                    radix >= 1,
            ;
        }
    } else {
        assert forall|i: int| 0 <= i < s.drop_last().len() implies digit_value(
            #[trigger] s.drop_last()[i],
            radix,
        ) >= 0 by {
            assert(s.drop_last()[i] == s[i]);
        }
        lemma_number_grows(s.drop_last(), radix, k);
        assert(s.drop_last().take(k) =~= s.take(k));
        assert(digit_value(s.last(), radix) >= 0);
        assert(number_of(s.drop_last(), radix) * radix >= number_of(s.drop_last(), radix))
            by (nonlinear_arith)
            requires
                number_of(s.drop_last(), radix) >= 0,
                radix >= 1,
        ;
    }
}

/// Reads `v` as an unsigned number in base `radix` of at most `max`.
pub fn parse_unsigned(v: &Vec<char>, radix: u64, max: u64) -> (r: Option<u64>)
    requires
        radix == 10 || radix == 16,
    ensures
        match r {
            Some(n) => unsigned_of(v@, radix as int, max as int) == Some(n as int),
            None => unsigned_of(v@, radix as int, max as int) is None,
        },
{
    let start: usize = if v.len() > 0 && v[0] == '+' {
        1
    } else {
        0
    };
    let ghost d = v@.skip(start as int);
    proof {
        assert(v@.skip(0) =~= v@);
    }
    if start >= v.len() {
        return None;
    }
    let mut i: usize = start;
    let mut n: u64 = 0;
    proof {
        assert(d.take(0) =~= Seq::<char>::empty());
    }
    while i < v.len()
        invariant
            radix == 10 || radix == 16,
            start <= i <= v@.len(),
            d == v@.skip(start as int),
            d == (if v@.len() > 0 && v@[0] == '+' {
                v@.skip(1)
            } else {
                v@
            }),
            n == number_of(d.take(i - start), radix as int),
            n <= max,
            forall|j: int| 0 <= j < i - start ==> digit_value(#[trigger] d[j], radix as int) >= 0,
        decreases v@.len() - i,
    {
        let ghost k = i - start;
        assert(d[k] == v@[i as int]);
        assert(d.take(k + 1).drop_last() =~= d.take(k));
        assert(d.take(k + 1).last() == d[k]);
        match digit(v[i], radix) {
            None => {
                assert(!all_digits(d, radix as int));
                return None;
            },
            Some(x) => {
                let shifted: u128 = if radix == 16 {
                    (n as u128) * 16
                } else {
                    (n as u128) * 10
                };
                let wide: u128 = shifted + (x as u128);
                assert(wide == number_of(d.take(k + 1), radix as int));
                if wide > max as u128 {
                    proof {
                        if all_digits(d, radix as int) {
                            lemma_number_grows(d, radix as int, k + 1);
                        }
                    }
                    return None;
                }
                n = wide as u64;
            },
        }
        i += 1;
    }
    assert(d.take(i - start) =~= d);
    Some(n)
}

/// What a number in the annotation and tool-output files stands for: sixteen-based
/// after `0x`, ten-based otherwise.
pub open spec fn hex_or_dec_of(s: Seq<char>) -> Option<int> {
    if starts_with(s, "0x"@) {
        unsigned_of(s.skip(2), 16, u64::MAX as int)
    } else {
        unsigned_of(s, 10, u64::MAX as int)
    }
}

/// Reads a number, sixteen-based after `0x` and ten-based otherwise.
pub fn parse_hex_or_dec(v: &Vec<char>) -> (r: Option<u64>)
    ensures
        match r {
            Some(n) => hex_or_dec_of(v@) == Some(n as int),
            None => hex_or_dec_of(v@) is None,
        },
{
    proof {
        reveal_strlit("0x");
    }
    match after_prefix(v, "0x") {
        Some(rest) => parse_unsigned(&rest, 16, u64::MAX),
        None => parse_unsigned(v, 10, u64::MAX),
    }
}

// ---------------------------------------------------------------------------
// What trimming, words and lines are
// ---------------------------------------------------------------------------

/// Whether all characters are white space.
pub open spec fn all_white(s: Seq<char>) -> bool {
    forall|i: int| 0 <= i < s.len() ==> is_white(#[trigger] s[i])
}

/// Whether no character at either end is white space.
pub open spec fn is_bare(s: Seq<char>) -> bool {
    s.len() > 0 ==> !is_white(s[0]) && !is_white(s.last())
}

proof fn lemma_trimmed_start_of(a: Seq<char>, m: Seq<char>)
    requires
        all_white(a),
        m.len() > 0 ==> !is_white(m[0]),
    ensures
        trimmed_start(a + m) == m,
    decreases a.len(),
{
    let s = a + m;
    if a.len() > 0 {
        assert(s[0] == a[0]);
        assert(s.skip(1) =~= a.skip(1) + m);
        assert forall|i: int| 0 <= i < a.skip(1).len() implies is_white(#[trigger] a.skip(1)[i]) by {
            assert(a.skip(1)[i] == a[i + 1]);
        }
        lemma_trimmed_start_of(a.skip(1), m);
    } else {
        assert(s =~= m);
    }
}

proof fn lemma_trimmed_end_of(m: Seq<char>, b: Seq<char>)
    requires
        all_white(b),
        m.len() > 0 ==> !is_white(m.last()),
    ensures
        trimmed_end(m + b) == m,
    decreases b.len(),
{
    let s = m + b;
    if b.len() > 0 {
        assert(s.last() == b.last());
        assert(s.drop_last() =~= m + b.drop_last());
        assert forall|i: int| 0 <= i < b.drop_last().len() implies is_white(
            #[trigger] b.drop_last()[i],
        ) by {
            assert(b.drop_last()[i] == b[i]);
        }
        lemma_trimmed_end_of(m, b.drop_last());
    } else {
        assert(s =~= m);
    }
}

/// Trimming takes the white space at both ends away and nothing else: white space around a
/// text that has none at its ends does not show in the result.
pub proof fn lemma_trimmed_of(a: Seq<char>, m: Seq<char>, b: Seq<char>)
    requires
        all_white(a),
        all_white(b),
        is_bare(m),
    ensures
        trimmed(a + m + b) == m,
{
    if m.len() == 0 {
        assert(a + m + b =~= a + b);
        let all = a + b;
        assert forall|i: int| 0 <= i < all.len() implies is_white(#[trigger] all[i]) by {
            if i < a.len() {
                assert(all[i] == a[i]);
            } else {
                assert(all[i] == b[i - a.len()]);
            }
        }
        lemma_trimmed_start_of(all, Seq::empty());
        assert(all + Seq::<char>::empty() =~= all);
        assert(m =~= Seq::<char>::empty());
    } else {
        assert(a + m + b =~= a + (m + b));
        assert((m + b)[0] == m[0]);
        lemma_trimmed_start_of(a, m + b);
        lemma_trimmed_end_of(m, b);
    }
}

/// The white space that a text starts with.
proof fn lemma_white_start(s: Seq<char>) -> (a: Seq<char>)
    ensures
        all_white(a),
        s == a + trimmed_start(s),
        trimmed_start(s).len() > 0 ==> !is_white(trimmed_start(s)[0]),
    decreases s.len(),
{
    if s.len() > 0 && is_white(s[0]) {
        let rest = lemma_white_start(s.skip(1));
        let a = seq![s[0]] + rest;
        assert(s =~= seq![s[0]] + s.skip(1));
        assert(s =~= a + trimmed_start(s));
        assert forall|i: int| 0 <= i < a.len() implies is_white(#[trigger] a[i]) by {
            if i > 0 {
                assert(a[i] == rest[i - 1]);
            }
        }
        a
    } else {
        assert(s =~= Seq::<char>::empty() + s);
        Seq::empty()
    }
}

/// The white space that a text ends with.
proof fn lemma_white_end(s: Seq<char>) -> (b: Seq<char>)
    ensures
        all_white(b),
        s == trimmed_end(s) + b,
        trimmed_end(s).len() > 0 ==> !is_white(trimmed_end(s).last()),
    decreases s.len(),
{
    if s.len() > 0 && is_white(s.last()) {
        let rest = lemma_white_end(s.drop_last());
        let b = rest.push(s.last());
        assert(s =~= s.drop_last().push(s.last()));
        assert(s =~= trimmed_end(s) + b);
        assert forall|i: int| 0 <= i < b.len() implies is_white(#[trigger] b[i]) by {
            if i < rest.len() {
                assert(b[i] == rest[i]);
            }
        }
        b
    } else {
        assert(s =~= s + Seq::<char>::empty());
        Seq::empty()
    }
}

/// A trimmed text has no white space at its ends, and what was taken away is white space.
pub proof fn lemma_trimmed(s: Seq<char>)
    ensures
        is_bare(trimmed(s)),
        exists|a: Seq<char>, b: Seq<char>|
            #![trigger all_white(a), all_white(b)]
            all_white(a) && all_white(b) && s == a + trimmed(s) + b,
{
    let t = trimmed_start(s);
    let a = lemma_white_start(s);
    let b = lemma_white_end(t);
    let m = trimmed(s);
    assert(s =~= a + m + b);
    if m.len() > 0 {
        assert(t[0] == m[0]);
    }
    assert(all_white(a) && all_white(b));
}

/// The first word of a text is what stands behind the white space at its start, up to the
/// next white space.
pub proof fn lemma_first_word_of(a: Seq<char>, w: Seq<char>, r: Seq<char>)
    requires
        all_white(a),
        forall|i: int| 0 <= i < w.len() ==> !is_white(#[trigger] w[i]),
        w.len() > 0,
        r.len() > 0 ==> is_white(r[0]),
    ensures
        first_word_of(a + w + r) == w,
{
    assert(a + w + r =~= a + (w + r));
    let t = w + r;
    assert(t[0] == w[0]);
    lemma_trimmed_start_of(a, t);
    assert forall|j: int| 0 <= j < w.len() implies !is_white(t[j]) by {
        assert(t[j] == w[j]);
    }
    if r.len() > 0 {
        assert(t[w.len() as int] == r[0]);
    }
    lemma_word_prefix(t, w.len() as int);
    assert(t.take(w.len() as int) =~= w);
}

proof fn lemma_word_end(s: Seq<char>)
    ensures
        word_prefix(s).len() <= s.len(),
        word_prefix(s) == s.take(word_prefix(s).len() as int),
        word_prefix(s).len() < s.len() ==> is_white(s[word_prefix(s).len() as int]),
        forall|i: int| 0 <= i < word_prefix(s).len() ==> !is_white(#[trigger] word_prefix(s)[i]),
    decreases s.len(),
{
    if s.len() > 0 && !is_white(s[0]) {
        let t = s.skip(1);
        lemma_word_end(t);
        let w = word_prefix(s);
        let v = word_prefix(t);
        assert(w =~= seq![s[0]] + v);
        assert(w =~= s.take(w.len() as int)) by {
            assert forall|i: int| 0 <= i < w.len() implies w[i] == s[i] by {
                if i > 0 {
                    assert(v[i - 1] == t.take(v.len() as int)[i - 1]);
                }
            }
        }
        assert forall|i: int| 0 <= i < w.len() implies !is_white(#[trigger] w[i]) by {
            if i > 0 {
                assert(w[i] == v[i - 1]);
            }
        }
        if w.len() < s.len() {
            assert(s[w.len() as int] == t[v.len() as int]);
        }
    } else {
        assert(s.take(0) =~= Seq::<char>::empty());
    }
}

/// A text that has no white space at its ends starts with its first word, and behind the word
/// it ends or goes on with white space.
pub proof fn lemma_bare_word(s: Seq<char>)
    requires
        is_bare(s),
    ensures
        ({
            let w = first_word_of(s);
            &&& w.len() <= s.len()
            &&& s == w + s.skip(w.len() as int)
            &&& w.len() < s.len() ==> is_white(s[w.len() as int])
            &&& s.len() > 0 ==> w.len() > 0
            &&& forall|i: int| 0 <= i < w.len() ==> !is_white(#[trigger] w[i])
        }),
{
    lemma_word_end(s);
    let w = first_word_of(s);
    assert(s =~= s.take(w.len() as int) + s.skip(w.len() as int));
}

/// The last place of a character is fixed by its two properties.
pub proof fn lemma_last_index_of_is(s: Seq<char>, c: char, k: int)
    requires
        -1 <= k < s.len(),
        k >= 0 ==> s[k] == c,
        forall|j: int| k < j < s.len() ==> s[j] != c,
    ensures
        last_index_of(s, c) == k,
{
    lemma_last_index_of(s, c);
    let i = last_index_of(s, c);
    if i < k {
        assert(s[k] != c);
    } else if k < i {
        assert(s[i] != c);
    }
}

/// The lines one after the other, each with its line feed.
pub open spec fn with_line_feeds(v: Seq<Seq<char>>) -> Seq<char>
    decreases v.len(),
{
    if v.len() == 0 {
        Seq::empty()
    } else {
        v[0].push('\n') + with_line_feeds(v.skip(1))
    }
}

/// Lines that were written one after the other, each with its line feed, are read back as
/// they were.
pub proof fn lemma_lines_back(v: Seq<Seq<char>>)
    requires
        forall|i: int|
            0 <= i < v.len() ==> !(#[trigger] v[i]).contains('\n') && !(v[i].len() > 0
                && v[i].last() == '\r'),
    ensures
        lines_of(with_line_feeds(v)) == v,
    decreases v.len(),
{
    let s = with_line_feeds(v);
    if v.len() > 0 {
        let l = v[0];
        let rest = with_line_feeds(v.skip(1));
        let k = l.len() as int;
        assert(s[k] == '\n');
        assert forall|j: int| 0 <= j < k implies s[j] != '\n' by {
            assert(s[j] == l[j]);
            assert(l.contains(l[j]));
        }
        lemma_index_of_is(s, '\n', k);
        assert(s.take(k) =~= l);
        assert(s.skip(k + 1) =~= rest);
        assert forall|i: int| 0 <= i < v.skip(1).len() implies !(#[trigger] v.skip(1)[i]).contains(
            '\n',
        ) && !(v.skip(1)[i].len() > 0 && v.skip(1)[i].last() == '\r') by {
            assert(v.skip(1)[i] == v[i + 1]);
        }
        lemma_lines_back(v.skip(1));
        assert(seq![l] + v.skip(1) =~= v);
    } else {
        assert(v =~= Seq::<Seq<char>>::empty());
    }
}

// ---------------------------------------------------------------------------
// Parts of a text
// ---------------------------------------------------------------------------

/// A text contains what stands in its middle.
pub proof fn lemma_contains_middle(a: Seq<char>, p: Seq<char>, b: Seq<char>)
    ensures
        contains(a + p + b, p),
{
    let s = a + p + b;
    assert(s.subrange(a.len() as int, (a.len() + p.len()) as int) =~= p);
    assert(occurs_at(s, p, a.len() as int));
}

/// A text contains what its beginning contains.
pub proof fn lemma_contains_front(o: Seq<char>, s: Seq<char>, p: Seq<char>)
    requires
        o.is_prefix_of(s),
        contains(o, p),
    ensures
        contains(s, p),
{
    let i = choose|i: int| occurs_at(o, p, i);
    assert(s.subrange(i, i + p.len()) =~= o.subrange(i, i + p.len()));
    assert(occurs_at(s, p, i));
}

/// The pieces with `c` between them.
pub open spec fn rejoined(v: Seq<Seq<char>>, c: char) -> Seq<char>
    decreases v.len(),
{
    if v.len() == 0 {
        Seq::empty()
    } else if v.len() == 1 {
        v[0]
    } else {
        v[0] + seq![c] + rejoined(v.skip(1), c)
    }
}

/// The pieces of a text have none of the separators and, with one between every two, make up the
/// text again.
pub proof fn lemma_pieces_back(s: Seq<char>, c: char)
    ensures
        pieces_of(s, c).len() > 0,
        rejoined(pieces_of(s, c), c) == s,
        forall|i: int| 0 <= i < pieces_of(s, c).len() ==> !(#[trigger] pieces_of(s, c)[i]).contains(c),
    decreases s.len(),
{
    lemma_index_of(s, c);
    let k = index_of(s, c);
    let v = pieces_of(s, c);
    if k >= s.len() {
        assert(v =~= seq![s]);
        assert(!s.contains(c));
    } else {
        let rest = s.skip(k + 1);
        lemma_pieces_back(rest, c);
        let w = pieces_of(rest, c);
        assert(v.skip(1) =~= w);
        assert(s.take(k) + seq![c] + rest =~= s);
        assert(!s.take(k).contains(c));
        assert forall|i: int| 0 <= i < v.len() implies !(#[trigger] v[i]).contains(c) by {
            if i > 0 {
                assert(v[i] == w[i - 1]);
            }
        }
    }
}

proof fn lemma_stripped_start(s: Seq<char>, c: char)
    ensures
        stripped_start(s, c).len() <= s.len(),
        stripped_start(s, c) == s.skip(s.len() - stripped_start(s, c).len()),
        forall|i: int| 0 <= i < s.len() - stripped_start(s, c).len() ==> s[i] == c,
        stripped_start(s, c).len() > 0 ==> stripped_start(s, c)[0] != c,
    decreases s.len(),
{
    if s.len() > 0 && s[0] == c {
        let t = s.skip(1);
        lemma_stripped_start(t, c);
        let r = stripped_start(t, c);
        assert(r =~= s.skip(s.len() - r.len()));
        assert forall|i: int| 0 <= i < s.len() - r.len() implies s[i] == c by {
            if i > 0 {
                assert(t[i - 1] == s[i]);
            }
        }
    } else {
        assert(s.skip(0) =~= s);
    }
}

proof fn lemma_stripped_end(s: Seq<char>, c: char)
    ensures
        stripped_end(s, c).len() <= s.len(),
        stripped_end(s, c) == s.take(stripped_end(s, c).len() as int),
        forall|i: int| stripped_end(s, c).len() <= i < s.len() ==> s[i] == c,
        stripped_end(s, c).len() > 0 ==> stripped_end(s, c).last() != c,
    decreases s.len(),
{
    if s.len() > 0 && s.last() == c {
        let t = s.drop_last();
        lemma_stripped_end(t, c);
        let r = stripped_end(t, c);
        assert(r =~= s.take(r.len() as int));
        assert forall|i: int| r.len() <= i < s.len() implies s[i] == c by {
            if i < t.len() {
                assert(t[i] == s[i]);
            }
        }
    } else {
        assert(s.take(s.len() as int) =~= s);
    }
}

/// A text between two runs of `c`, which neither starts nor ends with it, is what is left when
/// the runs are taken off.
pub proof fn lemma_stripped_of(s: Seq<char>, c: char)
    requires
        s.len() > 0 ==> s[0] != c && s.last() != c,
    ensures
        stripped(s, c) == s,
        stripped(seq![c] + s + seq![c], c) == s,
{
    let t = seq![c] + s + seq![c];
    lemma_stripped_start(s, c);
    lemma_stripped_start(t, c);
    assert(s.skip(0) =~= s);
    let a = stripped_start(s, c);
    if s.len() > 0 {
        if a.len() < s.len() {
            assert(s[0] == c);
        }
    }
    assert(a =~= s);
    lemma_stripped_end(s, c);
    let b = stripped_end(s, c);
    if s.len() > 0 && b.len() < s.len() {
        assert(s[s.len() - 1] == c);
    }
    assert(s.take(s.len() as int) =~= s);
    assert(b =~= s);
    let u = stripped_start(t, c);
    if s.len() > 0 {
        assert(t[0] == c && t[1] == s[0]);
        if u.len() == t.len() {
            assert(u[0] == t[0]);
        }
        if u.len() < t.len() - 1 {
            assert(t[1] == c);
        }
        assert(u =~= s + seq![c]);
        lemma_stripped_end(u, c);
        let e = stripped_end(u, c);
        assert(u[s.len() as int] == c && u[s.len() - 1] == s.last());
        if e.len() == u.len() {
            assert(e.last() == c);
        }
        if e.len() < s.len() {
            assert(u[s.len() - 1] == c);
        }
        assert(e =~= s);
    } else {
        assert(t =~= seq![c, c]);
        if u.len() > 0 {
            assert(u[0] == t[t.len() - u.len()]);
        }
        assert(u =~= s);
        lemma_stripped_end(u, c);
    }
}

/// A number is read as it is written: in base ten, or in base sixteen behind `0x`.
pub proof fn lemma_hex_or_dec(n: u64)
    ensures
        hex_or_dec_of(crate::numerals::decimal(n as nat)) == Some(n as int),
        hex_or_dec_of("0x"@ + crate::numerals::hex(n as nat)) == Some(n as int),
{
    crate::numerals::lemma_written_then_read(n as nat, u64::MAX as int);
    crate::numerals::lemma_numeral_back(n as nat, 10, false);
    reveal_strlit("0x");
    let d = crate::numerals::decimal(n as nat);
    if starts_with(d, "0x"@) {
        assert(d.take(2)[1] == 'x');
        assert(d[1] == 'x');
        assert(digit_value(d[1], 10) >= 0);
    }
    let h = crate::numerals::hex(n as nat);
    assert(("0x"@ + h).take(2) =~= "0x"@);
    assert(("0x"@ + h).skip(2) =~= h);
}

/// Joining texts is associative.
pub proof fn lemma_join3(h: Seq<char>, t: Seq<char>, a: Seq<char>, b: Seq<char>, c: Seq<char>)
    ensures
        h + t + a + b + c == h + (t + a + b + c),
{
    assert(h + t + a + b + c =~= h + (t + a + b + c));
}

/// Joining texts is associative.
pub proof fn lemma_join5(
    h: Seq<char>,
    t: Seq<char>,
    a: Seq<char>,
    b: Seq<char>,
    c: Seq<char>,
    d: Seq<char>,
    e: Seq<char>,
)
    ensures
        h + t + a + b + c + d + e == h + (t + a + b + c + d + e),
{
    lemma_join3(h, t, a, b, c);
    let m = t + a + b + c;
    assert(h + m + d + e =~= h + (m + d + e));
}

/// A text begins with its front and contains its end.
pub proof fn lemma_ends_with(h: Seq<char>, t: Seq<char>)
    ensures
        contains(h + t, t),
        h.is_prefix_of(h + t),
{
    lemma_contains_middle(h, t, Seq::empty());
    assert(h + t + Seq::empty() =~= h + t);
    assert(h =~= (h + t).subrange(0, h.len() as int));
}

/// What a beginning begins with, the whole begins with.
pub proof fn lemma_prefix_step(o: Seq<char>, a: Seq<char>, b: Seq<char>)
    requires
        o.is_prefix_of(a),
        a.is_prefix_of(b),
    ensures
        o.is_prefix_of(b),
{
    assert(o =~= b.subrange(0, o.len() as int));
}


/// Joining texts is associative.
pub proof fn lemma_join7(
    h: Seq<char>,
    a: Seq<char>,
    b: Seq<char>,
    c: Seq<char>,
    d: Seq<char>,
    e: Seq<char>,
    f: Seq<char>,
    g: Seq<char>,
)
    ensures
        h + a + b + c + d + e + f + g == h + (a + b + c + d + e + f + g),
{
    lemma_join3(h, a, b, c, d);
    let m = a + b + c + d;
    lemma_join3(h, m, e, f, g);
}

/// A text begins with what it was before more was joined to it.
pub proof fn lemma_prefix1(o: Seq<char>, h: Seq<char>, a: Seq<char>)
    requires
        o.is_prefix_of(h),
    ensures
        o.is_prefix_of(h + a),
{
    assert(o =~= (h + a).subrange(0, o.len() as int));
}

/// A text begins with what it was before more was joined to it.
pub proof fn lemma_prefix3(o: Seq<char>, h: Seq<char>, a: Seq<char>, b: Seq<char>, c: Seq<char>)
    requires
        o.is_prefix_of(h),
    ensures
        o.is_prefix_of(h + a + b + c),
{
    lemma_prefix1(o, h, a);
    lemma_prefix1(o, h + a, b);
    lemma_prefix1(o, h + a + b, c);
}

/// A text begins with what it was before more was joined to it.
pub proof fn lemma_prefix5(
    o: Seq<char>,
    h: Seq<char>,
    a: Seq<char>,
    b: Seq<char>,
    c: Seq<char>,
    d: Seq<char>,
    e: Seq<char>,
)
    requires
        o.is_prefix_of(h),
    ensures
        o.is_prefix_of(h + a + b + c + d + e),
{
    lemma_prefix3(o, h, a, b, c);
    lemma_prefix1(o, h + a + b + c, d);
    lemma_prefix1(o, h + a + b + c + d, e);
}

/// A text begins with itself.
pub proof fn lemma_prefix_self(o: Seq<char>)
    ensures
        o.is_prefix_of(o),
{
    assert(o =~= o.subrange(0, o.len() as int));
}

/// Whether one text begins with another.
#[verifier::opaque]
pub open spec fn leads(o: Seq<char>, t: Seq<char>) -> bool {
    o.is_prefix_of(t)
}

/// A text still begins as it did once more was joined to it.
pub broadcast proof fn lemma_leads_more(o: Seq<char>, h: Seq<char>, a: Seq<char>)
    requires
        leads(o, h),
    ensures
        #[trigger] leads(o, h + a),
{
    reveal(leads);
    lemma_prefix1(o, h, a);
}

/// A text begins with itself.
pub broadcast proof fn lemma_leads_self(o: Seq<char>)
    ensures
        #[trigger] leads(o, o),
{
    reveal(leads);
    lemma_prefix_self(o);
}

/// What a text that begins with another contains, the longer one contains.
pub proof fn lemma_leads_contains(o: Seq<char>, t: Seq<char>, p: Seq<char>)
    requires
        leads(o, t),
        contains(o, p),
    ensures
        contains(t, p),
{
    reveal(leads);
    lemma_contains_front(o, t, p);
}

} // verus!
