//! Upper and lower case, and the name styles built on them.

use vstd::prelude::*;

verus! {

// ---------------------------------------------------------------------------
// What the standard library says of single characters
// ---------------------------------------------------------------------------

/// The upper-case form of a character, as `char::to_uppercase` gives it.
pub uninterp spec fn upper_of(c: char) -> Seq<char>;

/// The lower-case form of a character, as `char::to_lowercase` gives it.
pub uninterp spec fn lower_of(c: char) -> Seq<char>;

/// Whether a character counts as upper case, as `char::is_uppercase` says.
pub uninterp spec fn is_upper(c: char) -> bool;

/// `char::to_uppercase`: the Unicode upper-case mapping of one character, which is
/// one to three characters long. On ASCII it maps `a`..`z` to `A`..`Z` and leaves
/// every other character as it is.
#[verifier::external_body]
fn upper(c: char) -> (out: Vec<char>)
    ensures
        out@ == upper_of(c),
        'a' as u32 <= c as u32 <= 'z' as u32 ==> out@ == seq![((c as u32 - 32) as u32) as char],
        (c as u32) < 128 && !('a' as u32 <= c as u32 <= 'z' as u32) ==> out@ == seq![c],
{
    c.to_uppercase().collect()
}

/// `char::to_lowercase`: the Unicode lower-case mapping of one character. On ASCII it
/// maps `A`..`Z` to `a`..`z` and leaves every other character as it is.
#[verifier::external_body]
fn lower(c: char) -> (out: Vec<char>)
    ensures
        out@ == lower_of(c),
        'A' as u32 <= c as u32 <= 'Z' as u32 ==> out@ == seq![((c as u32 + 32) as u32) as char],
        (c as u32) < 128 && !('A' as u32 <= c as u32 <= 'Z' as u32) ==> out@ == seq![c],
{
    c.to_lowercase().collect()
}

/// `char::is_uppercase`: whether a character has the Unicode property `Uppercase`. Of
/// the ASCII characters these are `A`..`Z`.
#[verifier::external_body]
fn upper_case(c: char) -> (r: bool)
    ensures
        r == is_upper(c),
        (c as u32) < 128 ==> r == ('A' as u32 <= c as u32 <= 'Z' as u32),
{
    c.is_uppercase()
}

// ---------------------------------------------------------------------------
// Name styles
// ---------------------------------------------------------------------------

/// The upper-case form of a text, character by character.
pub open spec fn uppercase(s: Seq<char>) -> Seq<char>
    decreases s.len(),
{
    if s.len() == 0 {
        Seq::empty()
    } else {
        uppercase(s.drop_last()) + upper_of(s.last())
    }
}

/// Whether a word starts at index `n` of `s`: nothing, or a separator, stands before it.
pub open spec fn word_starts(s: Seq<char>, n: int) -> bool {
    n <= 0 || s[n - 1] == '_' || s[n - 1] == '-'
}

/// A name in `PascalCase`: separators (`_`, `-`) are left out, and each character that
/// follows one, and the first, is in upper case.
pub open spec fn pascal(s: Seq<char>) -> Seq<char>
    decreases s.len(),
{
    if s.len() == 0 {
        Seq::empty()
    } else {
        let c = s.last();
        let head = pascal(s.drop_last());
        if c == '_' || c == '-' {
            head
        } else if word_starts(s, s.len() - 1) {
            head + upper_of(c)
        } else {
            head.push(c)
        }
    }
}

/// A name in `snake_case`: every character in lower case, with `_` before each
/// upper-case character but the first.
pub open spec fn snake(s: Seq<char>) -> Seq<char>
    decreases s.len(),
{
    if s.len() == 0 {
        Seq::empty()
    } else {
        let c = s.last();
        let head = snake(s.drop_last());
        if is_upper(c) && s.len() > 1 {
            head.push('_') + lower_of(c)
        } else {
            head + lower_of(c)
        }
    }
}

/// `s` with `-` for every `_`.
pub open spec fn dashed(s: Seq<char>) -> Seq<char> {
    s.map_values(
        |c: char|
            if c == '_' {
                '-'
            } else {
                c
            },
    )
}

/// A name in `kebab-case`.
pub open spec fn kebab(s: Seq<char>) -> Seq<char> {
    dashed(snake(s))
}

// ---------------------------------------------------------------------------
// Name styles on ASCII
// ---------------------------------------------------------------------------

/// Whether all characters are ASCII.
pub open spec fn all_ascii(s: Seq<char>) -> bool {
    forall|i: int| 0 <= i < s.len() ==> (#[trigger] s[i] as u32) < 128
}

/// `a`..`z` in upper case; every other character as it is.
pub open spec fn ascii_upper(c: char) -> char {
    if 'a' as u32 <= c as u32 <= 'z' as u32 {
        ((c as u32 - 32) as u32) as char
    } else {
        c
    }
}

/// `A`..`Z` in lower case; every other character as it is.
pub open spec fn ascii_lower(c: char) -> char {
    if is_ascii_upper(c) {
        ((c as u32 + 32) as u32) as char
    } else {
        c
    }
}

/// Whether a character is one of `A`..`Z`.
pub open spec fn is_ascii_upper(c: char) -> bool {
    'A' as u32 <= c as u32 <= 'Z' as u32
}

/// An ASCII text in upper case.
pub open spec fn ascii_uppercase(s: Seq<char>) -> Seq<char> {
    s.map_values(|c: char| ascii_upper(c))
}

/// An ASCII name in `PascalCase`.
pub open spec fn ascii_pascal(s: Seq<char>) -> Seq<char>
    decreases s.len(),
{
    if s.len() == 0 {
        Seq::empty()
    } else {
        let c = s.last();
        let head = ascii_pascal(s.drop_last());
        if c == '_' || c == '-' {
            head
        } else if word_starts(s, s.len() - 1) {
            head.push(ascii_upper(c))
        } else {
            head.push(c)
        }
    }
}

/// An ASCII name in `snake_case`.
pub open spec fn ascii_snake(s: Seq<char>) -> Seq<char>
    decreases s.len(),
{
    if s.len() == 0 {
        Seq::empty()
    } else {
        let c = s.last();
        let head = ascii_snake(s.drop_last());
        if is_ascii_upper(c) && s.len() > 1 {
            head.push('_').push(ascii_lower(c))
        } else {
            head.push(ascii_lower(c))
        }
    }
}

/// An ASCII name in `kebab-case`.
pub open spec fn ascii_kebab(s: Seq<char>) -> Seq<char> {
    dashed(ascii_snake(s))
}

fn extend(out: &mut Vec<char>, more: &Vec<char>)
    ensures
        final(out)@ == old(out)@ + more@,
{
    let ghost before = out@;
    let mut i: usize = 0;
    while i < more.len()
        invariant
            i <= more@.len(),
            out@ == before + more@.take(i as int),
        decreases more@.len() - i,
    {
        out.push(more[i]);
        i += 1;
    }
    assert(more@.take(i as int) =~= more@);
}

/// The upper-case form of a text.
pub fn to_upper(s: &str) -> (out: String)
    ensures
        out@ == uppercase(s@),
        all_ascii(s@) ==> out@ == ascii_uppercase(s@),
{
    let v = crate::text::chars_of(s);
    let mut out: Vec<char> = Vec::new();
    let mut i: usize = 0;
    while i < v.len()
        invariant
            i <= v@.len(),
            out@ == uppercase(v@.take(i as int)),
            all_ascii(v@) ==> out@ == ascii_uppercase(v@.take(i as int)),
        decreases v@.len() - i,
    {
        let u = upper(v[i]);
        assert(v@.take(i + 1).drop_last() =~= v@.take(i as int));
        extend(&mut out, &u);
        assert(all_ascii(v@) ==> out@ =~= ascii_uppercase(v@.take(i + 1))) by {
            if all_ascii(v@) {
                assert((v@[i as int] as u32) < 128);
                assert(u@ =~= seq![ascii_upper(v@[i as int])]);
                assert(v@.take(i + 1) =~= v@.take(i as int).push(v@[i as int]));
            }
        }
        i += 1;
    }
    assert(v@.take(i as int) =~= v@);
    crate::text::string_of(&out)
}

/// A name in `PascalCase`.
pub fn to_pascal(s: &str) -> (out: String)
    ensures
        out@ == pascal(s@),
        all_ascii(s@) ==> out@ == ascii_pascal(s@),
{
    let v = crate::text::chars_of(s);
    let mut out: Vec<char> = Vec::new();
    let mut cap = true;
    let mut i: usize = 0;
    while i < v.len()
        invariant
            i <= v@.len(),
            out@ == pascal(v@.take(i as int)),
            all_ascii(v@) ==> out@ == ascii_pascal(v@.take(i as int)),
            cap == word_starts(v@, i as int),
        decreases v@.len() - i,
    {
        let c = v[i];
        assert(v@.take(i + 1).drop_last() =~= v@.take(i as int));
        assert(word_starts(v@.take(i + 1), i as int) == word_starts(v@, i as int));
        if c == '_' || c == '-' {
            cap = true;
        } else if cap {
            let u = upper(c);
            let ghost head = out@;
            extend(&mut out, &u);
            assert(all_ascii(v@) ==> out@ =~= head.push(ascii_upper(c))) by {
                assert(v@[i as int] == c);
            }
            cap = false;
        } else {
            out.push(c);
        }
        i += 1;
    }
    assert(v@.take(i as int) =~= v@);
    crate::text::string_of(&out)
}

fn snake_chars(v: &Vec<char>) -> (out: Vec<char>)
    ensures
        out@ == snake(v@),
        all_ascii(v@) ==> out@ == ascii_snake(v@),
{
    let mut out: Vec<char> = Vec::new();
    let mut i: usize = 0;
    while i < v.len()
        invariant
            i <= v@.len(),
            out@ == snake(v@.take(i as int)),
            all_ascii(v@) ==> out@ == ascii_snake(v@.take(i as int)),
        decreases v@.len() - i,
    {
        let c = v[i];
        assert(v@.take(i + 1).drop_last() =~= v@.take(i as int));
        if upper_case(c) && i > 0 {
            out.push('_');
        }
        let l = lower(c);
        let ghost head = out@;
        extend(&mut out, &l);
        assert(all_ascii(v@) ==> out@ =~= head.push(ascii_lower(c))) by {
            assert(v@[i as int] == c);
        }
        i += 1;
    }
    assert(v@.take(i as int) =~= v@);
    out
}

/// A name in `snake_case`.
pub fn to_snake(s: &str) -> (out: String)
    ensures
        out@ == snake(s@),
        all_ascii(s@) ==> out@ == ascii_snake(s@),
{
    let v = crate::text::chars_of(s);
    let out = snake_chars(&v);
    crate::text::string_of(&out)
}

/// A name in `kebab-case`.
pub fn to_kebab(s: &str) -> (out: String)
    ensures
        out@ == kebab(s@),
        all_ascii(s@) ==> out@ == ascii_kebab(s@),
{
    let v = crate::text::chars_of(s);
    let mut out = snake_chars(&v);
    let ghost plain = out@;
    let mut i: usize = 0;
    while i < out.len()
        invariant
            i <= out@.len(),
            out@.len() == plain.len(),
            forall|j: int| 0 <= j < i ==> out@[j] == dashed(plain)[j],
            forall|j: int| i <= j < out@.len() ==> out@[j] == plain[j],
        decreases out@.len() - i,
    {
        if out[i] == '_' {
            out.set(i, '-');
        }
        i += 1;
    }
    assert(out@ =~= dashed(plain));
    crate::text::string_of(&out)
}

// ---------------------------------------------------------------------------
// Laws
// ---------------------------------------------------------------------------

/// Whether a character is one of `a`..`z`.
pub open spec fn is_small(c: char) -> bool {
    'a' as u32 <= c as u32 <= 'z' as u32
}

/// Whether a name is made of words of `a`..`z` and `0`..`9` with one `_` between two words, each
/// word starting with a letter. The last character may be that `_`.
pub open spec fn is_snake(s: Seq<char>) -> bool {
    forall|i: int|
        0 <= i < s.len() ==> {
            ||| is_small(#[trigger] s[i])
            ||| '0' as u32 <= s[i] as u32 <= '9' as u32 && i > 0 && s[i - 1] != '_'
            ||| s[i] == '_' && i > 0 && s[i - 1] != '_'
        }
}

proof fn lemma_upper_lower(c: char)
    requires
        is_small(c),
    ensures
        is_ascii_upper(ascii_upper(c)),
        ascii_lower(ascii_upper(c)) == c,
{
}

/// `PascalCase` and `snake_case` undo each other: a name in `snake_case` that ends in a word is
/// what its `PascalCase` gives in `snake_case`.
pub proof fn lemma_snake_back(s: Seq<char>)
    requires
        is_snake(s),
    ensures
        s.len() == 0 || s.last() != '_' ==> ascii_snake(ascii_pascal(s)) == s,
        s.len() > 0 && s.last() == '_' ==> ascii_snake(ascii_pascal(s)) == s.drop_last(),
        s.len() > 0 ==> ascii_pascal(s).len() > 0,
        s.len() == 0 ==> ascii_pascal(s).len() == 0,
    decreases s.len(),
{
    if s.len() > 0 {
        let c = s.last();
        let h = s.drop_last();
        assert forall|i: int| 0 <= i < h.len() implies {
            ||| is_small(#[trigger] h[i])
            ||| '0' as u32 <= h[i] as u32 <= '9' as u32 && i > 0 && h[i - 1] != '_'
            ||| h[i] == '_' && i > 0 && h[i - 1] != '_'
        } by {
            assert(s[i] == h[i]);
            if i > 0 {
                assert(s[i - 1] == h[i - 1]);
            }
        }
        lemma_snake_back(h);
        assert(s[s.len() - 1] == c);
        let p = ascii_pascal(h);
        if c == '_' {
            assert(h.len() > 0);
        } else if word_starts(s, s.len() - 1) {
            let q = p.push(ascii_upper(c));
            assert(q.drop_last() =~= p);
            assert(is_small(c));
            lemma_upper_lower(c);
            if h.len() > 0 {
                assert(h.last() == '_');
                assert(ascii_snake(q) =~= h.drop_last().push('_').push(c));
                assert(h.drop_last().push('_').push(c) =~= s);
            } else {
                assert(ascii_snake(p) =~= Seq::empty());
                assert(ascii_snake(q) =~= seq![c]);
                assert(s =~= seq![c]);
            }
        } else {
            let q = p.push(c);
            assert(q.drop_last() =~= p);
            assert(h.last() == s[s.len() - 2]);
            assert(ascii_snake(q) =~= h.push(c));
            assert(h.push(c) =~= s);
        }
    }
}

/// A name in `kebab-case` has no `_`.
pub proof fn lemma_kebab(s: Seq<char>, i: int)
    requires
        0 <= i < snake(s).len(),
    ensures
        kebab(s).len() == snake(s).len(),
        snake(s)[i] == '_' ==> kebab(s)[i] == '-',
        snake(s)[i] != '_' ==> kebab(s)[i] == snake(s)[i],
{
}

} // verus!
