//! The rules that the source of a user-mode driver keeps: no unsafe code, no way to the
//! raw system calls, no way to the raw register modules.
//!
//! The rules speak of the nodes of a source text; how a text is taken apart into them is
//! told in `driver_source`.

use crate::driver_source::{
    nodes_in, parse_file, parse_root_attributes, root_attributes_in, syntax_error, syntax_message,
    AttributePath, ImportTree, LintAttribute, Node, Token,
};
use crate::numerals::{dec, decimal};
use crate::text::{after_prefix, chars_of, copy_of, same_text, starts_with, string_of};
use crate::writer::{put2, put3, put5};
use vstd::prelude::*;

verus! {

/// One import: the segments up to the item, and the item's own name.
pub struct UseLeaf {
    pub path: Vec<String>,
    pub leaf: String,
}

/// A source file: its path, and its text, or why it could not be read.
pub struct SourceFile {
    pub path: String,
    pub text: Result<String, String>,
}

// ---------------------------------------------------------------------------
// Names
// ---------------------------------------------------------------------------

/// A name without the prefix of its raw spelling.
pub open spec fn plain_name(s: Seq<char>) -> Seq<char> {
    if starts_with(s, "r#"@) {
        s.skip(2)
    } else {
        s
    }
}

/// The raw spelling of a name is the same name.
pub proof fn lemma_raw_spelling(s: Seq<char>)
    ensures
        plain_name("r#"@ + s) == s,
{
    reveal_strlit("r#");
    let raw = "r#"@ + s;
    assert(raw.subrange(0, "r#"@.len() as int) =~= "r#"@);
    assert(raw.skip(2) =~= s);
}

/// Strips the prefix of a name's raw spelling.
pub fn ident_str(s: &str) -> (out: String)
    ensures
        out@ == plain_name(s@),
{
    let chars = chars_of(s);
    proof {
        reveal_strlit("r#");
        assert("r#"@.len() == 2);
    }
    match after_prefix(&chars, "r#") {
        Some(rest) => string_of(&rest),
        None => copy_of(s),
    }
}

/// The names of a path without the prefixes of raw spellings.
pub open spec fn plain_names(v: Seq<Seq<char>>) -> Seq<Seq<char>> {
    Seq::new(v.len(), |i: int| plain_name(v[i]))
}

fn push_text(v: &mut Vec<String>, s: String)
    ensures
        final(v).deep_view() == old(v).deep_view().push(s@),
{
    let ghost before = v.deep_view();
    v.push(s);
    assert(v.deep_view() =~= before.push(s@));
}

fn plain_segments(v: &Vec<String>) -> (out: Vec<String>)
    ensures
        out.deep_view() == plain_names(v.deep_view()),
{
    let mut out: Vec<String> = Vec::new();
    let mut i: usize = 0;
    while i < v.len()
        invariant
            i <= v@.len(),
            out@.len() == i,
            forall|k: int| 0 <= k < i ==> #[trigger] out@[k]@ == plain_name(v@[k]@),
        decreases v@.len() - i,
    {
        out.push(ident_str(v[i].as_str()));
        i += 1;
    }
    assert(out.deep_view() =~= plain_names(v.deep_view()));
    out
}

/// The names with `::` between them.
pub open spec fn joined(v: Seq<Seq<char>>) -> Seq<char>
    decreases v.len(),
{
    if v.len() == 0 {
        Seq::empty()
    } else if v.len() == 1 {
        v[0]
    } else {
        joined(v.drop_last()) + "::"@ + v.last()
    }
}

fn join_path(v: &Vec<String>) -> (out: String)
    ensures
        out@ == joined(v.deep_view()),
{
    let ghost names = v.deep_view();
    let mut out = String::new();
    let mut i: usize = 0;
    while i < v.len()
        invariant
            names == v.deep_view(),
            i <= v@.len(),
            out@ == joined(names.take(i as int)),
        decreases v@.len() - i,
    {
        assert(names.take(i + 1).drop_last() =~= names.take(i as int));
        assert(names.take(i + 1).last() == v@[i as int]@);
        if i > 0 {
            put2(&mut out, "::", v[i].as_str());
        } else {
            assert(names.take(1)[0] == v@[0]@);
            out = copy_of(v[i].as_str());
        }
        i += 1;
    }
    assert(names.take(i as int) =~= names);
    out
}

// ---------------------------------------------------------------------------
// The lists of the rules
// ---------------------------------------------------------------------------

/// The system calls that a driver may name.
pub open spec fn is_allowed_call(name: Seq<char>) -> bool {
    name == "sys_exit"@ || name == "sys_debug_puts"@
}

/// The list of those calls, as the findings show it.
pub const ALLOWED_CALLS: &'static str = "[\"sys_exit\", \"sys_debug_puts\"]";

/// The crates of the banned modules, as the findings show them.
pub const BANNED_CRATES: &'static str = "[\"lockjaw_regs\"]";

fn allowed_call(name: &str) -> (r: bool)
    ensures
        r == is_allowed_call(name@),
{
    same_text(name, "sys_exit") || same_text(name, "sys_debug_puts")
}

/// The modules that a driver may not name, each with its crate.
pub open spec fn banned_paths() -> Seq<(Seq<char>, Seq<char>)> {
    seq![
        ("lockjaw_regs"@, "sdhci"@),
        ("lockjaw_regs"@, "pl011"@),
        ("lockjaw_regs"@, "cprman"@),
        ("lockjaw_regs"@, "fw_cfg"@),
        ("lockjaw_regs"@, "virtio_mmio"@),
    ]
}

fn banned_path(k: usize) -> (r: (String, String))
    requires
        k < banned_paths().len(),
    ensures
        (r.0@, r.1@) == banned_paths()[k as int],
{
    let module = if k == 0 {
        "sdhci"
    } else if k == 1 {
        "pl011"
    } else if k == 2 {
        "cprman"
    } else if k == 3 {
        "fw_cfg"
    } else {
        "virtio_mmio"
    };
    (copy_of("lockjaw_regs"), copy_of(module))
}

/// Whether a crate holds a banned module.
pub open spec fn is_banned_crate(name: Seq<char>) -> bool {
    exists|k: int| 0 <= k < banned_paths().len() && (#[trigger] banned_paths()[k]).0 == name
}

fn banned_crate(name: &str) -> (r: bool)
    ensures
        r == is_banned_crate(name@),
{
    let r = same_text(name, "lockjaw_regs");
    proof {
        if r {
            assert(banned_paths()[0].0 == name@);
        }
    }
    r
}

/// Whether segments `i` and `i + 1` name a banned module.
pub open spec fn banned_at(segs: Seq<Seq<char>>, i: int) -> bool {
    0 <= i && i + 1 < segs.len() && banned_paths().contains((segs[i], segs[i + 1]))
}

/// The first place from `i` on where two segments name a banned module, or the number of
/// segments.
pub open spec fn banned_from(segs: Seq<Seq<char>>, i: int) -> int
    decreases segs.len() - i,
{
    if i < 0 || i >= segs.len() {
        segs.len() as int
    } else if banned_at(segs, i) {
        i
    } else {
        banned_from(segs, i + 1)
    }
}

fn banned_pair(a: &str, b: &str) -> (r: bool)
    ensures
        r == banned_paths().contains((a@, b@)),
{
    let mut k: usize = 0;
    while k < 5
        invariant
            k <= 5,
            forall|j: int| 0 <= j < k ==> banned_paths()[j] != (a@, b@),
        decreases 5 - k,
    {
        let p = banned_path(k);
        if same_text(a, p.0.as_str()) && same_text(b, p.1.as_str()) {
            assert(banned_paths()[k as int] == (a@, b@));
            return true;
        }
        k += 1;
    }
    assert(!banned_paths().contains((a@, b@)));
    false
}

/// The first place where two segments name a banned module.
pub fn first_banned_pair(segs: &Vec<String>) -> (r: Option<usize>)
    ensures
        match r {
            Some(i) => i == banned_from(segs.deep_view(), 0) && banned_at(
                segs.deep_view(),
                i as int,
            ),
            None => banned_from(segs.deep_view(), 0) == segs@.len(),
        },
{
    let ghost names = segs.deep_view();
    let mut i: usize = 0;
    while i < segs.len()
        invariant
            names == segs.deep_view(),
            i <= segs@.len(),
            banned_from(names, 0) == banned_from(names, i as int),
        decreases segs@.len() - i,
    {
        if i < segs.len() - 1 {
            assert(names[i as int] == segs@[i as int]@ && names[i + 1] == segs@[i + 1]@);
            if banned_pair(segs[i].as_str(), segs[i + 1].as_str()) {
                return Some(i);
            }
        }
        i += 1;
    }
    None
}

// ---------------------------------------------------------------------------
// Attributes
// ---------------------------------------------------------------------------

/// Whether a path is the given name and nothing more.
pub open spec fn is_lone(p: AttributePath, name: Seq<char>) -> bool {
    !p.rooted && p.names@.len() == 1 && p.names@[0]@ == name
}

fn lone(p: &AttributePath, name: &str) -> (r: bool)
    ensures
        r == is_lone(*p, name@),
{
    !p.rooted && p.names.len() == 1 && same_text(p.names[0].as_str(), name)
}

impl LintAttribute {
    /// Whether the attribute has the given name and lists the given lint.
    pub open spec fn mentions(self, name: Seq<char>, lint: Seq<char>) -> bool {
        is_lone(self.path, name) && exists|i: int|
            0 <= i < self.list@.len() && is_lone(#[trigger] self.list@[i], lint)
    }
}

/// Whether an attribute has the given name and lists the given lint.
pub fn attr_matches_lint(a: &LintAttribute, name: &str, lint: &str) -> (r: bool)
    ensures
        r == a.mentions(name@, lint@),
{
    if !lone(&a.path, name) {
        return false;
    }
    let mut i: usize = 0;
    while i < a.list.len()
        invariant
            i <= a.list@.len(),
            is_lone(a.path, name@),
            forall|k: int| 0 <= k < i ==> !is_lone(#[trigger] a.list@[k], lint@),
        decreases a.list@.len() - i,
    {
        if lone(&a.list[i], lint) {
            assert(is_lone(a.list@[i as int], lint@));
            return true;
        }
        i += 1;
    }
    false
}

/// Whether attribute `i` denies unsafe code for what it stands in.
pub open spec fn denies_at(attrs: Seq<LintAttribute>, i: int) -> bool {
    attrs[i].inner && attrs[i].mentions("deny"@, "unsafe_code"@)
}

/// Whether a file denies unsafe code.
pub open spec fn denies_unsafe(attrs: Seq<LintAttribute>) -> bool {
    exists|i: int| 0 <= i < attrs.len() && #[trigger] denies_at(attrs, i)
}

/// Whether a file denies unsafe code.
pub fn has_inner_deny_unsafe_code(attrs: &Vec<LintAttribute>) -> (r: bool)
    ensures
        r == denies_unsafe(attrs@),
{
    let mut i: usize = 0;
    while i < attrs.len()
        invariant
            i <= attrs@.len(),
            forall|k: int| 0 <= k < i ==> !denies_at(attrs@, k),
        decreases attrs@.len() - i,
    {
        if attrs[i].inner && attr_matches_lint(&attrs[i], "deny", "unsafe_code") {
            assert(denies_at(attrs@, i as int));
            return true;
        }
        i += 1;
    }
    false
}

// ---------------------------------------------------------------------------
// Imports
// ---------------------------------------------------------------------------

/// An import as plain values.
pub open spec fn leaf_view(l: UseLeaf) -> (Seq<Seq<char>>, Seq<char>) {
    (l.path.deep_view(), l.leaf@)
}

/// Imports as plain values.
pub open spec fn leaves_view(v: Seq<UseLeaf>) -> Seq<(Seq<Seq<char>>, Seq<char>)> {
    Seq::new(v.len(), |i: int| leaf_view(v[i]))
}

/// The import of `name` behind `prefix`; `self` imports the last module of the prefix.
pub open spec fn named_leaf(prefix: Seq<Seq<char>>, name: Seq<char>) -> Seq<
    (Seq<Seq<char>>, Seq<char>),
> {
    if name != "self"@ {
        seq![(prefix, name)]
    } else if prefix.len() > 0 {
        seq![(prefix.drop_last(), prefix.last())]
    } else {
        Seq::empty()
    }
}

/// The imports of a tree behind `prefix`.
pub open spec fn leaves_of(tree: ImportTree, prefix: Seq<Seq<char>>) -> Seq<
    (Seq<Seq<char>>, Seq<char>),
>
    decreases tree, 0nat,
{
    match tree {
        ImportTree::Path(name, rest) => leaves_of(*rest, prefix.push(plain_name(name@))),
        ImportTree::Name(name) => named_leaf(prefix, plain_name(name@)),
        ImportTree::Rename(name) => named_leaf(prefix, plain_name(name@)),
        ImportTree::Glob => seq![(prefix, "*"@)],
        ImportTree::Group(items) => group_leaves(items@, prefix, items@.len()),
    }
}

/// The imports of the first `n` trees of a group.
pub open spec fn group_leaves(items: Seq<ImportTree>, prefix: Seq<Seq<char>>, n: nat) -> Seq<
    (Seq<Seq<char>>, Seq<char>),
>
    decreases items, n,
{
    if n == 0 || n > items.len() {
        Seq::empty()
    } else {
        group_leaves(items, prefix, (n - 1) as nat) + leaves_of(items[n - 1], prefix)
    }
}

fn copy_names(v: &Vec<String>) -> (out: Vec<String>)
    ensures
        out.deep_view() == v.deep_view(),
{
    let mut out: Vec<String> = Vec::new();
    let mut i: usize = 0;
    while i < v.len()
        invariant
            i <= v@.len(),
            out@.len() == i,
            forall|k: int| 0 <= k < i ==> #[trigger] out@[k]@ == v@[k]@,
        decreases v@.len() - i,
    {
        out.push(copy_of(v[i].as_str()));
        i += 1;
    }
    assert(out.deep_view() =~= v.deep_view());
    out
}

fn add_leaf(leaves: &mut Vec<UseLeaf>, path: Vec<String>, leaf: String)
    ensures
        leaves_view(final(leaves)@) == leaves_view(old(leaves)@) + seq![
            (path.deep_view(), leaf@),
        ],
{
    let ghost before = leaves_view(leaves@);
    let l = UseLeaf { path, leaf };
    let ghost entry = leaf_view(l);
    leaves.push(l);
    assert(leaves_view(leaves@) =~= before + seq![entry]);
}

fn push_use_leaf(prefix: Vec<String>, name: String, leaves: &mut Vec<UseLeaf>)
    ensures
        leaves_view(final(leaves)@) == leaves_view(old(leaves)@) + named_leaf(
            prefix.deep_view(),
            name@,
        ),
{
    if same_text(name.as_str(), "self") {
        let ghost names = prefix.deep_view();
        let mut p = prefix;
        match p.pop() {
            Some(parent) => {
                assert(p.deep_view() =~= names.drop_last());
                assert(parent@ == names.last());
                add_leaf(leaves, p, parent);
            },
            None => {
                assert(leaves_view(leaves@) + Seq::<(Seq<Seq<char>>, Seq<char>)>::empty()
                    =~= leaves_view(leaves@));
            },
        }
    } else {
        add_leaf(leaves, prefix, name);
    }
}

/// Adds the imports of a tree behind `prefix`.
pub fn walk_use_tree(tree: &ImportTree, prefix: Vec<String>, leaves: &mut Vec<UseLeaf>)
    ensures
        leaves_view(final(leaves)@) == leaves_view(old(leaves)@) + leaves_of(
            *tree,
            prefix.deep_view(),
        ),
    decreases tree,
{
    match tree {
        ImportTree::Path(name, rest) => {
            let mut next = prefix;
            push_text(&mut next, ident_str(name.as_str()));
            walk_use_tree(rest, next, leaves);
        },
        ImportTree::Name(name) => {
            push_use_leaf(prefix, ident_str(name.as_str()), leaves);
        },
        ImportTree::Rename(name) => {
            push_use_leaf(prefix, ident_str(name.as_str()), leaves);
        },
        ImportTree::Glob => {
            add_leaf(leaves, prefix, copy_of("*"));
        },
        ImportTree::Group(items) => {
            let ghost before = leaves_view(leaves@);
            let mut i: usize = 0;
            assert(before + group_leaves(items@, prefix.deep_view(), 0) =~= before);
            while i < items.len()
                invariant
                    i <= items@.len(),
                    tree == ImportTree::Group(*items),
                    leaves_view(leaves@) == before + group_leaves(
                        items@,
                        prefix.deep_view(),
                        i as nat,
                    ),
                decreases items@.len() - i,
            {
                let ghost so_far = leaves_view(leaves@);
                let p = copy_names(&prefix);
                assert(decreases_to!(items@ => items@[i as int]));
                assert(decreases_to!(tree => tree->Group_0));
                walk_use_tree(&items[i], p, leaves);
                assert(leaves_view(leaves@) =~= before + group_leaves(
                    items@,
                    prefix.deep_view(),
                    (i + 1) as nat,
                ));
                i += 1;
            }
        },
    }
}

// ---------------------------------------------------------------------------
// Macros
// ---------------------------------------------------------------------------

/// Whether a token is the given name.
pub open spec fn is_ident(t: Token, name: Seq<char>) -> bool {
    t matches Token::Ident(s) && plain_name(s@) == name
}

/// Whether a token is the given name, or holds it at any depth.
pub open spec fn token_holds_ident(t: Token, name: Seq<char>) -> bool
    decreases t, 0nat,
{
    match t {
        Token::Ident(s) => plain_name(s@) == name,
        Token::Group(inner) => holds_ident(inner@, name, inner@.len()),
        _ => false,
    }
}

/// Whether one of the first `n` tokens is the given name, or holds it at any depth.
pub open spec fn holds_ident(ts: Seq<Token>, name: Seq<char>, n: nat) -> bool
    decreases ts, n,
{
    n > 0 && n <= ts.len() && (holds_ident(ts, name, (n - 1) as nat) || token_holds_ident(
        ts[n - 1],
        name,
    ))
}

/// Whether a macro's tokens hold the given name at any depth.
pub fn token_stream_contains_ident(ts: &Vec<Token>, name: &str) -> (r: bool)
    ensures
        r == holds_ident(ts@, name@, ts@.len()),
    decreases ts,
{
    let mut i: usize = 0;
    while i < ts.len()
        invariant
            i <= ts@.len(),
            !holds_ident(ts@, name@, i as nat),
        decreases ts@.len() - i,
    {
        let found = match &ts[i] {
            Token::Ident(s) => {
                let plain = ident_str(s.as_str());
                same_text(plain.as_str(), name)
            },
            Token::Group(inner) => {
                assert(decreases_to!(ts@ => ts@[i as int]));
                assert(decreases_to!(ts@[i as int] => inner));
                token_stream_contains_ident(inner, name)
            },
            _ => false,
        };
        assert(found == token_holds_ident(ts@[i as int], name@));
        if found {
            proof {
                assert(holds_ident(ts@, name@, (i + 1) as nat));
                lemma_holds_ident_grows(ts@, name@, (i + 1) as nat, ts@.len());
            }
            return true;
        }
        i += 1;
    }
    false
}

proof fn lemma_holds_ident_grows(ts: Seq<Token>, name: Seq<char>, n: nat, m: nat)
    requires
        n <= m <= ts.len(),
        holds_ident(ts, name, n),
    ensures
        holds_ident(ts, name, m),
    decreases m,
{
    if n < m {
        lemma_holds_ident_grows(ts, name, n, (m - 1) as nat);
    }
}

/// Whether `first::second` stands at `i`.
pub open spec fn pair_at(ts: Seq<Token>, i: int, first: Seq<char>, second: Seq<char>) -> bool {
    &&& 0 <= i
    &&& i + 3 < ts.len()
    &&& is_ident(ts[i], first)
    &&& ts[i + 1] == Token::Punct(':')
    &&& ts[i + 2] == Token::Punct(':')
    &&& is_ident(ts[i + 3], second)
}

/// Whether `first::second` stands among the tokens themselves.
pub open spec fn has_pair(ts: Seq<Token>, first: Seq<char>, second: Seq<char>) -> bool {
    exists|i: int| #[trigger] pair_at(ts, i, first, second)
}

/// Whether `first::second` stands among the tokens, or within one of them at any depth.
pub open spec fn holds_pair(ts: Seq<Token>, first: Seq<char>, second: Seq<char>) -> bool
    decreases ts, ts.len() + 1,
{
    has_pair(ts, first, second) || groups_hold_pair(ts, first, second, ts.len())
}

/// Whether `first::second` stands within one of the first `n` tokens.
pub open spec fn groups_hold_pair(
    ts: Seq<Token>,
    first: Seq<char>,
    second: Seq<char>,
    n: nat,
) -> bool
    decreases ts, n,
{
    n > 0 && n <= ts.len() && (groups_hold_pair(ts, first, second, (n - 1) as nat)
        || token_holds_pair(ts[n - 1], first, second))
}

/// Whether `first::second` stands within a token.
pub open spec fn token_holds_pair(t: Token, first: Seq<char>, second: Seq<char>) -> bool
    decreases t, 0nat,
{
    match t {
        Token::Group(inner) => holds_pair(inner@, first, second),
        _ => false,
    }
}

fn same_ident(t: &Token, name: &str) -> (r: bool)
    ensures
        r == is_ident(*t, name@),
{
    match t {
        Token::Ident(s) => {
            let plain = ident_str(s.as_str());
            same_text(plain.as_str(), name)
        },
        _ => false,
    }
}

fn colon(t: &Token) -> (r: bool)
    ensures
        r == (*t == Token::Punct(':')),
{
    match t {
        Token::Punct(c) => *c == ':',
        _ => false,
    }
}

proof fn lemma_groups_hold_pair_grows(
    ts: Seq<Token>,
    first: Seq<char>,
    second: Seq<char>,
    n: nat,
    m: nat,
)
    requires
        n <= m <= ts.len(),
        groups_hold_pair(ts, first, second, n),
    ensures
        groups_hold_pair(ts, first, second, m),
    decreases m,
{
    if n < m {
        lemma_groups_hold_pair_grows(ts, first, second, n, (m - 1) as nat);
    }
}

/// Whether a macro's tokens hold `first::second` at any depth.
pub fn token_stream_contains_pair(ts: &Vec<Token>, first: &str, second: &str) -> (r: bool)
    ensures
        r == holds_pair(ts@, first@, second@),
    decreases ts,
{
    let mut i: usize = 0;
    while i < ts.len()
        invariant
            i <= ts@.len(),
            forall|k: int| 0 <= k < i ==> !pair_at(ts@, k, first@, second@),
        decreases ts@.len() - i,
    {
        if ts.len() - i > 3 && same_ident(&ts[i], first) && colon(&ts[i + 1]) && colon(
            &ts[i + 2],
        ) && same_ident(&ts[i + 3], second) {
            assert(pair_at(ts@, i as int, first@, second@));
            return true;
        }
        i += 1;
    }
    assert(!has_pair(ts@, first@, second@));
    let mut j: usize = 0;
    while j < ts.len()
        invariant
            j <= ts@.len(),
            !has_pair(ts@, first@, second@),
            !groups_hold_pair(ts@, first@, second@, j as nat),
        decreases ts@.len() - j,
    {
        match &ts[j] {
            Token::Group(inner) => {
                assert(decreases_to!(ts@ => ts@[j as int]));
                assert(decreases_to!(ts@[j as int] => inner));
                if token_stream_contains_pair(inner, first, second) {
                    proof {
                        assert(token_holds_pair(ts@[j as int], first@, second@));
                        assert(groups_hold_pair(ts@, first@, second@, (j + 1) as nat));
                        lemma_groups_hold_pair_grows(
                            ts@,
                            first@,
                            second@,
                            (j + 1) as nat,
                            ts@.len(),
                        );
                    }
                    return true;
                }
            },
            _ => {},
        }
        assert(!token_holds_pair(ts@[j as int], first@, second@));
        j += 1;
    }
    false
}

// ---------------------------------------------------------------------------
// Findings
// ---------------------------------------------------------------------------

/// The start of a finding: the file and the line.
pub open spec fn place(path: Seq<char>, line: u64) -> Seq<char> {
    path + ":"@ + decimal(line as nat) + ": "@
}

fn begin(path: &str, line: u64) -> (out: String)
    ensures
        out@ == place(path@, line),
{
    let mut out = copy_of(path);
    let n = dec(line);
    put3(&mut out, ":", n.as_str(), ": ");
    out
}

/// The finding on an attribute that allows unsafe code.
pub open spec fn allow_text(path: Seq<char>, line: u64) -> Seq<char> {
    place(path, line) + "driver source contains an allow(unsafe_code) attribute"@
}

/// The finding on an import through the `syscall` module.
pub open spec fn use_call_text(path: Seq<char>, line: u64, leaf: Seq<char>) -> Seq<char> {
    place(path, line) + "driver use statement references the `syscall` module (imports `"@ + leaf
        + "`; allowed leaf names: "@ + ALLOWED_CALLS@ + ")"@
}

/// The finding on an import through a banned module.
pub open spec fn use_banned_text(path: Seq<char>, line: u64, full: Seq<Seq<char>>) -> Seq<char> {
    let i = banned_from(full, 0);
    place(path, line) + "driver use statement references banned module path `"@ + full[i] + "::"@
        + full[i + 1] + "` (full leaf path `"@ + joined(full)
        + "`). Drivers consume these via `lockjaw_userlib::*` re-exports."@
}

/// The finding on an import of a crate that holds a banned module.
pub open spec fn use_crate_text(path: Seq<char>, line: u64, name: Seq<char>) -> Seq<char> {
    place(path, line) + "driver use statement names banned-pair crate `"@ + name
        + "` directly (`use "@ + name
        + "`). Aliasing the crate root would let a follow-up path reach a banned module under a different name; drivers consume via `lockjaw_userlib::*` re-exports instead."@
}

/// The finding on a declared crate that holds a banned module.
pub open spec fn crate_text(path: Seq<char>, line: u64, name: Seq<char>) -> Seq<char> {
    place(path, line) + "driver `extern crate "@ + name
        + "` makes a banned module path reachable (banned-pair crates: "@ + BANNED_CRATES@
        + "). Drivers consume these via `lockjaw_userlib::*` re-exports."@
}

/// The finding on a path through the `syscall` module.
pub open spec fn path_call_text(path: Seq<char>, line: u64, segs: Seq<Seq<char>>) -> Seq<char> {
    place(path, line) + "driver path `"@ + joined(segs)
        + "` references the `syscall` module (allowed leaf names: "@ + ALLOWED_CALLS@ + ")"@
}

/// The finding on a path through a banned module.
pub open spec fn path_banned_text(path: Seq<char>, line: u64, segs: Seq<Seq<char>>) -> Seq<char> {
    let i = banned_from(segs, 0);
    place(path, line) + "driver path `"@ + joined(segs) + "` references banned module path `"@
        + segs[i] + "::"@ + segs[i + 1]
        + "`. Drivers consume these via `lockjaw_userlib::*` re-exports."@
}

/// The finding on a macro that names the `syscall` module.
pub open spec fn macro_call_text(path: Seq<char>, line: u64) -> Seq<char> {
    place(path, line)
        + "driver macro body / invocation contains the `syscall` ident -- drivers may not reach the syscall module via macros (allowed leaf names: "@
        + ALLOWED_CALLS@ + ")"@
}

/// The finding on a macro that names a banned module.
pub open spec fn macro_banned_text(path: Seq<char>, line: u64, k: int) -> Seq<char> {
    place(path, line) + "driver macro body / invocation contains the `"@ + banned_paths()[k].0
        + "::"@ + banned_paths()[k].1
        + "` ident pair -- drivers may not reach banned module paths via macros."@
}

/// A list of one text where `c` holds, else the empty list.
pub open spec fn when(c: bool, text: Seq<char>) -> Seq<Seq<char>> {
    if c {
        seq![text]
    } else {
        Seq::empty()
    }
}

/// Whether an import goes through the `syscall` module to a call that is not allowed.
pub open spec fn leaf_breaks_calls(l: (Seq<Seq<char>>, Seq<char>)) -> bool {
    (l.0.contains("syscall"@) || l.1 == "syscall"@) && !is_allowed_call(l.1)
}

/// Whether an import goes through a banned module.
pub open spec fn leaf_is_banned(l: (Seq<Seq<char>>, Seq<char>)) -> bool {
    banned_from(l.0.push(l.1), 0) < l.0.len() + 1
}

/// Whether an import brings in the root of a crate that holds a banned module.
pub open spec fn leaf_is_root(l: (Seq<Seq<char>>, Seq<char>)) -> bool {
    !leaf_is_banned(l) && l.0.len() == 0 && is_banned_crate(l.1)
}

/// The findings on one import.
pub open spec fn leaf_findings(
    path: Seq<char>,
    line: u64,
    l: (Seq<Seq<char>>, Seq<char>),
) -> Seq<Seq<char>> {
    when(leaf_breaks_calls(l), use_call_text(path, line, l.1)) + when(
        leaf_is_banned(l),
        use_banned_text(path, line, l.0.push(l.1)),
    ) + when(leaf_is_root(l), use_crate_text(path, line, l.1))
}

/// The findings on the first `n` imports.
pub open spec fn leaves_findings(
    path: Seq<char>,
    line: u64,
    leaves: Seq<(Seq<Seq<char>>, Seq<char>)>,
    n: nat,
) -> Seq<Seq<char>>
    decreases n,
{
    if n == 0 {
        Seq::empty()
    } else {
        leaves_findings(path, line, leaves, (n - 1) as nat) + leaf_findings(
            path,
            line,
            leaves[n - 1],
        )
    }
}

/// Whether a path goes through the `syscall` module to a call that is not allowed.
pub open spec fn path_breaks_calls(segs: Seq<Seq<char>>) -> bool {
    segs.contains("syscall"@) && !is_allowed_call(segs.last())
}

/// Whether a path goes through a banned module.
pub open spec fn path_is_banned(segs: Seq<Seq<char>>) -> bool {
    banned_from(segs, 0) < segs.len()
}

/// The findings on a macro for the first `n` banned modules.
pub open spec fn macro_findings(path: Seq<char>, line: u64, ts: Seq<Token>, n: nat) -> Seq<
    Seq<char>,
>
    decreases n,
{
    if n == 0 {
        when(holds_ident(ts, "syscall"@, ts.len()), macro_call_text(path, line))
    } else {
        macro_findings(path, line, ts, (n - 1) as nat) + when(
            holds_pair(ts, banned_paths()[n - 1].0, banned_paths()[n - 1].1),
            macro_banned_text(path, line, n - 1),
        )
    }
}

/// The findings on one node.
pub open spec fn node_findings(path: Seq<char>, node: Node) -> Seq<Seq<char>> {
    match node {
        Node::Attribute(line, a) => when(
            a.mentions("allow"@, "unsafe_code"@),
            allow_text(path, line),
        ),
        Node::Use(line, tree) => leaves_findings(
            path,
            line,
            leaves_of(tree, Seq::empty()),
            leaves_of(tree, Seq::empty()).len(),
        ),
        Node::Crate(line, name) => when(
            is_banned_crate(plain_name(name@)),
            crate_text(path, line, plain_name(name@)),
        ),
        Node::Path(line, segs) => {
            let names = plain_names(segs.deep_view());
            when(path_breaks_calls(names), path_call_text(path, line, names)) + when(
                path_is_banned(names),
                path_banned_text(path, line, names),
            )
        },
        Node::Macro(line, ts) => macro_findings(path, line, ts@, banned_paths().len()),
    }
}

/// The findings on the first `n` nodes.
pub open spec fn nodes_findings(path: Seq<char>, nodes: Seq<Node>, n: nat) -> Seq<Seq<char>>
    decreases n,
{
    if n == 0 {
        Seq::empty()
    } else {
        nodes_findings(path, nodes, (n - 1) as nat) + node_findings(path, nodes[n - 1])
    }
}

fn find_in_leaf(path: &str, line: u64, leaf: &UseLeaf, out: &mut Vec<String>)
    ensures
        final(out).deep_view() == old(out).deep_view() + leaf_findings(
            path@,
            line,
            leaf_view(*leaf),
        ),
{
    let ghost before = out.deep_view();
    let ghost l = leaf_view(*leaf);
    if (crate::text::has_name(&leaf.path, "syscall") || same_text(leaf.leaf.as_str(), "syscall"))
        && !allowed_call(leaf.leaf.as_str()) {
        let mut s = begin(path, line);
        put5(
            &mut s,
            "driver use statement references the `syscall` module (imports `",
            leaf.leaf.as_str(),
            "`; allowed leaf names: ",
            ALLOWED_CALLS,
            ")",
        );
        push_text(out, s);
    }
    let mut full = copy_names(&leaf.path);
    push_text(&mut full, copy_of(leaf.leaf.as_str()));
    let ghost names = full.deep_view();
    assert(names == l.0.push(l.1));
    match first_banned_pair(&full) {
        Some(i) => {
            let whole = join_path(&full);
            let mut s = begin(path, line);
            assert(i + 1 < full.len());
            assert(names[i as int] == full@[i as int]@ && names[i + 1] == full@[i + 1]@);
            put5(
                &mut s,
                "driver use statement references banned module path `",
                full[i].as_str(),
                "::",
                full[i + 1].as_str(),
                "` (full leaf path `",
            );
            put2(
                &mut s,
                whole.as_str(),
                "`). Drivers consume these via `lockjaw_userlib::*` re-exports.",
            );
            push_text(out, s);
        },
        None => {
            if full.len() == 1 && banned_crate(full[0].as_str()) {
                assert(names[0] == full@[0]@);
                let mut s = begin(path, line);
                put5(
                    &mut s,
                    "driver use statement names banned-pair crate `",
                    full[0].as_str(),
                    "` directly (`use ",
                    full[0].as_str(),
                    "`). Aliasing the crate root would let a follow-up path reach a banned module under a different name; drivers consume via `lockjaw_userlib::*` re-exports instead.",
                );
                push_text(out, s);
            }
        },
    }
    assert(out.deep_view() =~= before + leaf_findings(path@, line, l));
}

fn find_in_use(path: &str, line: u64, tree: &ImportTree, out: &mut Vec<String>)
    ensures
        final(out).deep_view() == old(out).deep_view() + leaves_findings(
            path@,
            line,
            leaves_of(*tree, Seq::empty()),
            leaves_of(*tree, Seq::empty()).len(),
        ),
{
    let ghost before = out.deep_view();
    let mut leaves: Vec<UseLeaf> = Vec::new();
    let prefix: Vec<String> = Vec::new();
    assert(prefix.deep_view() =~= Seq::<Seq<char>>::empty());
    assert(leaves_view(leaves@) =~= Seq::<(Seq<Seq<char>>, Seq<char>)>::empty());
    walk_use_tree(tree, prefix, &mut leaves);
    let ghost all = leaves_of(*tree, Seq::empty());
    assert(leaves_view(leaves@) =~= all);
    let mut i: usize = 0;
    assert(before + leaves_findings(path@, line, all, 0) =~= before);
    while i < leaves.len()
        invariant
            i <= leaves@.len(),
            leaves_view(leaves@) == all,
            out.deep_view() == before + leaves_findings(path@, line, all, i as nat),
        decreases leaves@.len() - i,
    {
        assert(all[i as int] == leaf_view(leaves@[i as int]));
        find_in_leaf(path, line, &leaves[i], out);
        assert(out.deep_view() =~= before + leaves_findings(path@, line, all, (i + 1) as nat));
        i += 1;
    }
}

fn find_in_path(path: &str, line: u64, segs: &Vec<String>, out: &mut Vec<String>)
    ensures
        final(out).deep_view() == old(out).deep_view() + node_findings(
            path@,
            Node::Path(line, *segs),
        ),
{
    let ghost before = out.deep_view();
    let names = plain_segments(segs);
    let ghost ns = names.deep_view();
    let whole = join_path(&names);
    if crate::text::has_name(&names, "syscall") {
        assert(ns.len() == names@.len());
        assert(ns.last() == names@[names@.len() - 1]@);
        if !allowed_call(names[names.len() - 1].as_str()) {
            let mut s = begin(path, line);
            put5(
                &mut s,
                "driver path `",
                whole.as_str(),
                "` references the `syscall` module (allowed leaf names: ",
                ALLOWED_CALLS,
                ")",
            );
            push_text(out, s);
        }
    }
    match first_banned_pair(&names) {
        Some(i) => {
            assert(ns.len() == names@.len());
            assert(banned_at(ns, i as int));
            assert(i + 1 < names@.len());
            assert(ns[i as int] == names@[i as int]@ && ns[i + 1] == names@[i + 1]@);
            let mut s = begin(path, line);
            put3(
                &mut s,
                "driver path `",
                whole.as_str(),
                "` references banned module path `",
            );
            put3(&mut s, names[i].as_str(), "::", names[i + 1].as_str());
            s.append("`. Drivers consume these via `lockjaw_userlib::*` re-exports.");
            push_text(out, s);
        },
        None => {},
    }
    assert(out.deep_view() =~= before + node_findings(path@, Node::Path(line, *segs)));
}

fn find_in_macro(path: &str, line: u64, ts: &Vec<Token>, out: &mut Vec<String>)
    ensures
        final(out).deep_view() == old(out).deep_view() + macro_findings(
            path@,
            line,
            ts@,
            banned_paths().len(),
        ),
{
    let ghost before = out.deep_view();
    if token_stream_contains_ident(ts, "syscall") {
        let mut s = begin(path, line);
        put3(
            &mut s,
            "driver macro body / invocation contains the `syscall` ident -- drivers may not reach the syscall module via macros (allowed leaf names: ",
            ALLOWED_CALLS,
            ")",
        );
        push_text(out, s);
    }
    assert(out.deep_view() =~= before + macro_findings(path@, line, ts@, 0));
    let mut k: usize = 0;
    while k < 5
        invariant
            k <= 5,
            out.deep_view() == before + macro_findings(path@, line, ts@, k as nat),
        decreases 5 - k,
    {
        let p = banned_path(k);
        if token_stream_contains_pair(ts, p.0.as_str(), p.1.as_str()) {
            let mut s = begin(path, line);
            put5(
                &mut s,
                "driver macro body / invocation contains the `",
                p.0.as_str(),
                "::",
                p.1.as_str(),
                "` ident pair -- drivers may not reach banned module paths via macros.",
            );
            push_text(out, s);
        }
        assert(out.deep_view() =~= before + macro_findings(path@, line, ts@, (k + 1) as nat));
        k += 1;
    }
    assert(banned_paths().len() == 5);
}

fn find_in_node(path: &str, node: &Node, out: &mut Vec<String>)
    ensures
        final(out).deep_view() == old(out).deep_view() + node_findings(path@, *node),
{
    let ghost before = out.deep_view();
    match node {
        Node::Attribute(line, a) => {
            if attr_matches_lint(a, "allow", "unsafe_code") {
                let mut s = begin(path, *line);
                s.append("driver source contains an allow(unsafe_code) attribute");
                push_text(out, s);
            }
        },
        Node::Use(line, tree) => {
            find_in_use(path, *line, tree, out);
        },
        Node::Crate(line, name) => {
            let plain = ident_str(name.as_str());
            if banned_crate(plain.as_str()) {
                let mut s = begin(path, *line);
                put5(
                    &mut s,
                    "driver `extern crate ",
                    plain.as_str(),
                    "` makes a banned module path reachable (banned-pair crates: ",
                    BANNED_CRATES,
                    "). Drivers consume these via `lockjaw_userlib::*` re-exports.",
                );
                push_text(out, s);
            }
        },
        Node::Path(line, segs) => {
            find_in_path(path, *line, segs, out);
        },
        Node::Macro(line, ts) => {
            find_in_macro(path, *line, ts, out);
        },
    }
    assert(out.deep_view() =~= before + node_findings(path@, *node));
}

/// Adds the findings on a source file.
pub fn find_in_source(path: &str, nodes: &Vec<Node>, out: &mut Vec<String>)
    ensures
        final(out).deep_view() == old(out).deep_view() + nodes_findings(
            path@,
            nodes@,
            nodes@.len(),
        ),
{
    let ghost before = out.deep_view();
    let mut i: usize = 0;
    assert(before + nodes_findings(path@, nodes@, 0) =~= before);
    while i < nodes.len()
        invariant
            i <= nodes@.len(),
            out.deep_view() == before + nodes_findings(path@, nodes@, i as nat),
        decreases nodes@.len() - i,
    {
        find_in_node(path, &nodes[i], out);
        assert(out.deep_view() =~= before + nodes_findings(path@, nodes@, (i + 1) as nat));
        i += 1;
    }
}

/// The finding on a file that cannot be parsed.
pub open spec fn parse_error_text(path: Seq<char>, message: Seq<char>) -> Seq<char> {
    path + ": parse error: "@ + message
}

/// Why a source cannot be looked at: it could not be read, or it does not parse.
pub open spec fn source_error(text: Result<String, String>) -> Option<Seq<char>> {
    match text {
        Err(message) => Some(message@),
        Ok(t) => if syntax_error(t@) is Some {
            Some(syntax_message(t@))
        } else {
            None
        },
    }
}

/// The findings on the text of a file.
pub open spec fn text_findings(path: Seq<char>, text: Seq<char>) -> Seq<Seq<char>> {
    if syntax_error(text) is Some {
        seq![parse_error_text(path, syntax_message(text))]
    } else {
        nodes_findings(path, nodes_in(text), nodes_in(text).len())
    }
}

fn report_parse_error(path: &str, message: &str, out: &mut Vec<String>)
    ensures
        final(out).deep_view() == old(out).deep_view() + seq![parse_error_text(path@, message@)],
{
    let ghost before = out.deep_view();
    let mut s = copy_of(path);
    put2(&mut s, ": parse error: ", message);
    push_text(out, s);
    assert(out.deep_view() =~= before + seq![parse_error_text(path@, message@)]);
}

/// Adds the findings on the text of a file.
pub fn find_in_text(path: &str, text: &str, out: &mut Vec<String>)
    ensures
        final(out).deep_view() == old(out).deep_view() + text_findings(path@, text@),
{
    match parse_file(text) {
        Ok(nodes) => {
            find_in_source(path, &nodes, out);
        },
        Err(message) => {
            report_parse_error(path, message.as_str(), out);
        },
    }
}

/// The findings on one file.
pub open spec fn file_findings(f: SourceFile) -> Seq<Seq<char>> {
    match f.text {
        Ok(text) => text_findings(f.path@, text@),
        Err(message) => seq![parse_error_text(f.path@, message@)],
    }
}

/// The findings on the first `n` files.
pub open spec fn files_findings(files: Seq<SourceFile>, n: nat) -> Seq<Seq<char>>
    decreases n,
{
    if n == 0 {
        Seq::empty()
    } else {
        files_findings(files, (n - 1) as nat) + file_findings(files[n - 1])
    }
}

/// The findings on a crate: its root file and all its files.
pub open spec fn crate_findings(
    root_path: Seq<char>,
    root: Result<String, String>,
    files: Seq<SourceFile>,
) -> Seq<Seq<char>> {
    match source_error(root) {
        Some(message) => seq![parse_error_text(root_path, message)],
        None => when(
            !denies_unsafe(root_attributes_in(root->Ok_0@)),
            root_path + ": crate root is missing #![deny(unsafe_code)]"@,
        ) + files_findings(files, files.len()),
    }
}

fn attributes_of(root: &Result<String, String>) -> (r: Result<Vec<LintAttribute>, String>)
    ensures
        match r {
            Ok(attrs) => source_error(*root) is None && root is Ok && attrs@ == root_attributes_in(
                root->Ok_0@,
            ),
            Err(message) => source_error(*root) == Some(message@),
        },
{
    match root {
        Ok(text) => parse_root_attributes(text.as_str()),
        Err(message) => Err(copy_of(message.as_str())),
    }
}

/// Checks a driver crate, given the text of its root and of each of its files or why one
/// could not be read, and adds the findings.
pub fn check_crate(
    root_path: &str,
    root: &Result<String, String>,
    files: &Vec<SourceFile>,
    out: &mut Vec<String>,
)
    ensures
        final(out).deep_view() == old(out).deep_view() + crate_findings(root_path@, *root, files@),
{
    let ghost before = out.deep_view();
    match attributes_of(root) {
        Err(message) => {
            report_parse_error(root_path, message.as_str(), out);
            return;
        },
        Ok(attrs) => {
            if !has_inner_deny_unsafe_code(&attrs) {
                let mut s = copy_of(root_path);
                s.append(": crate root is missing #![deny(unsafe_code)]");
                push_text(out, s);
            }
        },
    }
    let ghost head = out.deep_view();
    let mut i: usize = 0;
    assert(head + files_findings(files@, 0) =~= head);
    while i < files.len()
        invariant
            i <= files@.len(),
            out.deep_view() == head + files_findings(files@, i as nat),
        decreases files@.len() - i,
    {
        let f = &files[i];
        match &f.text {
            Ok(text) => {
                find_in_text(f.path.as_str(), text.as_str(), out);
            },
            Err(message) => {
                report_parse_error(f.path.as_str(), message.as_str(), out);
            },
        }
        assert(out.deep_view() =~= head + files_findings(files@, (i + 1) as nat));
        i += 1;
    }
    assert(out.deep_view() =~= before + crate_findings(root_path@, *root, files@));
}

// ---------------------------------------------------------------------------
// What a clean check means
// ---------------------------------------------------------------------------

/// Whether a node keeps the rules.
pub open spec fn node_is_clean(node: Node) -> bool {
    match node {
        Node::Attribute(_, a) => !a.mentions("allow"@, "unsafe_code"@),
        Node::Use(_, tree) => forall|i: int|
            0 <= i < leaves_of(tree, Seq::empty()).len() ==> leaf_is_clean(
                #[trigger] leaves_of(tree, Seq::empty())[i],
            ),
        Node::Crate(_, name) => !is_banned_crate(plain_name(name@)),
        Node::Path(_, segs) => !path_breaks_calls(plain_names(segs.deep_view()))
            && !path_is_banned(plain_names(segs.deep_view())),
        Node::Macro(_, ts) => !holds_ident(ts@, "syscall"@, ts@.len()) && forall|k: int|
            0 <= k < banned_paths().len() ==> !holds_pair(
                ts@,
                (#[trigger] banned_paths()[k]).0,
                banned_paths()[k].1,
            ),
    }
}

/// Whether an import keeps the rules.
pub open spec fn leaf_is_clean(l: (Seq<Seq<char>>, Seq<char>)) -> bool {
    !leaf_breaks_calls(l) && !leaf_is_banned(l) && !leaf_is_root(l)
}

/// Whether all nodes of a text keep the rules.
pub open spec fn text_is_clean(text: Seq<char>) -> bool {
    forall|i: int| 0 <= i < nodes_in(text).len() ==> node_is_clean(#[trigger] nodes_in(text)[i])
}

/// Whether a file can be read and parsed and all its nodes keep the rules.
pub open spec fn file_is_clean(f: SourceFile) -> bool {
    source_error(f.text) is None && text_is_clean(f.text->Ok_0@)
}

proof fn lemma_leaves_clean(
    path: Seq<char>,
    line: u64,
    leaves: Seq<(Seq<Seq<char>>, Seq<char>)>,
    n: nat,
)
    requires
        n <= leaves.len(),
    ensures
        leaves_findings(path, line, leaves, n).len() == 0 <==> forall|i: int|
            0 <= i < n ==> leaf_is_clean(#[trigger] leaves[i]),
    decreases n,
{
    if n > 0 {
        lemma_leaves_clean(path, line, leaves, (n - 1) as nat);
        assert(leaf_findings(path, line, leaves[n - 1]).len() == 0 <==> leaf_is_clean(
            leaves[n - 1],
        ));
    }
}

proof fn lemma_macro_clean(path: Seq<char>, line: u64, ts: Seq<Token>, n: nat)
    requires
        n <= banned_paths().len(),
    ensures
        macro_findings(path, line, ts, n).len() == 0 <==> !holds_ident(ts, "syscall"@, ts.len())
            && forall|k: int|
            0 <= k < n ==> !holds_pair(
                ts,
                (#[trigger] banned_paths()[k]).0,
                banned_paths()[k].1,
            ),
    decreases n,
{
    if n > 0 {
        lemma_macro_clean(path, line, ts, (n - 1) as nat);
    }
}

proof fn lemma_nodes_clean(path: Seq<char>, nodes: Seq<Node>, n: nat)
    requires
        n <= nodes.len(),
    ensures
        nodes_findings(path, nodes, n).len() == 0 <==> forall|i: int|
            0 <= i < n ==> node_is_clean(#[trigger] nodes[i]),
    decreases n,
{
    if n > 0 {
        lemma_nodes_clean(path, nodes, (n - 1) as nat);
        match nodes[n - 1] {
            Node::Use(line, tree) => {
                let all = leaves_of(tree, Seq::empty());
                lemma_leaves_clean(path, line, all, all.len());
            },
            Node::Macro(line, ts) => {
                lemma_macro_clean(path, line, ts@, banned_paths().len());
            },
            _ => {},
        }
        assert(node_findings(path, nodes[n - 1]).len() == 0 <==> node_is_clean(nodes[n - 1]));
    }
}

proof fn lemma_files_clean(files: Seq<SourceFile>, n: nat)
    requires
        n <= files.len(),
    ensures
        files_findings(files, n).len() == 0 <==> forall|i: int|
            0 <= i < n ==> file_is_clean(#[trigger] files[i]),
    decreases n,
{
    if n > 0 {
        lemma_files_clean(files, (n - 1) as nat);
        match files[n - 1].text {
            Ok(text) => {
                lemma_nodes_clean(files[n - 1].path@, nodes_in(text@), nodes_in(text@).len());
            },
            Err(_) => {},
        }
        assert(file_findings(files[n - 1]).len() == 0 <==> file_is_clean(files[n - 1]));
    }
}

/// A crate has no findings if and only if its root can be read, parses and denies unsafe
/// code, every file can be read and parses, and every node of every file keeps the rules.
pub proof fn lemma_clean_crate(
    root_path: Seq<char>,
    root: Result<String, String>,
    files: Seq<SourceFile>,
)
    ensures
        crate_findings(root_path, root, files).len() == 0 <==> (source_error(root) is None
            && denies_unsafe(root_attributes_in(root->Ok_0@)) && forall|i: int|
            0 <= i < files.len() ==> file_is_clean(#[trigger] files[i])),
{
    lemma_files_clean(files, files.len());
}

// ---------------------------------------------------------------------------
// Laws of the rules
// ---------------------------------------------------------------------------

/// Whether a driver may not name the module `m` of the registers' crate.
pub open spec fn is_banned_module(m: Seq<char>) -> bool {
    m == "sdhci"@ || m == "pl011"@ || m == "cprman"@ || m == "fw_cfg"@ || m == "virtio_mmio"@
}

proof fn lemma_banned_at(segs: Seq<Seq<char>>, i: int)
    requires
        0 <= i,
        i + 1 < segs.len(),
    ensures
        banned_at(segs, i) <==> segs[i] == "lockjaw_regs"@ && is_banned_module(segs[i + 1]),
{
    let v = banned_paths();
    assert(v[0].1 == "sdhci"@ && v[1].1 == "pl011"@ && v[2].1 == "cprman"@ && v[3].1 == "fw_cfg"@
        && v[4].1 == "virtio_mmio"@);
    if v.contains((segs[i], segs[i + 1])) {
        let k = choose|k: int| 0 <= k < v.len() && v[k] == (segs[i], segs[i + 1]);
        assert(k == 0 || k == 1 || k == 2 || k == 3 || k == 4);
    }
    if segs[i] == "lockjaw_regs"@ {
        assert(segs[i + 1] == "sdhci"@ ==> v[0] == (segs[i], segs[i + 1]));
        assert(segs[i + 1] == "pl011"@ ==> v[1] == (segs[i], segs[i + 1]));
        assert(segs[i + 1] == "cprman"@ ==> v[2] == (segs[i], segs[i + 1]));
        assert(segs[i + 1] == "fw_cfg"@ ==> v[3] == (segs[i], segs[i + 1]));
        assert(segs[i + 1] == "virtio_mmio"@ ==> v[4] == (segs[i], segs[i + 1]));
    }
}

proof fn lemma_banned_from(segs: Seq<Seq<char>>, i: int)
    requires
        0 <= i <= segs.len(),
    ensures
        i <= banned_from(segs, i) <= segs.len(),
        banned_from(segs, i) < segs.len() <==> exists|k: int| i <= k && #[trigger] banned_at(segs, k),
        banned_from(segs, i) < segs.len() ==> banned_at(segs, banned_from(segs, i)),
        forall|k: int| i <= k < banned_from(segs, i) ==> !#[trigger] banned_at(segs, k),
    decreases segs.len() - i,
{
    if i < segs.len() && !banned_at(segs, i) {
        lemma_banned_from(segs, i + 1);
    }
}

/// A path breaks the rule on modules if and only if somewhere in it one of the five banned
/// modules follows the name of the registers' crate.
pub proof fn lemma_path_is_banned(segs: Seq<Seq<char>>)
    ensures
        path_is_banned(segs) <==> exists|k: int|
            0 <= k && k + 1 < segs.len() && #[trigger] segs[k] == "lockjaw_regs"@
                && is_banned_module(segs[k + 1]),
{
    lemma_banned_from(segs, 0);
    if path_is_banned(segs) {
        let k = banned_from(segs, 0);
        lemma_banned_at(segs, k);
        assert(segs[k] == "lockjaw_regs"@);
    }
    if exists|k: int|
        0 <= k && k + 1 < segs.len() && #[trigger] segs[k] == "lockjaw_regs"@ && is_banned_module(
            segs[k + 1],
        ) {
        let k = choose|k: int|
            0 <= k && k + 1 < segs.len() && #[trigger] segs[k] == "lockjaw_regs"@
                && is_banned_module(segs[k + 1]);
        lemma_banned_at(segs, k);
        assert(banned_at(segs, k));
    }
}

/// An import breaks the rules if and only if its full path does, or it goes through `syscall` to
/// anything but `sys_exit` and `sys_debug_puts`, or it brings in the registers' crate itself.
pub proof fn lemma_leaf_is_clean(path: Seq<Seq<char>>, name: Seq<char>)
    ensures
        leaf_is_clean((path, name)) <==> {
            &&& !path_is_banned(path.push(name))
            &&& path.contains("syscall"@) || name == "syscall"@ ==> name == "sys_exit"@ || name
                == "sys_debug_puts"@
            &&& path.len() == 0 ==> name != "lockjaw_regs"@
        },
{
    let v = banned_paths();
    assert(v[0].0 == "lockjaw_regs"@);
    assert(is_banned_crate(name) <==> name == "lockjaw_regs"@);
}

/// A path breaks the rule on calls if and only if it goes through `syscall` and does not end in
/// `sys_exit` or `sys_debug_puts`.
pub proof fn lemma_path_breaks_calls(segs: Seq<Seq<char>>)
    ensures
        path_breaks_calls(segs) <==> segs.contains("syscall"@) && segs.last() != "sys_exit"@
            && segs.last() != "sys_debug_puts"@,
{
}

/// The imports of a group are those of its trees.
pub proof fn lemma_group_leaves(
    items: Seq<ImportTree>,
    prefix: Seq<Seq<char>>,
    n: nat,
    l: (Seq<Seq<char>>, Seq<char>),
)
    requires
        n <= items.len(),
    ensures
        group_leaves(items, prefix, n).contains(l) <==> exists|i: int|
            0 <= i < n && (#[trigger] leaves_of(items[i], prefix)).contains(l),
    decreases n,
{
    if n > 0 {
        let m = (n - 1) as nat;
        lemma_group_leaves(items, prefix, m, l);
        let head = group_leaves(items, prefix, m);
        let more = leaves_of(items[n - 1], prefix);
        let all = group_leaves(items, prefix, n);
        assert(all == head + more);
        if all.contains(l) {
            let i = choose|i: int| 0 <= i < all.len() && all[i] == l;
            if i < head.len() {
                assert(head[i] == l);
                assert(head.contains(l));
            } else {
                assert(more[i - head.len()] == l);
                assert(more.contains(l));
            }
        }
        if head.contains(l) {
            let i = choose|i: int| 0 <= i < head.len() && head[i] == l;
            assert(all[i] == l);
        }
        if more.contains(l) {
            let i = choose|i: int| 0 <= i < more.len() && more[i] == l;
            assert(all[head.len() + i] == l);
        }
    }
}

/// Every import of a tree carries the whole path that leads to it: behind a name the path
/// grows by that name, a glob and a name stand at its end, and another name given to an import
/// does not hide it.
pub proof fn lemma_leaves_of(prefix: Seq<Seq<char>>, a: String, rest: ImportTree, name: String)
    requires
        plain_name(name@) != "self"@,
    ensures
        leaves_of(ImportTree::Path(a, Box::new(rest)), prefix) == leaves_of(
            rest,
            prefix.push(plain_name(a@)),
        ),
        leaves_of(ImportTree::Name(name), prefix) == seq![(prefix, plain_name(name@))],
        leaves_of(ImportTree::Rename(name), prefix) == seq![(prefix, plain_name(name@))],
        leaves_of(ImportTree::Glob, prefix) == seq![(prefix, "*"@)],
{
}

/// A macro names the calls' module if and only if one of its tokens is that name, or is a group
/// that names it.
pub proof fn lemma_holds_ident(ts: Seq<Token>, name: Seq<char>, n: nat)
    requires
        n <= ts.len(),
    ensures
        holds_ident(ts, name, n) <==> exists|i: int|
            0 <= i < n && #[trigger] token_names(ts[i], name),
    decreases n,
{
    if n > 0 {
        lemma_holds_ident(ts, name, (n - 1) as nat);
        match ts[n - 1] {
            Token::Group(inner) => {
                assert(token_names(ts[n - 1], name) == token_holds_ident(ts[n - 1], name));
            },
            _ => {
                assert(token_names(ts[n - 1], name) == token_holds_ident(ts[n - 1], name));
            },
        }
    }
}

/// Whether a token is the name, in plain or raw spelling, or a group that holds it.
pub open spec fn token_names(t: Token, name: Seq<char>) -> bool {
    match t {
        Token::Ident(s) => s@ == name && !starts_with(name, "r#"@) || starts_with(s@, "r#"@)
            && s@.skip(2) == name,
        Token::Group(inner) => holds_ident(inner@, name, inner@.len()),
        _ => false,
    }
}

proof fn lemma_groups_hold_pair(ts: Seq<Token>, first: Seq<char>, second: Seq<char>, n: nat)
    requires
        n <= ts.len(),
    ensures
        groups_hold_pair(ts, first, second, n) <==> exists|i: int|
            0 <= i < n && (#[trigger] ts[i]) is Group && holds_pair(
                ts[i]->Group_0@,
                first,
                second,
            ),
    decreases n,
{
    if n > 0 {
        lemma_groups_hold_pair(ts, first, second, (n - 1) as nat);
        assert(token_holds_pair(ts[n - 1], first, second) == (ts[n - 1] is Group && holds_pair(
            ts[n - 1]->Group_0@,
            first,
            second,
        )));
    }
}

/// A macro names a banned module if and only if somewhere among its tokens, or within one of its
/// groups, the crate's name, two colons and the module's name follow each other.
pub proof fn lemma_holds_pair(ts: Seq<Token>, first: Seq<char>, second: Seq<char>)
    ensures
        holds_pair(ts, first, second) <==> (exists|i: int|
            0 <= i && i + 3 < ts.len() && is_ident(#[trigger] ts[i], first) && ts[i + 1]
                == Token::Punct(':') && ts[i + 2] == Token::Punct(':') && is_ident(
                ts[i + 3],
                second,
            )) || exists|i: int|
            0 <= i < ts.len() && (#[trigger] ts[i]) is Group && holds_pair(
                ts[i]->Group_0@,
                first,
                second,
            ),
{
    lemma_groups_hold_pair(ts, first, second, ts.len());
    if exists|i: int|
        0 <= i && i + 3 < ts.len() && is_ident(#[trigger] ts[i], first) && ts[i + 1]
            == Token::Punct(':') && ts[i + 2] == Token::Punct(':') && is_ident(ts[i + 3], second) {
        let i = choose|i: int|
            0 <= i && i + 3 < ts.len() && is_ident(#[trigger] ts[i], first) && ts[i + 1]
                == Token::Punct(':') && ts[i + 2] == Token::Punct(':') && is_ident(
                ts[i + 3],
                second,
            );
        assert(pair_at(ts, i, first, second));
    }
    if has_pair(ts, first, second) {
        let i = choose|i: int| #[trigger] pair_at(ts, i, first, second);
        assert(is_ident(ts[i], first));
    }
}

/// A file denies unsafe code if and only if it has an inner attribute `deny` that lists
/// `unsafe_code`.
pub proof fn lemma_denies_unsafe(attrs: Seq<LintAttribute>)
    ensures
        denies_unsafe(attrs) <==> exists|i: int, j: int|
            0 <= i < attrs.len() && (#[trigger] attrs[i]).inner && is_lone(attrs[i].path, "deny"@)
                && 0 <= j < attrs[i].list@.len() && is_lone(
                #[trigger] attrs[i].list@[j],
                "unsafe_code"@,
            ),
{
    if denies_unsafe(attrs) {
        let i = choose|i: int| 0 <= i < attrs.len() && #[trigger] denies_at(attrs, i);
        let j = choose|j: int|
            0 <= j < attrs[i].list@.len() && is_lone(#[trigger] attrs[i].list@[j], "unsafe_code"@);
        assert(attrs[i].inner && is_lone(attrs[i].list@[j], "unsafe_code"@));
    }
    if exists|i: int, j: int|
        0 <= i < attrs.len() && (#[trigger] attrs[i]).inner && is_lone(attrs[i].path, "deny"@) && 0
            <= j < attrs[i].list@.len() && is_lone(#[trigger] attrs[i].list@[j], "unsafe_code"@) {
        let (i, j) = choose|i: int, j: int|
            0 <= i < attrs.len() && (#[trigger] attrs[i]).inner && is_lone(attrs[i].path, "deny"@)
                && 0 <= j < attrs[i].list@.len() && is_lone(
                #[trigger] attrs[i].list@[j],
                "unsafe_code"@,
            );
        assert(denies_at(attrs, i));
    }
}

} // verus!
