//! What the rules for drivers read of a source text: the nodes that they speak of, in the
//! order in which a walk of the syntax tree meets them, and the attributes of the file itself.
//!
//! The syntax tree is `syn`'s. It is turned into plain values here, name for name, and
//! nothing is decided on the way: what the values mean is decided in `driver_regime`.

use crate::text::copy_of;
use vstd::prelude::*;

verus! {

/// The tree of a `use` item.
pub enum ImportTree {
    /// `name::tree`
    Path(String, Box<ImportTree>),
    /// `name`
    Name(String),
    /// `name as other`: the name that is imported.
    Rename(String),
    /// `*`
    Glob,
    /// `{tree, tree}`
    Group(Vec<ImportTree>),
}

/// A token of a macro.
pub enum Token {
    Ident(String),
    Punct(char),
    /// What stands between two brackets.
    Group(Vec<Token>),
    Literal,
}

/// A path in an attribute: whether it starts with `::`, and its names.
pub struct AttributePath {
    pub rooted: bool,
    pub names: Vec<String>,
}

/// An attribute: whether it stands inside what it describes, its own path, and the paths of
/// its list, as far as the list is one of plain paths.
pub struct LintAttribute {
    pub inner: bool,
    pub path: AttributePath,
    pub list: Vec<AttributePath>,
}

/// A part of a source file that the rules speak of, with its line.
pub enum Node {
    Attribute(u64, LintAttribute),
    Use(u64, ImportTree),
    /// A crate that is declared by name.
    Crate(u64, String),
    Path(u64, Vec<String>),
    Macro(u64, Vec<Token>),
}

// ---------------------------------------------------------------------------
// The syntax tree as plain values
// ---------------------------------------------------------------------------

/// `syn::Path`, of which nothing is claimed.
#[verifier::external_type_specification]
#[verifier::external_body]
pub struct ExPath(syn::Path);

/// `syn::Attribute`, of which nothing is claimed.
#[verifier::external_type_specification]
#[verifier::external_body]
pub struct ExAttribute(syn::Attribute);

/// `syn::UseTree`, of which nothing is claimed.
#[verifier::external_type_specification]
#[verifier::external_body]
pub struct ExUseTree(syn::UseTree);

/// `syn::ItemUse`, of which nothing is claimed.
#[verifier::external_type_specification]
#[verifier::external_body]
pub struct ExItemUse(syn::ItemUse);

/// `syn::ItemExternCrate`, of which nothing is claimed.
#[verifier::external_type_specification]
#[verifier::external_body]
pub struct ExItemExternCrate(syn::ItemExternCrate);

/// `syn::Macro`, of which nothing is claimed.
#[verifier::external_type_specification]
#[verifier::external_body]
pub struct ExMacro(syn::Macro);

/// `proc_macro2::TokenStream`, of which nothing is claimed.
#[verifier::external_type_specification]
#[verifier::external_body]
pub struct ExTokenStream(proc_macro2::TokenStream);

/// The names of a `syn::Path`, each as `proc_macro2::Ident` prints it. Nothing is claimed.
#[verifier::external_body]
fn names(p: &syn::Path) -> Vec<String> {
    p.segments.iter().map(|s| s.ident.to_string()).collect()
}

/// A `syn::Path` of an attribute as plain values. Nothing is claimed.
#[verifier::external_body]
fn attribute_path(p: &syn::Path) -> AttributePath {
    AttributePath { rooted: p.leading_colon.is_some(), names: names(p) }
}

/// A `syn::Attribute` as plain values. `syn::Attribute::parse_nested_meta` hands out the paths
/// of the list one by one, up to the first entry that is more than a path. Nothing is claimed.
#[verifier::external_body]
fn attribute(a: &syn::Attribute) -> LintAttribute {
    let mut list: Vec<AttributePath> = Vec::new();
    let _ = a.parse_nested_meta(|meta| Ok(list.push(attribute_path(&meta.path))));
    let inner = match a.style {
        syn::AttrStyle::Inner(_) => true,
        syn::AttrStyle::Outer => false,
    };
    LintAttribute { inner, path: attribute_path(a.path()), list }
}

/// A `syn::UseTree` as plain values, variant for variant. Nothing is claimed.
#[verifier::external_body]
fn import_tree(t: &syn::UseTree) -> ImportTree {
    match t {
        syn::UseTree::Path(p) => {
            ImportTree::Path(p.ident.to_string(), Box::new(import_tree(&p.tree)))
        },
        syn::UseTree::Name(n) => ImportTree::Name(n.ident.to_string()),
        syn::UseTree::Rename(r) => ImportTree::Rename(r.ident.to_string()),
        syn::UseTree::Glob(_) => ImportTree::Glob,
        syn::UseTree::Group(g) => ImportTree::Group(g.items.iter().map(import_tree).collect()),
    }
}

/// A `proc_macro2::TokenTree` as plain values, variant for variant. Nothing is claimed.
#[verifier::external_body]
fn tokens(ts: proc_macro2::TokenStream) -> Vec<Token> {
    ts.into_iter().map(
        |t|
            match t {
                proc_macro2::TokenTree::Ident(i) => Token::Ident(i.to_string()),
                proc_macro2::TokenTree::Punct(p) => Token::Punct(p.as_char()),
                proc_macro2::TokenTree::Group(g) => Token::Group(tokens(g.stream())),
                proc_macro2::TokenTree::Literal(_) => Token::Literal,
            },
    ).collect()
}

/// What a walk of a syntax tree has met so far.
struct Walk {
    nodes: Vec<Node>,
}

/// Each method hands on one kind of node as plain values, with its line, and goes on as
/// `syn::visit` does by default. Nothing is claimed of them.
impl<'ast> syn::visit::Visit<'ast> for Walk {
    #[verifier::external_body]
    fn visit_attribute(&mut self, a: &'ast syn::Attribute) {
        let line = syn::spanned::Spanned::span(a).start().line as u64;
        self.nodes.push(Node::Attribute(line, attribute(a)));
        syn::visit::visit_attribute(self, a);
    }

    #[verifier::external_body]
    fn visit_item_use(&mut self, item: &'ast syn::ItemUse) {
        let line = syn::spanned::Spanned::span(item).start().line as u64;
        self.nodes.push(Node::Use(line, import_tree(&item.tree)));
        syn::visit::visit_item_use(self, item);
    }

    #[verifier::external_body]
    fn visit_item_extern_crate(&mut self, item: &'ast syn::ItemExternCrate) {
        let line = syn::spanned::Spanned::span(item).start().line as u64;
        self.nodes.push(Node::Crate(line, item.ident.to_string()));
        syn::visit::visit_item_extern_crate(self, item);
    }

    #[verifier::external_body]
    fn visit_path(&mut self, p: &'ast syn::Path) {
        let line = syn::spanned::Spanned::span(&p.segments).start().line as u64;
        self.nodes.push(Node::Path(line, names(p)));
        syn::visit::visit_path(self, p);
    }

    #[verifier::external_body]
    fn visit_macro(&mut self, m: &'ast syn::Macro) {
        let line = syn::spanned::Spanned::span(m).start().line as u64;
        self.nodes.push(Node::Macro(line, tokens(m.tokens.clone())));
        syn::visit::visit_macro(self, m);
    }
}

// ---------------------------------------------------------------------------
// Parsing
// ---------------------------------------------------------------------------

/// What `syn` says against a text that is no source file; `None` where it is one.
pub uninterp spec fn syntax_error(text: Seq<char>) -> Option<Seq<char>>;

/// The nodes of a text that is a source file, in the order of the walk.
pub uninterp spec fn nodes_in(text: Seq<char>) -> Seq<Node>;

/// The attributes of a text that is a source file: those that stand inside the file itself.
pub uninterp spec fn root_attributes_in(text: Seq<char>) -> Seq<LintAttribute>;

/// `syn::parse_file` parses a source file, and `syn::visit::Visit::visit_file` walks its
/// syntax tree. Whether the text parses, what the error says, and which nodes the walk meets
/// on which lines depend on the text alone: `proc-macro2` counts lines from the start of the
/// text that a position belongs to.
#[verifier::external_body]
fn parse_nodes(text: &str) -> (r: Result<Vec<Node>, String>)
    ensures
        match r {
            Ok(nodes) => syntax_error(text@) is None && nodes@ == nodes_in(text@),
            Err(e) => syntax_error(text@) == Some(e@),
        },
{
    let file = syn::parse_file(text).map_err(|e| e.to_string())?;
    let mut walk = Walk { nodes: Vec::new() };
    syn::visit::Visit::visit_file(&mut walk, &file);
    Ok(walk.nodes)
}

/// `syn::parse_file` parses a source file, and the tree's field `attrs` holds the file's own
/// attributes. Whether the text parses, what the error says, and the attributes depend on
/// the text alone.
#[verifier::external_body]
fn parse_root(text: &str) -> (r: Result<Vec<LintAttribute>, String>)
    ensures
        match r {
            Ok(attrs) => syntax_error(text@) is None && attrs@ == root_attributes_in(text@),
            Err(e) => syntax_error(text@) == Some(e@),
        },
{
    let file = syn::parse_file(text).map_err(|e| e.to_string())?;
    Ok(file.attrs.iter().map(attribute).collect())
}

/// The message on a text that is no source file.
pub open spec fn syntax_message(text: Seq<char>) -> Seq<char> {
    "syn: "@ + syntax_error(text)->0
}

fn message(e: &str) -> (r: String)
    ensures
        r@ == "syn: "@ + e@,
{
    let mut s = copy_of("syn: ");
    s.append(e);
    s
}

/// The nodes of a source file, or why it is none.
pub fn parse_file(text: &str) -> (r: Result<Vec<Node>, String>)
    ensures
        match r {
            Ok(nodes) => syntax_error(text@) is None && nodes@ == nodes_in(text@),
            Err(e) => syntax_error(text@) is Some && e@ == syntax_message(text@),
        },
{
    match parse_nodes(text) {
        Ok(nodes) => Ok(nodes),
        Err(e) => Err(message(e.as_str())),
    }
}

/// The attributes of a source file itself, or why it is none.
pub fn parse_root_attributes(text: &str) -> (r: Result<Vec<LintAttribute>, String>)
    ensures
        match r {
            Ok(attrs) => syntax_error(text@) is None && attrs@ == root_attributes_in(text@),
            Err(e) => syntax_error(text@) is Some && e@ == syntax_message(text@),
        },
{
    match parse_root(text) {
        Ok(attrs) => Ok(attrs),
        Err(e) => Err(message(e.as_str())),
    }
}

} // verus!
