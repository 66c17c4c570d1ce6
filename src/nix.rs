//! tree-sitter's Nix grammar, seen through names for what it answers.
//!
//! A node is known by the source it was parsed from and its path: the
//! positions, among all children, taken from the root down to it.

use vstd::prelude::*;
use vstd::string::*;

verus! {

/// tree-sitter's syntax tree, carried through opaquely.
#[verifier::external_type_specification]
#[verifier::external_body]
pub struct ExTree(tree_sitter::Tree);

/// A node of tree-sitter's syntax tree, carried through opaquely.
#[verifier::external_type_specification]
#[verifier::external_body]
pub struct ExNode<'tree>(tree_sitter::Node<'tree>);

/// The Nix grammar yields a tree for `src`.
pub uninterp spec fn nix_parses(src: Seq<u8>) -> bool;

/// The number of nodes in the tree of `src`.
pub uninterp spec fn nix_descendant_count(src: Seq<u8>) -> usize;

/// The grammar's name for the node at `path` in the tree of `src`.
pub uninterp spec fn nix_kind(src: Seq<u8>, path: Seq<u32>) -> Seq<char>;

/// The byte where the node at `path` starts.
pub uninterp spec fn nix_start(src: Seq<u8>, path: Seq<u32>) -> usize;

/// The byte where the node at `path` ends.
pub uninterp spec fn nix_end(src: Seq<u8>, path: Seq<u32>) -> usize;

/// The number of children of the node at `path`.
pub uninterp spec fn nix_child_count(src: Seq<u8>, path: Seq<u32>) -> u32;

/// The role of child `i` of the node at `path`.
pub uninterp spec fn nix_field(src: Seq<u8>, path: Seq<u32>, i: u32) -> Option<Seq<char>>;

/// The path of the smallest node that spans the empty range at `offset`.
pub uninterp spec fn nix_node_at(src: Seq<u8>, offset: usize) -> Option<Seq<u32>>;

/// A tree parsed from a source text.
pub struct ParsedNix {
    tree: tree_sitter::Tree,
    src: Ghost<Seq<u8>>,
}

/// A node of a [`ParsedNix`], with the source and path that identify it.
#[derive(Clone, Copy)]
pub struct NixNode<'t> {
    node: tree_sitter::Node<'t>,
    src: Ghost<Seq<u8>>,
    path: Ghost<Seq<u32>>,
}

impl ParsedNix {
    pub closed spec fn source(&self) -> Seq<u8> {
        self.src@
    }
}

impl<'t> NixNode<'t> {
    pub closed spec fn source(&self) -> Seq<u8> {
        self.src@
    }

    pub closed spec fn path(&self) -> Seq<u32> {
        self.path@
    }
}

/// Relies on tree_sitter::Parser::new, Parser::set_language and
/// Parser::parse with tree_sitter_nix::LANGUAGE: a tree exactly when the
/// grammar yields one for the text.
#[verifier::external_body]
pub fn parse_nix(source: &str) -> (r: Option<ParsedNix>)
    ensures
        r is Some == nix_parses(source.spec_bytes()),
        r matches Some(p) ==> p.source() == source.spec_bytes(),
{
    let mut parser = tree_sitter::Parser::new();
    match parser.set_language(&tree_sitter::Language::new(tree_sitter_nix::LANGUAGE)) {
        Ok(()) => parser.parse(source, None).map(|tree| ParsedNix { tree, src: Ghost(source.spec_bytes()) }),
        Err(_) => None,
    }
}

/// Relies on tree_sitter::Tree::root_node: the node at the empty path.
#[verifier::external_body]
pub fn root_node<'t>(p: &'t ParsedNix) -> (r: NixNode<'t>)
    ensures
        r.source() == p.source(),
        r.path() == Seq::<u32>::empty(),
{
    NixNode { node: p.tree.root_node(), src: Ghost(p.src@), path: Ghost(Seq::empty()) }
}

/// Relies on tree_sitter::Node::descendant_count: for the root, the number
/// of nodes in the tree.
#[verifier::external_body]
pub fn descendant_count(n: &NixNode) -> (r: usize)
    ensures
        n.path().len() == 0 ==> r == nix_descendant_count(n.source()),
{
    n.node.descendant_count()
}

/// Relies on tree_sitter::Node::kind: the grammar's name for the node.
#[verifier::external_body]
pub fn node_kind(n: &NixNode) -> (r: String)
    ensures
        r@ == nix_kind(n.source(), n.path()),
{
    n.node.kind().to_string()
}

/// Relies on tree_sitter::Node::start_byte.
#[verifier::external_body]
pub fn start_byte(n: &NixNode) -> (r: usize)
    ensures
        r == nix_start(n.source(), n.path()),
{
    n.node.start_byte()
}

/// Relies on tree_sitter::Node::end_byte.
#[verifier::external_body]
pub fn end_byte(n: &NixNode) -> (r: usize)
    ensures
        r == nix_end(n.source(), n.path()),
{
    n.node.end_byte()
}

/// Relies on tree_sitter::Node::child_count.
#[verifier::external_body]
pub fn child_count(n: &NixNode) -> (r: u32)
    ensures
        r == nix_child_count(n.source(), n.path()),
{
    n.node.child_count()
}

/// Relies on tree_sitter::Node::child: the child at position `i`, present
/// for every position below the child count.
#[verifier::external_body]
pub fn child<'t>(n: &NixNode<'t>, i: u32) -> (r: Option<NixNode<'t>>)
    ensures
        r is Some == (i < nix_child_count(n.source(), n.path())),
        r matches Some(c) ==> c.source() == n.source() && c.path() == n.path().push(i),
{
    n.node.child(i).map(|c| NixNode { node: c, src: Ghost(n.src@), path: Ghost(n.path@.push(i)) })
}

/// Relies on tree_sitter::Node::field_name_for_child: the role of the child
/// at position `i`.
#[verifier::external_body]
pub fn field_name_for_child(n: &NixNode, i: u32) -> (r: Option<String>)
    ensures
        match r {
            Some(f) => nix_field(n.source(), n.path(), i) == Some(f@),
            None => nix_field(n.source(), n.path(), i) is None,
        },
{
    n.node.field_name_for_child(i).map(|f| f.to_string())
}

/// Relies on tree_sitter::Node::descendant_for_byte_range, asked of the
/// root: the smallest node that spans `offset..offset`.
#[verifier::external_body]
pub fn descendant_at<'t>(n: &NixNode<'t>, offset: usize) -> (r: Option<NixNode<'t>>)
    requires
        n.path().len() == 0,
    ensures
        r is Some == nix_node_at(n.source(), offset) is Some,
        r matches Some(c) ==> c.source() == n.source() && Some(c.path()) == nix_node_at(
            n.source(),
            offset,
        ),
{
    n.node.descendant_for_byte_range(offset, offset).map(
        |c| NixNode { node: c, src: Ghost(n.src@), path: Ghost(nix_node_at(n.src@, offset)->Some_0) },
    )
}

/// Relies on tree_sitter::Node::parent: the node one step up the path.
#[verifier::external_body]
pub fn parent<'t>(n: &NixNode<'t>) -> (r: Option<NixNode<'t>>)
    ensures
        r is Some == (n.path().len() > 0),
        r matches Some(p) ==> p.source() == n.source() && p.path() == n.path().drop_last(),
{
    n.node.parent().map(|p| NixNode { node: p, src: Ghost(n.src@), path: Ghost(n.path@.drop_last()) })
}

/// Relies on tree_sitter::Node::prev_sibling: the child of the same parent
/// one position earlier.
#[verifier::external_body]
pub fn prev_sibling<'t>(n: &NixNode<'t>) -> (r: Option<NixNode<'t>>)
    ensures
        r is Some == (n.path().len() > 0 && n.path().last() > 0),
        r matches Some(s) ==> s.source() == n.source() && s.path() == n.path().drop_last().push(
            (n.path().last() - 1) as u32,
        ),
{
    n.node.prev_sibling().map(
        |s| NixNode {
            node: s,
            src: Ghost(n.src@),
            path: Ghost(n.path@.drop_last().push((n.path@.last() - 1) as u32)),
        },
    )
}

} // verus!
