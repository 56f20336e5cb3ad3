//! Parsing Python source with tree-sitter into a plain syntax tree.
//!
//! tree-sitter parses a text with a fixed grammar deterministically, so every
//! fact of the tree it builds is a function of the source text. A node is named
//! by its path from the root: the index of the child taken at each step. The
//! facts that the conversion reads of a node are named over the source text and
//! that path; the conversion is proved to copy exactly those facts.

use vstd::prelude::*;
use vstd::string::StringSliceAdditionalSpecFns;
use vstd::utf8::{encode_utf8, is_char_boundary};

use tree_sitter::{Node, Parser, Tree};

use crate::pipeline::syntax::{rows_bounded, SyntaxNode};

verus! {

#[verifier::external_type_specification]
#[verifier::external_body]
pub struct ExParser(tree_sitter::Parser);

#[verifier::external_type_specification]
#[verifier::external_body]
pub struct ExTree(tree_sitter::Tree);

#[verifier::external_type_specification]
#[verifier::external_body]
pub struct ExNode<'tree>(tree_sitter::Node<'tree>);

/// The grammar kind of the node at `path` in the tree of `source_code` (`Node::kind`).
pub uninterp spec fn python_node_kind(source_code: Seq<char>, path: Seq<u32>) -> Seq<char>;

/// Whether the node at `path` is named in the grammar (`Node::is_named`).
pub uninterp spec fn python_node_is_named(source_code: Seq<char>, path: Seq<u32>) -> bool;

/// The number of children of the node at `path` (`Node::child_count`).
pub uninterp spec fn python_child_count(source_code: Seq<char>, path: Seq<u32>) -> u32;

/// The field under which the node at `path` holds its child `index`
/// (`Node::field_name_for_child`).
pub uninterp spec fn python_child_field_name(source_code: Seq<char>, path: Seq<u32>, index: u32) -> Option<Seq<char>>;

/// The byte offset where the node at `path` starts (`Node::start_byte`).
pub uninterp spec fn python_node_start_byte(source_code: Seq<char>, path: Seq<u32>) -> usize;

/// The byte offset where the node at `path` ends (`Node::end_byte`).
pub uninterp spec fn python_node_end_byte(source_code: Seq<char>, path: Seq<u32>) -> usize;

/// The number of descendants of the node at `path`, counting the node itself
/// (`Node::descendant_count`).
pub uninterp spec fn python_descendant_count(source_code: Seq<char>, path: Seq<u32>) -> usize;

/// The zero-based row where the node at `path` starts (`Node::start_position`).
pub uninterp spec fn python_node_start_row(source_code: Seq<char>, path: Seq<u32>) -> usize;

/// A source text with the tree that tree-sitter built for it.
struct ParsedSource {
    tree: Tree,
    text: String,
}

impl View for ParsedSource {
    type V = Seq<char>;

    closed spec fn view(&self) -> Seq<char> {
        self.text@
    }
}

/// A node of a parsed source, with the source text and the node's path.
struct SourceNode<'tree> {
    node: Node<'tree>,
    source_code: Ghost<Seq<char>>,
    path: Ghost<Seq<u32>>,
}

impl<'tree> View for SourceNode<'tree> {
    type V = (Seq<char>, Seq<u32>);

    closed spec fn view(&self) -> (Seq<char>, Seq<u32>) {
        (self.source_code@, self.path@)
    }
}

/// `Parser::new`: a parser without a language.
#[verifier::external_body]
fn new_parser() -> Parser {
    Parser::new()
}

/// `Parser::set_language` with the grammar of `tree_sitter_python`; whether
/// the grammar was accepted. Nothing is stated: acceptance depends on the ABI
/// version and the parseability of the grammar, which no argument carries.
#[verifier::external_body]
fn set_python_language(parser: &mut Parser) -> bool {
    parser.set_language(&tree_sitter_python::LANGUAGE.into()).is_ok()
}

/// `Parser::parse` of a whole text without an old tree, kept with the text.
/// tree-sitter documents that `parse` returns no tree only when the parser has
/// no language; the parser of a `PythonSourceParser` always has the Python
/// grammar, which its only constructor sets, so a tree always comes back.
#[verifier::external_body]
fn parse_source(source_parser: &mut PythonSourceParser, source_code: &str) -> (parsed: ParsedSource)
    ensures
        parsed@ == source_code@,
{
    let tree = source_parser.inner_parser.parse(source_code, None).expect("у парсера задана грамматика Python");
    ParsedSource { tree, text: source_code.to_string() }
}

/// `Tree::root_node`: the node at the empty path.
#[verifier::external_body]
fn root_of(parsed: &ParsedSource) -> (root: SourceNode<'_>)
    ensures
        root@ == (parsed@, Seq::<u32>::empty()),
{
    SourceNode { node: parsed.tree.root_node(), source_code: Ghost(parsed@), path: Ghost(Seq::empty()) }
}

/// `Node::child`: the child at `index`, which exists exactly when `index` is
/// below the child count. A child is a descendant of its parent, so it has
/// fewer descendants (`Node::descendant_count` counts a node and its
/// descendants).
#[verifier::external_body]
fn child_of<'tree>(node: &SourceNode<'tree>, index: u32) -> (child: Option<SourceNode<'tree>>)
    ensures
        child is Some <==> index < python_child_count(node@.0, node@.1),
        child matches Some(c) ==> c@ == (node@.0, node@.1.push(index)),
        child is Some ==> python_descendant_count(node@.0, node@.1.push(index)) < python_descendant_count(
            node@.0,
            node@.1,
        ),
{
    match node.node.child(index) {
        Some(c) => Some(SourceNode { node: c, source_code: Ghost(node@.0), path: Ghost(node@.1.push(index)) }),
        None => None,
    }
}

/// `Node::kind`, copied into a string.
#[verifier::external_body]
fn kind_of(node: &SourceNode) -> (kind: String)
    ensures
        kind@ == python_node_kind(node@.0, node@.1),
{
    node.node.kind().to_string()
}

/// `Node::is_named`.
#[verifier::external_body]
fn is_named_node(node: &SourceNode) -> (named: bool)
    ensures
        named == python_node_is_named(node@.0, node@.1),
{
    node.node.is_named()
}

/// `Node::child_count`.
#[verifier::external_body]
fn child_count_of(node: &SourceNode) -> (count: u32)
    ensures
        count == python_child_count(node@.0, node@.1),
{
    node.node.child_count()
}

/// `Node::field_name_for_child`, copied into a string.
#[verifier::external_body]
fn field_name_of_child(node: &SourceNode, index: u32) -> (name: Option<String>)
    ensures
        field_name_view(name) == python_child_field_name(node@.0, node@.1, index),
{
    match node.node.field_name_for_child(index) {
        Some(name) => Some(name.to_string()),
        None => None,
    }
}

/// `Node::start_byte`.
#[verifier::external_body]
fn start_byte_of(node: &SourceNode) -> (offset: usize)
    ensures
        offset == python_node_start_byte(node@.0, node@.1),
{
    node.node.start_byte()
}

/// `Node::end_byte`.
#[verifier::external_body]
fn end_byte_of(node: &SourceNode) -> (offset: usize)
    ensures
        offset == python_node_end_byte(node@.0, node@.1),
{
    node.node.end_byte()
}

/// The row of `Node::start_position`. tree-sitter keeps rows as `u32`
/// and widens them, so the row is at most `u32::MAX`.
#[verifier::external_body]
fn start_row_of(node: &SourceNode) -> (row: usize)
    ensures
        row == python_node_start_row(node@.0, node@.1),
        row <= u32::MAX,
{
    node.node.start_position().row
}

/// `str::get` with a byte range: the sub-slice when both ends are character
/// boundaries within the text and `start <= end`, `None` otherwise.
#[verifier::external_body]
fn byte_range_of(text: &str, start: usize, end: usize) -> (slice: Option<&str>)
    ensures
        match slice {
            Some(part) => {
                &&& start <= end <= text.spec_bytes().len()
                &&& is_char_boundary(text.spec_bytes(), start as int)
                &&& is_char_boundary(text.spec_bytes(), end as int)
                &&& part.spec_bytes() == text.spec_bytes().subrange(start as int, end as int)
            },
            None => !{
                &&& start <= end <= text.spec_bytes().len()
                &&& is_char_boundary(text.spec_bytes(), start as int)
                &&& is_char_boundary(text.spec_bytes(), end as int)
            },
        },
{
    text.get(start..end)
}

} // verus!

verus! {

/// An optional string by its view.
pub open spec fn field_name_view(name: Option<String>) -> Option<Seq<char>> {
    match name {
        Some(text) => Some(text@),
        None => None,
    }
}

/// Whether `text` is the source text between two byte offsets: its UTF-8
/// bytes are that range when the range is a valid slice, and it is empty
/// otherwise.
pub open spec fn spans_source(text: Seq<char>, source_code: Seq<char>, start: usize, end: usize) -> bool {
    let bytes = encode_utf8(source_code);
    if start <= end <= bytes.len() && is_char_boundary(bytes, start as int) && is_char_boundary(bytes, end as int) {
        encode_utf8(text) == bytes.subrange(start as int, end as int)
    } else {
        text.len() == 0
    }
}

/// Whether `tree` is the plain form of the node at `path` in the tree of
/// `source_code`: the same kind, naming, row, text and children, each child
/// under the field name the parent gives it.
pub open spec fn describes_node(tree: SyntaxNode, source_code: Seq<char>, path: Seq<u32>) -> bool
    decreases tree,
{
    &&& tree.kind@ == python_node_kind(source_code, path)
    &&& tree.is_named == python_node_is_named(source_code, path)
    &&& tree.start_row == python_node_start_row(source_code, path)
    &&& spans_source(
        tree.text@,
        source_code,
        python_node_start_byte(source_code, path),
        python_node_end_byte(source_code, path),
    )
    &&& tree.children@.len() == python_child_count(source_code, path)
    &&& forall|i: int|
        0 <= i < tree.children@.len() ==> (field_name_view(#[trigger] tree.children@[i].field_name)
            == python_child_field_name(source_code, path, i as u32) && describes_node(
            tree.children@[i],
            source_code,
            path.push(i as u32),
        ))
}

/// Whether `steps`, child indices taken one after the other, lead from the node
/// at `path` down to one of its descendants (no steps lead to the node itself).
pub open spec fn leads_to_descendant(source_code: Seq<char>, path: Seq<u32>, steps: Seq<u32>) -> bool
    decreases steps.len(),
{
    steps.len() == 0 || (steps[0] < python_child_count(source_code, path) && leads_to_descendant(
        source_code,
        path.push(steps[0]),
        steps.drop_first(),
    ))
}

/// Whether a node of the subtree at `path` starts at row `usize::MAX`, which
/// leaves no room for its one-based line number in a `usize`.
pub open spec fn row_out_of_range(source_code: Seq<char>, path: Seq<u32>) -> bool {
    exists|steps: Seq<u32>|
        #[trigger] leads_to_descendant(source_code, path, steps) && python_node_start_row(source_code, path + steps)
            == usize::MAX
}

/// In the plain form of a subtree with bounded rows, no descendant starts at
/// row `usize::MAX`.
proof fn lemma_described_rows_in_range(tree: SyntaxNode, source_code: Seq<char>, path: Seq<u32>, steps: Seq<u32>)
    requires
        describes_node(tree, source_code, path),
        rows_bounded(tree),
        leads_to_descendant(source_code, path, steps),
    ensures
        python_node_start_row(source_code, path + steps) < usize::MAX,
    decreases steps.len(),
{
    if steps.len() == 0 {
        assert(path + steps =~= path);
    } else {
        let i = steps[0];
        let child = tree.children@[i as int];
        assert(field_name_view(tree.children@[i as int].field_name) == python_child_field_name(source_code, path, i));
        assert(describes_node(child, source_code, path.push(i)));
        assert(rows_bounded(child));
        lemma_described_rows_in_range(child, source_code, path.push(i), steps.drop_first());
        assert(path.push(i) + steps.drop_first() =~= path + steps);
    }
}

/// Converts a tree-sitter node and its subtree into a plain syntax tree.
/// The text of a node is its byte range of the source, or empty text when
/// that range is not a valid slice of the source. The conversion fails only
/// where a row leaves no room for a one-based line number.
fn convert_node(node: &SourceNode, source_code: &str) -> (converted: Option<SyntaxNode>)
    requires
        source_code@ == node@.0,
    ensures
        converted is Some <==> !row_out_of_range(node@.0, node@.1),
        converted matches Some(tree) ==> {
            &&& describes_node(tree, node@.0, node@.1)
            &&& rows_bounded(tree)
            &&& tree.field_name is None
        },
    decreases python_descendant_count(node@.0, node@.1),
{
    let ghost source = node@.0;
    let ghost path = node@.1;
    let start_row = start_row_of(node);
    if start_row == usize::MAX {
        proof {
            assert(leads_to_descendant(source, path, Seq::<u32>::empty()));
            assert(path + Seq::<u32>::empty() =~= path);
        }
        return None;
    }
    let start = start_byte_of(node);
    let end = end_byte_of(node);
    let text = match byte_range_of(source_code, start, end) {
        Some(part) => String::from_str(part),
        None => String::new(),
    };
    let child_count = child_count_of(node);
    let mut children: Vec<SyntaxNode> = Vec::new();
    let mut i: u32 = 0;
    while i < child_count
        invariant
            source_code@ == source,
            node@ == (source, path),
            child_count == python_child_count(source, path),
            i <= child_count,
            children@.len() == i,
            forall|k: int|
                0 <= k < i ==> {
                    &&& rows_bounded(#[trigger] children@[k])
                    &&& describes_node(children@[k], source, path.push(k as u32))
                    &&& field_name_view(children@[k].field_name) == python_child_field_name(source, path, k as u32)
                },
        decreases child_count - i,
    {
        match child_of(node, i) {
            Some(child) => {
                match convert_node(&child, source_code) {
                    Some(converted_child) => {
                        let mut converted_child = converted_child;
                        converted_child.field_name = field_name_of_child(node, i);
                        children.push(converted_child);
                    },
                    None => {
                        proof {
                            let inner = choose|steps: Seq<u32>|
                                #[trigger] leads_to_descendant(source, path.push(i), steps) && python_node_start_row(
                                    source,
                                    path.push(i) + steps,
                                ) == usize::MAX;
                            let steps = seq![i] + inner;
                            assert(steps.drop_first() =~= inner);
                            assert(leads_to_descendant(source, path, steps));
                            assert(path + steps =~= path.push(i) + inner);
                        }
                        return None;
                    },
                }
            },
            None => {
                return None;
            },
        }
        i = i + 1;
    }
    let converted = SyntaxNode { kind: kind_of(node), field_name: None, is_named: is_named_node(node), text, start_row, children };
    proof {
        assert(encode_utf8(source_code@) == source_code.spec_bytes());
        assert(rows_bounded(converted));
        assert(describes_node(converted, source, path));
        if row_out_of_range(source, path) {
            let steps = choose|steps: Seq<u32>|
                #[trigger] leads_to_descendant(source, path, steps) && python_node_start_row(source, path + steps)
                    == usize::MAX;
            lemma_described_rows_in_range(converted, source, path, steps);
        }
    }
    Some(converted)
}

/// A parser of Python source, reused by a worker thread.
pub struct PythonSourceParser {
    inner_parser: Parser,
}

impl PythonSourceParser {
    /// Creates a parser with the Python grammar; `None` when tree-sitter does
    /// not accept the grammar of `tree_sitter_python`.
    pub fn new() -> Option<PythonSourceParser> {
        let mut inner_parser = new_parser();
        if set_python_language(&mut inner_parser) {
            Some(PythonSourceParser { inner_parser })
        } else {
            None
        }
    }

    /// Builds the plain syntax tree of a source text: the tree that tree-sitter
    /// builds for it, or `RowOutOfRange` when a node of that tree starts at
    /// row `usize::MAX`.
    pub fn parse(&mut self, source_code: &str) -> (tree: Result<SyntaxNode, ParseFailure>)
        ensures
            match tree {
                Ok(root) => {
                    &&& !row_out_of_range(source_code@, Seq::empty())
                    &&& describes_node(root, source_code@, Seq::empty())
                    &&& rows_bounded(root)
                    &&& root.field_name is None
                },
                Err(ParseFailure::RowOutOfRange) => row_out_of_range(source_code@, Seq::empty()),
            },
    {
        let parsed = parse_source(self, source_code);
        let root = root_of(&parsed);
        match convert_node(&root, source_code) {
            Some(converted) => Ok(converted),
            None => Err(ParseFailure::RowOutOfRange),
        }
    }
}

/// Why a source text has no plain syntax tree.
pub enum ParseFailure {
    /// A node starts at row `usize::MAX`, which leaves no room for its
    /// one-based line number (only possible where `usize` has 32 bits).
    RowOutOfRange,
}

} // verus!
