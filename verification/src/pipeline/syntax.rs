//! A plain syntax tree of a Python source file.

use vstd::prelude::*;

verus! {

/// One node of a concrete syntax tree.
pub struct SyntaxNode {
    /// The grammar kind of the node (`function_definition`, `identifier`, ...).
    pub kind: String,
    /// The field under which the parent holds this node, if any.
    pub field_name: Option<String>,
    /// Whether the node is named in the grammar (not punctuation).
    pub is_named: bool,
    /// The source text the node spans.
    pub text: String,
    /// The zero-based row where the node starts.
    pub start_row: usize,
    /// The children in source order.
    pub children: Vec<SyntaxNode>,
}

} // verus!

verus! {

/// Every row in the tree leaves room for the one-based line number.
pub open spec fn rows_bounded(node: SyntaxNode) -> bool
    decreases node,
{
    &&& node.start_row < usize::MAX
    &&& forall|i: int| 0 <= i < node.children@.len() ==> rows_bounded(#[trigger] node.children@[i])
}

} // verus!
