//! What the walk over a syntax tree keeps: laws about the extraction.
//!
//! The walk only ever adds to what it has gathered, every name that an
//! expression uses is a reference from the scope around it (decorators
//! included), test functions are entry points, and the strings listed in the
//! dynamic attributes of a `ModelAdmin` class keep their targets alive.

use vstd::prelude::*;

use crate::heuristics::last_segment;
use crate::model::{CodeEntityView, EntityKind};
use crate::pipeline::extract::{
    add_dynamic, add_entity, admin_attributes, admin_statement, admin_upto, call_effect, collect_strings,
    collect_strings_upto, decorators_upto, definition_entity, definition_entry_point, field_child, insert_unique,
    named_child_from, positional_arguments, record_reference, scope_qualified_name, string_argument, string_literal, superclasses_text,
    url_view_argument, visit, visit_assignment, visit_call, visit_children_upto, visit_decorated, visit_definition,
    ExtractionContext, ExtractionState, ScopeView,
};
use crate::pipeline::syntax::SyntaxNode;
use crate::text::contains_text;

verus! {

/// Whether `after` holds every entity, reference and dynamic reference of `before`.
pub open spec fn state_extends(before: ExtractionState, after: ExtractionState) -> bool {
    &&& forall|r: (Seq<char>, Seq<char>)| before.references.contains(r) ==> #[trigger] after.references.contains(r)
    &&& forall|d: Seq<char>| before.dynamic_references.contains(d) ==> #[trigger] after.dynamic_references.contains(d)
    &&& forall|e: CodeEntityView| before.entities.contains(e) ==> #[trigger] after.entities.contains(e)
}

proof fn lemma_extends_transitive(a: ExtractionState, b: ExtractionState, c: ExtractionState)
    requires
        state_extends(a, b),
        state_extends(b, c),
    ensures
        state_extends(a, c),
{
}

proof fn lemma_insert_unique_keeps<A>(items: Seq<A>, item: A)
    ensures
        insert_unique(items, item).contains(item),
        forall|x: A| items.contains(x) ==> #[trigger] insert_unique(items, item).contains(x),
{
    if !items.contains(item) {
        let pushed = items.push(item);
        assert(pushed[items.len() as int] == item);
        assert forall|x: A| items.contains(x) implies #[trigger] pushed.contains(x) by {
            let i = choose|i: int| 0 <= i < items.len() && items[i] == x;
            assert(pushed[i] == x);
        }
    }
}

proof fn lemma_push_keeps<A>(items: Seq<A>, item: A)
    ensures
        items.push(item).contains(item),
        forall|x: A| items.contains(x) ==> #[trigger] items.push(item).contains(x),
{
    let pushed = items.push(item);
    assert(pushed[items.len() as int] == item);
    assert forall|x: A| items.contains(x) implies #[trigger] pushed.contains(x) by {
        let i = choose|i: int| 0 <= i < items.len() && items[i] == x;
        assert(pushed[i] == x);
    }
}

proof fn lemma_add_dynamic_extends(st: ExtractionState, name: Seq<char>)
    ensures
        state_extends(st, add_dynamic(st, name)),
        add_dynamic(st, name).dynamic_references.contains(name),
{
    lemma_insert_unique_keeps(st.dynamic_references, name);
}

proof fn lemma_add_entity_extends(st: ExtractionState, entity: CodeEntityView)
    ensures
        state_extends(st, add_entity(st, entity)),
        add_entity(st, entity).entities.contains(entity),
{
    lemma_push_keeps(st.entities, entity);
}

proof fn lemma_record_reference_extends(ctx: ExtractionContext, scopes: Seq<ScopeView>, st: ExtractionState, name: Seq<char>)
    ensures
        state_extends(st, record_reference(ctx, scopes, st, name)),
        name.len() > 0 ==> record_reference(ctx, scopes, st, name).references.contains(
            (scope_qualified_name(ctx, scopes), name),
        ),
{
    lemma_insert_unique_keeps(st.references, (scope_qualified_name(ctx, scopes), name));
}

proof fn lemma_collect_strings_extends(node: SyntaxNode, st: ExtractionState)
    ensures
        state_extends(st, collect_strings(node, st)),
    decreases node, node.children@.len() + 1,
{
    match string_literal(node) {
        Some(value) => lemma_add_dynamic_extends(st, value),
        None => lemma_collect_strings_upto_extends(node, node.children@.len() as int, st),
    }
}

proof fn lemma_collect_strings_upto_extends(node: SyntaxNode, j: int, st: ExtractionState)
    ensures
        state_extends(st, collect_strings_upto(node, j, st)),
    decreases node, j,
{
    if !(j <= 0 || j > node.children@.len()) {
        lemma_collect_strings_upto_extends(node, j - 1, st);
        let before = collect_strings_upto(node, j - 1, st);
        lemma_collect_strings_extends(node.children@[j - 1], before);
        lemma_extends_transitive(st, before, collect_strings_upto(node, j, st));
    }
}

/// Gathering the strings of a node gathers every string literal among its children.
proof fn lemma_collect_strings_upto_gathers(node: SyntaxNode, j: int, k: int, value: Seq<char>, st: ExtractionState)
    requires
        0 <= k < j <= node.children@.len(),
        string_literal(node.children@[k]) == Some(value),
    ensures
        collect_strings_upto(node, j, st).dynamic_references.contains(value),
    decreases j,
{
    let before = collect_strings_upto(node, j - 1, st);
    assert(collect_strings_upto(node, j, st) == collect_strings(node.children@[j - 1], before));
    if k == j - 1 {
        assert(collect_strings(node.children@[k], before) == add_dynamic(before, value));
        lemma_add_dynamic_extends(before, value);
    } else {
        lemma_collect_strings_upto_gathers(node, j - 1, k, value, st);
        lemma_collect_strings_extends(node.children@[j - 1], before);
    }
}

proof fn lemma_admin_statement_extends(statement: SyntaxNode, st: ExtractionState)
    ensures
        state_extends(st, admin_statement(statement, st)),
{
    if let Some(a) = named_child_from(statement, 0) {
        let assignment = statement.children@[a];
        if let Some(r) = field_child(assignment, "right"@) {
            lemma_collect_strings_extends(assignment.children@[r], st);
        }
    }
}

proof fn lemma_admin_upto_extends(body: SyntaxNode, j: int, st: ExtractionState)
    ensures
        state_extends(st, admin_upto(body, j, st)),
    decreases j,
{
    if j > 0 {
        lemma_admin_upto_extends(body, j - 1, st);
        let before = admin_upto(body, j - 1, st);
        lemma_admin_statement_extends(body.children@[j - 1], before);
        lemma_extends_transitive(st, before, admin_upto(body, j, st));
    }
}

proof fn lemma_admin_attributes_extends(class_node: SyntaxNode, st: ExtractionState)
    ensures
        state_extends(st, admin_attributes(class_node, st)),
{
    if let Some(b) = field_child(class_node, "body"@) {
        lemma_admin_upto_extends(class_node.children@[b], class_node.children@[b].children@.len() as int, st);
    }
}

proof fn lemma_string_argument_extends(args: Seq<SyntaxNode>, k: int, st: ExtractionState)
    ensures
        state_extends(st, string_argument(args, k, st)),
{
    if 0 <= k < args.len() {
        if let Some(value) = string_literal(args[k]) {
            lemma_add_dynamic_extends(st, value);
        }
    }
}

proof fn lemma_url_view_argument_extends(args: Seq<SyntaxNode>, k: int, st: ExtractionState)
    ensures
        state_extends(st, url_view_argument(args, k, st)),
{
    if 0 <= k < args.len() {
        let view = args[k];
        if view.kind@ == "string"@ {
            if let Some(value) = string_literal(view) {
                lemma_add_dynamic_extends(st, value);
            }
        } else if view.kind@ == "identifier"@ || view.kind@ == "attribute"@ {
            lemma_add_dynamic_extends(st, last_segment(view.text@));
        }
    }
}

proof fn lemma_call_effect_extends(node: SyntaxNode, st: ExtractionState)
    ensures
        state_extends(st, call_effect(node, st)),
{
    let args = positional_arguments(node);
    lemma_string_argument_extends(args, 1, st);
    lemma_string_argument_extends(args, 0, st);
    lemma_url_view_argument_extends(args, 1, st);
}

proof fn lemma_visit_extends(node: SyntaxNode, ctx: ExtractionContext, scopes: Seq<ScopeView>, st: ExtractionState)
    ensures
        state_extends(st, visit(node, ctx, scopes, st)),
    decreases node, node.children@.len() + 3,
{
    let kind = node.kind@;
    if kind == "decorated_definition"@ {
        lemma_visit_decorated_extends(node, ctx, scopes, st);
    } else if kind == "function_definition"@ || kind == "class_definition"@ {
        lemma_visit_definition_extends(node, ctx, scopes, st, Seq::empty());
    } else if kind == "call"@ {
        lemma_call_effect_extends(node, st);
        lemma_visit_children_upto_extends(node, node.children@.len() as int, -1, ctx, scopes, call_effect(node, st));
        lemma_extends_transitive(st, call_effect(node, st), visit_call(node, ctx, scopes, st));
    } else if kind == "assignment"@ {
        lemma_visit_assignment_extends(node, ctx, scopes, st);
    } else if kind == "identifier"@ {
        lemma_record_reference_extends(ctx, scopes, st, node.text@);
    } else {
        lemma_visit_children_upto_extends(node, node.children@.len() as int, -1, ctx, scopes, st);
    }
}

proof fn lemma_visit_children_upto_extends(
    node: SyntaxNode,
    j: int,
    skip: int,
    ctx: ExtractionContext,
    scopes: Seq<ScopeView>,
    st: ExtractionState,
)
    ensures
        state_extends(st, visit_children_upto(node, j, skip, ctx, scopes, st)),
    decreases node, j,
{
    if !(j <= 0 || j > node.children@.len()) {
        lemma_visit_children_upto_extends(node, j - 1, skip, ctx, scopes, st);
        if j - 1 != skip {
            let before = visit_children_upto(node, j - 1, skip, ctx, scopes, st);
            lemma_visit_extends(node.children@[j - 1], ctx, scopes, before);
            lemma_extends_transitive(st, before, visit_children_upto(node, j, skip, ctx, scopes, st));
        }
    }
}

proof fn lemma_decorators_upto_extends(node: SyntaxNode, j: int, ctx: ExtractionContext, scopes: Seq<ScopeView>, st: ExtractionState)
    ensures
        state_extends(st, decorators_upto(node, j, ctx, scopes, st).0),
    decreases node, j,
{
    if !(j <= 0 || j > node.children@.len()) {
        lemma_decorators_upto_extends(node, j - 1, ctx, scopes, st);
        let before = decorators_upto(node, j - 1, ctx, scopes, st).0;
        let child = node.children@[j - 1];
        if child.kind@ == "decorator"@ {
            lemma_collect_strings_extends(child, before);
            let normalized = crate::heuristics::normalized_decorator(child.text@);
            let with_fixtures = if contains_text(normalized, "usefixtures"@) {
                collect_strings(child, before)
            } else {
                before
            };
            lemma_visit_children_upto_extends(child, child.children@.len() as int, -1, ctx, scopes, with_fixtures);
            lemma_extends_transitive(st, before, with_fixtures);
            lemma_extends_transitive(st, with_fixtures, decorators_upto(node, j, ctx, scopes, st).0);
        }
    }
}

proof fn lemma_visit_decorated_extends(node: SyntaxNode, ctx: ExtractionContext, scopes: Seq<ScopeView>, st: ExtractionState)
    ensures
        state_extends(st, visit_decorated(node, ctx, scopes, st)),
    decreases node, node.children@.len() + 2,
{
    lemma_decorators_upto_extends(node, node.children@.len() as int, ctx, scopes, st);
    let (after, names) = decorators_upto(node, node.children@.len() as int, ctx, scopes, st);
    if let Some(d) = field_child(node, "definition"@) {
        if 0 <= d < node.children@.len() {
            lemma_visit_definition_extends(node.children@[d], ctx, scopes, after, names);
            lemma_extends_transitive(st, after, visit_decorated(node, ctx, scopes, st));
        }
    }
}

proof fn lemma_visit_definition_extends(
    node: SyntaxNode,
    ctx: ExtractionContext,
    scopes: Seq<ScopeView>,
    st: ExtractionState,
    decorators: Seq<Seq<char>>,
)
    ensures
        state_extends(st, visit_definition(node, ctx, scopes, st, decorators)),
    decreases node, node.children@.len() + 2,
{
    if let Some(name_index) = field_child(node, "name"@) {
        let with_entity = add_entity(st, definition_entity(node, name_index, ctx, scopes, decorators));
        lemma_add_entity_extends(st, definition_entity(node, name_index, ctx, scopes, decorators));
        lemma_admin_attributes_extends(node, with_entity);
        let with_admin = if node.kind@ == "class_definition"@ {
            admin_attributes(node, with_entity)
        } else {
            with_entity
        };
        let inner = scopes.push(crate::pipeline::extract::definition_scope(node, name_index, ctx));
        lemma_visit_children_upto_extends(node, node.children@.len() as int, name_index, ctx, inner, with_admin);
        lemma_extends_transitive(st, with_entity, with_admin);
        lemma_extends_transitive(st, with_admin, visit_definition(node, ctx, scopes, st, decorators));
    }
}

proof fn lemma_visit_assignment_extends(node: SyntaxNode, ctx: ExtractionContext, scopes: Seq<ScopeView>, st: ExtractionState)
    ensures
        state_extends(st, visit_assignment(node, ctx, scopes, st)),
    decreases node, node.children@.len() + 2,
{
    match crate::pipeline::extract::assigned_identifier(node) {
        Some(l) => {
            let name = node.children@[l].text@;
            let entity = crate::pipeline::extract::variable_entity(ctx, name, node.children@[l].start_row as int);
            lemma_collect_strings_extends(node, st);
            lemma_add_entity_extends(st, entity);
            let updated = if name == "__all__"@ {
                collect_strings(node, st)
            } else if scopes.len() == 0 {
                add_entity(st, entity)
            } else {
                st
            };
            lemma_visit_children_upto_extends(node, node.children@.len() as int, l, ctx, scopes, updated);
            lemma_extends_transitive(st, updated, visit_assignment(node, ctx, scopes, st));
        },
        None => lemma_visit_children_upto_extends(node, node.children@.len() as int, -1, ctx, scopes, st),
    }
}

/// The walk only adds: whatever was gathered before a node is still there after it.
pub proof fn lemma_walk_only_adds(node: SyntaxNode, ctx: ExtractionContext, scopes: Seq<ScopeView>, st: ExtractionState)
    ensures
        state_extends(st, visit(node, ctx, scopes, st)),
{
    lemma_visit_extends(node, ctx, scopes, st);
}

} // verus!

verus! {

/// The kinds of syntax nodes that the walk tells apart are distinct texts.
proof fn lemma_node_kinds_distinct()
    ensures
        "identifier"@ != "decorated_definition"@,
        "identifier"@ != "function_definition"@,
        "identifier"@ != "class_definition"@,
        "identifier"@ != "call"@,
        "identifier"@ != "assignment"@,
        "identifier"@ != "decorator"@,
        "function_definition"@ != "decorated_definition"@,
        "function_definition"@ != "class_definition"@,
        "class_definition"@ != "decorated_definition"@,
        "list"@ != "string"@,
        "tuple"@ != "string"@,
        "set"@ != "string"@,
{
    reveal_strlit("identifier");
    reveal_strlit("decorated_definition");
    reveal_strlit("function_definition");
    reveal_strlit("class_definition");
    reveal_strlit("call");
    reveal_strlit("assignment");
    reveal_strlit("decorator");
    reveal_strlit("list");
    reveal_strlit("tuple");
    reveal_strlit("set");
    reveal_strlit("string");
    assert("identifier"@.len() != "decorated_definition"@.len());
    assert("identifier"@.len() != "function_definition"@.len());
    assert("identifier"@.len() != "class_definition"@.len());
    assert("identifier"@.len() != "call"@.len());
    assert("identifier"@[0] != "assignment"@[0]);
    assert("identifier"@.len() != "decorator"@.len());
    assert("function_definition"@.len() != "decorated_definition"@.len());
    assert("function_definition"@[0] != "class_definition"@[0]);
    assert("class_definition"@.len() != "decorated_definition"@.len());
    assert("list"@.len() != "string"@.len());
    assert("tuple"@.len() != "string"@.len());
    assert("set"@.len() != "string"@.len());
}

/// Whether the walk descends into a node as into an expression: it is not a
/// definition, an assignment or a name.
pub open spec fn expression_node(node: SyntaxNode) -> bool {
    let kind = node.kind@;
    &&& kind != "decorated_definition"@
    &&& kind != "function_definition"@
    &&& kind != "class_definition"@
    &&& kind != "assignment"@
    &&& kind != "identifier"@
}

/// Whether following the child indices of `path` from `node` passes through
/// expression nodes only and ends at an identifier.
pub open spec fn identifier_path(node: SyntaxNode, path: Seq<int>) -> bool
    decreases path.len(),
{
    if path.len() == 0 {
        node.kind@ == "identifier"@
    } else {
        &&& expression_node(node)
        &&& 0 <= path[0] < node.children@.len()
        &&& identifier_path(node.children@[path[0]], path.drop_first())
    }
}

/// The node reached by following the child indices of `path` from `node`.
pub open spec fn node_at(node: SyntaxNode, path: Seq<int>) -> SyntaxNode
    decreases path.len(),
{
    if path.len() == 0 || !(0 <= path[0] < node.children@.len()) {
        node
    } else {
        node_at(node.children@[path[0]], path.drop_first())
    }
}

/// An identifier inside an expression is a reference from the scope the walk is in.
proof fn lemma_visit_records_path(
    node: SyntaxNode,
    path: Seq<int>,
    ctx: ExtractionContext,
    scopes: Seq<ScopeView>,
    st: ExtractionState,
)
    requires
        identifier_path(node, path),
        node_at(node, path).text@.len() > 0,
    ensures
        visit(node, ctx, scopes, st).references.contains((scope_qualified_name(ctx, scopes), node_at(node, path).text@)),
    decreases path.len(), 1int, 0int,
{
    lemma_node_kinds_distinct();
    if path.len() == 0 {
        assert(node_at(node, path) == node);
        lemma_record_reference_extends(ctx, scopes, st, node.text@);
    } else if node.kind@ == "call"@ {
        lemma_children_record_path(node, node.children@.len() as int, -1, path, ctx, scopes, call_effect(node, st));
    } else {
        lemma_children_record_path(node, node.children@.len() as int, -1, path, ctx, scopes, st);
    }
}

/// Walking the children of a node records the identifiers inside the walked children.
proof fn lemma_children_record_path(
    node: SyntaxNode,
    j: int,
    skip: int,
    path: Seq<int>,
    ctx: ExtractionContext,
    scopes: Seq<ScopeView>,
    st: ExtractionState,
)
    requires
        identifier_path(node, path),
        path.len() > 0,
        path[0] < j <= node.children@.len(),
        path[0] != skip,
        node_at(node, path).text@.len() > 0,
    ensures
        visit_children_upto(node, j, skip, ctx, scopes, st).references.contains(
            (scope_qualified_name(ctx, scopes), node_at(node, path).text@),
        ),
    decreases path.len(), 0int, j,
{
    let before = visit_children_upto(node, j - 1, skip, ctx, scopes, st);
    let child = node.children@[j - 1];
    if j - 1 == path[0] {
        assert(node_at(node, path) == node_at(child, path.drop_first()));
        lemma_visit_records_path(child, path.drop_first(), ctx, scopes, before);
    } else {
        lemma_children_record_path(node, j - 1, skip, path, ctx, scopes, st);
        if j - 1 != skip {
            lemma_visit_extends(child, ctx, scopes, before);
        }
    }
}

/// Every non-empty name that an expression uses, reached through expression
/// nodes only, is recorded as a reference from the scope the walk is in.
pub proof fn lemma_expression_names_are_referenced(
    node: SyntaxNode,
    path: Seq<int>,
    ctx: ExtractionContext,
    scopes: Seq<ScopeView>,
    st: ExtractionState,
)
    requires
        identifier_path(node, path),
        node_at(node, path).text@.len() > 0,
    ensures
        visit(node, ctx, scopes, st).references.contains((scope_qualified_name(ctx, scopes), node_at(node, path).text@)),
{
    lemma_visit_records_path(node, path, ctx, scopes, st);
}

proof fn lemma_decorators_upto_record(
    node: SyntaxNode,
    j: int,
    d: int,
    path: Seq<int>,
    ctx: ExtractionContext,
    scopes: Seq<ScopeView>,
    st: ExtractionState,
)
    requires
        0 <= d < j <= node.children@.len(),
        node.children@[d].kind@ == "decorator"@,
        identifier_path(node.children@[d], path),
        node_at(node.children@[d], path).text@.len() > 0,
    ensures
        decorators_upto(node, j, ctx, scopes, st).0.references.contains(
            (scope_qualified_name(ctx, scopes), node_at(node.children@[d], path).text@),
        ),
    decreases j,
{
    lemma_node_kinds_distinct();
    let before = decorators_upto(node, j - 1, ctx, scopes, st).0;
    let child = node.children@[j - 1];
    if child.kind@ == "decorator"@ {
        let normalized = crate::heuristics::normalized_decorator(child.text@);
        let with_fixtures = if contains_text(normalized, "usefixtures"@) {
            collect_strings(child, before)
        } else {
            before
        };
        if j - 1 == d {
            lemma_children_record_path(child, child.children@.len() as int, -1, path, ctx, scopes, with_fixtures);
        } else {
            lemma_decorators_upto_record(node, j - 1, d, path, ctx, scopes, st);
            lemma_collect_strings_extends(child, before);
            lemma_visit_children_upto_extends(child, child.children@.len() as int, -1, ctx, scopes, with_fixtures);
            lemma_extends_transitive(before, with_fixtures, decorators_upto(node, j, ctx, scopes, st).0);
        }
    } else {
        lemma_decorators_upto_record(node, j - 1, d, path, ctx, scopes, st);
    }
}

/// Every non-empty name used in a decorator of a decorated definition is a
/// reference from the scope around the definition (`@log_calls` uses
/// `log_calls` from the module), whatever the definition itself holds.
pub proof fn lemma_decorator_names_are_referenced(
    node: SyntaxNode,
    d: int,
    path: Seq<int>,
    ctx: ExtractionContext,
    scopes: Seq<ScopeView>,
    st: ExtractionState,
)
    requires
        node.kind@ == "decorated_definition"@,
        0 <= d < node.children@.len(),
        node.children@[d].kind@ == "decorator"@,
        identifier_path(node.children@[d], path),
        node_at(node.children@[d], path).text@.len() > 0,
    ensures
        visit(node, ctx, scopes, st).references.contains(
            (scope_qualified_name(ctx, scopes), node_at(node.children@[d], path).text@),
        ),
{
    lemma_decorators_upto_record(node, node.children@.len() as int, d, path, ctx, scopes, st);
    let (after, names) = decorators_upto(node, node.children@.len() as int, ctx, scopes, st);
    if let Some(k) = field_child(node, "definition"@) {
        if 0 <= k < node.children@.len() {
            lemma_visit_definition_extends(node.children@[k], ctx, scopes, after, names);
        }
    }
}

} // verus!

verus! {

/// A function or method whose name starts with `test_` is an entry point
/// (pytest collects it), whatever its decorators and scope.
pub proof fn lemma_test_functions_are_entry_points(
    ctx: ExtractionContext,
    scopes: Seq<ScopeView>,
    name: Seq<char>,
    kind: EntityKind,
    supers: Seq<char>,
    decorators: Seq<Seq<char>>,
)
    requires
        name.len() >= 5,
        name.subrange(0, 5) == "test_"@,
        kind == EntityKind::Function || kind == EntityKind::Method,
    ensures
        definition_entry_point(ctx, scopes, name, kind, supers, decorators),
{
    reveal_strlit("test_");
    assert(crate::heuristics::test_function_name(name));
}

/// A function definition whose name starts with `test_` yields an entity
/// that is an entry point.
pub proof fn lemma_test_function_definitions_are_entry_points(
    node: SyntaxNode,
    name_index: int,
    ctx: ExtractionContext,
    scopes: Seq<ScopeView>,
    st: ExtractionState,
)
    requires
        node.kind@ == "function_definition"@,
        field_child(node, "name"@) == Some(name_index),
        node.children@[name_index].text@.len() >= 5,
        node.children@[name_index].text@.subrange(0, 5) == "test_"@,
    ensures
        visit(node, ctx, scopes, st).entities.contains(definition_entity(node, name_index, ctx, scopes, Seq::empty())),
        definition_entity(node, name_index, ctx, scopes, Seq::empty()).is_entry_point,
{
    lemma_node_kinds_distinct();
    let entity = definition_entity(node, name_index, ctx, scopes, Seq::empty());
    lemma_test_functions_are_entry_points(
        ctx,
        scopes,
        entity.simple_name,
        entity.kind,
        superclasses_text(node),
        Seq::empty(),
    );
    let with_entity = add_entity(st, entity);
    lemma_add_entity_extends(st, entity);
    let inner = scopes.push(crate::pipeline::extract::definition_scope(node, name_index, ctx));
    lemma_visit_children_upto_extends(node, node.children@.len() as int, name_index, ctx, inner, with_entity);
}

} // verus!

verus! {

/// Whether a name is one of the `ModelAdmin` attributes whose strings name
/// fields and methods.
pub open spec fn admin_listing_attribute(name: Seq<char>) -> bool {
    ||| name == "list_display"@
    ||| name == "list_filter"@
    ||| name == "actions"@
    ||| name == "readonly_fields"@
}

/// Whether a node is a list, tuple or set display.
pub open spec fn collection_display(node: SyntaxNode) -> bool {
    node.kind@ == "list"@ || node.kind@ == "tuple"@ || node.kind@ == "set"@
}

proof fn lemma_admin_upto_gathers(
    body: SyntaxNode,
    j: int,
    s: int,
    a: int,
    l: int,
    r: int,
    k: int,
    value: Seq<char>,
    st: ExtractionState,
)
    requires
        0 <= s < j <= body.children@.len(),
        body.children@[s].is_named,
        named_child_from(body.children@[s], 0) == Some(a),
        body.children@[s].children@[a].kind@ == "assignment"@,
        field_child(body.children@[s].children@[a], "left"@) == Some(l),
        admin_listing_attribute(body.children@[s].children@[a].children@[l].text@),
        field_child(body.children@[s].children@[a], "right"@) == Some(r),
        collection_display(body.children@[s].children@[a].children@[r]),
        0 <= k < body.children@[s].children@[a].children@[r].children@.len(),
        string_literal(body.children@[s].children@[a].children@[r].children@[k]) == Some(value),
    ensures
        admin_upto(body, j, st).dynamic_references.contains(value),
    decreases j,
{
    let before = admin_upto(body, j - 1, st);
    if j - 1 == s {
        let right = body.children@[s].children@[a].children@[r];
        let attributes = crate::heuristics::admin_dynamic_attributes();
        let name = body.children@[s].children@[a].children@[l].text@;
        assert(attributes[0] == "list_display"@);
        assert(attributes[1] == "list_filter"@);
        assert(attributes[2] == "actions"@);
        assert(attributes[3] == "readonly_fields"@);
        assert(attributes.contains(name));
        lemma_node_kinds_distinct();
        assert(right.kind@ != "string"@);
        assert(string_literal(right) is None);
        lemma_collect_strings_upto_gathers(right, right.children@.len() as int, k, value, before);
        assert(admin_statement(body.children@[s], before) == collect_strings(right, before));
    } else {
        lemma_admin_upto_gathers(body, j - 1, s, a, l, r, k, value, st);
        lemma_admin_statement_extends(body.children@[j - 1], before);
    }
}

/// In a class whose bases mention `ModelAdmin`, every string literal listed
/// in a list, tuple or set assigned to `list_display`, `list_filter`,
/// `actions` or `readonly_fields` is a dynamic reference, so the field or
/// method it names stays alive.
pub proof fn lemma_model_admin_listed_names_are_dynamic_references(
    node: SyntaxNode,
    name_index: int,
    b: int,
    s: int,
    a: int,
    l: int,
    r: int,
    k: int,
    value: Seq<char>,
    ctx: ExtractionContext,
    scopes: Seq<ScopeView>,
    st: ExtractionState,
)
    requires
        node.kind@ == "class_definition"@,
        field_child(node, "name"@) == Some(name_index),
        contains_text(superclasses_text(node), "ModelAdmin"@),
        field_child(node, "body"@) == Some(b),
        0 <= s < node.children@[b].children@.len(),
        node.children@[b].children@[s].is_named,
        named_child_from(node.children@[b].children@[s], 0) == Some(a),
        node.children@[b].children@[s].children@[a].kind@ == "assignment"@,
        field_child(node.children@[b].children@[s].children@[a], "left"@) == Some(l),
        admin_listing_attribute(node.children@[b].children@[s].children@[a].children@[l].text@),
        field_child(node.children@[b].children@[s].children@[a], "right"@) == Some(r),
        collection_display(node.children@[b].children@[s].children@[a].children@[r]),
        0 <= k < node.children@[b].children@[s].children@[a].children@[r].children@.len(),
        string_literal(node.children@[b].children@[s].children@[a].children@[r].children@[k]) == Some(value),
    ensures
        visit(node, ctx, scopes, st).dynamic_references.contains(value),
{
    lemma_node_kinds_distinct();
    let body = node.children@[b];
    let entity = definition_entity(node, name_index, ctx, scopes, Seq::empty());
    let with_entity = add_entity(st, entity);
    lemma_admin_upto_gathers(body, body.children@.len() as int, s, a, l, r, k, value, with_entity);
    let with_admin = admin_attributes(node, with_entity);
    let inner = scopes.push(crate::pipeline::extract::definition_scope(node, name_index, ctx));
    lemma_visit_children_upto_extends(node, node.children@.len() as int, name_index, ctx, inner, with_admin);
}

} // verus!
