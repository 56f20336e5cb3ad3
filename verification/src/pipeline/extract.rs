//! Extraction: walking the syntax tree of one Python file.
//!
//! The walk collects the definitions of entities, the references to names
//! bound to their scopes, and the dynamic string references. Its meaning is
//! given by the spec functions below, one per step of the walk; the
//! executable walker is proved to compute exactly that.

use vstd::prelude::*;

use crate::config::{AnalyzerConfiguration, ConfigurationView};
use crate::heuristics::{
    lemma_configured_decorator_monotone, lemma_framework_base_monotone, names_included,
    admin_dynamic_attributes, app_config_class, class_registration_decorator,
    configured_decorator, dunder_name, dynamic_reference_builtins, entry_point_decorator,
    framework_driven_base, implicit_class_name, implicit_method_name, implicit_variable_name,
    last_segment, management_command_path, normalized_decorator, property_decorator,
    settings_module, test_function_name, url_registration_functions,
};
use crate::model::{CodeEntity, CodeEntityView, EntityKind, FileAnalysis, ScopedReference, SkippedFile};
use crate::paths::{compute_module_path, dotted_module_name};
use crate::pipeline::parse::{
    describes_node, row_out_of_range, ParseFailure, PythonSourceParser,
};
use crate::pipeline::syntax::{rows_bounded, SyntaxNode};
use crate::model::{entities_view, references_view, FileAnalysisView};
use crate::heuristics::{
    is_app_config_class, is_class_registration_decorator, is_dunder_name, is_entry_point_decorator,
    is_framework_driven_base, is_implicit_class_name, is_implicit_method_name,
    is_implicit_variable_name, is_management_command_path, is_property_decorator,
    is_settings_module, is_test_function_name, last_dotted_segment, matches_configured_decorator,
    normalize_decorator_expression, table_contains, admin_dynamic_attribute_table,
    dynamic_reference_builtin_table, url_registration_function_table,
};
use crate::text::{
    append_str, chars_equal, chars_of, concat_strs, contains_chars, contains_text, str_equal,
    strings_view,
};

verus! {

/// What the walk needs to know about the file and the configuration.
pub struct ExtractionContext {
    pub module_name: Seq<char>,
    pub file_path: Seq<char>,
    pub entry_point_decorators: Seq<Seq<char>>,
    pub framework_base_markers: Seq<Seq<char>>,
    pub management_command_file: bool,
}

/// The context of the walk over a file.
pub open spec fn extraction_context(
    module_name: Seq<char>,
    file_path: Seq<char>,
    configuration: ConfigurationView,
) -> ExtractionContext {
    ExtractionContext {
        module_name,
        file_path,
        entry_point_decorators: configuration.extra_entry_point_decorators,
        framework_base_markers: configuration.extra_framework_base_markers,
        management_command_file: management_command_path(file_path),
    }
}

/// A scope on the stack of the walk.
pub struct ScopeView {
    pub name: Seq<char>,
    pub is_class: bool,
    pub framework_driven: bool,
}

/// What the walk has gathered so far.
pub struct ExtractionState {
    pub entities: Seq<CodeEntityView>,
    pub references: Seq<(Seq<char>, Seq<char>)>,
    pub dynamic_references: Seq<Seq<char>>,
}

/// The state before the walk.
pub open spec fn empty_state() -> ExtractionState {
    ExtractionState {
        entities: Seq::empty(),
        references: Seq::empty(),
        dynamic_references: Seq::empty(),
    }
}

/// `items` with `item` added at the end unless it is already there.
pub open spec fn insert_unique<A>(items: Seq<A>, item: A) -> Seq<A> {
    if items.contains(item) {
        items
    } else {
        items.push(item)
    }
}

/// The state with a dynamic reference added.
pub open spec fn add_dynamic(st: ExtractionState, name: Seq<char>) -> ExtractionState {
    ExtractionState { dynamic_references: insert_unique(st.dynamic_references, name), ..st }
}

/// `prefix` followed by `.name` for each of `names`.
pub open spec fn dotted(prefix: Seq<char>, names: Seq<Seq<char>>) -> Seq<char>
    decreases names.len(),
{
    if names.len() == 0 {
        prefix
    } else {
        dotted(prefix, names.drop_last()) + "."@ + names.last()
    }
}

/// The names of the scopes on the stack.
pub open spec fn scope_names(scopes: Seq<ScopeView>) -> Seq<Seq<char>> {
    scopes.map_values(|scope: ScopeView| scope.name)
}

/// The full dotted name of the innermost scope.
pub open spec fn scope_qualified_name(ctx: ExtractionContext, scopes: Seq<ScopeView>) -> Seq<char> {
    dotted(ctx.module_name, scope_names(scopes))
}

/// The state with a reference to `name` from the innermost scope added;
/// empty names are not references.
pub open spec fn record_reference(
    ctx: ExtractionContext,
    scopes: Seq<ScopeView>,
    st: ExtractionState,
    name: Seq<char>,
) -> ExtractionState {
    if name.len() == 0 {
        st
    } else {
        ExtractionState {
            references: insert_unique(st.references, (scope_qualified_name(ctx, scopes), name)),
            ..st
        }
    }
}

/// The index of the first child with the given field name, searching from `i`.
pub open spec fn field_child_from(node: SyntaxNode, field: Seq<char>, i: int) -> Option<int>
    decreases node.children@.len() - i,
{
    if i < 0 || i >= node.children@.len() {
        None
    } else if node.children@[i].field_name matches Some(name) && name@ == field {
        Some(i)
    } else {
        field_child_from(node, field, i + 1)
    }
}

/// The index of the first child with the given field name (`child_by_field_name`).
pub open spec fn field_child(node: SyntaxNode, field: Seq<char>) -> Option<int> {
    field_child_from(node, field, 0)
}

/// The index of the first child of the given kind, searching from `i`.
pub open spec fn kind_child_from(node: SyntaxNode, kind: Seq<char>, i: int) -> Option<int>
    decreases node.children@.len() - i,
{
    if i < 0 || i >= node.children@.len() {
        None
    } else if node.children@[i].kind@ == kind {
        Some(i)
    } else {
        kind_child_from(node, kind, i + 1)
    }
}

/// The index of the first named child, searching from `i` (`named_child(0)`).
pub open spec fn named_child_from(node: SyntaxNode, i: int) -> Option<int>
    decreases node.children@.len() - i,
{
    if i < 0 || i >= node.children@.len() {
        None
    } else if node.children@[i].is_named {
        Some(i)
    } else {
        named_child_from(node, i + 1)
    }
}

/// The content of a string literal node, or `None` for other nodes.
pub open spec fn string_literal(node: SyntaxNode) -> Option<Seq<char>> {
    if node.kind@ != "string"@ {
        None
    } else {
        match kind_child_from(node, "string_content"@, 0) {
            Some(i) => Some(node.children@[i].text@),
            None => None,
        }
    }
}

/// The text of the base class list of a class definition, or empty text.
pub open spec fn superclasses_text(node: SyntaxNode) -> Seq<char> {
    match field_child(node, "superclasses"@) {
        Some(i) => node.children@[i].text@,
        None => Seq::empty(),
    }
}

/// The simple names of the bases among the first `j` children of a base class list:
/// identifiers and dotted attributes, by their last segment.
pub open spec fn base_names_upto(list: SyntaxNode, j: int) -> Seq<Seq<char>>
    decreases j,
{
    if j <= 0 {
        Seq::empty()
    } else {
        let names = base_names_upto(list, j - 1);
        let child = list.children@[j - 1];
        if child.is_named && (child.kind@ == "identifier"@ || child.kind@ == "attribute"@) {
            names.push(last_segment(child.text@))
        } else {
            names
        }
    }
}

/// The simple names of the base classes of a class definition.
pub open spec fn superclass_names(node: SyntaxNode) -> Seq<Seq<char>> {
    match field_child(node, "superclasses"@) {
        Some(i) => base_names_upto(node.children@[i], node.children@[i].children@.len() as int),
        None => Seq::empty(),
    }
}

/// The positional arguments among the first `j` children of an argument list.
pub open spec fn positional_upto(arguments: SyntaxNode, j: int) -> Seq<SyntaxNode>
    decreases j,
{
    if j <= 0 {
        Seq::empty()
    } else {
        let found = positional_upto(arguments, j - 1);
        let child = arguments.children@[j - 1];
        if child.is_named && child.kind@ != "keyword_argument"@ && child.kind@ != "comment"@ {
            found.push(child)
        } else {
            found
        }
    }
}

/// The positional arguments of a call.
pub open spec fn positional_arguments(call: SyntaxNode) -> Seq<SyntaxNode> {
    match field_child(call, "arguments"@) {
        Some(i) => positional_upto(call.children@[i], call.children@[i].children@.len() as int),
        None => Seq::empty(),
    }
}

/// The state after gathering every string literal of a subtree into the
/// dynamic references; a literal is not searched further.
pub open spec fn collect_strings(node: SyntaxNode, st: ExtractionState) -> ExtractionState
    decreases node, node.children@.len() + 1,
{
    match string_literal(node) {
        Some(value) => add_dynamic(st, value),
        None => collect_strings_upto(node, node.children@.len() as int, st),
    }
}

/// `collect_strings` over the first `j` children.
pub open spec fn collect_strings_upto(node: SyntaxNode, j: int, st: ExtractionState) -> ExtractionState
    decreases node, j,
{
    if j <= 0 || j > node.children@.len() {
        st
    } else {
        collect_strings(node.children@[j - 1], collect_strings_upto(node, j - 1, st))
    }
}

} // verus!

verus! {

/// Whether the innermost scope is a class whose methods the framework calls.
pub open spec fn inside_framework_driven_class(scopes: Seq<ScopeView>) -> bool {
    scopes.len() > 0 && scopes.last().is_class && scopes.last().framework_driven
}

/// Whether a definition is a root of the reachability analysis.
pub open spec fn definition_entry_point(
    ctx: ExtractionContext,
    scopes: Seq<ScopeView>,
    name: Seq<char>,
    kind: EntityKind,
    supers: Seq<char>,
    decorators: Seq<Seq<char>>,
) -> bool {
    if dunder_name(name) {
        true
    } else {
        match kind {
            EntityKind::Class => {
                ||| ctx.management_command_file && name == "Command"@
                ||| implicit_class_name(name)
                ||| exists|k: int| 0 <= k < decorators.len() && class_registration_decorator(#[trigger] decorators[k])
                ||| app_config_class(ctx.module_name, supers)
            },
            EntityKind::Function | EntityKind::Method => {
                ||| exists|k: int|
                    0 <= k < decorators.len() && (entry_point_decorator(#[trigger] decorators[k])
                        || configured_decorator(decorators[k], ctx.entry_point_decorators))
                ||| test_function_name(name)
                ||| kind == EntityKind::Method && {
                    ||| exists|k: int| 0 <= k < decorators.len() && property_decorator(#[trigger] decorators[k])
                    ||| implicit_method_name(name)
                    ||| inside_framework_driven_class(scopes)
                }
            },
            EntityKind::Variable => false,
        }
    }
}

/// The kind of the entity a definition introduces.
pub open spec fn definition_kind(node: SyntaxNode, scopes: Seq<ScopeView>) -> EntityKind {
    if node.kind@ == "class_definition"@ {
        EntityKind::Class
    } else if scopes.len() > 0 && scopes.last().is_class {
        EntityKind::Method
    } else {
        EntityKind::Function
    }
}

/// The state after one statement of a `ModelAdmin` class body: string
/// references in `list_display`, `list_filter`, `actions`, `readonly_fields`.
pub open spec fn admin_statement(statement: SyntaxNode, st: ExtractionState) -> ExtractionState {
    match named_child_from(statement, 0) {
        None => st,
        Some(a) => {
            let assignment = statement.children@[a];
            if assignment.kind@ != "assignment"@ {
                st
            } else {
                match field_child(assignment, "left"@) {
                    None => st,
                    Some(l) => if !admin_dynamic_attributes().contains(assignment.children@[l].text@) {
                        st
                    } else {
                        match field_child(assignment, "right"@) {
                            None => st,
                            Some(r) => {
                                let right = assignment.children@[r];
                                if right.kind@ == "list"@ || right.kind@ == "tuple"@ || right.kind@ == "set"@ {
                                    collect_strings(right, st)
                                } else {
                                    st
                                }
                            },
                        }
                    },
                }
            }
        },
    }
}

/// `admin_statement` over the named ones among the first `j` children of a class body.
pub open spec fn admin_upto(body: SyntaxNode, j: int, st: ExtractionState) -> ExtractionState
    decreases j,
{
    if j <= 0 {
        st
    } else {
        let before = admin_upto(body, j - 1, st);
        if body.children@[j - 1].is_named {
            admin_statement(body.children@[j - 1], before)
        } else {
            before
        }
    }
}

/// The state after reading the string references of a `ModelAdmin` class.
pub open spec fn admin_attributes(class_node: SyntaxNode, st: ExtractionState) -> ExtractionState {
    if !contains_text(superclasses_text(class_node), "ModelAdmin"@) {
        st
    } else {
        match field_child(class_node, "body"@) {
            None => st,
            Some(b) => admin_upto(class_node.children@[b], class_node.children@[b].children@.len() as int, st),
        }
    }
}

/// The state after a string literal argument (`args[k]`) is taken as a dynamic reference.
pub open spec fn string_argument(args: Seq<SyntaxNode>, k: int, st: ExtractionState) -> ExtractionState {
    if 0 <= k < args.len() {
        match string_literal(args[k]) {
            Some(value) => add_dynamic(st, value),
            None => st,
        }
    } else {
        st
    }
}

/// The state after the view argument (`args[k]`) of a route registration:
/// a string is a dotted reference, a name or attribute refers by last segment.
pub open spec fn url_view_argument(args: Seq<SyntaxNode>, k: int, st: ExtractionState) -> ExtractionState {
    if 0 <= k < args.len() {
        let view = args[k];
        if view.kind@ == "string"@ {
            match string_literal(view) {
                Some(value) => add_dynamic(st, value),
                None => st,
            }
        } else if view.kind@ == "identifier"@ || view.kind@ == "attribute"@ {
            add_dynamic(st, last_segment(view.text@))
        } else {
            st
        }
    } else {
        st
    }
}

/// The dynamic references a call makes: `getattr` and friends, `import_module`,
/// and route registrations.
pub open spec fn call_effect(node: SyntaxNode, st: ExtractionState) -> ExtractionState {
    match field_child(node, "function"@) {
        None => st,
        Some(f) => {
            let function_name = last_segment(node.children@[f].text@);
            let args = positional_arguments(node);
            if dynamic_reference_builtins().contains(function_name) {
                string_argument(args, 1, st)
            } else if function_name == "import_module"@ {
                string_argument(args, 0, st)
            } else if url_registration_functions().contains(function_name) {
                url_view_argument(args, 1, st)
            } else {
                st
            }
        },
    }
}

/// The entity of a module-level variable.
pub open spec fn variable_entity(ctx: ExtractionContext, name: Seq<char>, row: int) -> CodeEntityView {
    CodeEntityView {
        simple_name: name,
        qualified_name: ctx.module_name + "."@ + name,
        containing_scope: ctx.module_name,
        kind: EntityKind::Variable,
        file_path: ctx.file_path,
        line_number: row + 1,
        is_entry_point: dunder_name(name) || implicit_variable_name(name) || settings_module(ctx.module_name),
        superclass_names: Seq::empty(),
    }
}

/// The state with an entity added.
pub open spec fn add_entity(st: ExtractionState, entity: CodeEntityView) -> ExtractionState {
    ExtractionState { entities: st.entities.push(entity), ..st }
}

/// The index of the assigned name when the left side of an assignment is a plain name.
pub open spec fn assigned_identifier(node: SyntaxNode) -> Option<int> {
    match field_child(node, "left"@) {
        Some(l) => if node.children@[l].kind@ == "identifier"@ {
            Some(l)
        } else {
            None
        },
        None => None,
    }
}

/// The entity a definition introduces, given the index of its name child.
pub open spec fn definition_entity(
    node: SyntaxNode,
    name_index: int,
    ctx: ExtractionContext,
    scopes: Seq<ScopeView>,
    decorators: Seq<Seq<char>>,
) -> CodeEntityView {
    let name_node = node.children@[name_index];
    let name = name_node.text@;
    let containing = scope_qualified_name(ctx, scopes);
    let kind = definition_kind(node, scopes);
    CodeEntityView {
        simple_name: name,
        qualified_name: containing + "."@ + name,
        containing_scope: containing,
        kind,
        file_path: ctx.file_path,
        line_number: name_node.start_row + 1,
        is_entry_point: definition_entry_point(ctx, scopes, name, kind, superclasses_text(node), decorators),
        superclass_names: if kind == EntityKind::Class { superclass_names(node) } else { Seq::empty() },
    }
}

/// The scope a definition opens.
pub open spec fn definition_scope(node: SyntaxNode, name_index: int, ctx: ExtractionContext) -> ScopeView {
    let is_class = node.kind@ == "class_definition"@;
    ScopeView {
        name: node.children@[name_index].text@,
        is_class,
        framework_driven: is_class && framework_driven_base(superclasses_text(node), ctx.framework_base_markers),
    }
}

/// The state after visiting a node.
pub open spec fn visit(node: SyntaxNode, ctx: ExtractionContext, scopes: Seq<ScopeView>, st: ExtractionState) -> ExtractionState
    decreases node, node.children@.len() + 3,
{
    let kind = node.kind@;
    if kind == "decorated_definition"@ {
        visit_decorated(node, ctx, scopes, st)
    } else if kind == "function_definition"@ || kind == "class_definition"@ {
        visit_definition(node, ctx, scopes, st, Seq::empty())
    } else if kind == "call"@ {
        visit_call(node, ctx, scopes, st)
    } else if kind == "assignment"@ {
        visit_assignment(node, ctx, scopes, st)
    } else if kind == "identifier"@ {
        record_reference(ctx, scopes, st, node.text@)
    } else {
        visit_children_upto(node, node.children@.len() as int, -1, ctx, scopes, st)
    }
}

/// The state after visiting the first `j` children except the one at `skip`.
pub open spec fn visit_children_upto(
    node: SyntaxNode,
    j: int,
    skip: int,
    ctx: ExtractionContext,
    scopes: Seq<ScopeView>,
    st: ExtractionState,
) -> ExtractionState
    decreases node, j,
{
    if j <= 0 || j > node.children@.len() {
        st
    } else {
        let before = visit_children_upto(node, j - 1, skip, ctx, scopes, st);
        if j - 1 == skip {
            before
        } else {
            visit(node.children@[j - 1], ctx, scopes, before)
        }
    }
}

/// The state and normalised decorator names after the decorators among the first `j`
/// children of a decorated definition.
pub open spec fn decorators_upto(
    node: SyntaxNode,
    j: int,
    ctx: ExtractionContext,
    scopes: Seq<ScopeView>,
    st: ExtractionState,
) -> (ExtractionState, Seq<Seq<char>>)
    decreases node, j,
{
    if j <= 0 || j > node.children@.len() {
        (st, Seq::empty())
    } else {
        let (before, names) = decorators_upto(node, j - 1, ctx, scopes, st);
        let child = node.children@[j - 1];
        if child.kind@ == "decorator"@ {
            let normalized = normalized_decorator(child.text@);
            let with_fixtures = if contains_text(normalized, "usefixtures"@) {
                collect_strings(child, before)
            } else {
                before
            };
            (
                visit_children_upto(child, child.children@.len() as int, -1, ctx, scopes, with_fixtures),
                names.push(normalized),
            )
        } else {
            (before, names)
        }
    }
}

/// The state after a decorated definition.
pub open spec fn visit_decorated(node: SyntaxNode, ctx: ExtractionContext, scopes: Seq<ScopeView>, st: ExtractionState) -> ExtractionState
    decreases node, node.children@.len() + 2,
{
    let (after_decorators, names) = decorators_upto(node, node.children@.len() as int, ctx, scopes, st);
    match field_child(node, "definition"@) {
        Some(d) => if 0 <= d < node.children@.len() {
            visit_definition(node.children@[d], ctx, scopes, after_decorators, names)
        } else {
            after_decorators
        },
        None => after_decorators,
    }
}

/// The state after a function or class definition.
pub open spec fn visit_definition(
    node: SyntaxNode,
    ctx: ExtractionContext,
    scopes: Seq<ScopeView>,
    st: ExtractionState,
    decorators: Seq<Seq<char>>,
) -> ExtractionState
    decreases node, node.children@.len() + 2,
{
    match field_child(node, "name"@) {
        None => st,
        Some(name_index) => {
            let with_entity = add_entity(st, definition_entity(node, name_index, ctx, scopes, decorators));
            let with_admin = if node.kind@ == "class_definition"@ {
                admin_attributes(node, with_entity)
            } else {
                with_entity
            };
            visit_children_upto(
                node,
                node.children@.len() as int,
                name_index,
                ctx,
                scopes.push(definition_scope(node, name_index, ctx)),
                with_admin,
            )
        },
    }
}

/// The state after a call.
pub open spec fn visit_call(node: SyntaxNode, ctx: ExtractionContext, scopes: Seq<ScopeView>, st: ExtractionState) -> ExtractionState
    decreases node, node.children@.len() + 2,
{
    visit_children_upto(node, node.children@.len() as int, -1, ctx, scopes, call_effect(node, st))
}

/// The state after an assignment: a module-level name becomes a variable entity,
/// the strings of `__all__` become dynamic references, and the assigned name is
/// not a reference.
pub open spec fn visit_assignment(node: SyntaxNode, ctx: ExtractionContext, scopes: Seq<ScopeView>, st: ExtractionState) -> ExtractionState
    decreases node, node.children@.len() + 2,
{
    match assigned_identifier(node) {
        Some(l) => {
            let name = node.children@[l].text@;
            let updated = if name == "__all__"@ {
                collect_strings(node, st)
            } else if scopes.len() == 0 {
                add_entity(st, variable_entity(ctx, name, node.children@[l].start_row as int))
            } else {
                st
            };
            visit_children_upto(node, node.children@.len() as int, l, ctx, scopes, updated)
        },
        None => visit_children_upto(node, node.children@.len() as int, -1, ctx, scopes, st),
    }
}

/// What the walk extracts from a file whose syntax tree is `root`.
pub open spec fn extracted_state(root: SyntaxNode, ctx: ExtractionContext) -> ExtractionState {
    visit(root, ctx, Seq::empty(), empty_state())
}

} // verus!

verus! {

/// The views of a sequence of entities pushed one more entity.
proof fn lemma_entities_push(entities: Seq<CodeEntity>, entity: CodeEntity)
    ensures
        entities_view(entities.push(entity)) == entities_view(entities).push(entity@),
{
    assert(entities_view(entities.push(entity)) =~= entities_view(entities).push(entity@));
}

/// The views of a sequence of references pushed one more reference.
proof fn lemma_references_push(references: Seq<ScopedReference>, reference: ScopedReference)
    ensures
        references_view(references.push(reference)) == references_view(references).push(reference@),
{
    assert(references_view(references.push(reference)) =~= references_view(references).push(reference@));
}

/// The views of a sequence of strings pushed one more string.
proof fn lemma_strings_push(strings: Seq<String>, s: String)
    ensures
        strings_view(strings.push(s)) == strings_view(strings).push(s@),
{
    assert(strings_view(strings.push(s)) =~= strings_view(strings).push(s@));
}

/// Whether the node is of the given kind.
fn has_kind(node: &SyntaxNode, kind: &str) -> (result: bool)
    ensures
        result == (node.kind@ == kind@),
{
    str_equal(node.kind.as_str(), kind)
}

/// The index of the first child with the given field name.
fn field_child_index(node: &SyntaxNode, field: &str) -> (result: Option<usize>)
    ensures
        match result {
            Some(i) => field_child(*node, field@) == Some(i as int) && i < node.children@.len(),
            None => field_child(*node, field@) is None,
        },
{
    let mut i: usize = node.children.len();
    let mut found: Option<usize> = None;
    assert(field_child_from(*node, field@, node.children@.len() as int) is None);
    while i > 0
        invariant
            i <= node.children@.len(),
            match found {
                Some(k) => field_child_from(*node, field@, i as int) == Some(k as int) && k < node.children@.len(),
                None => field_child_from(*node, field@, i as int) is None,
            },
        decreases i,
    {
        i = i - 1;
        let matches_field = match &node.children[i].field_name {
            Some(name) => str_equal(name.as_str(), field),
            None => false,
        };
        if matches_field {
            found = Some(i);
        }
    }
    found
}

/// The index of the first child of the given kind.
fn kind_child_index(node: &SyntaxNode, kind: &str) -> (result: Option<usize>)
    ensures
        match result {
            Some(i) => kind_child_from(*node, kind@, 0) == Some(i as int) && i < node.children@.len(),
            None => kind_child_from(*node, kind@, 0) is None,
        },
{
    let mut i: usize = node.children.len();
    let mut found: Option<usize> = None;
    while i > 0
        invariant
            i <= node.children@.len(),
            match found {
                Some(k) => kind_child_from(*node, kind@, i as int) == Some(k as int) && k < node.children@.len(),
                None => kind_child_from(*node, kind@, i as int) is None,
            },
        decreases i,
    {
        i = i - 1;
        if has_kind(&node.children[i], kind) {
            found = Some(i);
        }
    }
    found
}

/// The index of the first named child.
fn named_child_index(node: &SyntaxNode) -> (result: Option<usize>)
    ensures
        match result {
            Some(i) => named_child_from(*node, 0) == Some(i as int) && i < node.children@.len(),
            None => named_child_from(*node, 0) is None,
        },
{
    let mut i: usize = node.children.len();
    let mut found: Option<usize> = None;
    while i > 0
        invariant
            i <= node.children@.len(),
            match found {
                Some(k) => named_child_from(*node, i as int) == Some(k as int) && k < node.children@.len(),
                None => named_child_from(*node, i as int) is None,
            },
        decreases i,
    {
        i = i - 1;
        if node.children[i].is_named {
            found = Some(i);
        }
    }
    found
}

/// The content of a string literal node.
fn string_literal_value(node: &SyntaxNode) -> (result: Option<String>)
    ensures
        match result {
            Some(value) => string_literal(*node) == Some(value@),
            None => string_literal(*node) is None,
        },
{
    if !has_kind(node, "string") {
        return None;
    }
    match kind_child_index(node, "string_content") {
        Some(i) => Some(node.children[i].text.clone()),
        None => None,
    }
}

/// A scope on the stack of the walk.
struct Scope {
    name: String,
    is_class: bool,
    is_framework_driven: bool,
}

impl View for Scope {
    type V = ScopeView;

    closed spec fn view(&self) -> ScopeView {
        ScopeView { name: self.name@, is_class: self.is_class, framework_driven: self.is_framework_driven }
    }
}

/// The views of a stack of scopes.
spec fn scopes_view(scopes: Seq<Scope>) -> Seq<ScopeView> {
    scopes.map_values(|scope: Scope| scope@)
}

/// The walker over the syntax tree of one file.
struct EntityExtractor<'a> {
    module_name: String,
    file_path: String,
    configuration: &'a AnalyzerConfiguration,
    is_management_command_file: bool,
    scope_stack: Vec<Scope>,
    entities: Vec<CodeEntity>,
    references: Vec<ScopedReference>,
    dynamic_references: Vec<String>,
}

impl<'a> EntityExtractor<'a> {
    spec fn ctx(&self) -> ExtractionContext {
        ExtractionContext {
            module_name: self.module_name@,
            file_path: self.file_path@,
            entry_point_decorators: self.configuration@.extra_entry_point_decorators,
            framework_base_markers: self.configuration@.extra_framework_base_markers,
            management_command_file: self.is_management_command_file,
        }
    }

    spec fn scopes(&self) -> Seq<ScopeView> {
        scopes_view(self.scope_stack@)
    }

    spec fn state(&self) -> ExtractionState {
        ExtractionState {
            entities: entities_view(self.entities@),
            references: references_view(self.references@),
            dynamic_references: strings_view(self.dynamic_references@),
        }
    }

    /// Whether `other` has the same context and scope stack.
    spec fn same_frame(&self, other: &Self) -> bool {
        &&& other.module_name == self.module_name
        &&& other.file_path == self.file_path
        &&& other.configuration == self.configuration
        &&& other.is_management_command_file == self.is_management_command_file
        &&& other.scope_stack@ == self.scope_stack@
    }

    /// The full dotted name of the innermost scope.
    fn current_scope_qualified_name(&self) -> (name: String)
        ensures
            name@ == scope_qualified_name(self.ctx(), self.scopes()),
    {
        let mut name = self.module_name.clone();
        let ghost names = scope_names(self.scopes());
        let mut i: usize = 0;
        assert(names.take(0) =~= Seq::<Seq<char>>::empty());
        while i < self.scope_stack.len()
            invariant
                i <= self.scope_stack@.len(),
                names == scope_names(scopes_view(self.scope_stack@)),
                names.len() == self.scope_stack@.len(),
                name@ == dotted(self.module_name@, names.take(i as int)),
            decreases self.scope_stack@.len() - i,
        {
            append_str(&mut name, ".");
            append_str(&mut name, self.scope_stack[i].name.as_str());
            assert(names.take(i + 1).drop_last() =~= names.take(i as int));
            assert(names[i as int] == self.scope_stack@[i as int].name@);
            i = i + 1;
        }
        assert(names.take(names.len() as int) =~= names);
        name
    }

    /// Adds a dynamic reference unless it is already there.
    fn add_dynamic_reference(&mut self, value: String)
        ensures
            old(self).same_frame(&*final(self)),
            final(self).entities == old(self).entities,
            final(self).references == old(self).references,
            final(self).state() == add_dynamic(old(self).state(), value@),
    {
        let ghost pool = strings_view(self.dynamic_references@);
        let mut i: usize = 0;
        while i < self.dynamic_references.len()
            invariant
                i <= self.dynamic_references@.len(),
                pool == strings_view(self.dynamic_references@),
                pool.len() == self.dynamic_references@.len(),
                forall|k: int| 0 <= k < i ==> pool[k] != value@,
            decreases self.dynamic_references@.len() - i,
        {
            if self.dynamic_references[i] == value {
                assert(pool[i as int] == value@);
                assert(pool.contains(value@));
                return;
            }
            i = i + 1;
        }
        assert(!pool.contains(value@));
        proof {
            lemma_strings_push(self.dynamic_references@, value);
        }
        self.dynamic_references.push(value);
    }

    /// Records a reference to `referenced_name` from the innermost scope.
    fn record_reference(&mut self, referenced_name: &String)
        ensures
            old(self).same_frame(&*final(self)),
            final(self).state() == record_reference(old(self).ctx(), old(self).scopes(), old(self).state(), referenced_name@),
    {
        if referenced_name.as_str().is_empty() {
            assert(referenced_name@.len() == 0);
            return;
        }
        let scope_name = self.current_scope_qualified_name();
        let ghost item = (scope_name@, referenced_name@);
        let ghost known = references_view(self.references@);
        let mut i: usize = 0;
        while i < self.references.len()
            invariant
                i <= self.references@.len(),
                known == references_view(self.references@),
                known.len() == self.references@.len(),
                item == (scope_name@, referenced_name@),
                scope_name@ == scope_qualified_name(self.ctx(), self.scopes()),
                referenced_name@.len() != 0,
                forall|k: int| 0 <= k < i ==> known[k] != item,
            decreases self.references@.len() - i,
        {
            let existing = &self.references[i];
            if existing.scope_qualified_name == scope_name && existing.referenced_name == *referenced_name {
                assert(known[i as int] == item);
                assert(known.contains(item));
                return;
            }
            i = i + 1;
        }
        assert(!known.contains(item));
        let reference = ScopedReference {
            scope_qualified_name: scope_name,
            referenced_name: referenced_name.clone(),
        };
        proof {
            lemma_references_push(self.references@, reference);
        }
        self.references.push(reference);
    }

    /// Gathers every string literal of a subtree into the dynamic references.
    fn collect_string_literals_into_pool(&mut self, subtree_root: &SyntaxNode)
        ensures
            old(self).same_frame(&*final(self)),
            final(self).state() == collect_strings(*subtree_root, old(self).state()),
        decreases subtree_root, subtree_root.children@.len() + 1,
    {
        if let Some(literal_value) = string_literal_value(subtree_root) {
            self.add_dynamic_reference(literal_value);
            return;
        }
        let mut i: usize = 0;
        while i < subtree_root.children.len()
            invariant
                i <= subtree_root.children@.len(),
                old(self).same_frame(&*self),
                string_literal(*subtree_root) is None,
                self.state() == collect_strings_upto(*subtree_root, i as int, old(self).state()),
            decreases subtree_root.children@.len() - i,
        {
            self.collect_string_literals_into_pool(&subtree_root.children[i]);
            i = i + 1;
        }
    }
}

} // verus!

verus! {

/// The spec index of an optional skipped child.
pub open spec fn skip_index(skip: Option<usize>) -> int {
    match skip {
        Some(k) => k as int,
        None => -1,
    }
}

/// The file analysis that the walk over `root` yields.
pub open spec fn analysis_of(root: SyntaxNode, ctx: ExtractionContext) -> FileAnalysisView {
    let st = extracted_state(root, ctx);
    FileAnalysisView {
        module_name: ctx.module_name,
        entities: st.entities,
        scoped_references: st.references,
        dynamic_references: st.dynamic_references,
    }
}

/// The indices (into the argument list's children) of the positional arguments of a call.
fn positional_argument_indices(call: &SyntaxNode) -> (result: (Option<usize>, Vec<usize>))
    ensures
        result.1@.len() == positional_arguments(*call).len(),
        match result.0 {
            Some(a) => {
                &&& field_child(*call, "arguments"@) == Some(a as int)
                &&& a < call.children@.len()
                &&& result.1@.len() == positional_arguments(*call).len()
                &&& forall|m: int| 0 <= m < result.1@.len() ==> {
                    &&& #[trigger] result.1@[m] < call.children@[a as int].children@.len()
                    &&& call.children@[a as int].children@[result.1@[m] as int] == positional_arguments(*call)[m]
                }
            },
            None => positional_arguments(*call).len() == 0,
        },
{
    let arguments_index = match field_child_index(call, "arguments") {
        Some(a) => a,
        None => {
            return (None, Vec::new());
        },
    };
    let arguments = &call.children[arguments_index];
    let mut indices: Vec<usize> = Vec::new();
    let mut i: usize = 0;
    while i < arguments.children.len()
        invariant
            i <= arguments.children@.len(),
            indices@.len() == positional_upto(*arguments, i as int).len(),
            forall|m: int| 0 <= m < indices@.len() ==> {
                &&& #[trigger] indices@[m] < arguments.children@.len()
                &&& arguments.children@[indices@[m] as int] == positional_upto(*arguments, i as int)[m]
            },
        decreases arguments.children@.len() - i,
    {
        let child = &arguments.children[i];
        if child.is_named && !has_kind(child, "keyword_argument") && !has_kind(child, "comment") {
            indices.push(i);
        }
        i = i + 1;
    }
    (Some(arguments_index), indices)
}

impl<'a> EntityExtractor<'a> {
    /// Creates the walker for one file.
    fn new(module_name: String, file_path: String, configuration: &'a AnalyzerConfiguration) -> (extractor: Self)
        ensures
            extractor.ctx() == extraction_context(module_name@, file_path@, configuration@),
            extractor.scopes() == Seq::<ScopeView>::empty(),
            extractor.state() == empty_state(),
    {
        let is_management_command_file = is_management_command_path(file_path.as_str());
        let extractor = EntityExtractor {
            module_name,
            file_path,
            configuration,
            is_management_command_file,
            scope_stack: Vec::new(),
            entities: Vec::new(),
            references: Vec::new(),
            dynamic_references: Vec::new(),
        };
        assert(extractor.scopes() =~= Seq::<ScopeView>::empty());
        assert(extractor.state().entities =~= Seq::<CodeEntityView>::empty());
        assert(extractor.state().references =~= Seq::<(Seq<char>, Seq<char>)>::empty());
        assert(extractor.state().dynamic_references =~= Seq::<Seq<char>>::empty());
        extractor
    }

    /// Finishes the walk and returns what it gathered.
    fn into_analysis(self) -> (analysis: FileAnalysis)
        ensures
            analysis@ == (FileAnalysisView {
                module_name: self.module_name@,
                entities: self.state().entities,
                scoped_references: self.state().references,
                dynamic_references: self.state().dynamic_references,
            }),
    {
        FileAnalysis {
            module_name: self.module_name,
            entities: self.entities,
            scoped_references: self.references,
            dynamic_references: self.dynamic_references,
        }
    }

    /// Adds an entity.
    fn push_entity(&mut self, entity: CodeEntity)
        ensures
            old(self).same_frame(&*final(self)),
            final(self).state() == add_entity(old(self).state(), entity@),
    {
        proof {
            lemma_entities_push(self.entities@, entity);
        }
        self.entities.push(entity);
    }

    /// Whether the innermost scope is a class whose methods the framework calls.
    fn is_inside_framework_driven_class(&self) -> (result: bool)
        ensures
            result == inside_framework_driven_class(self.scopes()),
    {
        let count = self.scope_stack.len();
        if count == 0 {
            return false;
        }
        let innermost = &self.scope_stack[count - 1];
        assert(self.scopes().last() == innermost@);
        innermost.is_class && innermost.is_framework_driven
    }

    /// Whether the innermost scope is a class.
    fn is_inside_class(&self) -> (result: bool)
        ensures
            result == (self.scopes().len() > 0 && self.scopes().last().is_class),
    {
        let count = self.scope_stack.len();
        if count == 0 {
            return false;
        }
        let innermost = &self.scope_stack[count - 1];
        assert(self.scopes().last() == innermost@);
        innermost.is_class
    }

    /// Whether a definition is a root of the reachability analysis.
    fn determine_entry_point(
        &self,
        simple_name: &String,
        entity_kind: EntityKind,
        superclasses: &String,
        decorator_names: &Vec<String>,
    ) -> (result: bool)
        ensures
            result == definition_entry_point(
                self.ctx(),
                self.scopes(),
                simple_name@,
                entity_kind,
                superclasses@,
                strings_view(decorator_names@),
            ),
    {
        let ghost decorators = strings_view(decorator_names@);
        if is_dunder_name(simple_name.as_str()) {
            return true;
        }
        match entity_kind {
            EntityKind::Class => {
                if self.is_management_command_file && str_equal(simple_name.as_str(), "Command") {
                    return true;
                }
                if is_implicit_class_name(simple_name.as_str()) {
                    return true;
                }
                let mut i: usize = 0;
                while i < decorator_names.len()
                    invariant
                        i <= decorator_names@.len(),
                        decorators == strings_view(decorator_names@),
                        decorators.len() == decorator_names@.len(),
                        entity_kind == EntityKind::Class,
                        forall|k: int| 0 <= k < i ==> !class_registration_decorator(#[trigger] decorators[k]),
                    decreases decorator_names@.len() - i,
                {
                    if is_class_registration_decorator(decorator_names[i].as_str()) {
                        assert(decorators[i as int] == decorator_names@[i as int]@);
                        return true;
                    }
                    i = i + 1;
                }
                is_app_config_class(self.module_name.as_str(), superclasses.as_str())
            },
            EntityKind::Function | EntityKind::Method => {
                let mut i: usize = 0;
                while i < decorator_names.len()
                    invariant
                        i <= decorator_names@.len(),
                        decorators == strings_view(decorator_names@),
                        decorators.len() == decorator_names@.len(),
                        entity_kind == EntityKind::Function || entity_kind == EntityKind::Method,
                        forall|k: int| 0 <= k < i ==> !(entry_point_decorator(#[trigger] decorators[k])
                            || configured_decorator(decorators[k], self.ctx().entry_point_decorators)),
                    decreases decorator_names@.len() - i,
                {
                    let decorator = decorator_names[i].as_str();
                    if is_entry_point_decorator(decorator) || matches_configured_decorator(
                        decorator,
                        self.configuration.extra_entry_point_decorators.as_slice(),
                    ) {
                        assert(decorators[i as int] == decorator_names@[i as int]@);
                        return true;
                    }
                    i = i + 1;
                }
                if is_test_function_name(simple_name.as_str()) {
                    return true;
                }
                if entity_kind != EntityKind::Method {
                    return false;
                }
                let mut is_property = false;
                let mut j: usize = 0;
                while j < decorator_names.len()
                    invariant
                        j <= decorator_names@.len(),
                        decorators == strings_view(decorator_names@),
                        decorators.len() == decorator_names@.len(),
                        is_property == exists|k: int| 0 <= k < j && property_decorator(#[trigger] decorators[k]),
                    decreases decorator_names@.len() - j,
                {
                    if is_property_decorator(decorator_names[j].as_str()) {
                        assert(decorators[j as int] == decorator_names@[j as int]@);
                        is_property = true;
                    }
                    j = j + 1;
                }
                is_property || is_implicit_method_name(simple_name.as_str())
                    || self.is_inside_framework_driven_class()
            },
            EntityKind::Variable => false,
        }
    }
}

} // verus!

verus! {

/// The text of the base class list of a class definition, or empty text.
fn superclasses_text_of(node: &SyntaxNode) -> (text: String)
    ensures
        text@ == superclasses_text(*node),
{
    match field_child_index(node, "superclasses") {
        Some(i) => node.children[i].text.clone(),
        None => String::new(),
    }
}

/// The simple names of the base classes of a class definition.
fn superclass_names_of(node: &SyntaxNode) -> (names: Vec<String>)
    ensures
        strings_view(names@) == superclass_names(*node),
{
    let list_index = match field_child_index(node, "superclasses") {
        Some(i) => i,
        None => {
            let names: Vec<String> = Vec::new();
            assert(strings_view(names@) =~= Seq::<Seq<char>>::empty());
            return names;
        },
    };
    let list = &node.children[list_index];
    let mut names: Vec<String> = Vec::new();
    let mut i: usize = 0;
    assert(strings_view(names@) =~= base_names_upto(*list, 0));
    while i < list.children.len()
        invariant
            i <= list.children@.len(),
            strings_view(names@) == base_names_upto(*list, i as int),
        decreases list.children@.len() - i,
    {
        let child = &list.children[i];
        if child.is_named && (has_kind(child, "identifier") || has_kind(child, "attribute")) {
            let segment = last_dotted_segment(child.text.as_str());
            let name = String::from_str(segment);
            proof {
                lemma_strings_push(names@, name);
            }
            names.push(name);
        }
        i = i + 1;
    }
    names
}

impl<'a> EntityExtractor<'a> {
    /// Reads the string references of one statement of a `ModelAdmin` class body.
    fn process_admin_statement(&mut self, statement: &SyntaxNode)
        ensures
            old(self).same_frame(&*final(self)),
            final(self).state() == admin_statement(*statement, old(self).state()),
    {
        let assignment_index = match named_child_index(statement) {
            Some(a) => a,
            None => {
                return;
            },
        };
        let assignment = &statement.children[assignment_index];
        if !has_kind(assignment, "assignment") {
            return;
        }
        let left_index = match field_child_index(assignment, "left") {
            Some(l) => l,
            None => {
                return;
            },
        };
        let attribute_name = chars_of(assignment.children[left_index].text.as_str());
        if !table_contains(&admin_dynamic_attribute_table(), attribute_name.as_slice()) {
            return;
        }
        if let Some(r) = field_child_index(assignment, "right") {
            let right = &assignment.children[r];
            if has_kind(right, "list") || has_kind(right, "tuple") || has_kind(right, "set") {
                self.collect_string_literals_into_pool(right);
            }
        }
    }

    /// Reads the string references of the attributes of a `ModelAdmin` class:
    /// `list_display`, `list_filter`, `actions` and `readonly_fields`.
    fn process_admin_class_attributes(&mut self, class_node: &SyntaxNode, superclasses: &String)
        requires
            superclasses@ == superclasses_text(*class_node),
        ensures
            old(self).same_frame(&*final(self)),
            final(self).state() == admin_attributes(*class_node, old(self).state()),
    {
        if !contains_chars(chars_of(superclasses.as_str()).as_slice(), chars_of("ModelAdmin").as_slice()) {
            return;
        }
        let body_index = match field_child_index(class_node, "body") {
            Some(b) => b,
            None => {
                return;
            },
        };
        let body = &class_node.children[body_index];
        let ghost start = self.state();
        let mut i: usize = 0;
        while i < body.children.len()
            invariant
                i <= body.children@.len(),
                old(self).same_frame(&*self),
                start == old(self).state(),
                self.state() == admin_upto(*body, i as int, start),
            decreases body.children@.len() - i,
        {
            if body.children[i].is_named {
                self.process_admin_statement(&body.children[i]);
            }
            i = i + 1;
        }
    }

    /// Registers a module-level variable as an entity.
    fn register_module_variable(&mut self, variable_name: &String, row: usize)
        requires
            row < usize::MAX,
        ensures
            old(self).same_frame(&*final(self)),
            final(self).state() == add_entity(
                old(self).state(),
                variable_entity(old(self).ctx(), variable_name@, row as int),
            ),
    {
        let name = variable_name.as_str();
        let is_entry_point = is_dunder_name(name) || is_implicit_variable_name(name)
            || is_settings_module(self.module_name.as_str());
        let mut qualified_name = concat_strs(self.module_name.as_str(), ".");
        append_str(&mut qualified_name, name);
        let superclass_names: Vec<String> = Vec::new();
        let entity = CodeEntity {
            simple_name: variable_name.clone(),
            qualified_name,
            containing_scope: self.module_name.clone(),
            kind: EntityKind::Variable,
            file_path: self.file_path.clone(),
            line_number: row + 1,
            is_entry_point,
            superclass_names,
        };
        assert(entity@.superclass_names =~= Seq::<Seq<char>>::empty());
        assert(entity@ == variable_entity(self.ctx(), variable_name@, row as int));
        self.push_entity(entity);
    }

    /// Adds the string literal argument of a call as a dynamic reference.
    fn add_string_argument_to_pool(&mut self, argument: &SyntaxNode)
        ensures
            old(self).same_frame(&*final(self)),
            final(self).state() == match string_literal(*argument) {
                Some(value) => add_dynamic(old(self).state(), value),
                None => old(self).state(),
            },
    {
        if let Some(literal_value) = string_literal_value(argument) {
            self.add_dynamic_reference(literal_value);
        }
    }

    /// Takes the view argument of a route registration as a dynamic reference:
    /// a string by its value, a name or attribute by its last segment.
    fn process_url_registration(&mut self, view_argument: &SyntaxNode)
        ensures
            old(self).same_frame(&*final(self)),
            final(self).state() == url_view_argument(seq![*view_argument], 0, old(self).state()),
    {
        if has_kind(view_argument, "string") {
            self.add_string_argument_to_pool(view_argument);
        } else if has_kind(view_argument, "identifier") || has_kind(view_argument, "attribute") {
            let view_name = String::from_str(last_dotted_segment(view_argument.text.as_str()));
            self.add_dynamic_reference(view_name);
        }
    }

    /// Applies the dynamic reference heuristics of a call.
    fn process_call_effect(&mut self, call_node: &SyntaxNode)
        ensures
            old(self).same_frame(&*final(self)),
            final(self).state() == call_effect(*call_node, old(self).state()),
    {
        let function_index = match field_child_index(call_node, "function") {
            Some(f) => f,
            None => {
                return;
            },
        };
        let function_text = call_node.children[function_index].text.as_str();
        let function_name = chars_of(last_dotted_segment(function_text));
        let (arguments_index, positional) = positional_argument_indices(call_node);
        let ghost args = positional_arguments(*call_node);
        if table_contains(&dynamic_reference_builtin_table(), function_name.as_slice()) {
            if positional.len() > 1 {
                let a = arguments_index.unwrap();
                let argument = &call_node.children[a].children[positional[1]];
                assert(*argument == args[1]);
                self.add_string_argument_to_pool(argument);
            }
        } else if chars_equal(function_name.as_slice(), chars_of("import_module").as_slice()) {
            if positional.len() > 0 {
                let a = arguments_index.unwrap();
                let argument = &call_node.children[a].children[positional[0]];
                assert(*argument == args[0]);
                self.add_string_argument_to_pool(argument);
            }
        } else if table_contains(&url_registration_function_table(), function_name.as_slice()) {
            if positional.len() > 1 {
                let a = arguments_index.unwrap();
                let argument = &call_node.children[a].children[positional[1]];
                assert(*argument == args[1]);
                self.process_url_registration(argument);
            }
        }
    }
}

} // verus!

verus! {

impl<'a> EntityExtractor<'a> {
    /// Visits a node of the syntax tree.
    fn visit_node(&mut self, current_node: &SyntaxNode)
        requires
            rows_bounded(*current_node),
        ensures
            old(self).same_frame(&*final(self)),
            final(self).state() == visit(*current_node, old(self).ctx(), old(self).scopes(), old(self).state()),
        decreases current_node, 3int,
    {
        if has_kind(current_node, "decorated_definition") {
            self.process_decorated_definition(current_node);
        } else if has_kind(current_node, "function_definition") || has_kind(current_node, "class_definition") {
            let no_decorators: Vec<String> = Vec::new();
            assert(strings_view(no_decorators@) =~= Seq::<Seq<char>>::empty());
            self.process_definition(current_node, &no_decorators);
        } else if has_kind(current_node, "call") {
            self.process_call(current_node);
        } else if has_kind(current_node, "assignment") {
            self.process_assignment(current_node);
        } else if has_kind(current_node, "identifier") {
            self.record_reference(&current_node.text);
        } else {
            self.visit_children(current_node, None);
        }
    }

    /// Visits the children of a node, except the one at `skip`.
    fn visit_children(&mut self, current_node: &SyntaxNode, skip: Option<usize>)
        requires
            rows_bounded(*current_node),
        ensures
            old(self).same_frame(&*final(self)),
            final(self).state() == visit_children_upto(
                *current_node,
                current_node.children@.len() as int,
                skip_index(skip),
                old(self).ctx(),
                old(self).scopes(),
                old(self).state(),
            ),
        decreases current_node, 1int,
    {
        let ghost start = self.state();
        let mut i: usize = 0;
        while i < current_node.children.len()
            invariant
                i <= current_node.children@.len(),
                rows_bounded(*current_node),
                old(self).same_frame(&*self),
                start == old(self).state(),
                self.state() == visit_children_upto(
                    *current_node,
                    i as int,
                    skip_index(skip),
                    old(self).ctx(),
                    old(self).scopes(),
                    start,
                ),
            decreases current_node.children@.len() - i,
        {
            let skipped = match skip {
                Some(k) => k == i,
                None => false,
            };
            if !skipped {
                assert(rows_bounded(current_node.children@[i as int]));
                self.visit_node(&current_node.children[i]);
            }
            i = i + 1;
        }
    }

    /// Visits a function or class definition.
    fn process_definition(&mut self, definition_node: &SyntaxNode, decorator_names: &Vec<String>)
        requires
            rows_bounded(*definition_node),
        ensures
            old(self).same_frame(&*final(self)),
            final(self).state() == visit_definition(
                *definition_node,
                old(self).ctx(),
                old(self).scopes(),
                old(self).state(),
                strings_view(decorator_names@),
            ),
        decreases definition_node, 2int,
    {
        let name_index = match field_child_index(definition_node, "name") {
            Some(n) => n,
            None => {
                return;
            },
        };
        let name_node = &definition_node.children[name_index];
        assert(rows_bounded(definition_node.children@[name_index as int]));
        let simple_name = name_node.text.clone();
        let containing_scope = self.current_scope_qualified_name();
        let is_class_definition = has_kind(definition_node, "class_definition");
        let entity_kind = if is_class_definition {
            EntityKind::Class
        } else if self.is_inside_class() {
            EntityKind::Method
        } else {
            EntityKind::Function
        };
        let superclasses = superclasses_text_of(definition_node);
        let is_entry_point = self.determine_entry_point(&simple_name, entity_kind, &superclasses, decorator_names);
        let mut qualified_name = concat_strs(containing_scope.as_str(), ".");
        append_str(&mut qualified_name, simple_name.as_str());
        let superclass_names = if is_class_definition {
            superclass_names_of(definition_node)
        } else {
            let none: Vec<String> = Vec::new();
            assert(strings_view(none@) =~= Seq::<Seq<char>>::empty());
            none
        };
        let entity = CodeEntity {
            simple_name: simple_name.clone(),
            qualified_name,
            containing_scope,
            kind: entity_kind,
            file_path: self.file_path.clone(),
            line_number: name_node.start_row + 1,
            is_entry_point,
            superclass_names,
        };
        assert(entity@ == definition_entity(*definition_node, name_index as int, self.ctx(), self.scopes(), strings_view(decorator_names@)));
        self.push_entity(entity);
        if is_class_definition {
            self.process_admin_class_attributes(definition_node, &superclasses);
        }
        let is_framework_driven = is_class_definition && is_framework_driven_base(
            superclasses.as_str(),
            self.configuration.extra_framework_base_markers.as_slice(),
        );
        let scope = Scope { name: simple_name, is_class: is_class_definition, is_framework_driven };
        assert(scope@ == definition_scope(*definition_node, name_index as int, self.ctx()));
        let ghost outer = self.scope_stack@;
        self.scope_stack.push(scope);
        assert(self.scopes() =~= scopes_view(outer).push(scope@));
        self.visit_children(definition_node, Some(name_index));
        self.scope_stack.pop();
        assert(self.scope_stack@ =~= outer);
    }

    /// Visits a decorated definition: the decorators are normalised, checked for
    /// `pytest.mark.usefixtures` string references and visited, then the definition.
    fn process_decorated_definition(&mut self, decorated_node: &SyntaxNode)
        requires
            rows_bounded(*decorated_node),
        ensures
            old(self).same_frame(&*final(self)),
            final(self).state() == visit_decorated(*decorated_node, old(self).ctx(), old(self).scopes(), old(self).state()),
        decreases decorated_node, 2int,
    {
        let ghost start = self.state();
        let mut decorator_names: Vec<String> = Vec::new();
        let mut i: usize = 0;
        assert(strings_view(decorator_names@) =~= Seq::<Seq<char>>::empty());
        while i < decorated_node.children.len()
            invariant
                i <= decorated_node.children@.len(),
                rows_bounded(*decorated_node),
                old(self).same_frame(&*self),
                start == old(self).state(),
                (self.state(), strings_view(decorator_names@)) == decorators_upto(
                    *decorated_node,
                    i as int,
                    old(self).ctx(),
                    old(self).scopes(),
                    start,
                ),
            decreases decorated_node.children@.len() - i,
        {
            let child = &decorated_node.children[i];
            if has_kind(child, "decorator") {
                assert(rows_bounded(decorated_node.children@[i as int]));
                let normalized = normalize_decorator_expression(child.text.as_str());
                if contains_chars(chars_of(normalized.as_str()).as_slice(), chars_of("usefixtures").as_slice()) {
                    self.collect_string_literals_into_pool(child);
                }
                self.visit_children(child, None);
                proof {
                    lemma_strings_push(decorator_names@, normalized);
                }
                decorator_names.push(normalized);
            }
            i = i + 1;
        }
        if let Some(d) = field_child_index(decorated_node, "definition") {
            assert(rows_bounded(decorated_node.children@[d as int]));
            self.process_definition(&decorated_node.children[d], &decorator_names);
        }
    }

    /// Visits a call after applying its dynamic reference heuristics.
    fn process_call(&mut self, call_node: &SyntaxNode)
        requires
            rows_bounded(*call_node),
        ensures
            old(self).same_frame(&*final(self)),
            final(self).state() == visit_call(*call_node, old(self).ctx(), old(self).scopes(), old(self).state()),
        decreases call_node, 2int,
    {
        self.process_call_effect(call_node);
        self.visit_children(call_node, None);
    }

    /// Visits an assignment.
    fn process_assignment(&mut self, assignment_node: &SyntaxNode)
        requires
            rows_bounded(*assignment_node),
        ensures
            old(self).same_frame(&*final(self)),
            final(self).state() == visit_assignment(*assignment_node, old(self).ctx(), old(self).scopes(), old(self).state()),
        decreases assignment_node, 2int,
    {
        let left_index = match field_child_index(assignment_node, "left") {
            Some(l) => if has_kind(&assignment_node.children[l], "identifier") {
                Some(l)
            } else {
                None
            },
            None => None,
        };
        match left_index {
            Some(l) => {
                let left_node = &assignment_node.children[l];
                assert(rows_bounded(assignment_node.children@[l as int]));
                if str_equal(left_node.text.as_str(), "__all__") {
                    self.collect_string_literals_into_pool(assignment_node);
                } else if self.scope_stack.len() == 0 {
                    self.register_module_variable(&left_node.text, left_node.start_row);
                }
                self.visit_children(assignment_node, Some(l));
            },
            None => {
                self.visit_children(assignment_node, None);
            },
        }
    }
}

/// Extracts the entities, scoped references and dynamic references of one file
/// from its syntax tree.
pub fn extract_file_analysis(
    root: &SyntaxNode,
    module_name: String,
    file_path: String,
    configuration: &AnalyzerConfiguration,
) -> (analysis: FileAnalysis)
    requires
        rows_bounded(*root),
    ensures
        analysis@ == analysis_of(*root, extraction_context(module_name@, file_path@, configuration@)),
{
    let mut entity_extractor = EntityExtractor::new(module_name, file_path, configuration);
    entity_extractor.visit_node(root);
    entity_extractor.into_analysis()
}


/// Whether an entity is named within its scope, lies in the file and has a
/// one-based line.
pub open spec fn entity_well_formed(entity: CodeEntityView, file_path: Seq<char>) -> bool {
    &&& entity.qualified_name == entity.containing_scope + "."@ + entity.simple_name
    &&& entity.file_path == file_path
    &&& entity.line_number >= 1
}

/// Whether every entity of a state is well formed and no reference, plain or
/// dynamic, occurs twice.
pub open spec fn state_well_formed(st: ExtractionState, ctx: ExtractionContext) -> bool {
    &&& forall|i: int| 0 <= i < st.entities.len() ==> entity_well_formed(#[trigger] st.entities[i], ctx.file_path)
    &&& st.references.no_duplicates()
    &&& st.dynamic_references.no_duplicates()
}

proof fn lemma_insert_unique_no_duplicates<A>(items: Seq<A>, item: A)
    requires
        items.no_duplicates(),
    ensures
        insert_unique(items, item).no_duplicates(),
{
    if !items.contains(item) {
        let longer = items.push(item);
        assert forall|i: int, j: int| 0 <= i < longer.len() && 0 <= j < longer.len() && i != j implies longer[i] != longer[j] by {
            if i < items.len() && j < items.len() {
                assert(items[i] != items[j]);
            } else if i < items.len() {
                assert(items.contains(items[i]));
            } else if j < items.len() {
                assert(items.contains(items[j]));
            }
        }
    }
}

proof fn lemma_add_dynamic_wf(st: ExtractionState, ctx: ExtractionContext, name: Seq<char>)
    requires
        state_well_formed(st, ctx),
    ensures
        state_well_formed(add_dynamic(st, name), ctx),
{
    lemma_insert_unique_no_duplicates(st.dynamic_references, name);
}

proof fn lemma_record_reference_wf(ctx: ExtractionContext, scopes: Seq<ScopeView>, st: ExtractionState, name: Seq<char>)
    requires
        state_well_formed(st, ctx),
    ensures
        state_well_formed(record_reference(ctx, scopes, st, name), ctx),
{
    lemma_insert_unique_no_duplicates(st.references, (scope_qualified_name(ctx, scopes), name));
}

proof fn lemma_add_entity_wf(st: ExtractionState, ctx: ExtractionContext, entity: CodeEntityView)
    requires
        state_well_formed(st, ctx),
        entity_well_formed(entity, ctx.file_path),
    ensures
        state_well_formed(add_entity(st, entity), ctx),
{
    let after = add_entity(st, entity);
    assert forall|i: int| 0 <= i < after.entities.len() implies entity_well_formed(#[trigger] after.entities[i], ctx.file_path) by {
        if i < st.entities.len() {
            assert(after.entities[i] == st.entities[i]);
        }
    }
}

proof fn lemma_collect_strings_wf(node: SyntaxNode, st: ExtractionState, ctx: ExtractionContext)
    requires
        state_well_formed(st, ctx),
    ensures
        state_well_formed(collect_strings(node, st), ctx),
    decreases node, node.children@.len() + 1,
{
    match string_literal(node) {
        Some(value) => lemma_add_dynamic_wf(st, ctx, value),
        None => lemma_collect_strings_upto_wf(node, node.children@.len() as int, st, ctx),
    }
}

proof fn lemma_collect_strings_upto_wf(node: SyntaxNode, j: int, st: ExtractionState, ctx: ExtractionContext)
    requires
        state_well_formed(st, ctx),
    ensures
        state_well_formed(collect_strings_upto(node, j, st), ctx),
    decreases node, j,
{
    if !(j <= 0 || j > node.children@.len()) {
        lemma_collect_strings_upto_wf(node, j - 1, st, ctx);
        lemma_collect_strings_wf(node.children@[j - 1], collect_strings_upto(node, j - 1, st), ctx);
    }
}

proof fn lemma_admin_statement_wf(statement: SyntaxNode, st: ExtractionState, ctx: ExtractionContext)
    requires
        state_well_formed(st, ctx),
    ensures
        state_well_formed(admin_statement(statement, st), ctx),
{
    if let Some(a) = named_child_from(statement, 0) {
        let assignment = statement.children@[a];
        if let (Some(l), Some(r)) = (field_child(assignment, "left"@), field_child(assignment, "right"@)) {
            lemma_collect_strings_wf(assignment.children@[r], st, ctx);
        }
    }
}

proof fn lemma_admin_upto_wf(body: SyntaxNode, j: int, st: ExtractionState, ctx: ExtractionContext)
    requires
        state_well_formed(st, ctx),
    ensures
        state_well_formed(admin_upto(body, j, st), ctx),
    decreases j,
{
    if j > 0 {
        lemma_admin_upto_wf(body, j - 1, st, ctx);
        lemma_admin_statement_wf(body.children@[j - 1], admin_upto(body, j - 1, st), ctx);
    }
}

proof fn lemma_call_effect_wf(node: SyntaxNode, st: ExtractionState, ctx: ExtractionContext)
    requires
        state_well_formed(st, ctx),
    ensures
        state_well_formed(call_effect(node, st), ctx),
{
    let args = positional_arguments(node);
    if 0 <= 1 < args.len() {
        if let Some(value) = string_literal(args[1]) {
            lemma_add_dynamic_wf(st, ctx, value);
        }
        lemma_add_dynamic_wf(st, ctx, last_segment(args[1].text@));
    }
    if 0 < args.len() {
        if let Some(value) = string_literal(args[0]) {
            lemma_add_dynamic_wf(st, ctx, value);
        }
    }
}

proof fn lemma_visit_wf(node: SyntaxNode, ctx: ExtractionContext, scopes: Seq<ScopeView>, st: ExtractionState)
    requires
        state_well_formed(st, ctx),
    ensures
        state_well_formed(visit(node, ctx, scopes, st), ctx),
    decreases node, node.children@.len() + 3,
{
    let kind = node.kind@;
    if kind == "decorated_definition"@ {
        lemma_visit_decorated_wf(node, ctx, scopes, st);
    } else if kind == "function_definition"@ || kind == "class_definition"@ {
        lemma_visit_definition_wf(node, ctx, scopes, st, Seq::empty());
    } else if kind == "call"@ {
        lemma_call_effect_wf(node, st, ctx);
        lemma_visit_children_upto_wf(node, node.children@.len() as int, -1, ctx, scopes, call_effect(node, st));
    } else if kind == "assignment"@ {
        lemma_visit_assignment_wf(node, ctx, scopes, st);
    } else if kind == "identifier"@ {
        lemma_record_reference_wf(ctx, scopes, st, node.text@);
    } else {
        lemma_visit_children_upto_wf(node, node.children@.len() as int, -1, ctx, scopes, st);
    }
}

proof fn lemma_visit_children_upto_wf(
    node: SyntaxNode,
    j: int,
    skip: int,
    ctx: ExtractionContext,
    scopes: Seq<ScopeView>,
    st: ExtractionState,
)
    requires
        state_well_formed(st, ctx),
    ensures
        state_well_formed(visit_children_upto(node, j, skip, ctx, scopes, st), ctx),
    decreases node, j,
{
    if !(j <= 0 || j > node.children@.len()) {
        lemma_visit_children_upto_wf(node, j - 1, skip, ctx, scopes, st);
        if j - 1 != skip {
            lemma_visit_wf(node.children@[j - 1], ctx, scopes, visit_children_upto(node, j - 1, skip, ctx, scopes, st));
        }
    }
}

proof fn lemma_decorators_upto_wf(node: SyntaxNode, j: int, ctx: ExtractionContext, scopes: Seq<ScopeView>, st: ExtractionState)
    requires
        state_well_formed(st, ctx),
    ensures
        state_well_formed(decorators_upto(node, j, ctx, scopes, st).0, ctx),
    decreases node, j,
{
    if !(j <= 0 || j > node.children@.len()) {
        lemma_decorators_upto_wf(node, j - 1, ctx, scopes, st);
        let before = decorators_upto(node, j - 1, ctx, scopes, st).0;
        let child = node.children@[j - 1];
        if child.kind@ == "decorator"@ {
            lemma_collect_strings_wf(child, before, ctx);
            let normalized = normalized_decorator(child.text@);
            let with_fixtures = if contains_text(normalized, "usefixtures"@) {
                collect_strings(child, before)
            } else {
                before
            };
            lemma_visit_children_upto_wf(child, child.children@.len() as int, -1, ctx, scopes, with_fixtures);
        }
    }
}

proof fn lemma_visit_decorated_wf(node: SyntaxNode, ctx: ExtractionContext, scopes: Seq<ScopeView>, st: ExtractionState)
    requires
        state_well_formed(st, ctx),
    ensures
        state_well_formed(visit_decorated(node, ctx, scopes, st), ctx),
    decreases node, node.children@.len() + 2,
{
    lemma_decorators_upto_wf(node, node.children@.len() as int, ctx, scopes, st);
    let (after_decorators, names) = decorators_upto(node, node.children@.len() as int, ctx, scopes, st);
    if let Some(d) = field_child(node, "definition"@) {
        if 0 <= d < node.children@.len() {
            lemma_visit_definition_wf(node.children@[d], ctx, scopes, after_decorators, names);
        }
    }
}

proof fn lemma_visit_definition_wf(
    node: SyntaxNode,
    ctx: ExtractionContext,
    scopes: Seq<ScopeView>,
    st: ExtractionState,
    decorators: Seq<Seq<char>>,
)
    requires
        state_well_formed(st, ctx),
    ensures
        state_well_formed(visit_definition(node, ctx, scopes, st, decorators), ctx),
    decreases node, node.children@.len() + 2,
{
    if let Some(name_index) = field_child(node, "name"@) {
        let entity = definition_entity(node, name_index, ctx, scopes, decorators);
        lemma_add_entity_wf(st, ctx, entity);
        let with_entity = add_entity(st, entity);
        if node.kind@ == "class_definition"@ {
            if contains_text(superclasses_text(node), "ModelAdmin"@) {
                if let Some(b) = field_child(node, "body"@) {
                    lemma_admin_upto_wf(node.children@[b], node.children@[b].children@.len() as int, with_entity, ctx);
                }
            }
        }
        let with_admin = if node.kind@ == "class_definition"@ {
            admin_attributes(node, with_entity)
        } else {
            with_entity
        };
        lemma_visit_children_upto_wf(
            node,
            node.children@.len() as int,
            name_index,
            ctx,
            scopes.push(definition_scope(node, name_index, ctx)),
            with_admin,
        );
    }
}

proof fn lemma_visit_assignment_wf(node: SyntaxNode, ctx: ExtractionContext, scopes: Seq<ScopeView>, st: ExtractionState)
    requires
        state_well_formed(st, ctx),
    ensures
        state_well_formed(visit_assignment(node, ctx, scopes, st), ctx),
    decreases node, node.children@.len() + 2,
{
    match assigned_identifier(node) {
        Some(l) => {
            let name = node.children@[l].text@;
            lemma_collect_strings_wf(node, st, ctx);
            lemma_add_entity_wf(st, ctx, variable_entity(ctx, name, node.children@[l].start_row as int));
            let updated = if name == "__all__"@ {
                collect_strings(node, st)
            } else if scopes.len() == 0 {
                add_entity(st, variable_entity(ctx, name, node.children@[l].start_row as int))
            } else {
                st
            };
            lemma_visit_children_upto_wf(node, node.children@.len() as int, l, ctx, scopes, updated);
        },
        None => lemma_visit_children_upto_wf(node, node.children@.len() as int, -1, ctx, scopes, st),
    }
}

/// Every entity extracted from a file is named within its containing scope
/// (`scope.name`), lies in the file and has a line of at least 1; no scoped
/// reference and no dynamic reference occurs twice.
pub proof fn lemma_extracted_analysis_well_formed(root: SyntaxNode, ctx: ExtractionContext)
    ensures
        forall|i: int|
            0 <= i < analysis_of(root, ctx).entities.len() ==> entity_well_formed(
                #[trigger] analysis_of(root, ctx).entities[i],
                ctx.file_path,
            ),
        analysis_of(root, ctx).scoped_references.no_duplicates(),
        analysis_of(root, ctx).dynamic_references.no_duplicates(),
        analysis_of(root, ctx).module_name == ctx.module_name,
{
    assert(state_well_formed(empty_state(), ctx));
    lemma_visit_wf(root, ctx, Seq::empty(), empty_state());
}

/// Whether a context configures at least what another does, for the same file.
pub open spec fn context_included(smaller: ExtractionContext, larger: ExtractionContext) -> bool {
    &&& smaller.module_name == larger.module_name
    &&& smaller.file_path == larger.file_path
    &&& smaller.management_command_file == larger.management_command_file
    &&& names_included(smaller.entry_point_decorators, larger.entry_point_decorators)
    &&& names_included(smaller.framework_base_markers, larger.framework_base_markers)
}

/// Whether two scope stacks name the same scopes, the second marking at least
/// the framework-driven classes of the first.
pub open spec fn scopes_included(smaller: Seq<ScopeView>, larger: Seq<ScopeView>) -> bool {
    &&& smaller.len() == larger.len()
    &&& forall|i: int|
        0 <= i < smaller.len() ==> {
            &&& (#[trigger] smaller[i]).name == larger[i].name
            &&& smaller[i].is_class == larger[i].is_class
            &&& (smaller[i].framework_driven ==> larger[i].framework_driven)
        }
}

/// Whether two entities agree but for the second being an entry point at
/// least when the first is.
pub open spec fn entity_included(smaller: CodeEntityView, larger: CodeEntityView) -> bool {
    &&& smaller.simple_name == larger.simple_name
    &&& smaller.qualified_name == larger.qualified_name
    &&& smaller.containing_scope == larger.containing_scope
    &&& smaller.kind == larger.kind
    &&& smaller.file_path == larger.file_path
    &&& smaller.line_number == larger.line_number
    &&& smaller.superclass_names == larger.superclass_names
    &&& (smaller.is_entry_point ==> larger.is_entry_point)
}

/// Whether two states hold the same references and entities that agree as
/// `entity_included` says, one by one.
pub open spec fn state_included(smaller: ExtractionState, larger: ExtractionState) -> bool {
    &&& smaller.entities.len() == larger.entities.len()
    &&& forall|i: int| 0 <= i < smaller.entities.len() ==> entity_included(#[trigger] smaller.entities[i], larger.entities[i])
    &&& smaller.references == larger.references
    &&& smaller.dynamic_references == larger.dynamic_references
}

proof fn lemma_scope_names_agree(smaller: Seq<ScopeView>, larger: Seq<ScopeView>)
    requires
        scopes_included(smaller, larger),
    ensures
        scope_names(smaller) == scope_names(larger),
{
    assert(scope_names(smaller) =~= scope_names(larger));
}

proof fn lemma_record_reference_included(
    c1: ExtractionContext,
    c2: ExtractionContext,
    s1: Seq<ScopeView>,
    s2: Seq<ScopeView>,
    st1: ExtractionState,
    st2: ExtractionState,
    name: Seq<char>,
)
    requires
        context_included(c1, c2),
        scopes_included(s1, s2),
        state_included(st1, st2),
    ensures
        state_included(record_reference(c1, s1, st1, name), record_reference(c2, s2, st2, name)),
{
    lemma_scope_names_agree(s1, s2);
}

proof fn lemma_add_entity_included(st1: ExtractionState, st2: ExtractionState, e1: CodeEntityView, e2: CodeEntityView)
    requires
        state_included(st1, st2),
        entity_included(e1, e2),
    ensures
        state_included(add_entity(st1, e1), add_entity(st2, e2)),
{
    let a1 = add_entity(st1, e1);
    let a2 = add_entity(st2, e2);
    assert forall|i: int| 0 <= i < a1.entities.len() implies entity_included(#[trigger] a1.entities[i], a2.entities[i]) by {
        if i < st1.entities.len() {
            assert(entity_included(st1.entities[i], st2.entities[i]));
        }
    }
}

proof fn lemma_collect_strings_included(node: SyntaxNode, st1: ExtractionState, st2: ExtractionState)
    requires
        state_included(st1, st2),
    ensures
        state_included(collect_strings(node, st1), collect_strings(node, st2)),
    decreases node, node.children@.len() + 1,
{
    if string_literal(node) is None {
        lemma_collect_strings_upto_included(node, node.children@.len() as int, st1, st2);
    }
}

proof fn lemma_collect_strings_upto_included(node: SyntaxNode, j: int, st1: ExtractionState, st2: ExtractionState)
    requires
        state_included(st1, st2),
    ensures
        state_included(collect_strings_upto(node, j, st1), collect_strings_upto(node, j, st2)),
    decreases node, j,
{
    if !(j <= 0 || j > node.children@.len()) {
        lemma_collect_strings_upto_included(node, j - 1, st1, st2);
        lemma_collect_strings_included(
            node.children@[j - 1],
            collect_strings_upto(node, j - 1, st1),
            collect_strings_upto(node, j - 1, st2),
        );
    }
}

proof fn lemma_admin_upto_included(body: SyntaxNode, j: int, st1: ExtractionState, st2: ExtractionState)
    requires
        state_included(st1, st2),
    ensures
        state_included(admin_upto(body, j, st1), admin_upto(body, j, st2)),
    decreases j,
{
    if j > 0 {
        lemma_admin_upto_included(body, j - 1, st1, st2);
        let b1 = admin_upto(body, j - 1, st1);
        let b2 = admin_upto(body, j - 1, st2);
        let statement = body.children@[j - 1];
        if let Some(a) = named_child_from(statement, 0) {
            let assignment = statement.children@[a];
            if let (Some(l), Some(r)) = (field_child(assignment, "left"@), field_child(assignment, "right"@)) {
                lemma_collect_strings_included(assignment.children@[r], b1, b2);
            }
        }
    }
}

proof fn lemma_definition_entity_included(
    node: SyntaxNode,
    name_index: int,
    c1: ExtractionContext,
    c2: ExtractionContext,
    s1: Seq<ScopeView>,
    s2: Seq<ScopeView>,
    decorators: Seq<Seq<char>>,
)
    requires
        context_included(c1, c2),
        scopes_included(s1, s2),
    ensures
        entity_included(
            definition_entity(node, name_index, c1, s1, decorators),
            definition_entity(node, name_index, c2, s2, decorators),
        ),
{
    lemma_scope_names_agree(s1, s2);
    let name = node.children@[name_index].text@;
    let kind = definition_kind(node, s1);
    if s1.len() > 0 {
        assert(s1.last().is_class == s2.last().is_class);
        assert(s1.last().framework_driven ==> s2.last().framework_driven);
    }
    assert(definition_kind(node, s2) == kind);
    if definition_entry_point(c1, s1, name, kind, superclasses_text(node), decorators) && !dunder_name(name) && (kind
        == EntityKind::Function || kind == EntityKind::Method) {
        if exists|k: int|
            0 <= k < decorators.len() && (entry_point_decorator(#[trigger] decorators[k]) || configured_decorator(
                decorators[k],
                c1.entry_point_decorators,
            )) {
            let k = choose|k: int|
                0 <= k < decorators.len() && (entry_point_decorator(#[trigger] decorators[k]) || configured_decorator(
                    decorators[k],
                    c1.entry_point_decorators,
                ));
            if configured_decorator(decorators[k], c1.entry_point_decorators) {
                lemma_configured_decorator_monotone(decorators[k], c1.entry_point_decorators, c2.entry_point_decorators);
            }
            assert(entry_point_decorator(decorators[k]) || configured_decorator(decorators[k], c2.entry_point_decorators));
        }
    }
}

proof fn lemma_visit_included(
    node: SyntaxNode,
    c1: ExtractionContext,
    c2: ExtractionContext,
    s1: Seq<ScopeView>,
    s2: Seq<ScopeView>,
    st1: ExtractionState,
    st2: ExtractionState,
)
    requires
        context_included(c1, c2),
        scopes_included(s1, s2),
        state_included(st1, st2),
    ensures
        state_included(visit(node, c1, s1, st1), visit(node, c2, s2, st2)),
    decreases node, node.children@.len() + 3,
{
    let kind = node.kind@;
    if kind == "decorated_definition"@ {
        lemma_visit_decorated_included(node, c1, c2, s1, s2, st1, st2);
    } else if kind == "function_definition"@ || kind == "class_definition"@ {
        lemma_visit_definition_included(node, c1, c2, s1, s2, st1, st2, Seq::empty());
    } else if kind == "call"@ {
        assert(state_included(call_effect(node, st1), call_effect(node, st2)));
        lemma_visit_children_upto_included(
            node,
            node.children@.len() as int,
            -1,
            c1,
            c2,
            s1,
            s2,
            call_effect(node, st1),
            call_effect(node, st2),
        );
    } else if kind == "assignment"@ {
        lemma_visit_assignment_included(node, c1, c2, s1, s2, st1, st2);
    } else if kind == "identifier"@ {
        lemma_record_reference_included(c1, c2, s1, s2, st1, st2, node.text@);
    } else {
        lemma_visit_children_upto_included(node, node.children@.len() as int, -1, c1, c2, s1, s2, st1, st2);
    }
}

proof fn lemma_visit_children_upto_included(
    node: SyntaxNode,
    j: int,
    skip: int,
    c1: ExtractionContext,
    c2: ExtractionContext,
    s1: Seq<ScopeView>,
    s2: Seq<ScopeView>,
    st1: ExtractionState,
    st2: ExtractionState,
)
    requires
        context_included(c1, c2),
        scopes_included(s1, s2),
        state_included(st1, st2),
    ensures
        state_included(visit_children_upto(node, j, skip, c1, s1, st1), visit_children_upto(node, j, skip, c2, s2, st2)),
    decreases node, j,
{
    if !(j <= 0 || j > node.children@.len()) {
        lemma_visit_children_upto_included(node, j - 1, skip, c1, c2, s1, s2, st1, st2);
        if j - 1 != skip {
            lemma_visit_included(
                node.children@[j - 1],
                c1,
                c2,
                s1,
                s2,
                visit_children_upto(node, j - 1, skip, c1, s1, st1),
                visit_children_upto(node, j - 1, skip, c2, s2, st2),
            );
        }
    }
}

proof fn lemma_decorators_upto_included(
    node: SyntaxNode,
    j: int,
    c1: ExtractionContext,
    c2: ExtractionContext,
    s1: Seq<ScopeView>,
    s2: Seq<ScopeView>,
    st1: ExtractionState,
    st2: ExtractionState,
)
    requires
        context_included(c1, c2),
        scopes_included(s1, s2),
        state_included(st1, st2),
    ensures
        state_included(decorators_upto(node, j, c1, s1, st1).0, decorators_upto(node, j, c2, s2, st2).0),
        decorators_upto(node, j, c1, s1, st1).1 == decorators_upto(node, j, c2, s2, st2).1,
    decreases node, j,
{
    if !(j <= 0 || j > node.children@.len()) {
        lemma_decorators_upto_included(node, j - 1, c1, c2, s1, s2, st1, st2);
        let b1 = decorators_upto(node, j - 1, c1, s1, st1).0;
        let b2 = decorators_upto(node, j - 1, c2, s2, st2).0;
        let child = node.children@[j - 1];
        if child.kind@ == "decorator"@ {
            lemma_collect_strings_included(child, b1, b2);
            let normalized = normalized_decorator(child.text@);
            let f1 = if contains_text(normalized, "usefixtures"@) {
                collect_strings(child, b1)
            } else {
                b1
            };
            let f2 = if contains_text(normalized, "usefixtures"@) {
                collect_strings(child, b2)
            } else {
                b2
            };
            lemma_visit_children_upto_included(child, child.children@.len() as int, -1, c1, c2, s1, s2, f1, f2);
        }
    }
}

proof fn lemma_visit_decorated_included(
    node: SyntaxNode,
    c1: ExtractionContext,
    c2: ExtractionContext,
    s1: Seq<ScopeView>,
    s2: Seq<ScopeView>,
    st1: ExtractionState,
    st2: ExtractionState,
)
    requires
        context_included(c1, c2),
        scopes_included(s1, s2),
        state_included(st1, st2),
    ensures
        state_included(visit_decorated(node, c1, s1, st1), visit_decorated(node, c2, s2, st2)),
    decreases node, node.children@.len() + 2,
{
    lemma_decorators_upto_included(node, node.children@.len() as int, c1, c2, s1, s2, st1, st2);
    let (a1, names) = decorators_upto(node, node.children@.len() as int, c1, s1, st1);
    let (a2, names2) = decorators_upto(node, node.children@.len() as int, c2, s2, st2);
    if let Some(d) = field_child(node, "definition"@) {
        if 0 <= d < node.children@.len() {
            lemma_visit_definition_included(node.children@[d], c1, c2, s1, s2, a1, a2, names);
        }
    }
}

proof fn lemma_visit_definition_included(
    node: SyntaxNode,
    c1: ExtractionContext,
    c2: ExtractionContext,
    s1: Seq<ScopeView>,
    s2: Seq<ScopeView>,
    st1: ExtractionState,
    st2: ExtractionState,
    decorators: Seq<Seq<char>>,
)
    requires
        context_included(c1, c2),
        scopes_included(s1, s2),
        state_included(st1, st2),
    ensures
        state_included(visit_definition(node, c1, s1, st1, decorators), visit_definition(node, c2, s2, st2, decorators)),
    decreases node, node.children@.len() + 2,
{
    if let Some(name_index) = field_child(node, "name"@) {
        let e1 = definition_entity(node, name_index, c1, s1, decorators);
        let e2 = definition_entity(node, name_index, c2, s2, decorators);
        lemma_definition_entity_included(node, name_index, c1, c2, s1, s2, decorators);
        lemma_add_entity_included(st1, st2, e1, e2);
        let w1 = add_entity(st1, e1);
        let w2 = add_entity(st2, e2);
        if node.kind@ == "class_definition"@ && contains_text(superclasses_text(node), "ModelAdmin"@) {
            if let Some(b) = field_child(node, "body"@) {
                lemma_admin_upto_included(node.children@[b], node.children@[b].children@.len() as int, w1, w2);
            }
        }
        let m1 = if node.kind@ == "class_definition"@ {
            admin_attributes(node, w1)
        } else {
            w1
        };
        let m2 = if node.kind@ == "class_definition"@ {
            admin_attributes(node, w2)
        } else {
            w2
        };
        let scope1 = definition_scope(node, name_index, c1);
        let scope2 = definition_scope(node, name_index, c2);
        if scope1.framework_driven {
            lemma_framework_base_monotone(superclasses_text(node), c1.framework_base_markers, c2.framework_base_markers);
        }
        assert(scopes_included(s1.push(scope1), s2.push(scope2))) by {
            assert forall|i: int| 0 <= i < s1.push(scope1).len() implies {
                &&& (#[trigger] s1.push(scope1)[i]).name == s2.push(scope2)[i].name
                &&& s1.push(scope1)[i].is_class == s2.push(scope2)[i].is_class
                &&& (s1.push(scope1)[i].framework_driven ==> s2.push(scope2)[i].framework_driven)
            } by {
                if i < s1.len() {
                    assert(s1.push(scope1)[i] == s1[i]);
                    assert(s2.push(scope2)[i] == s2[i]);
                }
            }
        }
        lemma_visit_children_upto_included(
            node,
            node.children@.len() as int,
            name_index,
            c1,
            c2,
            s1.push(scope1),
            s2.push(scope2),
            m1,
            m2,
        );
    }
}

proof fn lemma_visit_assignment_included(
    node: SyntaxNode,
    c1: ExtractionContext,
    c2: ExtractionContext,
    s1: Seq<ScopeView>,
    s2: Seq<ScopeView>,
    st1: ExtractionState,
    st2: ExtractionState,
)
    requires
        context_included(c1, c2),
        scopes_included(s1, s2),
        state_included(st1, st2),
    ensures
        state_included(visit_assignment(node, c1, s1, st1), visit_assignment(node, c2, s2, st2)),
    decreases node, node.children@.len() + 2,
{
    match assigned_identifier(node) {
        Some(l) => {
            let name = node.children@[l].text@;
            let row = node.children@[l].start_row as int;
            lemma_collect_strings_included(node, st1, st2);
            lemma_add_entity_included(st1, st2, variable_entity(c1, name, row), variable_entity(c2, name, row));
            let u1 = if name == "__all__"@ {
                collect_strings(node, st1)
            } else if s1.len() == 0 {
                add_entity(st1, variable_entity(c1, name, row))
            } else {
                st1
            };
            let u2 = if name == "__all__"@ {
                collect_strings(node, st2)
            } else if s2.len() == 0 {
                add_entity(st2, variable_entity(c2, name, row))
            } else {
                st2
            };
            lemma_visit_children_upto_included(node, node.children@.len() as int, l, c1, c2, s1, s2, u1, u2);
        },
        None => lemma_visit_children_upto_included(node, node.children@.len() as int, -1, c1, c2, s1, s2, st1, st2),
    }
}

/// Extracting a file with a context that configures more entry-point
/// decorators and framework base markers yields the same entities, scoped
/// references and dynamic references, with at least the same entry points.
pub proof fn lemma_larger_context_extracts_more_entry_points(root: SyntaxNode, smaller: ExtractionContext, larger: ExtractionContext)
    requires
        context_included(smaller, larger),
    ensures
        analysis_of(root, smaller).module_name == analysis_of(root, larger).module_name,
        analysis_of(root, smaller).entities.len() == analysis_of(root, larger).entities.len(),
        forall|i: int|
            0 <= i < analysis_of(root, smaller).entities.len() ==> entity_included(
                #[trigger] analysis_of(root, smaller).entities[i],
                analysis_of(root, larger).entities[i],
            ),
        analysis_of(root, smaller).scoped_references == analysis_of(root, larger).scoped_references,
        analysis_of(root, smaller).dynamic_references == analysis_of(root, larger).dynamic_references,
{
    assert(scopes_included(Seq::empty(), Seq::empty()));
    assert(state_included(empty_state(), empty_state()));
    lemma_visit_included(root, smaller, larger, Seq::empty(), Seq::empty(), empty_state(), empty_state());
}

/// The skipped file for a file that could not be read: the reason is
/// `ошибка чтения: ` followed by the description of the read error.
pub fn skipped_for_read_error(file_path: &str, error_description: &str) -> (skipped: SkippedFile)
    ensures
        skipped.file_path@ == file_path@,
        skipped.reason@ == "ошибка чтения: "@ + error_description@,
{
    let mut reason = String::new();
    append_str(&mut reason, "ошибка чтения: ");
    append_str(&mut reason, error_description);
    proof {
        assert(Seq::<char>::empty() + "ошибка чтения: "@ =~= "ошибка чтения: "@);
    }
    SkippedFile { file_path: String::from_str(file_path), reason }
}

/// Why a file is skipped whose syntax tree has a node at row `usize::MAX`.
pub open spec fn row_out_of_range_reason() -> Seq<char> {
    "номер строки не помещается в usize"@
}

/// Turns the outcome of parsing a file into its analysis, or into the skipped
/// file with the reason why no tree could be walked.
pub fn analysis_from_tree(
    parsed: Result<SyntaxNode, ParseFailure>,
    file_path: &str,
    project_root: &str,
    configuration: &AnalyzerConfiguration,
) -> (outcome: Result<FileAnalysis, SkippedFile>)
    requires
        parsed matches Ok(root) ==> rows_bounded(root),
    ensures
        match parsed {
            Ok(root) => outcome matches Ok(analysis) && analysis@ == analysis_of(
                root,
                extraction_context(dotted_module_name(file_path@, project_root@), file_path@, configuration@),
            ),
            Err(ParseFailure::RowOutOfRange) => outcome matches Err(skipped) && skipped.file_path@ == file_path@
                && skipped.reason@ == row_out_of_range_reason(),
        },
{
    match parsed {
        Ok(root) => {
            let module_name = compute_module_path(file_path, project_root);
            Ok(extract_file_analysis(&root, module_name, String::from_str(file_path), configuration))
        },
        Err(ParseFailure::RowOutOfRange) => {
            let reason = String::from_str("номер строки не помещается в usize");
            proof {
                reveal_strlit("номер строки не помещается в usize");
            }
            Err(SkippedFile { file_path: String::from_str(file_path), reason })
        },
    }
}

/// Analyses one Python file from its source text: parses it with the worker's
/// parser, then walks the tree. The analysis is that of the plain form of the
/// tree tree-sitter builds for this source text; the file is skipped exactly
/// when a node of that tree starts at row `usize::MAX` (possible only where
/// `usize` has 32 bits).
pub fn analyze_python_file(
    source_parser: &mut PythonSourceParser,
    source_code: &str,
    file_path: &str,
    project_root: &str,
    configuration: &AnalyzerConfiguration,
) -> (outcome: Result<FileAnalysis, SkippedFile>)
    ensures
        outcome is Ok <==> !row_out_of_range(source_code@, Seq::empty()),
        match outcome {
            Ok(analysis) => exists|root: SyntaxNode|
                #[trigger] describes_node(root, source_code@, Seq::empty()) && rows_bounded(root) && analysis@
                    == analysis_of(
                    root,
                    extraction_context(dotted_module_name(file_path@, project_root@), file_path@, configuration@),
                ),
            Err(skipped) => skipped.file_path@ == file_path@ && skipped.reason@ == row_out_of_range_reason(),
        },
        outcome matches Ok(analysis) ==> {
            &&& analysis@.module_name == dotted_module_name(file_path@, project_root@)
            &&& forall|i: int|
                0 <= i < analysis@.entities.len() ==> entity_well_formed(#[trigger] analysis@.entities[i], file_path@)
            &&& analysis@.scoped_references.no_duplicates()
            &&& analysis@.dynamic_references.no_duplicates()
        },
{
    let parsed = source_parser.parse(source_code);
    let ghost ctx = extraction_context(dotted_module_name(file_path@, project_root@), file_path@, configuration@);
    proof {
        if let Ok(root) = &parsed {
            lemma_extracted_analysis_well_formed(*root, ctx);
        }
    }
    analysis_from_tree(parsed, file_path, project_root, configuration)
}

} // verus!
