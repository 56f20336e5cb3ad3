//! Building the dependency graph and finding the entities that no root reaches.
//!
//! Nodes are the modules, one per analysed file, followed by the entities of
//! all files in order. A scope name resolves to the last node that carries it
//! (a module path or an entity's qualified name). Edges:
//! - for each reference of a file, from the node of its scope to every entity
//!   whose simple name is the referenced name (but not to the scope itself);
//! - from each entity to the node of the scope that contains it (but not to itself).
//!
//! Roots: the node that each module path resolves to; entry points; entities
//! whose simple name is in the pool of dynamic names (each configured or
//! extracted dynamic string and its last dotted segment); and methods of
//! framework-driven classes. A class is framework-driven when one of its base
//! names holds a framework marker, or when one of its base names is the simple
//! name of a framework-driven class of the project.

use vstd::hash_map::StringHashMap;
use vstd::prelude::*;

use crate::config::{AnalyzerConfiguration, ConfigurationView};
use crate::graph::{
    lemma_reachable_more_roots, lemma_reachable_same_relation, reachable, reachable_nodes, root_set, LinkGraph,
};
use crate::heuristics::{
    framework_driven_base, is_framework_driven_base, last_dotted_segment, last_segment,
    lemma_framework_base_monotone, names_included,
};
use crate::model::{CodeEntity, CodeEntityView, EntityKind, FileAnalysis, FileAnalysisView};
use crate::pipeline::extract::{
    analysis_of, entity_included, extraction_context, lemma_larger_context_extracts_more_entry_points,
};
use crate::pipeline::syntax::SyntaxNode;
use crate::sorting::{lemma_map_values_same_multiset, sort_by_location, sorted_by_location};
use crate::text::strings_view;

verus! {

/// The views of the analyses of a project.
pub open spec fn analyses_view(file_analyses: Seq<FileAnalysis>) -> Seq<FileAnalysisView> {
    file_analyses.map_values(|file_analysis: FileAnalysis| file_analysis@)
}

/// The views of a sequence of entity references.
pub open spec fn entity_views(entities: Seq<&CodeEntity>) -> Seq<CodeEntityView> {
    entities.map_values(|entity: &CodeEntity| entity@)
}

/// The entities of all files, file by file, in order.
pub open spec fn all_entities(analyses: Seq<FileAnalysisView>) -> Seq<CodeEntityView>
    decreases analyses.len(),
{
    if analyses.len() == 0 {
        Seq::empty()
    } else {
        all_entities(analyses.drop_last()) + analyses.last().entities
    }
}

/// The labels of the nodes: the module paths, then the qualified names of the entities.
pub open spec fn node_labels(analyses: Seq<FileAnalysisView>) -> Seq<Seq<char>> {
    analyses.map_values(|file_analysis: FileAnalysisView| file_analysis.module_name)
        + all_entities(analyses).map_values(|entity: CodeEntityView| entity.qualified_name)
}

/// The node that a scope name resolves to: the last node with that label, or -1.
pub open spec fn scope_node(labels: Seq<Seq<char>>, name: Seq<char>) -> int
    decreases labels.len(),
{
    if labels.len() == 0 {
        -1
    } else if labels.last() == name {
        labels.len() - 1
    } else {
        scope_node(labels.drop_last(), name)
    }
}

/// Whether reference `r` of file `f` gives an edge from `source` to `target`.
pub open spec fn reference_gives_edge(
    analyses: Seq<FileAnalysisView>,
    f: int,
    r: int,
    source: usize,
    target: usize,
) -> bool {
    let reference = analyses[f].scoped_references[r];
    let entities = all_entities(analyses);
    &&& source as int == scope_node(node_labels(analyses), reference.0)
    &&& analyses.len() <= target < analyses.len() + entities.len()
    &&& entities[target - analyses.len()].simple_name == reference.1
    &&& source != target
}

/// Whether a reference of some file gives an edge from `source` to `target`.
pub open spec fn reference_edge(analyses: Seq<FileAnalysisView>, source: usize, target: usize) -> bool {
    exists|f: int, r: int|
        0 <= f < analyses.len() && 0 <= r < analyses[f].scoped_references.len()
            && #[trigger] reference_gives_edge(analyses, f, r, source, target)
}

/// Whether `source` is an entity and `target` the other node its containing scope resolves to.
pub open spec fn containment_edge(analyses: Seq<FileAnalysisView>, source: usize, target: usize) -> bool {
    let entities = all_entities(analyses);
    &&& analyses.len() <= source < analyses.len() + entities.len()
    &&& target as int == scope_node(node_labels(analyses), entities[source - analyses.len()].containing_scope)
    &&& source != target
}

/// Whether the dependency graph has an edge from `source` to `target`.
pub open spec fn dependency_edge(analyses: Seq<FileAnalysisView>, source: usize, target: usize) -> bool {
    reference_edge(analyses, source, target) || containment_edge(analyses, source, target)
}

/// The edges of the dependency graph as a function.
pub open spec fn dependency_links(analyses: Seq<FileAnalysisView>) -> spec_fn(usize, usize) -> bool {
    |source: usize, target: usize| dependency_edge(analyses, source, target)
}

/// The dynamic references of all files, in order.
pub open spec fn all_dynamic_references(analyses: Seq<FileAnalysisView>) -> Seq<Seq<char>>
    decreases analyses.len(),
{
    if analyses.len() == 0 {
        Seq::empty()
    } else {
        all_dynamic_references(analyses.drop_last()) + analyses.last().dynamic_references
    }
}

/// The configured dynamic names followed by the extracted dynamic references.
pub open spec fn dynamic_names(analyses: Seq<FileAnalysisView>, configuration: ConfigurationView) -> Seq<Seq<char>> {
    configuration.extra_dynamic_names + all_dynamic_references(analyses)
}

/// Whether a name is in the pool of dynamic names: one of the names or the
/// last dotted segment of one of them.
pub open spec fn in_dynamic_pool(names: Seq<Seq<char>>, name: Seq<char>) -> bool {
    exists|i: int| 0 <= i < names.len() && #[trigger] covers_name(names[i], name)
}

/// Whether a dynamic name stands for `name`: it is the name, or its last dotted segment is.
pub open spec fn covers_name(dynamic_name: Seq<char>, name: Seq<char>) -> bool {
    dynamic_name == name || last_segment(dynamic_name) == name
}

/// Whether class `child` names the simple name of class `parent` among its bases.
pub open spec fn inheritance_edge(entities: Seq<CodeEntityView>, parent: usize, child: usize) -> bool {
    &&& parent < entities.len()
    &&& child < entities.len()
    &&& entities[parent as int].kind == EntityKind::Class
    &&& entities[child as int].kind == EntityKind::Class
    &&& entities[child as int].superclass_names.contains(entities[parent as int].simple_name)
}

/// The inheritance edges as a function.
pub open spec fn inheritance_links(entities: Seq<CodeEntityView>) -> spec_fn(usize, usize) -> bool {
    |parent: usize, child: usize| inheritance_edge(entities, parent, child)
}

/// Whether a class has a base name with a framework marker.
pub open spec fn framework_root(entities: Seq<CodeEntityView>, markers: Seq<Seq<char>>, class: usize) -> bool {
    &&& class < entities.len()
    &&& entities[class as int].kind == EntityKind::Class
    &&& exists|i: int|
        0 <= i < entities[class as int].superclass_names.len()
            && #[trigger] framework_driven_base(entities[class as int].superclass_names[i], markers)
}

/// The classes with a framework marker among their base names, as a function.
pub open spec fn framework_roots(entities: Seq<CodeEntityView>, markers: Seq<Seq<char>>) -> spec_fn(usize) -> bool {
    |class: usize| framework_root(entities, markers, class)
}

/// Whether the framework calls the methods of a class: it derives, through
/// the classes of the project, from a base with a framework marker.
pub open spec fn framework_driven_class(entities: Seq<CodeEntityView>, markers: Seq<Seq<char>>, class: usize) -> bool {
    reachable(inheritance_links(entities), framework_roots(entities, markers), class)
}

/// Whether entity `k` is a method of a framework-driven class.
pub open spec fn framework_driven_method(entities: Seq<CodeEntityView>, markers: Seq<Seq<char>>, k: int) -> bool {
    &&& entities[k].kind == EntityKind::Method
    &&& exists|class: usize|
        class < entities.len() && #[trigger] framework_driven_class(entities, markers, class)
            && entities[class as int].qualified_name == entities[k].containing_scope
}

/// Whether entity `k` is a root by itself.
pub open spec fn entity_root(analyses: Seq<FileAnalysisView>, configuration: ConfigurationView, k: int) -> bool {
    let entities = all_entities(analyses);
    ||| entities[k].is_entry_point
    ||| in_dynamic_pool(dynamic_names(analyses, configuration), entities[k].simple_name)
    ||| framework_driven_method(entities, configuration.extra_framework_base_markers, k)
}

/// Whether a node is a root: the node that a module path resolves to, or an
/// entity that is a root by itself.
pub open spec fn dependency_root(analyses: Seq<FileAnalysisView>, configuration: ConfigurationView, node: usize) -> bool {
    let entity_count = all_entities(analyses).len();
    ||| exists|f: int| 0 <= f < analyses.len() && node as int == #[trigger] scope_node(node_labels(analyses), analyses[f].module_name)
    ||| (analyses.len() <= node < analyses.len() + entity_count && entity_root(analyses, configuration, node - analyses.len()))
}

/// The roots as a function.
pub open spec fn dependency_roots(analyses: Seq<FileAnalysisView>, configuration: ConfigurationView) -> spec_fn(usize) -> bool {
    |node: usize| dependency_root(analyses, configuration, node)
}

/// Whether entity `k` (counted over all files) is reached from a root.
pub open spec fn entity_reachable(analyses: Seq<FileAnalysisView>, configuration: ConfigurationView, k: int) -> bool {
    reachable(dependency_links(analyses), dependency_roots(analyses, configuration), (analyses.len() + k) as usize)
}

/// The first `k` entities that no root reaches, in order.
pub open spec fn unreachable_prefix(analyses: Seq<FileAnalysisView>, configuration: ConfigurationView, k: int) -> Seq<CodeEntityView>
    decreases k,
{
    if k <= 0 {
        Seq::empty()
    } else if entity_reachable(analyses, configuration, k - 1) {
        unreachable_prefix(analyses, configuration, k - 1)
    } else {
        unreachable_prefix(analyses, configuration, k - 1).push(all_entities(analyses)[k - 1])
    }
}

/// The entities that no root reaches, in order.
pub open spec fn unreachable_entities(analyses: Seq<FileAnalysisView>, configuration: ConfigurationView) -> Seq<CodeEntityView> {
    unreachable_prefix(analyses, configuration, all_entities(analyses).len() as int)
}

/// The number of entities over all files.
pub open spec fn total_entity_count(file_analyses: Seq<FileAnalysis>) -> int {
    all_entities(analyses_view(file_analyses)).len() as int
}

proof fn lemma_all_entities_step(analyses: Seq<FileAnalysisView>, f: int)
    requires
        0 <= f < analyses.len(),
    ensures
        all_entities(analyses.subrange(0, f + 1)) == all_entities(analyses.subrange(0, f)) + analyses[f].entities,
{
    assert(analyses.subrange(0, f + 1).drop_last() =~= analyses.subrange(0, f));
}

proof fn lemma_scope_node_push(labels: Seq<Seq<char>>, label: Seq<char>, name: Seq<char>)
    ensures
        scope_node(labels.push(label), name) == if name == label {
            labels.len() as int
        } else {
            scope_node(labels, name)
        },
{
    assert(labels.push(label).drop_last() =~= labels);
}

proof fn lemma_scope_node_bounds(labels: Seq<Seq<char>>, name: Seq<char>)
    ensures
        -1 <= scope_node(labels, name) < labels.len(),
        scope_node(labels, name) >= 0 ==> labels[scope_node(labels, name)] == name,
        scope_node(labels, name) == -1 ==> !labels.contains(name),
    decreases labels.len(),
{
    if labels.len() > 0 && labels.last() != name {
        lemma_scope_node_bounds(labels.drop_last(), name);
        if scope_node(labels, name) == -1 {
            assert forall|i: int| 0 <= i < labels.len() implies labels[i] != name by {
                if i < labels.len() - 1 {
                    assert(labels.drop_last()[i] == labels[i]);
                }
            }
        }
    }
}

/// Lists the entities of all files, file by file.
fn collect_entities<'a>(file_analyses: &'a [FileAnalysis]) -> (entities: Vec<&'a CodeEntity>)
    ensures
        entity_views(entities@) == all_entities(analyses_view(file_analyses@)),
{
    let ghost analyses = analyses_view(file_analyses@);
    let mut entities: Vec<&'a CodeEntity> = Vec::new();
    let mut f: usize = 0;
    assert(entity_views(entities@) =~= all_entities(analyses.subrange(0, 0)));
    while f < file_analyses.len()
        invariant
            f <= file_analyses@.len(),
            analyses == analyses_view(file_analyses@),
            entity_views(entities@) == all_entities(analyses.subrange(0, f as int)),
        decreases file_analyses@.len() - f,
    {
        let file_entities = &file_analyses[f].entities;
        let ghost before = entity_views(entities@);
        let mut i: usize = 0;
        while i < file_entities.len()
            invariant
                i <= file_entities@.len(),
                entity_views(entities@) == before + file_entities@.map_values(|entity: CodeEntity| entity@).subrange(0, i as int),
            decreases file_entities@.len() - i,
        {
            let ghost prior = entities@;
            entities.push(&file_entities[i]);
            assert(entity_views(entities@) =~= entity_views(prior).push(file_entities@[i as int]@));
            assert(file_entities@.map_values(|entity: CodeEntity| entity@).subrange(0, i + 1) =~= file_entities@.map_values(
                |entity: CodeEntity| entity@,
            ).subrange(0, i as int).push(file_entities@[i as int]@));
            i = i + 1;
        }
        proof {
            lemma_all_entities_step(analyses, f as int);
            assert(analyses[f as int].entities == file_entities@.map_values(|entity: CodeEntity| entity@));
            assert(file_entities@.map_values(|entity: CodeEntity| entity@).subrange(0, file_entities@.len() as int)
                =~= file_entities@.map_values(|entity: CodeEntity| entity@));
        }
        f = f + 1;
    }
    assert(analyses.subrange(0, file_analyses@.len() as int) =~= analyses);
    entities
}

/// Whether a table of scope names agrees with the resolution of names over `labels`.
pub open spec fn resolves_scopes(table: Map<Seq<char>, usize>, labels: Seq<Seq<char>>) -> bool {
    forall|name: Seq<char>|
        (#[trigger] table.contains_key(name) ==> table[name] as int == scope_node(labels, name))
            && (!table.contains_key(name) ==> scope_node(labels, name) == -1)
}

/// Maps every node label to its last node.
fn build_scope_nodes(file_analyses: &[FileAnalysis], entities: &Vec<&CodeEntity>) -> (scope_nodes: StringHashMap<usize>)
    requires
        entity_views(entities@) == all_entities(analyses_view(file_analyses@)),
        file_analyses@.len() + entities@.len() <= usize::MAX,
    ensures
        resolves_scopes(scope_nodes@, node_labels(analyses_view(file_analyses@))),
{
    let ghost analyses = analyses_view(file_analyses@);
    let ghost labels = node_labels(analyses);
    let module_count = file_analyses.len();
    let mut scope_nodes: StringHashMap<usize> = StringHashMap::new();
    let mut f: usize = 0;
    assert(resolves_scopes(scope_nodes@, labels.subrange(0, 0)));
    while f < module_count
        invariant
            f <= module_count,
            module_count == file_analyses@.len(),
            analyses == analyses_view(file_analyses@),
            labels == node_labels(analyses),
            resolves_scopes(scope_nodes@, labels.subrange(0, f as int)),
        decreases module_count - f,
    {
        let ghost prior = scope_nodes@;
        scope_nodes.insert(file_analyses[f].module_name.clone(), f);
        proof {
            assert(labels[f as int] == file_analyses@[f as int].module_name@);
            assert(labels.subrange(0, f + 1) =~= labels.subrange(0, f as int).push(labels[f as int]));
            assert forall|name: Seq<char>|
                (#[trigger] scope_nodes@.contains_key(name) ==> scope_nodes@[name] as int == scope_node(labels.subrange(0, f + 1), name))
                    && (!scope_nodes@.contains_key(name) ==> scope_node(labels.subrange(0, f + 1), name) == -1) by {
                lemma_scope_node_push(labels.subrange(0, f as int), labels[f as int], name);
                assert(prior.contains_key(name) ==> prior[name] as int == scope_node(labels.subrange(0, f as int), name));
            }
        }
        f = f + 1;
    }
    let mut k: usize = 0;
    while k < entities.len()
        invariant
            k <= entities@.len(),
            module_count == file_analyses@.len(),
            module_count + entities@.len() <= usize::MAX,
            analyses == analyses_view(file_analyses@),
            labels == node_labels(analyses),
            entity_views(entities@) == all_entities(analyses),
            resolves_scopes(scope_nodes@, labels.subrange(0, module_count + k)),
        decreases entities@.len() - k,
    {
        let ghost prior = scope_nodes@;
        let node = module_count + k;
        scope_nodes.insert(entities[k].qualified_name.clone(), node);
        proof {
            assert(entity_views(entities@)[k as int] == entities@[k as int]@);
            assert(labels[node as int] == entities@[k as int].qualified_name@);
            assert(labels.subrange(0, node + 1) =~= labels.subrange(0, node as int).push(labels[node as int]));
            assert forall|name: Seq<char>|
                (#[trigger] scope_nodes@.contains_key(name) ==> scope_nodes@[name] as int == scope_node(labels.subrange(0, node + 1), name))
                    && (!scope_nodes@.contains_key(name) ==> scope_node(labels.subrange(0, node + 1), name) == -1) by {
                lemma_scope_node_push(labels.subrange(0, node as int), labels[node as int], name);
                assert(prior.contains_key(name) ==> prior[name] as int == scope_node(labels.subrange(0, node as int), name));
            }
        }
        k = k + 1;
    }
    assert(labels.subrange(0, module_count + entities@.len()) =~= labels);
    scope_nodes
}

/// Whether `node` is listed under `name`: an entity at `node - offset` with that
/// simple name (and a class, when only classes are listed).
pub open spec fn listed_under(
    entities: Seq<CodeEntityView>,
    offset: int,
    only_classes: bool,
    name: Seq<char>,
    node: usize,
) -> bool {
    &&& offset <= node < offset + entities.len()
    &&& entities[node - offset].simple_name == name
    &&& only_classes ==> entities[node - offset].kind == EntityKind::Class
}

/// Whether a table lists, under each simple name, exactly the nodes of the
/// entities with that name.
pub open spec fn lists_names(
    table: Map<Seq<char>, Vec<usize>>,
    entities: Seq<CodeEntityView>,
    offset: int,
    only_classes: bool,
) -> bool {
    forall|name: Seq<char>, node: usize|
        #![trigger table[name]@.contains(node)]
        #![trigger listed_under(entities, offset, only_classes, name, node)]
        (table.contains_key(name) && table[name]@.contains(node)) <==> listed_under(entities, offset, only_classes, name, node)
}

/// Lists the nodes of the entities (of the classes, when `only_classes`) under
/// their simple names; entity `k` is node `offset + k`.
fn index_simple_names(entities: &Vec<&CodeEntity>, offset: usize, only_classes: bool) -> (index: StringHashMap<Vec<usize>>)
    requires
        offset + entities@.len() <= usize::MAX,
    ensures
        lists_names(index@, entity_views(entities@), offset as int, only_classes),
{
    let ghost all = entity_views(entities@);
    let mut index: StringHashMap<Vec<usize>> = StringHashMap::new();
    let mut k: usize = 0;
    while k < entities.len()
        invariant
            k <= entities@.len(),
            offset + entities@.len() <= usize::MAX,
            all == entity_views(entities@),
            lists_names(index@, all.subrange(0, k as int), offset as int, only_classes),
        decreases entities@.len() - k,
    {
        let ghost prior = index@;
        let ghost prefix = all.subrange(0, k as int);
        let ghost next = all.subrange(0, k + 1);
        let entity = entities[k];
        assert(all[k as int] == entity@);
        if !only_classes || entity.kind == EntityKind::Class {
            let node = offset + k;
            let mut nodes: Vec<usize> = match index.get(entity.simple_name.as_str()) {
                Some(listed) => listed.clone(),
                None => Vec::new(),
            };
            let ghost listed_before = nodes@;
            assert(prior.contains_key(entity.simple_name@) ==> listed_before == prior[entity.simple_name@]@);
            assert(!prior.contains_key(entity.simple_name@) ==> listed_before == Seq::<usize>::empty());
            nodes.push(node);
            index.insert(entity.simple_name.clone(), nodes);
            proof {
                assert forall|name: Seq<char>, member: usize|
                    #![trigger index@[name]@.contains(member)]
                    #![trigger listed_under(next, offset as int, only_classes, name, member)]
                    (index@.contains_key(name) && index@[name]@.contains(member)) <==> listed_under(
                        next,
                        offset as int,
                        only_classes,
                        name,
                        member,
                    ) by {
                    if listed_under(prefix, offset as int, only_classes, name, member) {
                        assert(prior[name]@.contains(member));
                    }
                    if name == entity.simple_name@ && prior.contains_key(name) && prior[name]@.contains(member) {
                        assert(listed_under(prefix, offset as int, only_classes, name, member));
                    }
                    if name == entity.simple_name@ && index@[name]@.contains(member) && member != node {
                        let q = choose|q: int| 0 <= q < nodes@.len() && nodes@[q] == member;
                        assert(listed_before[q] == member);
                        assert(prior.contains_key(name));
                        assert(prior[name]@.contains(member));
                    }
                    if listed_under(next, offset as int, only_classes, name, member) && member != node {
                        assert(listed_under(prefix, offset as int, only_classes, name, member));
                        if name == entity.simple_name@ {
                            assert(prior[name]@.contains(member));
                            let q = choose|q: int| 0 <= q < listed_before.len() && listed_before[q] == member;
                            assert(nodes@[q] == member);
                        }
                    }
                    if member == node && name == entity.simple_name@ {
                        assert(nodes@[nodes@.len() - 1] == node);
                    }
                }
            }
        } else {
            proof {
                assert forall|name: Seq<char>, member: usize|
                    #![trigger index@[name]@.contains(member)]
                    #![trigger listed_under(next, offset as int, only_classes, name, member)]
                    (index@.contains_key(name) && index@[name]@.contains(member)) <==> listed_under(
                        next,
                        offset as int,
                        only_classes,
                        name,
                        member,
                    ) by {
                    if listed_under(prefix, offset as int, only_classes, name, member) {
                        assert(prior[name]@.contains(member));
                    }
                    if prior.contains_key(name) && prior[name]@.contains(member) {
                        assert(listed_under(prefix, offset as int, only_classes, name, member));
                    }
                }
            }
        }
        k = k + 1;
    }
    assert(all.subrange(0, entities@.len() as int) =~= all);
    index
}


/// Whether a reference before reference `r` of file `f` gives an edge from `source` to `target`.
pub open spec fn earlier_reference_edge(
    analyses: Seq<FileAnalysisView>,
    f: int,
    r: int,
    source: usize,
    target: usize,
) -> bool {
    exists|f2: int, r2: int|
        0 <= f2 < analyses.len() && 0 <= r2 < analyses[f2].scoped_references.len() && (f2 < f || (f2 == f && r2 < r))
            && #[trigger] reference_gives_edge(analyses, f2, r2, source, target)
}

/// Builds the dependency graph of the analyses.
fn build_dependency_graph(
    file_analyses: &[FileAnalysis],
    entities: &Vec<&CodeEntity>,
    scope_nodes: &StringHashMap<usize>,
    name_index: &StringHashMap<Vec<usize>>,
) -> (graph: LinkGraph)
    requires
        entity_views(entities@) == all_entities(analyses_view(file_analyses@)),
        file_analyses@.len() + entities@.len() <= usize::MAX,
        resolves_scopes(scope_nodes@, node_labels(analyses_view(file_analyses@))),
        lists_names(name_index@, entity_views(entities@), file_analyses@.len() as int, false),
    ensures
        graph.node_count() == file_analyses@.len() + entities@.len(),
        graph.well_formed(),
        forall|source: usize, target: usize|
            #[trigger] graph.has_edge(source, target) <==> dependency_edge(analyses_view(file_analyses@), source, target),
{
    let ghost analyses = analyses_view(file_analyses@);
    let ghost labels = node_labels(analyses);
    let ghost all = entity_views(entities@);
    let module_count = file_analyses.len();
    let total = module_count + entities.len();
    proof {
        assert(labels.len() == total);
    }
    let mut graph = LinkGraph::with_nodes(total);
    let mut f: usize = 0;
    while f < module_count
        invariant
            f <= module_count,
            module_count == file_analyses@.len(),
            total == module_count + entities@.len(),
            analyses == analyses_view(file_analyses@),
            labels == node_labels(analyses),
            labels.len() == total,
            all == entity_views(entities@),
            all == all_entities(analyses),
            resolves_scopes(scope_nodes@, labels),
            lists_names(name_index@, all, module_count as int, false),
            graph.node_count() == total,
            forall|a: usize, b: usize| #[trigger] graph.has_edge(a, b) <==> earlier_reference_edge(analyses, f as int, 0, a, b),
        decreases module_count - f,
    {
        let references = &file_analyses[f].scoped_references;
        assert(analyses[f as int].scoped_references.len() == references@.len());
        let mut r: usize = 0;
        while r < references.len()
            invariant
                f < module_count,
                r <= references@.len(),
                references == &file_analyses@[f as int].scoped_references,
                analyses[f as int].scoped_references.len() == references@.len(),
                module_count == file_analyses@.len(),
                total == module_count + entities@.len(),
                analyses == analyses_view(file_analyses@),
                labels == node_labels(analyses),
                labels.len() == total,
                all == entity_views(entities@),
                all == all_entities(analyses),
                resolves_scopes(scope_nodes@, labels),
                lists_names(name_index@, all, module_count as int, false),
                graph.node_count() == total,
                forall|a: usize, b: usize| #[trigger] graph.has_edge(a, b) <==> earlier_reference_edge(analyses, f as int, r as int, a, b),
            decreases references@.len() - r,
        {
            let reference = &references[r];
            let ghost scope_name = reference.scope_qualified_name@;
            let ghost target_name = reference.referenced_name@;
            assert(analyses[f as int].scoped_references[r as int] == (scope_name, target_name));
            let ghost before = graph;
            match scope_nodes.get(reference.scope_qualified_name.as_str()) {
                None => {
                    assert(!scope_nodes@.contains_key(scope_name));
                    assert forall|a: usize, b: usize| !reference_gives_edge(analyses, f as int, r as int, a, b) by {}
                },
                Some(source_ref) => {
                    let source = *source_ref;
                    proof {
                        assert(scope_nodes@.contains_key(scope_name));
                        lemma_scope_node_bounds(labels, scope_name);
                    }
                    match name_index.get(reference.referenced_name.as_str()) {
                        None => {
                            assert(!name_index@.contains_key(target_name));
                            assert forall|a: usize, b: usize| !reference_gives_edge(analyses, f as int, r as int, a, b) by {
                                if reference_gives_edge(analyses, f as int, r as int, a, b) {
                                    assert(listed_under(all, module_count as int, false, target_name, b));
                                }
                            }
                        },
                        Some(targets) => {
                            assert(name_index@.contains_key(target_name) && *targets == name_index@[target_name]);
                            let mut j: usize = 0;
                            while j < targets.len()
                                invariant
                                    j <= targets@.len(),
                                    source < total,
                                    source as int == scope_node(labels, scope_name),
                                    graph.node_count() == total,
                                    lists_names(name_index@, all, module_count as int, false),
                                    name_index@.contains_key(target_name),
                                    *targets == name_index@[target_name],
                                    module_count + all.len() == total,
                                    forall|a: usize, b: usize| #[trigger] graph.has_edge(a, b) <==> (before.has_edge(a, b) || (a == source
                                        && b != source && exists|q: int| 0 <= q < j && targets@[q] == b)),
                                decreases targets@.len() - j,
                            {
                                let target = targets[j];
                                assert(targets@.contains(target));
                                assert(listed_under(all, module_count as int, false, target_name, target));
                                if target != source {
                                    graph.add_link(source, target);
                                }
                                proof {
                                    assert forall|a: usize, b: usize| #[trigger] graph.has_edge(a, b) <==> (before.has_edge(a, b) || (a
                                        == source && b != source && exists|q: int| 0 <= q < j + 1 && targets@[q] == b)) by {
                                        if a == source && b == target && b != source {
                                            assert(targets@[j as int] == b);
                                        }
                                    }
                                }
                                j = j + 1;
                            }
                            proof {
                                assert forall|a: usize, b: usize| #[trigger] graph.has_edge(a, b) <==> (before.has_edge(a, b)
                                    || reference_gives_edge(analyses, f as int, r as int, a, b)) by {
                                    if graph.has_edge(a, b) && !before.has_edge(a, b) {
                                        let q = choose|q: int| 0 <= q < targets@.len() && targets@[q] == b;
                                        assert(targets@.contains(b));
                                        assert(listed_under(all, module_count as int, false, target_name, b));
                                    }
                                    if reference_gives_edge(analyses, f as int, r as int, a, b) {
                                        assert(listed_under(all, module_count as int, false, target_name, b));
                                        assert(targets@.contains(b));
                                        let q = choose|q: int| 0 <= q < targets@.len() && targets@[q] == b;
                                    }
                                }
                            }
                        },
                    }
                },
            }
            proof {
                assert forall|a: usize, b: usize| #[trigger] graph.has_edge(a, b) <==> earlier_reference_edge(
                    analyses,
                    f as int,
                    r + 1,
                    a,
                    b,
                ) by {
                    if earlier_reference_edge(analyses, f as int, r + 1, a, b) && !earlier_reference_edge(analyses, f as int, r as int, a, b) {
                        let (f2, r2) = choose|f2: int, r2: int|
                            0 <= f2 < analyses.len() && 0 <= r2 < analyses[f2].scoped_references.len() && (f2 < f || (f2 == f && r2 < r + 1))
                                && #[trigger] reference_gives_edge(analyses, f2, r2, a, b);
                        assert(f2 == f && r2 == r);
                    }
                    if graph.has_edge(a, b) && !before.has_edge(a, b) {
                        assert(reference_gives_edge(analyses, f as int, r as int, a, b));
                    }
                    if earlier_reference_edge(analyses, f as int, r as int, a, b) {
                        let (f2, r2) = choose|f2: int, r2: int|
                            0 <= f2 < analyses.len() && 0 <= r2 < analyses[f2].scoped_references.len() && (f2 < f || (f2 == f && r2 < r))
                                && #[trigger] reference_gives_edge(analyses, f2, r2, a, b);
                        assert(earlier_reference_edge(analyses, f as int, r + 1, a, b));
                    }
                }
            }
            r = r + 1;
        }
        proof {
            assert forall|a: usize, b: usize| #[trigger] graph.has_edge(a, b) <==> earlier_reference_edge(analyses, f + 1, 0, a, b) by {
                if earlier_reference_edge(analyses, f + 1, 0, a, b) {
                    let (f2, r2) = choose|f2: int, r2: int|
                        0 <= f2 < analyses.len() && 0 <= r2 < analyses[f2].scoped_references.len() && (f2 < f + 1 || (f2 == f + 1 && r2 < 0))
                            && #[trigger] reference_gives_edge(analyses, f2, r2, a, b);
                    assert(earlier_reference_edge(analyses, f as int, r as int, a, b));
                }
                if earlier_reference_edge(analyses, f as int, r as int, a, b) {
                    let (f2, r2) = choose|f2: int, r2: int|
                        0 <= f2 < analyses.len() && 0 <= r2 < analyses[f2].scoped_references.len() && (f2 < f || (f2 == f && r2 < r))
                            && #[trigger] reference_gives_edge(analyses, f2, r2, a, b);
                    assert(earlier_reference_edge(analyses, f + 1, 0, a, b));
                }
            }
        }
        f = f + 1;
    }
    proof {
        assert forall|a: usize, b: usize| #[trigger] graph.has_edge(a, b) <==> reference_edge(analyses, a, b) by {
            if reference_edge(analyses, a, b) {
                let (f2, r2) = choose|f2: int, r2: int|
                    0 <= f2 < analyses.len() && 0 <= r2 < analyses[f2].scoped_references.len()
                        && #[trigger] reference_gives_edge(analyses, f2, r2, a, b);
                assert(earlier_reference_edge(analyses, f as int, 0, a, b));
            }
        }
    }
    let mut k: usize = 0;
    while k < entities.len()
        invariant
            k <= entities@.len(),
            module_count == file_analyses@.len(),
            total == module_count + entities@.len(),
            analyses == analyses_view(file_analyses@),
            labels == node_labels(analyses),
            labels.len() == total,
            all == entity_views(entities@),
            all == all_entities(analyses),
            resolves_scopes(scope_nodes@, labels),
            graph.node_count() == total,
            forall|a: usize, b: usize| #[trigger] graph.has_edge(a, b) <==> (reference_edge(analyses, a, b) || (a < module_count + k
                && containment_edge(analyses, a, b))),
        decreases entities@.len() - k,
    {
        let node = module_count + k;
        let ghost before = graph;
        let ghost scope_name = entities@[k as int].containing_scope@;
        assert(all[k as int].containing_scope == scope_name);
        match scope_nodes.get(entities[k].containing_scope.as_str()) {
            Some(container_ref) => {
                let container = *container_ref;
                proof {
                    lemma_scope_node_bounds(labels, scope_name);
                }
                if container != node {
                    graph.add_link(node, container);
                }
            },
            None => {},
        }
        proof {
            assert forall|a: usize, b: usize| #[trigger] graph.has_edge(a, b) <==> (reference_edge(analyses, a, b) || (a < module_count
                + k + 1 && containment_edge(analyses, a, b))) by {
                if containment_edge(analyses, a, b) && a == node {
                    lemma_scope_node_bounds(labels, scope_name);
                    assert(scope_nodes@.contains_key(scope_name));
                }
            }
        }
        k = k + 1;
    }
    proof {
        assert forall|a: usize, b: usize| #[trigger] graph.has_edge(a, b) implies a < graph.node_count() && b < graph.node_count() by {
            if reference_edge(analyses, a, b) {
                let (f2, r2) = choose|f2: int, r2: int|
                    0 <= f2 < analyses.len() && 0 <= r2 < analyses[f2].scoped_references.len()
                        && #[trigger] reference_gives_edge(analyses, f2, r2, a, b);
                lemma_scope_node_bounds(labels, analyses[f2].scoped_references[r2].0);
            } else {
                lemma_scope_node_bounds(labels, all[a - module_count].containing_scope);
            }
        }
    }
    graph
}


proof fn lemma_all_dynamic_references_step(analyses: Seq<FileAnalysisView>, f: int)
    requires
        0 <= f < analyses.len(),
    ensures
        all_dynamic_references(analyses.subrange(0, f + 1)) == all_dynamic_references(analyses.subrange(0, f))
            + analyses[f].dynamic_references,
{
    assert(analyses.subrange(0, f + 1).drop_last() =~= analyses.subrange(0, f));
}

proof fn lemma_pool_push(names: Seq<Seq<char>>, added: Seq<char>, name: Seq<char>)
    ensures
        in_dynamic_pool(names.push(added), name) <==> (in_dynamic_pool(names, name) || added == name || last_segment(added) == name),
{
    let longer = names.push(added);
    if in_dynamic_pool(names, name) {
        let i = choose|i: int| 0 <= i < names.len() && #[trigger] covers_name(names[i], name);
        assert(longer[i] == names[i]);
        assert(covers_name(longer[i], name));
    }
    if added == name || last_segment(added) == name {
        assert(longer[names.len() as int] == added);
        assert(covers_name(longer[names.len() as int], name));
    }
    if in_dynamic_pool(longer, name) {
        let i = choose|i: int| 0 <= i < longer.len() && #[trigger] covers_name(longer[i], name);
        if i < names.len() {
            assert(names[i] == longer[i]);
            assert(covers_name(names[i], name));
        }
    }
}

/// Adds a dynamic name and its last dotted segment to the pool.
fn add_to_pool(pool: &mut StringHashMap<bool>, name: &String)
    ensures
        forall|key: Seq<char>| #[trigger] final(pool)@.contains_key(key) <==> (old(pool)@.contains_key(key) || key == name@
            || key == last_segment(name@)),
{
    pool.insert(name.clone(), true);
    let segment = last_dotted_segment(name.as_str());
    pool.insert(String::from_str(segment), true);
}

/// Collects the pool of dynamic names: the configured names and the extracted
/// dynamic references, each with its last dotted segment.
fn build_dynamic_pool(file_analyses: &[FileAnalysis], configuration: &AnalyzerConfiguration) -> (pool: StringHashMap<bool>)
    ensures
        forall|name: Seq<char>| #[trigger] pool@.contains_key(name) <==> in_dynamic_pool(
            dynamic_names(analyses_view(file_analyses@), configuration@),
            name,
        ),
{
    let ghost analyses = analyses_view(file_analyses@);
    let mut pool: StringHashMap<bool> = StringHashMap::new();
    let ghost mut seen: Seq<Seq<char>> = Seq::empty();
    let configured = &configuration.extra_dynamic_names;
    let mut i: usize = 0;
    while i < configured.len()
        invariant
            i <= configured@.len(),
            seen == strings_view(configured@).subrange(0, i as int),
            forall|name: Seq<char>| #[trigger] pool@.contains_key(name) <==> in_dynamic_pool(seen, name),
        decreases configured@.len() - i,
    {
        add_to_pool(&mut pool, &configured[i]);
        proof {
            assert forall|name: Seq<char>| #[trigger] pool@.contains_key(name) <==> in_dynamic_pool(seen.push(configured@[i as int]@), name) by {
                lemma_pool_push(seen, configured@[i as int]@, name);
            }
            assert(strings_view(configured@)[i as int] == configured@[i as int]@);
            assert(strings_view(configured@).subrange(0, i + 1) =~= seen.push(configured@[i as int]@));
            seen = seen.push(configured@[i as int]@);
        }
        i = i + 1;
    }
    assert(seen =~= configuration@.extra_dynamic_names + all_dynamic_references(analyses.subrange(0, 0)));
    let mut f: usize = 0;
    while f < file_analyses.len()
        invariant
            f <= file_analyses@.len(),
            analyses == analyses_view(file_analyses@),
            seen == configuration@.extra_dynamic_names + all_dynamic_references(analyses.subrange(0, f as int)),
            forall|name: Seq<char>| #[trigger] pool@.contains_key(name) <==> in_dynamic_pool(seen, name),
        decreases file_analyses@.len() - f,
    {
        let references = &file_analyses[f].dynamic_references;
        let ghost start = seen;
        let mut j: usize = 0;
        while j < references.len()
            invariant
                j <= references@.len(),
                seen == start + strings_view(references@).subrange(0, j as int),
                forall|name: Seq<char>| #[trigger] pool@.contains_key(name) <==> in_dynamic_pool(seen, name),
            decreases references@.len() - j,
        {
            add_to_pool(&mut pool, &references[j]);
            proof {
                assert forall|name: Seq<char>| #[trigger] pool@.contains_key(name) <==> in_dynamic_pool(seen.push(references@[j as int]@), name) by {
                    lemma_pool_push(seen, references@[j as int]@, name);
                }
                assert(strings_view(references@)[j as int] == references@[j as int]@);
                assert(start + strings_view(references@).subrange(0, j + 1) =~= seen.push(references@[j as int]@));
                seen = seen.push(references@[j as int]@);
            }
            j = j + 1;
        }
        proof {
            lemma_all_dynamic_references_step(analyses, f as int);
            assert(analyses[f as int].dynamic_references == strings_view(references@));
            assert(strings_view(references@).subrange(0, references@.len() as int) =~= strings_view(references@));
            assert(seen =~= configuration@.extra_dynamic_names + all_dynamic_references(analyses.subrange(0, f + 1)));
        }
        f = f + 1;
    }
    assert(analyses.subrange(0, file_analyses@.len() as int) =~= analyses);
    pool
}


/// Builds the inheritance graph over entity positions: an edge from each class
/// to each class that names it among its bases.
fn build_inheritance_graph(entities: &Vec<&CodeEntity>, class_index: &StringHashMap<Vec<usize>>) -> (graph: LinkGraph)
    requires
        lists_names(class_index@, entity_views(entities@), 0, true),
    ensures
        graph.node_count() == entities@.len(),
        graph.well_formed(),
        forall|parent: usize, child: usize| #[trigger] graph.has_edge(parent, child) <==> inheritance_edge(entity_views(entities@), parent, child),
{
    let ghost all = entity_views(entities@);
    let mut graph = LinkGraph::with_nodes(entities.len());
    let mut c: usize = 0;
    while c < entities.len()
        invariant
            c <= entities@.len(),
            all == entity_views(entities@),
            lists_names(class_index@, all, 0, true),
            graph.node_count() == entities@.len(),
            forall|p: usize, x: usize| #[trigger] graph.has_edge(p, x) <==> (inheritance_edge(all, p, x) && x < c),
        decreases entities@.len() - c,
    {
        let entity = entities[c];
        assert(all[c as int] == entity@);
        let ghost before = graph;
        if entity.kind == EntityKind::Class {
            let bases = &entity.superclass_names;
            let ghost base_names = strings_view(bases@);
            assert(base_names == all[c as int].superclass_names);
            let mut i: usize = 0;
            while i < bases.len()
                invariant
                    i <= bases@.len(),
                    c < entities@.len(),
                    base_names == strings_view(bases@),
                    all == entity_views(entities@),
                    lists_names(class_index@, all, 0, true),
                    graph.node_count() == entities@.len(),
                    forall|p: usize, x: usize| #[trigger] graph.has_edge(p, x) <==> (before.has_edge(p, x) || (x == c && exists|i2: int|
                        0 <= i2 < i && #[trigger] listed_under(all, 0, true, base_names[i2], p))),
                decreases bases@.len() - i,
            {
                let ghost base = bases@[i as int]@;
                assert(base_names[i as int] == base);
                let ghost before_base = graph;
                match class_index.get(bases[i].as_str()) {
                    Some(parents) => {
                        assert(class_index@.contains_key(base) && *parents == class_index@[base]);
                        let mut j: usize = 0;
                        while j < parents.len()
                            invariant
                                j <= parents@.len(),
                                c < entities@.len(),
                                class_index@.contains_key(base),
                                *parents == class_index@[base],
                                lists_names(class_index@, all, 0, true),
                                all.len() == entities@.len(),
                                graph.node_count() == entities@.len(),
                                forall|p: usize, x: usize| #[trigger] graph.has_edge(p, x) <==> (before_base.has_edge(p, x) || (x == c
                                    && exists|q: int| 0 <= q < j && parents@[q] == p)),
                            decreases parents@.len() - j,
                        {
                            let parent = parents[j];
                            assert(parents@.contains(parent));
                            assert(listed_under(all, 0, true, base, parent));
                            graph.add_link(parent, c);
                            proof {
                                assert forall|p: usize, x: usize| #[trigger] graph.has_edge(p, x) <==> (before_base.has_edge(p, x) || (x
                                    == c && exists|q: int| 0 <= q < j + 1 && parents@[q] == p)) by {
                                    if p == parent && x == c {
                                        assert(parents@[j as int] == p);
                                    }
                                }
                            }
                            j = j + 1;
                        }
                        proof {
                            assert forall|p: usize, x: usize| #[trigger] graph.has_edge(p, x) <==> (before.has_edge(p, x) || (x == c
                                && exists|i2: int| 0 <= i2 < i + 1 && #[trigger] listed_under(all, 0, true, base_names[i2], p))) by {
                                if x == c && graph.has_edge(p, x) && !before_base.has_edge(p, x) {
                                    let q = choose|q: int| 0 <= q < parents@.len() && parents@[q] == p;
                                    assert(parents@.contains(p));
                                    assert(listed_under(all, 0, true, base_names[i as int], p));
                                }
                                if x == c && listed_under(all, 0, true, base_names[i as int], p) {
                                    assert(parents@.contains(p));
                                    let q = choose|q: int| 0 <= q < parents@.len() && parents@[q] == p;
                                }
                            }
                        }
                    },
                    None => {
                        proof {
                            assert forall|p: usize, x: usize| #[trigger] graph.has_edge(p, x) <==> (before.has_edge(p, x) || (x == c
                                && exists|i2: int| 0 <= i2 < i + 1 && #[trigger] listed_under(all, 0, true, base_names[i2], p))) by {
                                if x == c && listed_under(all, 0, true, base_names[i as int], p) {
                                    assert(!class_index@.contains_key(base));
                                }
                            }
                        }
                    },
                }
                i = i + 1;
            }
            proof {
                assert forall|p: usize, x: usize| #[trigger] graph.has_edge(p, x) <==> (inheritance_edge(all, p, x) && x < c + 1) by {
                    if x == c && inheritance_edge(all, p, x) {
                        let i2 = choose|i2: int| 0 <= i2 < base_names.len() && base_names[i2] == all[p as int].simple_name;
                        assert(listed_under(all, 0, true, base_names[i2], p));
                    }
                    if x == c && graph.has_edge(p, x) && !before.has_edge(p, x) {
                        let i2 = choose|i2: int| 0 <= i2 < bases@.len() && #[trigger] listed_under(all, 0, true, base_names[i2], p);
                        assert(base_names[i2] == all[p as int].simple_name);
                        assert(all[c as int].superclass_names.contains(all[p as int].simple_name));
                    }
                }
            }
        }
        c = c + 1;
    }
    graph
}

/// The classes with a framework marker among their base names.
fn framework_root_classes(entities: &Vec<&CodeEntity>, markers: &Vec<String>) -> (roots: Vec<usize>)
    ensures
        forall|i: int| 0 <= i < roots@.len() ==> roots@[i] < entities@.len(),
        forall|class: usize| #[trigger] roots@.contains(class) <==> framework_root(entity_views(entities@), strings_view(markers@), class),
{
    let ghost all = entity_views(entities@);
    let ghost marker_names = strings_view(markers@);
    let mut roots: Vec<usize> = Vec::new();
    let mut c: usize = 0;
    while c < entities.len()
        invariant
            c <= entities@.len(),
            all == entity_views(entities@),
            marker_names == strings_view(markers@),
            forall|i: int| 0 <= i < roots@.len() ==> roots@[i] < c,
            forall|class: usize| #[trigger] roots@.contains(class) <==> (framework_root(all, marker_names, class) && class < c),
        decreases entities@.len() - c,
    {
        let entity = entities[c];
        assert(all[c as int] == entity@);
        let mut is_root = false;
        if entity.kind == EntityKind::Class {
            let bases = &entity.superclass_names;
            let mut i: usize = 0;
            while i < bases.len()
                invariant
                    i <= bases@.len(),
                    strings_view(bases@) == all[c as int].superclass_names,
                    marker_names == strings_view(markers@),
                    is_root == exists|i2: int| 0 <= i2 < i && #[trigger] framework_driven_base(strings_view(bases@)[i2], marker_names),
                decreases bases@.len() - i,
            {
                assert(strings_view(bases@)[i as int] == bases@[i as int]@);
                if is_framework_driven_base(bases[i].as_str(), markers.as_slice()) {
                    is_root = true;
                }
                i = i + 1;
            }
        }
        let ghost before = roots@;
        if is_root {
            roots.push(c);
        }
        proof {
            assert forall|class: usize| #[trigger] roots@.contains(class) <==> (framework_root(all, marker_names, class) && class < c + 1) by {
                if before.contains(class) {
                    let q = choose|q: int| 0 <= q < before.len() && before[q] == class;
                    assert(roots@[q] == class);
                }
                if roots@.contains(class) && class != c {
                    let q = choose|q: int| 0 <= q < roots@.len() && roots@[q] == class;
                    assert(before[q] == class);
                }
                if is_root && class == c {
                    assert(roots@[roots@.len() - 1] == c);
                }
            }
        }
        c = c + 1;
    }
    roots
}

/// The qualified names of the framework-driven classes.
fn framework_driven_scopes(entities: &Vec<&CodeEntity>, markers: &Vec<String>) -> (scopes: StringHashMap<bool>)
    ensures
        forall|name: Seq<char>| #[trigger] scopes@.contains_key(name) <==> exists|class: usize|
            class < entities@.len() && #[trigger] framework_driven_class(entity_views(entities@), strings_view(markers@), class)
                && entity_views(entities@)[class as int].qualified_name == name,
{
    let ghost all = entity_views(entities@);
    let ghost marker_names = strings_view(markers@);
    let entity_count: usize = entities.len();
    let class_index = index_simple_names(entities, 0, true);
    let graph = build_inheritance_graph(entities, &class_index);
    let roots = framework_root_classes(entities, markers);
    let driven = reachable_nodes(&graph, entity_count, &roots);
    proof {
        assert forall|class: usize| class < entities@.len() implies (#[trigger] driven@[class as int] <==> framework_driven_class(
            all,
            marker_names,
            class,
        )) by {
            assert forall|p: usize, x: usize| #[trigger] graph.links()(p, x) == inheritance_links(all)(p, x) by {}
            assert forall|r: usize| #[trigger] root_set(roots@)(r) == framework_roots(all, marker_names)(r) by {}
            lemma_reachable_same_relation(
                graph.links(),
                inheritance_links(all),
                root_set(roots@),
                framework_roots(all, marker_names),
                class,
            );
        }
    }
    let mut scopes: StringHashMap<bool> = StringHashMap::new();
    let mut c: usize = 0;
    while c < entities.len()
        invariant
            c <= entities@.len(),
            driven@.len() == entities@.len(),
            all == entity_views(entities@),
            marker_names == strings_view(markers@),
            forall|class: usize| class < entities@.len() ==> (#[trigger] driven@[class as int] <==> framework_driven_class(all, marker_names, class)),
            forall|name: Seq<char>| #[trigger] scopes@.contains_key(name) <==> exists|class: usize|
                class < c && #[trigger] framework_driven_class(all, marker_names, class) && all[class as int].qualified_name == name,
        decreases entities@.len() - c,
    {
        assert(all[c as int] == entities@[c as int]@);
        let ghost before = scopes@;
        if driven[c] {
            scopes.insert(entities[c].qualified_name.clone(), true);
        }
        proof {
            assert(driven@[c as int] == framework_driven_class(all, marker_names, c));
            assert forall|name: Seq<char>| #[trigger] scopes@.contains_key(name) <==> exists|class: usize|
                class < c + 1 && #[trigger] framework_driven_class(all, marker_names, class) && all[class as int].qualified_name == name by {
                if before.contains_key(name) {
                    let class = choose|class: usize|
                        class < c && #[trigger] framework_driven_class(all, marker_names, class) && all[class as int].qualified_name == name;
                    assert(class < c + 1);
                }
                if exists|class: usize|
                    class < c + 1 && #[trigger] framework_driven_class(all, marker_names, class) && all[class as int].qualified_name == name {
                    let class = choose|class: usize|
                        class < c + 1 && #[trigger] framework_driven_class(all, marker_names, class) && all[class as int].qualified_name == name;
                    if class < c {
                        assert(before.contains_key(name));
                    }
                }
            }
        }
        c = c + 1;
    }
    scopes
}


/// Lists the roots of the dependency graph.
fn dependency_roots_of(
    file_analyses: &[FileAnalysis],
    configuration: &AnalyzerConfiguration,
    entities: &Vec<&CodeEntity>,
    scope_nodes: &StringHashMap<usize>,
    pool: &StringHashMap<bool>,
    driven_scopes: &StringHashMap<bool>,
) -> (roots: Vec<usize>)
    requires
        entity_views(entities@) == all_entities(analyses_view(file_analyses@)),
        file_analyses@.len() + entities@.len() <= usize::MAX,
        resolves_scopes(scope_nodes@, node_labels(analyses_view(file_analyses@))),
        forall|name: Seq<char>| #[trigger] pool@.contains_key(name) <==> in_dynamic_pool(
            dynamic_names(analyses_view(file_analyses@), configuration@),
            name,
        ),
        forall|name: Seq<char>| #[trigger] driven_scopes@.contains_key(name) <==> exists|class: usize|
            class < entities@.len() && #[trigger] framework_driven_class(
                entity_views(entities@),
                configuration@.extra_framework_base_markers,
                class,
            ) && entity_views(entities@)[class as int].qualified_name == name,
    ensures
        forall|i: int| 0 <= i < roots@.len() ==> roots@[i] < file_analyses@.len() + entities@.len(),
        forall|node: usize| #[trigger] roots@.contains(node) <==> dependency_root(analyses_view(file_analyses@), configuration@, node),
{
    let ghost analyses = analyses_view(file_analyses@);
    let ghost labels = node_labels(analyses);
    let ghost all = entity_views(entities@);
    let module_count = file_analyses.len();
    let total = module_count + entities.len();
    assert(labels.len() == total);
    let mut roots: Vec<usize> = Vec::new();
    let mut f: usize = 0;
    while f < module_count
        invariant
            f <= module_count,
            module_count == file_analyses@.len(),
            total == module_count + entities@.len(),
            analyses == analyses_view(file_analyses@),
            labels == node_labels(analyses),
            labels.len() == total,
            resolves_scopes(scope_nodes@, labels),
            forall|i: int| 0 <= i < roots@.len() ==> roots@[i] < total,
            forall|node: usize| #[trigger] roots@.contains(node) <==> exists|f2: int|
                0 <= f2 < f && node as int == #[trigger] scope_node(labels, analyses[f2].module_name),
        decreases module_count - f,
    {
        let ghost name = file_analyses@[f as int].module_name@;
        assert(analyses[f as int].module_name == name);
        assert(labels[f as int] == name);
        proof {
            lemma_scope_node_bounds(labels, name);
            assert(labels.contains(name));
        }
        let ghost before = roots@;
        match scope_nodes.get(file_analyses[f].module_name.as_str()) {
            Some(node_ref) => {
                roots.push(*node_ref);
            },
            None => {
                assert(false);
            },
        }
        proof {
            assert forall|node: usize| #[trigger] roots@.contains(node) <==> exists|f2: int|
                0 <= f2 < f + 1 && node as int == #[trigger] scope_node(labels, analyses[f2].module_name) by {
                if before.contains(node) {
                    let q = choose|q: int| 0 <= q < before.len() && before[q] == node;
                    assert(roots@[q] == node);
                }
                if roots@.contains(node) && !before.contains(node) {
                    let q = choose|q: int| 0 <= q < roots@.len() && roots@[q] == node;
                    if q < before.len() {
                        assert(before[q] == node);
                    }
                    assert(scope_node(labels, analyses[f as int].module_name) == node as int);
                }
                if exists|f2: int| 0 <= f2 < f + 1 && node as int == #[trigger] scope_node(labels, analyses[f2].module_name) {
                    let f2 = choose|f2: int| 0 <= f2 < f + 1 && node as int == #[trigger] scope_node(labels, analyses[f2].module_name);
                    if f2 == f {
                        assert(roots@[roots@.len() - 1] == node);
                    } else {
                        assert(before.contains(node));
                        let q = choose|q: int| 0 <= q < before.len() && before[q] == node;
                        assert(roots@[q] == node);
                    }
                }
            }
        }
        f = f + 1;
    }
    let ghost markers = configuration@.extra_framework_base_markers;
    let mut k: usize = 0;
    while k < entities.len()
        invariant
            k <= entities@.len(),
            module_count == file_analyses@.len(),
            total == module_count + entities@.len(),
            analyses == analyses_view(file_analyses@),
            labels == node_labels(analyses),
            all == entity_views(entities@),
            all == all_entities(analyses),
            markers == configuration@.extra_framework_base_markers,
            forall|name: Seq<char>| #[trigger] pool@.contains_key(name) <==> in_dynamic_pool(dynamic_names(analyses, configuration@), name),
            forall|name: Seq<char>| #[trigger] driven_scopes@.contains_key(name) <==> exists|class: usize|
                class < entities@.len() && #[trigger] framework_driven_class(all, markers, class) && all[class as int].qualified_name
                    == name,
            forall|i: int| 0 <= i < roots@.len() ==> roots@[i] < total,
            forall|node: usize| #[trigger] roots@.contains(node) <==> ((exists|f2: int|
                0 <= f2 < module_count && node as int == #[trigger] scope_node(labels, analyses[f2].module_name)) || (module_count
                <= node < module_count + k && entity_root(analyses, configuration@, node - module_count))),
        decreases entities@.len() - k,
    {
        let entity = entities[k];
        assert(all[k as int] == entity@);
        let is_root = entity.is_entry_point || pool.contains_key(entity.simple_name.as_str()) || (entity.kind == EntityKind::Method
            && driven_scopes.contains_key(entity.containing_scope.as_str()));
        proof {
            assert(is_root == entity_root(analyses, configuration@, k as int));
        }
        let ghost before = roots@;
        let node = module_count + k;
        if is_root {
            roots.push(node);
        }
        proof {
            assert forall|x: usize| #[trigger] roots@.contains(x) <==> ((exists|f2: int|
                0 <= f2 < module_count && x as int == #[trigger] scope_node(labels, analyses[f2].module_name)) || (module_count <= x
                < module_count + k + 1 && entity_root(analyses, configuration@, x - module_count))) by {
                if before.contains(x) {
                    let q = choose|q: int| 0 <= q < before.len() && before[q] == x;
                    assert(roots@[q] == x);
                }
                if roots@.contains(x) && x != node {
                    let q = choose|q: int| 0 <= q < roots@.len() && roots@[q] == x;
                    assert(before[q] == x);
                }
                if is_root && x == node {
                    assert(roots@[roots@.len() - 1] == node);
                }
            }
        }
        k = k + 1;
    }
    roots
}

/// Finds the entities that no root reaches, ordered by file path, line and
/// qualified name.
pub fn find_unreachable_entities<'a>(file_analyses: &'a [FileAnalysis], configuration: &AnalyzerConfiguration) -> (unreachable: Vec<
    &'a CodeEntity,
>)
    requires
        file_analyses@.len() + total_entity_count(file_analyses@) <= usize::MAX,
    ensures
        sorted_by_location(unreachable@),
        entity_views(unreachable@).to_multiset() == unreachable_entities(analyses_view(file_analyses@), configuration@).to_multiset(),
{
    let ghost analyses = analyses_view(file_analyses@);
    let entities = collect_entities(file_analyses);
    let module_count = file_analyses.len();
    let scope_nodes = build_scope_nodes(file_analyses, &entities);
    let name_index = index_simple_names(&entities, module_count, false);
    let graph = build_dependency_graph(file_analyses, &entities, &scope_nodes, &name_index);
    let pool = build_dynamic_pool(file_analyses, configuration);
    let driven_scopes = framework_driven_scopes(&entities, &configuration.extra_framework_base_markers);
    assert(configuration@.extra_framework_base_markers == strings_view(configuration.extra_framework_base_markers@));
    let roots = dependency_roots_of(file_analyses, configuration, &entities, &scope_nodes, &pool, &driven_scopes);
    let total = module_count + entities.len();
    let reached = reachable_nodes(&graph, total, &roots);
    proof {
        assert forall|node: usize| node < total implies (#[trigger] reached@[node as int] <==> reachable(
            dependency_links(analyses),
            dependency_roots(analyses, configuration@),
            node,
        )) by {
            assert forall|a: usize, b: usize| #[trigger] graph.links()(a, b) == dependency_links(analyses)(a, b) by {}
            assert forall|r: usize| #[trigger] root_set(roots@)(r) == dependency_roots(analyses, configuration@)(r) by {}
            lemma_reachable_same_relation(
                graph.links(),
                dependency_links(analyses),
                root_set(roots@),
                dependency_roots(analyses, configuration@),
                node,
            );
        }
    }
    let mut unreachable: Vec<&'a CodeEntity> = Vec::new();
    let mut k: usize = 0;
    while k < entities.len()
        invariant
            k <= entities@.len(),
            module_count == file_analyses@.len(),
            total == module_count + entities@.len(),
            reached@.len() == total,
            analyses == analyses_view(file_analyses@),
            entity_views(entities@) == all_entities(analyses),
            forall|node: usize| node < total ==> (#[trigger] reached@[node as int] <==> reachable(
                dependency_links(analyses),
                dependency_roots(analyses, configuration@),
                node,
            )),
            entity_views(unreachable@) == unreachable_prefix(analyses, configuration@, k as int),
        decreases entities@.len() - k,
    {
        let ghost before = unreachable@;
        let node = module_count + k;
        assert(reached@[node as int] == entity_reachable(analyses, configuration@, k as int));
        if !reached[node] {
            unreachable.push(entities[k]);
            assert(entity_views(entities@)[k as int] == entities@[k as int]@);
            assert(entity_views(unreachable@) =~= entity_views(before).push(entities@[k as int]@));
        }
        k = k + 1;
    }
    let sorted = sort_by_location(unreachable);
    proof {
        lemma_map_values_same_multiset(sorted@, unreachable@, |entity: &CodeEntity| entity@);
        assert(entity_views(sorted@) =~= sorted@.map_values(|entity: &CodeEntity| entity@));
        assert(entity_views(unreachable@) =~= unreachable@.map_values(|entity: &CodeEntity| entity@));
    }
    sorted
}


/// An entry point is never reported: it is reached.
pub proof fn lemma_entry_points_are_reached(analyses: Seq<FileAnalysisView>, configuration: ConfigurationView, k: int)
    requires
        0 <= k < all_entities(analyses).len(),
        analyses.len() + all_entities(analyses).len() <= usize::MAX,
        all_entities(analyses)[k].is_entry_point,
    ensures
        entity_reachable(analyses, configuration, k),
{
    let node = (analyses.len() + k) as usize;
    assert(dependency_roots(analyses, configuration)(node));
    crate::graph::lemma_root_reachable(dependency_links(analyses), dependency_roots(analyses, configuration), node);
}

/// An entity whose simple name is in the pool of dynamic names (a configured
/// or extracted dynamic string, or its last dotted segment) is reached.
pub proof fn lemma_dynamic_names_are_reached(analyses: Seq<FileAnalysisView>, configuration: ConfigurationView, k: int)
    requires
        0 <= k < all_entities(analyses).len(),
        analyses.len() + all_entities(analyses).len() <= usize::MAX,
        in_dynamic_pool(dynamic_names(analyses, configuration), all_entities(analyses)[k].simple_name),
    ensures
        entity_reachable(analyses, configuration, k),
{
    let node = (analyses.len() + k) as usize;
    assert(dependency_roots(analyses, configuration)(node));
    crate::graph::lemma_root_reachable(dependency_links(analyses), dependency_roots(analyses, configuration), node);
}

/// A method of a framework-driven class is reached.
pub proof fn lemma_framework_methods_are_reached(analyses: Seq<FileAnalysisView>, configuration: ConfigurationView, k: int)
    requires
        0 <= k < all_entities(analyses).len(),
        analyses.len() + all_entities(analyses).len() <= usize::MAX,
        framework_driven_method(all_entities(analyses), configuration.extra_framework_base_markers, k),
    ensures
        entity_reachable(analyses, configuration, k),
{
    let node = (analyses.len() + k) as usize;
    assert(dependency_roots(analyses, configuration)(node));
    crate::graph::lemma_root_reachable(dependency_links(analyses), dependency_roots(analyses, configuration), node);
}

/// Being framework-driven spreads along the class hierarchy of the project: a
/// class that names a framework-driven class among its bases is framework-driven.
pub proof fn lemma_framework_driven_spreads_to_subclasses(
    entities: Seq<CodeEntityView>,
    markers: Seq<Seq<char>>,
    parent: usize,
    child: usize,
)
    requires
        framework_driven_class(entities, markers, parent),
        inheritance_edge(entities, parent, child),
    ensures
        framework_driven_class(entities, markers, child),
{
    assert(inheritance_links(entities)(parent, child));
    crate::graph::lemma_reachable_step(inheritance_links(entities), framework_roots(entities, markers), parent, child);
}

/// A name used in a reached scope keeps alive every entity with that simple
/// name (other than the scope itself).
pub proof fn lemma_references_from_reached_scopes_are_reached(
    analyses: Seq<FileAnalysisView>,
    configuration: ConfigurationView,
    f: int,
    r: int,
    k: int,
)
    requires
        0 <= f < analyses.len(),
        0 <= r < analyses[f].scoped_references.len(),
        0 <= k < all_entities(analyses).len(),
        analyses.len() + all_entities(analyses).len() <= usize::MAX,
        scope_node(node_labels(analyses), analyses[f].scoped_references[r].0) >= 0,
        reachable(
            dependency_links(analyses),
            dependency_roots(analyses, configuration),
            scope_node(node_labels(analyses), analyses[f].scoped_references[r].0) as usize,
        ),
        all_entities(analyses)[k].simple_name == analyses[f].scoped_references[r].1,
        scope_node(node_labels(analyses), analyses[f].scoped_references[r].0) != analyses.len() + k,
    ensures
        entity_reachable(analyses, configuration, k),
{
    let labels = node_labels(analyses);
    let source = scope_node(labels, analyses[f].scoped_references[r].0) as usize;
    let target = (analyses.len() + k) as usize;
    lemma_scope_node_bounds(labels, analyses[f].scoped_references[r].0);
    assert(reference_gives_edge(analyses, f, r, source, target));
    assert(dependency_links(analyses)(source, target));
    crate::graph::lemma_reachable_step(dependency_links(analyses), dependency_roots(analyses, configuration), source, target);
}

/// A name used at the top level of a module keeps alive every entity with that
/// simple name: modules are roots.
pub proof fn lemma_module_level_references_are_reached(
    analyses: Seq<FileAnalysisView>,
    configuration: ConfigurationView,
    f: int,
    r: int,
    k: int,
)
    requires
        0 <= f < analyses.len(),
        0 <= r < analyses[f].scoped_references.len(),
        0 <= k < all_entities(analyses).len(),
        analyses.len() + all_entities(analyses).len() <= usize::MAX,
        analyses[f].scoped_references[r].0 == analyses[f].module_name,
        all_entities(analyses)[k].simple_name == analyses[f].scoped_references[r].1,
        scope_node(node_labels(analyses), analyses[f].module_name) != analyses.len() + k,
    ensures
        entity_reachable(analyses, configuration, k),
{
    let labels = node_labels(analyses);
    let name = analyses[f].module_name;
    assert(labels[f] == name);
    lemma_scope_node_bounds(labels, name);
    let module_node = scope_node(labels, name) as usize;
    assert(dependency_roots(analyses, configuration)(module_node));
    crate::graph::lemma_root_reachable(dependency_links(analyses), dependency_roots(analyses, configuration), module_node);
    lemma_references_from_reached_scopes_are_reached(analyses, configuration, f, r, k);
}

/// A reached entity keeps its containing class alive: a class body runs when
/// its module is imported, and an entity resolves its containing scope to the
/// last node of that name.
pub proof fn lemma_members_keep_containers_reached(
    analyses: Seq<FileAnalysisView>,
    configuration: ConfigurationView,
    member: int,
    container: int,
)
    requires
        0 <= member < all_entities(analyses).len(),
        0 <= container < all_entities(analyses).len(),
        analyses.len() + all_entities(analyses).len() <= usize::MAX,
        entity_reachable(analyses, configuration, member),
        scope_node(node_labels(analyses), all_entities(analyses)[member].containing_scope) == analyses.len() + container,
        member != container,
    ensures
        entity_reachable(analyses, configuration, container),
{
    let source = (analyses.len() + member) as usize;
    let target = (analyses.len() + container) as usize;
    assert(containment_edge(analyses, source, target));
    assert(dependency_links(analyses)(source, target));
    crate::graph::lemma_reachable_step(dependency_links(analyses), dependency_roots(analyses, configuration), source, target);
}


/// Whether two sequences of analyses describe the same files with the same
/// entities and references, the second marking at least the entry points of
/// the first.
pub open spec fn analyses_included(smaller: Seq<FileAnalysisView>, larger: Seq<FileAnalysisView>) -> bool {
    &&& smaller.len() == larger.len()
    &&& forall|f: int|
        0 <= f < smaller.len() ==> {
            &&& (#[trigger] smaller[f]).module_name == larger[f].module_name
            &&& smaller[f].entities.len() == larger[f].entities.len()
            &&& forall|i: int|
                0 <= i < smaller[f].entities.len() ==> entity_included(#[trigger] smaller[f].entities[i], larger[f].entities[i])
            &&& smaller[f].scoped_references == larger[f].scoped_references
            &&& smaller[f].dynamic_references == larger[f].dynamic_references
        }
}

proof fn lemma_analyses_included_prefix(smaller: Seq<FileAnalysisView>, larger: Seq<FileAnalysisView>)
    requires
        analyses_included(smaller, larger),
        smaller.len() > 0,
    ensures
        analyses_included(smaller.drop_last(), larger.drop_last()),
{
    assert forall|f: int| 0 <= f < smaller.drop_last().len() implies {
        &&& (#[trigger] smaller.drop_last()[f]).module_name == larger.drop_last()[f].module_name
        &&& smaller.drop_last()[f].entities.len() == larger.drop_last()[f].entities.len()
        &&& forall|i: int|
            0 <= i < smaller.drop_last()[f].entities.len() ==> entity_included(
                #[trigger] smaller.drop_last()[f].entities[i],
                larger.drop_last()[f].entities[i],
            )
        &&& smaller.drop_last()[f].scoped_references == larger.drop_last()[f].scoped_references
        &&& smaller.drop_last()[f].dynamic_references == larger.drop_last()[f].dynamic_references
    } by {
        assert(smaller.drop_last()[f] == smaller[f]);
        assert(larger.drop_last()[f] == larger[f]);
    }
}

/// The entities of included analyses agree one by one, and so do the dynamic references.
proof fn lemma_included_entities(smaller: Seq<FileAnalysisView>, larger: Seq<FileAnalysisView>)
    requires
        analyses_included(smaller, larger),
    ensures
        all_entities(smaller).len() == all_entities(larger).len(),
        forall|i: int|
            0 <= i < all_entities(smaller).len() ==> entity_included(#[trigger] all_entities(smaller)[i], all_entities(larger)[i]),
        all_dynamic_references(smaller) == all_dynamic_references(larger),
    decreases smaller.len(),
{
    if smaller.len() > 0 {
        lemma_analyses_included_prefix(smaller, larger);
        lemma_included_entities(smaller.drop_last(), larger.drop_last());
        let f = smaller.len() - 1;
        assert(smaller.last() == smaller[f]);
        assert(larger.last() == larger[f]);
        let e1 = all_entities(smaller.drop_last());
        let e2 = all_entities(larger.drop_last());
        assert forall|i: int| 0 <= i < all_entities(smaller).len() implies entity_included(
            #[trigger] all_entities(smaller)[i],
            all_entities(larger)[i],
        ) by {
            if i < e1.len() {
                assert(entity_included(e1[i], e2[i]));
            } else {
                assert(entity_included(smaller[f].entities[i - e1.len()], larger[f].entities[i - e1.len()]));
            }
        }
    }
}

/// With analyses that agree but for more entry points, and a configuration with
/// at least the dynamic names and the framework base markers of another, at
/// least the same entities are reached: findings can only go away.
pub proof fn lemma_larger_configuration_reaches_more(
    analyses: Seq<FileAnalysisView>,
    larger_analyses: Seq<FileAnalysisView>,
    configuration: ConfigurationView,
    larger: ConfigurationView,
    k: int,
)
    requires
        analyses_included(analyses, larger_analyses),
        names_included(configuration.extra_dynamic_names, larger.extra_dynamic_names),
        names_included(configuration.extra_framework_base_markers, larger.extra_framework_base_markers),
        entity_reachable(analyses, configuration, k),
    ensures
        entity_reachable(larger_analyses, larger, k),
{
    lemma_included_entities(analyses, larger_analyses);
    let entities = all_entities(analyses);
    let more_entities = all_entities(larger_analyses);
    let m = analyses.len();
    let markers = configuration.extra_framework_base_markers;
    let more_markers = larger.extra_framework_base_markers;
    assert(node_labels(analyses) =~= node_labels(larger_analyses)) by {
        assert forall|i: int| 0 <= i < node_labels(analyses).len() implies node_labels(analyses)[i]
            == node_labels(larger_analyses)[i] by {
            if i < m {
                assert(analyses[i].module_name == larger_analyses[i].module_name);
            } else {
                assert(entity_included(entities[i - m], more_entities[i - m]));
            }
        }
    }
    let labels = node_labels(analyses);
    assert forall|a: usize, b: usize| #[trigger] dependency_links(analyses)(a, b) == dependency_links(larger_analyses)(a, b) by {
        if reference_edge(analyses, a, b) {
            let (f, r) = choose|f: int, r: int|
                0 <= f < analyses.len() && 0 <= r < analyses[f].scoped_references.len()
                    && #[trigger] reference_gives_edge(analyses, f, r, a, b);
            assert(entity_included(entities[b - m], more_entities[b - m]));
            assert(reference_gives_edge(larger_analyses, f, r, a, b));
        }
        if reference_edge(larger_analyses, a, b) {
            let (f, r) = choose|f: int, r: int|
                0 <= f < larger_analyses.len() && 0 <= r < larger_analyses[f].scoped_references.len()
                    && #[trigger] reference_gives_edge(larger_analyses, f, r, a, b);
            assert(entity_included(entities[b - m], more_entities[b - m]));
            assert(reference_gives_edge(analyses, f, r, a, b));
        }
        if m <= a < m + entities.len() {
            assert(entity_included(entities[a - m], more_entities[a - m]));
        }
    }
    assert forall|p: usize, c: usize| #[trigger] inheritance_links(entities)(p, c) == inheritance_links(more_entities)(p, c) by {
        if p < entities.len() && c < entities.len() {
            assert(entity_included(entities[p as int], more_entities[p as int]));
            assert(entity_included(entities[c as int], more_entities[c as int]));
        }
    }
    assert forall|class: usize| #[trigger] framework_roots(entities, markers)(class) implies framework_roots(
        more_entities,
        more_markers,
    )(class) by {
        assert(entity_included(entities[class as int], more_entities[class as int]));
        let i = choose|i: int|
            0 <= i < entities[class as int].superclass_names.len() && #[trigger] framework_driven_base(
                entities[class as int].superclass_names[i],
                markers,
            );
        lemma_framework_base_monotone(entities[class as int].superclass_names[i], markers, more_markers);
    }
    assert forall|class: usize| #[trigger] framework_driven_class(entities, markers, class) implies framework_driven_class(
        more_entities,
        more_markers,
        class,
    ) by {
        crate::graph::lemma_reachable_more_roots(
            inheritance_links(entities),
            framework_roots(entities, markers),
            framework_roots(more_entities, more_markers),
            class,
        );
        lemma_reachable_same_relation(
            inheritance_links(entities),
            inheritance_links(more_entities),
            framework_roots(more_entities, more_markers),
            framework_roots(more_entities, more_markers),
            class,
        );
    }
    assert forall|node: usize| #[trigger] dependency_roots(analyses, configuration)(node) implies dependency_roots(
        larger_analyses,
        larger,
    )(node) by {
        if exists|f: int| 0 <= f < analyses.len() && node as int == #[trigger] scope_node(labels, analyses[f].module_name) {
            let f = choose|f: int| 0 <= f < analyses.len() && node as int == #[trigger] scope_node(labels, analyses[f].module_name);
            assert(analyses[f].module_name == larger_analyses[f].module_name);
            assert(node as int == scope_node(node_labels(larger_analyses), larger_analyses[f].module_name));
        } else {
            let e = node - m;
            assert(entity_included(entities[e], more_entities[e]));
            if in_dynamic_pool(dynamic_names(analyses, configuration), entities[e].simple_name) {
                let names = dynamic_names(analyses, configuration);
                let more_names = dynamic_names(larger_analyses, larger);
                let i = choose|i: int| 0 <= i < names.len() && #[trigger] covers_name(names[i], entities[e].simple_name);
                if i < configuration.extra_dynamic_names.len() {
                    assert(larger.extra_dynamic_names.contains(configuration.extra_dynamic_names[i]));
                    let j = choose|j: int|
                        0 <= j < larger.extra_dynamic_names.len() && larger.extra_dynamic_names[j]
                            == configuration.extra_dynamic_names[i];
                    assert(more_names[j] == names[i]);
                    assert(covers_name(more_names[j], more_entities[e].simple_name));
                } else {
                    let j = i - configuration.extra_dynamic_names.len() + larger.extra_dynamic_names.len();
                    assert(more_names[j] == names[i]);
                    assert(covers_name(more_names[j], more_entities[e].simple_name));
                }
            }
            if framework_driven_method(entities, markers, e) {
                let class = choose|class: usize|
                    class < entities.len() && #[trigger] framework_driven_class(entities, markers, class)
                        && entities[class as int].qualified_name == entities[e].containing_scope;
                assert(entity_included(entities[class as int], more_entities[class as int]));
                assert(framework_driven_class(more_entities, more_markers, class));
            }
        }
    }
    let node = (m + k) as usize;
    lemma_reachable_more_roots(
        dependency_links(analyses),
        dependency_roots(analyses, configuration),
        dependency_roots(larger_analyses, larger),
        node,
    );
    lemma_reachable_same_relation(
        dependency_links(analyses),
        dependency_links(larger_analyses),
        dependency_roots(larger_analyses, larger),
        dependency_roots(larger_analyses, larger),
        node,
    );
}

/// The analyses of a project's files under a configuration: file `i` has
/// syntax tree `trees[i]`, module path `modules[i]` and path `paths[i]`.
pub open spec fn project_analyses(
    trees: Seq<SyntaxNode>,
    modules: Seq<Seq<char>>,
    paths: Seq<Seq<char>>,
    configuration: ConfigurationView,
) -> Seq<FileAnalysisView> {
    Seq::new(trees.len(), |i: int| analysis_of(trees[i], extraction_context(modules[i], paths[i], configuration)))
}

/// A configuration with at least the entry-point decorators, dynamic names and
/// framework base markers of another finds the same entities in the same
/// order and reaches at least those the other reaches: it can only remove
/// findings.
pub proof fn lemma_larger_configuration_finds_less(
    trees: Seq<SyntaxNode>,
    modules: Seq<Seq<char>>,
    paths: Seq<Seq<char>>,
    configuration: ConfigurationView,
    larger: ConfigurationView,
    k: int,
)
    requires
        modules.len() == trees.len(),
        paths.len() == trees.len(),
        names_included(configuration.extra_entry_point_decorators, larger.extra_entry_point_decorators),
        names_included(configuration.extra_dynamic_names, larger.extra_dynamic_names),
        names_included(configuration.extra_framework_base_markers, larger.extra_framework_base_markers),
    ensures
        all_entities(project_analyses(trees, modules, paths, configuration)).len() == all_entities(
            project_analyses(trees, modules, paths, larger),
        ).len(),
        0 <= k < all_entities(project_analyses(trees, modules, paths, configuration)).len() ==> all_entities(
            project_analyses(trees, modules, paths, configuration),
        )[k].qualified_name == all_entities(project_analyses(trees, modules, paths, larger))[k].qualified_name,
        entity_reachable(project_analyses(trees, modules, paths, configuration), configuration, k) ==> entity_reachable(
            project_analyses(trees, modules, paths, larger),
            larger,
            k,
        ),
{
    let a1 = project_analyses(trees, modules, paths, configuration);
    let a2 = project_analyses(trees, modules, paths, larger);
    assert forall|f: int| 0 <= f < a1.len() implies {
        &&& (#[trigger] a1[f]).module_name == a2[f].module_name
        &&& a1[f].entities.len() == a2[f].entities.len()
        &&& forall|i: int| 0 <= i < a1[f].entities.len() ==> entity_included(#[trigger] a1[f].entities[i], a2[f].entities[i])
        &&& a1[f].scoped_references == a2[f].scoped_references
        &&& a1[f].dynamic_references == a2[f].dynamic_references
    } by {
        lemma_larger_context_extracts_more_entry_points(
            trees[f],
            extraction_context(modules[f], paths[f], configuration),
            extraction_context(modules[f], paths[f], larger),
        );
    }
    lemma_included_entities(a1, a2);
    if entity_reachable(a1, configuration, k) {
        lemma_larger_configuration_reaches_more(a1, a2, configuration, larger, k);
    }
}

} // verus!
