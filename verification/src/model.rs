//! Domain types of the analyzer: code entities, references and reports.

use vstd::prelude::*;

use crate::order::{
    lemma_components_le_antisymmetric, lemma_components_le_total, lemma_components_le_transitive,
    lemma_text_le_total, lemma_text_le_transitive, path_le, path_le_exec, same_path_exec, text_le,
    text_le_exec,
};
use crate::paths::path_components;
use crate::sorting::{reversed, LocationOrdered};
use crate::text::{chars_of, strings_view};

verus! {

/// The kind of an extracted code entity.
#[derive(Debug, Clone, Copy, PartialEq, Eq, Structural)]
pub enum EntityKind {
    /// A module-level function.
    Function,
    /// A class.
    Class,
    /// A method of a class.
    Method,
    /// A module-level variable.
    Variable,
}

/// The localized name of an entity kind, as printed in text reports.
pub open spec fn kind_label(kind: EntityKind) -> Seq<char> {
    match kind {
        EntityKind::Function => "функция"@,
        EntityKind::Class => "класс"@,
        EntityKind::Method => "метод"@,
        EntityKind::Variable => "переменная"@,
    }
}

impl EntityKind {
    /// Returns the localized name of the entity kind for text reports.
    pub fn label(&self) -> (label: &'static str)
        ensures
            label@ == kind_label(*self),
    {
        match self {
            EntityKind::Function => "функция",
            EntityKind::Class => "класс",
            EntityKind::Method => "метод",
            EntityKind::Variable => "переменная",
        }
    }
}

/// A code entity extracted from source code.
#[derive(Debug)]
pub struct CodeEntity {
    /// The simple name of the entity.
    pub simple_name: String,
    /// The full dotted name of the entity.
    pub qualified_name: String,
    /// The full dotted name of the scope that contains the entity.
    pub containing_scope: String,
    /// The kind of the entity.
    pub kind: EntityKind,
    /// The path of the file with the definition.
    pub file_path: String,
    /// The line of the definition (one-based).
    pub line_number: usize,
    /// Whether the entity is a root of the reachability analysis.
    pub is_entry_point: bool,
    /// The simple names of the base classes: filled for classes only.
    pub superclass_names: Vec<String>,
}

/// The abstract value of a code entity.
pub struct CodeEntityView {
    pub simple_name: Seq<char>,
    pub qualified_name: Seq<char>,
    pub containing_scope: Seq<char>,
    pub kind: EntityKind,
    pub file_path: Seq<char>,
    pub line_number: int,
    pub is_entry_point: bool,
    pub superclass_names: Seq<Seq<char>>,
}

impl View for CodeEntity {
    type V = CodeEntityView;

    open spec fn view(&self) -> CodeEntityView {
        CodeEntityView {
            simple_name: self.simple_name@,
            qualified_name: self.qualified_name@,
            containing_scope: self.containing_scope@,
            kind: self.kind,
            file_path: self.file_path@,
            line_number: self.line_number as int,
            is_entry_point: self.is_entry_point,
            superclass_names: strings_view(self.superclass_names@),
        }
    }
}

/// Whether entity `x` may be reported before `y`: by file path, then by line,
/// then by qualified name.
pub open spec fn entity_goes_before(x: CodeEntityView, y: CodeEntityView) -> bool {
    if path_components(x.file_path) != path_components(y.file_path) {
        path_le(x.file_path, y.file_path)
    } else if x.line_number != y.line_number {
        x.line_number < y.line_number
    } else {
        text_le(x.qualified_name, y.qualified_name)
    }
}

impl<'a> LocationOrdered for &'a CodeEntity {
    open spec fn goes_before(self, other: Self) -> bool {
        entity_goes_before(self@, other@)
    }

    proof fn lemma_goes_before_total(a: Self, b: Self) {
        lemma_components_le_total(path_components(a@.file_path), path_components(b@.file_path));
        lemma_text_le_total(a@.qualified_name, b@.qualified_name);
    }

    proof fn lemma_goes_before_transitive(a: Self, b: Self, c: Self) {
        let (pa, pb, pc) = (
            path_components(a@.file_path),
            path_components(b@.file_path),
            path_components(c@.file_path),
        );
        if pa != pb && pb != pc {
            lemma_components_le_transitive(pa, pb, pc);
            if pa == pc {
                lemma_components_le_antisymmetric(pa, pb);
            }
        }
        if pa == pb && pb == pc && a@.line_number == b@.line_number && b@.line_number == c@.line_number {
            lemma_text_le_transitive(a@.qualified_name, b@.qualified_name, c@.qualified_name);
        }
    }

    fn goes_before_exec(&self, other: &Self) -> (before: bool) {
        if !same_path_exec(self.file_path.as_str(), other.file_path.as_str()) {
            path_le_exec(self.file_path.as_str(), other.file_path.as_str())
        } else if self.line_number != other.line_number {
            self.line_number < other.line_number
        } else {
            text_le_exec(chars_of(self.qualified_name.as_str()).as_slice(), chars_of(other.qualified_name.as_str()).as_slice())
        }
    }
}

/// A reference to a name from a particular scope.
#[derive(Debug)]
pub struct ScopedReference {
    /// The full dotted name of the scope holding the reference.
    pub scope_qualified_name: String,
    /// The simple name that is referenced.
    pub referenced_name: String,
}

impl View for ScopedReference {
    type V = (Seq<char>, Seq<char>);

    open spec fn view(&self) -> (Seq<char>, Seq<char>) {
        (self.scope_qualified_name@, self.referenced_name@)
    }
}

/// The result of analysing one Python file.
#[derive(Debug)]
pub struct FileAnalysis {
    /// The dotted path of the module.
    pub module_name: String,
    /// The extracted entities.
    pub entities: Vec<CodeEntity>,
    /// The distinct name references, each bound to its scope.
    pub scoped_references: Vec<ScopedReference>,
    /// The distinct dynamic string references.
    pub dynamic_references: Vec<String>,
}

/// The abstract value of a file analysis.
pub struct FileAnalysisView {
    pub module_name: Seq<char>,
    pub entities: Seq<CodeEntityView>,
    pub scoped_references: Seq<(Seq<char>, Seq<char>)>,
    pub dynamic_references: Seq<Seq<char>>,
}

/// The views of a sequence of entities.
pub open spec fn entities_view(entities: Seq<CodeEntity>) -> Seq<CodeEntityView> {
    entities.map_values(|entity: CodeEntity| entity@)
}

/// The views of a sequence of references.
pub open spec fn references_view(references: Seq<ScopedReference>) -> Seq<(Seq<char>, Seq<char>)> {
    references.map_values(|reference: ScopedReference| reference@)
}

impl View for FileAnalysis {
    type V = FileAnalysisView;

    open spec fn view(&self) -> FileAnalysisView {
        FileAnalysisView {
            module_name: self.module_name@,
            entities: entities_view(self.entities@),
            scoped_references: references_view(self.scoped_references@),
            dynamic_references: strings_view(self.dynamic_references@),
        }
    }
}

/// A file skipped because it could not be read or parsed.
#[derive(Debug)]
pub struct SkippedFile {
    /// The path of the skipped file.
    pub file_path: String,
    /// Why the file was skipped.
    pub reason: String,
}

impl LocationOrdered for SkippedFile {
    open spec fn goes_before(self, other: Self) -> bool {
        path_le(self.file_path@, other.file_path@)
    }

    proof fn lemma_goes_before_total(a: Self, b: Self) {
        lemma_components_le_total(path_components(a.file_path@), path_components(b.file_path@));
    }

    proof fn lemma_goes_before_transitive(a: Self, b: Self, c: Self) {
        lemma_components_le_transitive(
            path_components(a.file_path@),
            path_components(b.file_path@),
            path_components(c.file_path@),
        );
    }

    fn goes_before_exec(&self, other: &Self) -> (before: bool) {
        path_le_exec(self.file_path.as_str(), other.file_path.as_str())
    }
}

/// One finding of dead code.
#[derive(Debug)]
pub struct DeadCodeFinding {
    /// The path of the file with the definition.
    pub file_path: String,
    /// The line of the definition.
    pub line_number: usize,
    /// The kind of the entity.
    pub entity_kind: EntityKind,
    /// The full dotted name of the entity.
    pub qualified_name: String,
}

/// Whether a finding describes the given entity.
pub open spec fn finding_describes(finding: DeadCodeFinding, entity: CodeEntityView) -> bool {
    &&& finding.file_path@ == entity.file_path
    &&& finding.line_number as int == entity.line_number
    &&& finding.entity_kind == entity.kind
    &&& finding.qualified_name@ == entity.qualified_name
}

impl DeadCodeFinding {
    /// Builds the finding that reports an entity.
    pub fn from_entity(code_entity: &CodeEntity) -> (finding: DeadCodeFinding)
        ensures
            finding_describes(finding, code_entity@),
    {
        DeadCodeFinding {
            file_path: code_entity.file_path.clone(),
            line_number: code_entity.line_number,
            entity_kind: code_entity.kind,
            qualified_name: code_entity.qualified_name.clone(),
        }
    }
}

/// The final report of a project analysis.
#[derive(Debug)]
pub struct AnalysisReport {
    /// The dead code findings, ordered by location.
    pub findings: Vec<DeadCodeFinding>,
    /// The files skipped because of read or parse errors.
    pub skipped_files: Vec<SkippedFile>,
    /// The number of files analysed successfully.
    pub analyzed_file_count: usize,
    /// The number of extracted entities.
    pub extracted_entity_count: usize,
}


/// The findings whose kind is one of `kinds`, in order.
pub open spec fn findings_of_kinds(findings: Seq<DeadCodeFinding>, kinds: Seq<EntityKind>) -> Seq<DeadCodeFinding>
    decreases findings.len(),
{
    if findings.len() == 0 {
        Seq::empty()
    } else if kinds.contains(findings.last().entity_kind) {
        findings_of_kinds(findings.drop_last(), kinds).push(findings.last())
    } else {
        findings_of_kinds(findings.drop_last(), kinds)
    }
}

/// Whether `kind` is one of `kinds`.
fn kind_requested(kinds: &[EntityKind], kind: EntityKind) -> (requested: bool)
    ensures
        requested == kinds@.contains(kind),
{
    let mut i: usize = 0;
    while i < kinds.len()
        invariant
            i <= kinds@.len(),
            forall|k: int| 0 <= k < i ==> kinds@[k] != kind,
        decreases kinds@.len() - i,
    {
        if kinds[i] == kind {
            assert(kinds@[i as int] == kind);
            return true;
        }
        i = i + 1;
    }
    false
}

/// Keeps only the findings of the requested kinds; no requested kind means
/// no filtering. The rest of the report stays as it is.
pub fn filter_findings_by_kind(analysis_report: &mut AnalysisReport, requested_kinds: &[EntityKind])
    ensures
        final(analysis_report).findings@ == if requested_kinds@.len() == 0 {
            old(analysis_report).findings@
        } else {
            findings_of_kinds(old(analysis_report).findings@, requested_kinds@)
        },
        final(analysis_report).skipped_files == old(analysis_report).skipped_files,
        final(analysis_report).analyzed_file_count == old(analysis_report).analyzed_file_count,
        final(analysis_report).extracted_entity_count == old(analysis_report).extracted_entity_count,
{
    if requested_kinds.len() == 0 {
        return;
    }
    let ghost original = analysis_report.findings@;
    let mut rest: Vec<DeadCodeFinding> = Vec::new();
    std::mem::swap(&mut rest, &mut analysis_report.findings);
    let mut kept_reversed: Vec<DeadCodeFinding> = Vec::new();
    assert(findings_of_kinds(original, requested_kinds@) =~= findings_of_kinds(rest@, requested_kinds@) + kept_reversed@.reverse());
    while rest.len() > 0
        invariant
            findings_of_kinds(original, requested_kinds@) == findings_of_kinds(rest@, requested_kinds@) + kept_reversed@.reverse(),
        decreases rest@.len(),
    {
        let ghost before_rest = rest@;
        let ghost before_kept = kept_reversed@;
        let finding = rest.pop().unwrap();
        assert(before_rest.drop_last() =~= rest@);
        if kind_requested(requested_kinds, finding.entity_kind) {
            kept_reversed.push(finding);
            assert(kept_reversed@.reverse() =~= seq![finding] + before_kept.reverse());
        }
        assert(findings_of_kinds(original, requested_kinds@) =~= findings_of_kinds(rest@, requested_kinds@) + kept_reversed@.reverse());
    }
    let kept = reversed(kept_reversed);
    assert(kept@ =~= findings_of_kinds(original, requested_kinds@));
    analysis_report.findings = kept;
}


/// Filtering by kind keeps exactly the findings of the requested kinds.
pub proof fn lemma_filtered_findings_are_of_requested_kinds(findings: Seq<DeadCodeFinding>, kinds: Seq<EntityKind>, finding: DeadCodeFinding)
    ensures
        findings_of_kinds(findings, kinds).contains(finding) <==> (findings.contains(finding) && kinds.contains(finding.entity_kind)),
    decreases findings.len(),
{
    if findings.len() > 0 {
        let earlier = findings.drop_last();
        lemma_filtered_findings_are_of_requested_kinds(earlier, kinds, finding);
        assert(findings =~= earlier.push(findings.last()));
        if earlier.contains(finding) {
            let i = choose|i: int| 0 <= i < earlier.len() && earlier[i] == finding;
            assert(findings[i] == finding);
        }
        if findings.contains(finding) && finding != findings.last() {
            let i = choose|i: int| 0 <= i < findings.len() && findings[i] == finding;
            assert(earlier[i] == finding);
        }
        let kept = findings_of_kinds(findings, kinds);
        let kept_earlier = findings_of_kinds(earlier, kinds);
        if kinds.contains(findings.last().entity_kind) {
            assert(kept == kept_earlier.push(findings.last()));
            if kept_earlier.contains(finding) {
                let i = choose|i: int| 0 <= i < kept_earlier.len() && kept_earlier[i] == finding;
                assert(kept[i] == finding);
            }
            if kept.contains(finding) && finding != findings.last() {
                let i = choose|i: int| 0 <= i < kept.len() && kept[i] == finding;
                assert(kept_earlier[i] == finding);
            }
            if finding == findings.last() {
                assert(kept[kept.len() - 1] == finding);
            }
        }
    }
}

} // verus!
