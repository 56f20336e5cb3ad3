//! The analysis pipeline.
//!
//! The analysis runs in five stages:
//! 1. Collecting the files ([`collect`]).
//! 2. Parsing them, in parallel outside this library ([`parse`]).
//! 3. Extracting entities and references ([`extract`]).
//! 4. Building the dependency graph ([`reachability`]).
//! 5. Computing what the roots reach ([`reachability`]).

pub mod collect;
pub mod extract;
pub mod extraction_laws;
pub mod parse;
pub mod reachability;
pub mod syntax;

use vstd::prelude::*;

use crate::config::AnalyzerConfiguration;
use crate::model::{
    entity_goes_before, finding_describes, AnalysisReport, CodeEntityView, DeadCodeFinding, FileAnalysis,
    FileAnalysisView, SkippedFile,
};
use crate::pipeline::reachability::{
    all_entities, analyses_view, entity_views, find_unreachable_entities, total_entity_count, unreachable_entities,
};
use crate::sorting::{reversed, sort_by_location, sorted_by_location, LocationOrdered};

verus! {

/// The analyses among the outcomes of the files, in order.
pub open spec fn successful_analyses(outcomes: Seq<Result<FileAnalysis, SkippedFile>>) -> Seq<FileAnalysis>
    decreases outcomes.len(),
{
    if outcomes.len() == 0 {
        Seq::empty()
    } else {
        match outcomes.last() {
            Ok(file_analysis) => successful_analyses(outcomes.drop_last()).push(file_analysis),
            Err(_) => successful_analyses(outcomes.drop_last()),
        }
    }
}

/// The skipped files among the outcomes of the files, in order.
pub open spec fn skipped_files_of(outcomes: Seq<Result<FileAnalysis, SkippedFile>>) -> Seq<SkippedFile>
    decreases outcomes.len(),
{
    if outcomes.len() == 0 {
        Seq::empty()
    } else {
        match outcomes.last() {
            Ok(_) => skipped_files_of(outcomes.drop_last()),
            Err(skipped) => skipped_files_of(outcomes.drop_last()).push(skipped),
        }
    }
}

/// Whether entities stand in location order.
pub open spec fn in_location_order(entities: Seq<CodeEntityView>) -> bool {
    forall|i: int, j: int| 0 <= i < j < entities.len() ==> entity_goes_before(#[trigger] entities[i], #[trigger] entities[j])
}

/// Whether the findings report the entities one by one, in order.
pub open spec fn reports_entities(findings: Seq<DeadCodeFinding>, entities: Seq<CodeEntityView>) -> bool {
    &&& findings.len() == entities.len()
    &&& forall|i: int| 0 <= i < findings.len() ==> finding_describes(#[trigger] findings[i], entities[i])
}

/// Builds the report of a project from the outcome of each of its files:
/// the findings are the entities that no root reaches, in location order;
/// the skipped files are ordered by path.
pub fn run_analysis(analysis_outcomes: Vec<Result<FileAnalysis, SkippedFile>>, configuration: &AnalyzerConfiguration) -> (report:
    AnalysisReport)
    requires
        successful_analyses(analysis_outcomes@).len() + total_entity_count(successful_analyses(analysis_outcomes@)) <= usize::MAX,
    ensures
        report.analyzed_file_count == successful_analyses(analysis_outcomes@).len(),
        report.extracted_entity_count == total_entity_count(successful_analyses(analysis_outcomes@)),
        report.analyzed_file_count + report.skipped_files@.len() == analysis_outcomes@.len(),
        sorted_by_location(report.skipped_files@),
        report.skipped_files@.to_multiset() == skipped_files_of(analysis_outcomes@).to_multiset(),
        exists|order: Seq<CodeEntityView>|
            #![trigger reports_entities(report.findings@, order)]
            in_location_order(order) && order.to_multiset() == unreachable_entities(
                analyses_view(successful_analyses(analysis_outcomes@)),
                configuration@,
            ).to_multiset() && reports_entities(report.findings@, order),
{
    broadcast use vstd::seq_lib::group_to_multiset_ensures, vstd::multiset::group_multiset_axioms;

    let ghost outcomes = analysis_outcomes@;
    let mut rest = analysis_outcomes;
    let mut analyses_reversed: Vec<FileAnalysis> = Vec::new();
    let mut skipped: Vec<SkippedFile> = Vec::new();
    assert(skipped@.to_multiset() =~= vstd::multiset::Multiset::empty());
    assert(outcomes =~= rest@);
    while rest.len() > 0
        invariant
            successful_analyses(outcomes) == successful_analyses(rest@) + analyses_reversed@.reverse(),
            skipped_files_of(outcomes).to_multiset() == skipped_files_of(rest@).to_multiset().add(skipped@.to_multiset()),
        decreases rest@.len(),
    {
        let ghost before_rest = rest@;
        let ghost before_analyses = analyses_reversed@;
        let ghost before_skipped = skipped@;
        let outcome = rest.pop().unwrap();
        assert(before_rest.drop_last() =~= rest@);
        match outcome {
            Ok(file_analysis) => {
                analyses_reversed.push(file_analysis);
                assert(analyses_reversed@.reverse() =~= seq![file_analysis] + before_analyses.reverse());
                assert(successful_analyses(outcomes) =~= successful_analyses(rest@) + analyses_reversed@.reverse());
            },
            Err(skipped_file) => {
                skipped.push(skipped_file);
                proof {
                    vstd::seq_lib::to_multiset_build(before_skipped, skipped_file);
                    vstd::seq_lib::to_multiset_build(skipped_files_of(rest@), skipped_file);
                }
                assert(skipped_files_of(outcomes).to_multiset() =~= skipped_files_of(rest@).to_multiset().add(
                    skipped@.to_multiset(),
                ));
            },
        }
    }
    let file_analyses = reversed(analyses_reversed);
    proof {
        assert(successful_analyses(outcomes) =~= file_analyses@);
        assert(skipped_files_of(rest@).to_multiset() =~= vstd::multiset::Multiset::empty());
        assert(skipped_files_of(outcomes).to_multiset() =~= skipped@.to_multiset());
    }
    let ghost analyses = analyses_view(file_analyses@);
    let mut extracted_entity_count: usize = 0;
    let mut f: usize = 0;
    while f < file_analyses.len()
        invariant
            f <= file_analyses@.len(),
            analyses == analyses_view(file_analyses@),
            file_analyses@.len() + all_entities(analyses).len() <= usize::MAX,
            extracted_entity_count == all_entities(analyses.subrange(0, f as int)).len(),
        decreases file_analyses@.len() - f,
    {
        proof {
            assert(analyses.subrange(0, f + 1).drop_last() =~= analyses.subrange(0, f as int));
            lemma_entities_prefix_bounded(analyses, f + 1);
        }
        extracted_entity_count = extracted_entity_count + file_analyses[f].entities.len();
        f = f + 1;
    }
    assert(analyses.subrange(0, file_analyses@.len() as int) =~= analyses);
    let unreachable = find_unreachable_entities(file_analyses.as_slice(), configuration);
    let mut findings: Vec<DeadCodeFinding> = Vec::new();
    let mut i: usize = 0;
    while i < unreachable.len()
        invariant
            i <= unreachable@.len(),
            findings@.len() == i,
            forall|k: int| 0 <= k < i ==> finding_describes(#[trigger] findings@[k], entity_views(unreachable@)[k]),
        decreases unreachable@.len() - i,
    {
        let finding = DeadCodeFinding::from_entity(unreachable[i]);
        findings.push(finding);
        i = i + 1;
    }
    let report = AnalysisReport {
        findings,
        skipped_files: sort_by_location(skipped),
        analyzed_file_count: file_analyses.len(),
        extracted_entity_count,
    };
    proof {
        lemma_every_outcome_counted(outcomes);
        vstd::seq_lib::to_multiset_len(report.skipped_files@);
        vstd::seq_lib::to_multiset_len(skipped_files_of(outcomes));
        let order = entity_views(unreachable@);
        assert(reports_entities(report.findings@, order));
        assert forall|i: int, j: int| 0 <= i < j < order.len() implies entity_goes_before(
            #[trigger] order[i],
            #[trigger] order[j],
        ) by {
            assert(unreachable@[i].goes_before(unreachable@[j]));
        }
    }
    report
}

/// Every file is either analysed or skipped, never both.
pub proof fn lemma_every_outcome_counted(outcomes: Seq<Result<FileAnalysis, SkippedFile>>)
    ensures
        successful_analyses(outcomes).len() + skipped_files_of(outcomes).len() == outcomes.len(),
    decreases outcomes.len(),
{
    if outcomes.len() > 0 {
        lemma_every_outcome_counted(outcomes.drop_last());
    }
}

/// The entities of the first files are no more than those of all files.
proof fn lemma_entities_prefix_bounded(analyses: Seq<FileAnalysisView>, f: int)
    requires
        0 <= f <= analyses.len(),
    ensures
        all_entities(analyses.subrange(0, f)).len() <= all_entities(analyses).len(),
    decreases analyses.len() - f,
{
    if f < analyses.len() {
        lemma_entities_prefix_bounded(analyses, f + 1);
        assert(analyses.subrange(0, f + 1).drop_last() =~= analyses.subrange(0, f));
    } else {
        assert(analyses.subrange(0, f) =~= analyses);
    }
}

} // verus!
