//! Selecting the Python files of a project from the files of its walk.

use vstd::multiset::Multiset;
use vstd::prelude::*;

use crate::config::AnalyzerConfiguration;
use crate::order::{lemma_components_le_total, lemma_components_le_transitive, path_le, path_le_exec};
use crate::paths::{
    excluded_path, is_excluded_path, is_python_source_path, lemma_excluded_component_anywhere, normal_components,
    path_components, python_source_path, relative_components,
};
use crate::sorting::{sort_by_location, sorted_by_location, LocationOrdered};

verus! {

/// Paths held as text are ordered as paths.
impl LocationOrdered for String {
    open spec fn goes_before(self, other: Self) -> bool {
        path_le(self@, other@)
    }

    proof fn lemma_goes_before_total(a: Self, b: Self) {
        lemma_components_le_total(path_components(a@), path_components(b@));
    }

    proof fn lemma_goes_before_transitive(a: Self, b: Self, c: Self) {
        lemma_components_le_transitive(path_components(a@), path_components(b@), path_components(c@));
    }

    fn goes_before_exec(&self, other: &Self) -> (before: bool) {
        path_le_exec(self.as_str(), other.as_str())
    }
}

/// Whether a walked file is analysed: its extension is `py` and no component
/// below the project root is an excluded directory.
pub open spec fn selected_file(path: Seq<char>, project_root: Seq<char>, excluded: Seq<Seq<char>>) -> bool {
    python_source_path(path) && !excluded_path(path, project_root, excluded)
}

/// The walked files that are analysed, in walk order.
pub open spec fn selected_python_files(walked: Seq<String>, project_root: Seq<char>, excluded: Seq<Seq<char>>) -> Seq<String>
    decreases walked.len(),
{
    if walked.len() == 0 {
        Seq::empty()
    } else {
        let earlier = selected_python_files(walked.drop_last(), project_root, excluded);
        if selected_file(walked.last()@, project_root, excluded) {
            earlier.push(walked.last())
        } else {
            earlier
        }
    }
}

/// Selects the Python files among the files found by walking the project
/// (the walk honours `.gitignore` and skips hidden directories) and orders
/// them by path, so that the analysis is deterministic.
pub fn collect_python_files(project_root: &str, walked_files: Vec<String>, configuration: &AnalyzerConfiguration) -> (python_files:
    Vec<String>)
    ensures
        sorted_by_location(python_files@),
        python_files@.to_multiset() == selected_python_files(
            walked_files@,
            project_root@,
            configuration@.exclude_directories,
        ).to_multiset(),
{
    broadcast use vstd::seq_lib::group_to_multiset_ensures, vstd::multiset::group_multiset_axioms;

    let ghost excluded = configuration@.exclude_directories;
    let ghost all = selected_python_files(walked_files@, project_root@, excluded);
    let mut rest = walked_files;
    let mut kept: Vec<String> = Vec::new();
    assert(kept@.to_multiset() =~= Multiset::empty());
    assert(kept@.to_multiset().add(selected_python_files(rest@, project_root@, excluded).to_multiset()) =~= all.to_multiset());
    while rest.len() > 0
        invariant
            excluded == configuration@.exclude_directories,
            kept@.to_multiset().add(selected_python_files(rest@, project_root@, excluded).to_multiset()) == all.to_multiset(),
        decreases rest@.len(),
    {
        let ghost before = rest@;
        let path = rest.pop().unwrap();
        assert(before.drop_last() =~= rest@);
        let keep = is_python_source_path(path.as_str())
            && !is_excluded_path(path.as_str(), project_root, configuration.exclude_directories.as_slice());
        proof {
            assert(keep == selected_file(path@, project_root@, excluded));
            vstd::seq_lib::to_multiset_build(selected_python_files(rest@, project_root@, excluded), path);
        }
        let ghost kept_before = kept@;
        if keep {
            kept.push(path);
            proof {
                vstd::seq_lib::to_multiset_build(kept_before, path);
            }
        }
        assert(kept@.to_multiset().add(selected_python_files(rest@, project_root@, excluded).to_multiset()) =~= all.to_multiset());
    }
    assert(selected_python_files(rest@, project_root@, excluded).to_multiset() =~= Multiset::empty());
    assert(kept@.to_multiset() =~= all.to_multiset());
    sort_by_location(kept)
}


/// A walked file is collected exactly when it is a Python source outside the
/// excluded directories.
pub proof fn lemma_selected_files_are_python_sources_outside_excluded(
    walked: Seq<String>,
    project_root: Seq<char>,
    excluded: Seq<Seq<char>>,
    path: String,
)
    ensures
        selected_python_files(walked, project_root, excluded).contains(path) <==> (walked.contains(path) && selected_file(
            path@,
            project_root,
            excluded,
        )),
    decreases walked.len(),
{
    if walked.len() > 0 {
        let earlier = walked.drop_last();
        lemma_selected_files_are_python_sources_outside_excluded(earlier, project_root, excluded, path);
        let kept = selected_python_files(walked, project_root, excluded);
        let kept_earlier = selected_python_files(earlier, project_root, excluded);
        if earlier.contains(path) {
            let i = choose|i: int| 0 <= i < earlier.len() && earlier[i] == path;
            assert(walked[i] == path);
        }
        if walked.contains(path) && path != walked.last() {
            let i = choose|i: int| 0 <= i < walked.len() && walked[i] == path;
            assert(earlier[i] == path);
        }
        if selected_file(walked.last()@, project_root, excluded) {
            if kept_earlier.contains(path) {
                let i = choose|i: int| 0 <= i < kept_earlier.len() && kept_earlier[i] == path;
                assert(kept[i] == path);
            }
            if kept.contains(path) && path != walked.last() {
                let i = choose|i: int| 0 <= i < kept.len() && kept[i] == path;
                assert(kept_earlier[i] == path);
            }
            if path == walked.last() {
                assert(kept[kept.len() - 1] == path);
            }
        }
    }
}


/// A walked file is never collected when any normal component of its path
/// below the project root, at any depth, is an excluded directory name.
pub proof fn lemma_files_below_excluded_directories_are_not_collected(
    walked: Seq<String>,
    project_root: Seq<char>,
    excluded: Seq<Seq<char>>,
    path: String,
    i: int,
)
    requires
        0 <= i < normal_components(relative_components(path@, project_root)).len(),
        excluded.contains(normal_components(relative_components(path@, project_root))[i]),
    ensures
        excluded_path(path@, project_root, excluded),
        !selected_python_files(walked, project_root, excluded).contains(path),
{
    lemma_excluded_component_anywhere(path@, project_root, excluded, i);
    lemma_selected_files_are_python_sources_outside_excluded(walked, project_root, excluded, path);
}

} // verus!

