//! Tests of module paths and of the selection of project files.

use dc::paths::{compute_module_path, is_excluded_path, is_python_source_path};
use dc::pipeline::collect::collect_python_files;
use dc::AnalyzerConfiguration;

#[test]
fn entity_extractor_module_path_is_computed_from_relative_location() {
    assert_eq!(
        compute_module_path("/project/shop/views.py", "/project"),
        "shop.views"
    );
}

#[test]
fn entity_extractor_package_init_module_path_drops_init_segment() {
    assert_eq!(
        compute_module_path("/project/shop/__init__.py", "/project"),
        "shop"
    );
}

#[test]
fn extract_module_path_is_computed_from_relative_location() {
    assert_eq!(
        compute_module_path("/project/shop/views.py", "/project"),
        "shop.views"
    );
}

#[test]
fn extract_package_init_module_path_drops_init_segment() {
    assert_eq!(
        compute_module_path("/project/shop/__init__.py", "/project"),
        "shop"
    );
}

#[test]
fn module_path_outside_the_root_keeps_every_named_component() {
    assert_eq!(compute_module_path("/other/app/models.py", "/project"), "other.app.models");
    assert_eq!(compute_module_path("./shop//views.py", "."), "shop.views");
    assert_eq!(compute_module_path("/project/__init__.py", "/project"), "");
}

#[test]
fn module_path_strips_every_trailing_py_suffix() {
    assert_eq!(compute_module_path("/project/odd.py.py", "/project"), "odd");
}

#[test]
fn excluded_directories_are_matched_below_the_root_only() {
    let excluded = vec!["migrations".to_string(), "tests".to_string()];
    assert!(is_excluded_path("/project/shop/migrations/0001_initial.py", "/project", &excluded));
    assert!(!is_excluded_path("/tests/project/shop/views.py", "/tests/project", &excluded));
    assert!(!is_excluded_path("/project/shop/views.py", "/project", &excluded));
}

#[test]
fn python_sources_need_a_py_extension_and_a_stem() {
    assert!(is_python_source_path("/project/shop/views.py"));
    assert!(!is_python_source_path("/project/shop/.py"));
    assert!(!is_python_source_path("/project/shop/views.pyc"));
    assert!(is_python_source_path("/project/shop/views.py/"));
}

#[test]
fn collected_files_are_python_sources_ordered_by_path() {
    let walked = vec![
        "/project/shop/views.py".to_string(),
        "/project/README.md".to_string(),
        "/project/shop/migrations/0001_initial.py".to_string(),
        "/project/manage.py".to_string(),
        "/project/shop/admin.py".to_string(),
    ];
    let collected = collect_python_files("/project", walked, &AnalyzerConfiguration::default());
    assert_eq!(
        collected,
        vec![
            "/project/manage.py".to_string(),
            "/project/shop/admin.py".to_string(),
            "/project/shop/views.py".to_string(),
        ]
    );
}
