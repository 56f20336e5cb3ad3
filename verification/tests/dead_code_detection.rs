//! Tests of the whole analysis on small projects held in memory.

use dc::model::filter_findings_by_kind;
use dc::pipeline::extract::{analysis_from_tree, analyze_python_file, skipped_for_read_error};
use dc::pipeline::parse::{ParseFailure, PythonSourceParser};
use dc::render::{exit_code, render_text, skipped_file_warning};
use dc::{
    render_report, run_analysis, AnalysisReport, AnalyzerConfiguration, DcError, EntityKind,
    FileAnalysis, ReportFormat, SkippedFile,
};

/// Analyses the given files of a project rooted at `/project`.
fn analyze_sources(files: &[(&str, &str)], configuration: &AnalyzerConfiguration) -> AnalysisReport {
    let mut parser = PythonSourceParser::new().expect("грамматика tree-sitter-python");
    let mut outcomes: Vec<Result<FileAnalysis, SkippedFile>> = Vec::new();
    for (relative_path, source_code) in files {
        let file_path = format!("/project/{relative_path}");
        outcomes.push(analyze_python_file(
            &mut parser,
            source_code,
            &file_path,
            "/project",
            configuration,
        ));
    }
    run_analysis(outcomes, configuration)
}

/// The qualified names of the findings, in report order.
fn dead_names(report: &AnalysisReport) -> Vec<String> {
    report
        .findings
        .iter()
        .map(|finding| finding.qualified_name.clone())
        .collect()
}

#[test]
fn configured_decorators_extend_entry_points() {
    let files = [(
        "consumers.py",
        "@broker.subscribe\ndef consume_events():\n    return None\n",
    )];
    let default_configuration = AnalyzerConfiguration::default();
    let default_report = analyze_sources(&files, &default_configuration);
    assert!(default_report
        .findings
        .iter()
        .any(|finding| finding.qualified_name == "consumers.consume_events"));

    let mut extended_configuration = AnalyzerConfiguration::default();
    extended_configuration
        .extra_entry_point_decorators
        .push("broker.subscribe".to_string());
    let extended_report = analyze_sources(&files, &extended_configuration);
    assert!(!extended_report
        .findings
        .iter()
        .any(|finding| finding.qualified_name == "consumers.consume_events"));
}

#[test]
fn unused_function_is_the_only_finding() {
    let files = [(
        "services.py",
        "def dead_service():\n    return 1\n\n\ndef used_service():\n    return 2\n\n\nprint(used_service())\n",
    )];
    let report = analyze_sources(&files, &AnalyzerConfiguration::default());
    assert_eq!(dead_names(&report), vec!["services.dead_service".to_string()]);
    let finding = &report.findings[0];
    assert_eq!(finding.file_path, "/project/services.py");
    assert_eq!(finding.line_number, 1);
    assert_eq!(finding.entity_kind, EntityKind::Function);
}

#[test]
fn framework_driven_property_spreads_to_subclass_overrides() {
    let files = [(
        "store/documents.py",
        "from django_elasticsearch_dsl import Document\n\n\nclass BaseSearchIndex(Document):\n    def serialize_payload(self):\n        return {}\n\n\nclass OrderIndex(BaseSearchIndex):\n    def serialize_payload(self):\n        return {\"id\": 1}\n\n\nclass UnrelatedIndex:\n    def serialize_payload(self):\n        return None\n",
    )];
    let report = analyze_sources(&files, &AnalyzerConfiguration::default());
    let names = dead_names(&report);
    assert!(!names.contains(&"store.documents.BaseSearchIndex.serialize_payload".to_string()), "{names:?}");
    assert!(!names.contains(&"store.documents.OrderIndex.serialize_payload".to_string()), "{names:?}");
    assert!(!names.contains(&"store.documents.OrderIndex".to_string()), "{names:?}");
    assert!(names.contains(&"store.documents.UnrelatedIndex".to_string()), "{names:?}");
}

#[test]
fn configured_framework_markers_spread_along_the_hierarchy() {
    let files = [(
        "repos.py",
        "class BaseRepository:\n    pass\n\n\nclass OrderStore(BaseRepository):\n    pass\n\n\nclass PaidOrderStore(OrderStore):\n    def fetch_paid(self):\n        return []\n",
    )];
    let default_report = analyze_sources(&files, &AnalyzerConfiguration::default());
    assert!(dead_names(&default_report).contains(&"repos.PaidOrderStore.fetch_paid".to_string()));

    let mut configuration = AnalyzerConfiguration::default();
    configuration.extra_framework_base_markers.push("Repository".to_string());
    let report = analyze_sources(&files, &configuration);
    let names = dead_names(&report);
    assert!(!names.contains(&"repos.PaidOrderStore.fetch_paid".to_string()), "{names:?}");
    assert!(!names.contains(&"repos.PaidOrderStore".to_string()), "{names:?}");
}

#[test]
fn dynamic_references_keep_their_targets_alive() {
    let files = [(
        "utils.py",
        "def dynamic_target():\n    return 1\n\n\ndef resolve_callable(module):\n    return getattr(module, \"dynamic_target\")\n",
    )];
    let report = analyze_sources(&files, &AnalyzerConfiguration::default());
    assert_eq!(dead_names(&report), vec!["utils.resolve_callable".to_string()]);
}

#[test]
fn configured_dynamic_names_match_by_last_segment() {
    let files = [(
        "hooks.py",
        "class Handlers:\n    def on_save(self):\n        return None\n",
    )];
    let default_report = analyze_sources(&files, &AnalyzerConfiguration::default());
    assert_eq!(
        dead_names(&default_report),
        vec!["hooks.Handlers".to_string(), "hooks.Handlers.on_save".to_string()]
    );

    let mut configuration = AnalyzerConfiguration::default();
    configuration.extra_dynamic_names.push("hooks.Handlers.on_save".to_string());
    let report = analyze_sources(&files, &configuration);
    // The method is named dynamically, and a live method keeps its class alive.
    assert!(report.findings.is_empty(), "{:?}", dead_names(&report));
}

#[test]
fn references_from_other_files_keep_entities_alive() {
    let files = [
        ("shop/views.py", "from shop.utils import format_price\n\nprint(format_price(1))\n"),
        ("shop/utils.py", "def format_price(value):\n    return value\n\n\ndef unused_helper():\n    return 0\n"),
    ];
    let report = analyze_sources(&files, &AnalyzerConfiguration::default());
    assert_eq!(dead_names(&report), vec!["shop.utils.unused_helper".to_string()]);
}

#[test]
fn findings_are_ordered_by_path_components_then_line() {
    // Paths compare component by component: `alpha` comes before `alpha.py`.
    let files = [
        ("zeta.py", "def late():\n    return 1\n\n\ndef later():\n    return 2\n"),
        ("alpha/beta.py", "def second():\n    return 1\n"),
        ("alpha.py", "def first():\n    return 1\n"),
    ];
    let report = analyze_sources(&files, &AnalyzerConfiguration::default());
    assert_eq!(
        dead_names(&report),
        vec![
            "alpha.beta.second".to_string(),
            "alpha.first".to_string(),
            "zeta.late".to_string(),
            "zeta.later".to_string(),
        ]
    );
    assert_eq!(report.analyzed_file_count, 3);
    assert_eq!(report.extracted_entity_count, 4);
}

#[test]
fn skipped_files_are_ordered_by_path_and_counted_apart() {
    let configuration = AnalyzerConfiguration::default();
    let mut parser = PythonSourceParser::new().expect("грамматика tree-sitter-python");
    let outcomes = vec![
        Err(SkippedFile { file_path: "/project/z.py".to_string(), reason: "ошибка чтения".to_string() }),
        analyze_python_file(&mut parser, "VALUE = 1\n", "/project/settings.py", "/project", &configuration),
        Err(SkippedFile { file_path: "/project/a.py".to_string(), reason: "ошибка чтения".to_string() }),
    ];
    let report = run_analysis(outcomes, &configuration);
    assert_eq!(report.analyzed_file_count, 1);
    assert_eq!(report.skipped_files.len(), 2);
    assert_eq!(report.analyzed_file_count + report.skipped_files.len(), 3);
    assert_eq!(report.skipped_files[0].file_path, "/project/a.py");
    assert_eq!(report.skipped_files[1].file_path, "/project/z.py");
    assert!(report.findings.is_empty(), "{:?}", dead_names(&report));
}

#[test]
fn out_of_range_row_is_reported_as_skipped_file() {
    let configuration = AnalyzerConfiguration::default();
    match analysis_from_tree(Err(ParseFailure::RowOutOfRange), "/project/b.py", "/project", &configuration) {
        Err(skipped) => {
            assert_eq!(skipped.file_path, "/project/b.py");
            assert_eq!(skipped.reason, "номер строки не помещается в usize");
        }
        Ok(_) => panic!("ожидается пропущенный файл"),
    }
}

#[test]
fn parsed_tree_is_the_tree_of_the_given_source() {
    let mut parser = PythonSourceParser::new().expect("грамматика tree-sitter-python");
    let source_code = "x = 1

def f(a):
    return a
";
    let root = match parser.parse(source_code) {
        Ok(root) => root,
        Err(_) => panic!("дерево должно быть построено"),
    };
    assert_eq!(root.kind, "module");
    assert_eq!(root.text, source_code);
    assert!(root.field_name.is_none());
    assert_eq!(root.children.len(), 2);
    let definition = &root.children[1];
    assert_eq!(definition.kind, "function_definition");
    assert_eq!(definition.start_row, 2);
    assert_eq!(definition.text, "def f(a):\n    return a");
    let name = definition
        .children
        .iter()
        .find(|child| child.field_name.as_deref() == Some("name"))
        .expect("имя функции");
    assert_eq!(name.text, "f");
    assert!(name.is_named);
    let empty = match parser.parse("") {
        Ok(root) => root,
        Err(_) => panic!("дерево должно быть построено"),
    };
    assert_eq!(empty.kind, "module");
    assert!(empty.children.is_empty());
}

#[test]
fn parsed_files_get_their_module_path() {
    let configuration = AnalyzerConfiguration::default();
    let mut parser = PythonSourceParser::new().expect("грамматика tree-sitter-python");
    let outcome = analyze_python_file(
        &mut parser,
        "def view():\n    return None\n",
        "/project/shop/__init__.py",
        "/project",
        &configuration,
    );
    let analysis = outcome.expect("файл разобран");
    assert_eq!(analysis.module_name, "shop");
    assert_eq!(analysis.entities.len(), 1);
    assert_eq!(analysis.entities[0].qualified_name, "shop.view");
    assert_eq!(analysis.entities[0].file_path, "/project/shop/__init__.py");
    for entity in &analysis.entities {
        assert_eq!(entity.qualified_name, format!("{}.{}", entity.containing_scope, entity.simple_name));
        assert!(entity.line_number >= 1);
    }
}

#[test]
fn kind_filter_keeps_requested_kinds_in_order() {
    let files = [(
        "shop/utils.py",
        "LEGACY_FLAG = True\n\n\ndef abandoned_view():\n    return None\n\n\nclass Product:\n    def unused_helper(self):\n        return None\n",
    )];
    let report = analyze_sources(&files, &AnalyzerConfiguration::default());
    let mut only_variables = analyze_sources(&files, &AnalyzerConfiguration::default());
    filter_findings_by_kind(&mut only_variables, &[EntityKind::Variable]);
    assert_eq!(dead_names(&only_variables), vec!["shop.utils.LEGACY_FLAG".to_string()]);

    let mut functions_and_methods = analyze_sources(&files, &AnalyzerConfiguration::default());
    filter_findings_by_kind(&mut functions_and_methods, &[EntityKind::Function, EntityKind::Method]);
    assert_eq!(
        dead_names(&functions_and_methods),
        vec!["shop.utils.abandoned_view".to_string(), "shop.utils.Product.unused_helper".to_string()]
    );

    let mut unfiltered = analyze_sources(&files, &AnalyzerConfiguration::default());
    filter_findings_by_kind(&mut unfiltered, &[]);
    assert_eq!(dead_names(&unfiltered), dead_names(&report));
}

#[test]
fn text_report_lists_findings_after_a_count() {
    let files = [("shop/views.py", "def abandoned_view():\n    return None\n")];
    let report = analyze_sources(&files, &AnalyzerConfiguration::default());
    let text = render_report(&report, ReportFormat::Text, false, "");
    assert_eq!(
        text,
        "Найдено объектов мертвого кода: 1\n\n/project/shop/views.py:1: функция `shop.views.abandoned_view` не используется\n"
    );
}

#[test]
fn verbose_text_report_starts_with_statistics() {
    let files = [("shop/urls.py", "urlpatterns = []\n")];
    let report = analyze_sources(&files, &AnalyzerConfiguration::default());
    let text = render_report(&report, ReportFormat::Text, true, "");
    assert_eq!(
        text,
        "Проанализировано файлов: 1\nИзвлечено сущностей: 1\nПропущено файлов: 0\n\nМертвый код не найден.\n"
    );
}

#[test]
fn json_report_is_the_serialized_report_and_a_line_break() {
    let report = analyze_sources(&[], &AnalyzerConfiguration::default());
    let text = render_report(&report, ReportFormat::Json, true, "{\"findings\": []}");
    assert_eq!(text, "{\"findings\": []}\n");
}

#[test]
fn kind_labels_are_localized() {
    assert_eq!(EntityKind::Function.label(), "функция");
    assert_eq!(EntityKind::Class.label(), "класс");
    assert_eq!(EntityKind::Method.label(), "метод");
    assert_eq!(EntityKind::Variable.label(), "переменная");
}

#[test]
fn entry_points_are_never_reported() {
    let files = [(
        "shop/signals.py",
        "@receiver(post_save, sender=Product)\ndef handle_product_saved(sender, **kwargs):\n    return None\n\n\n@app.task\ndef refresh_catalog():\n    return None\n\n\ndef forgotten_helper():\n    return None\n",
    )];
    let report = analyze_sources(&files, &AnalyzerConfiguration::default());
    assert_eq!(dead_names(&report), vec!["shop.signals.forgotten_helper".to_string()]);
    assert_eq!(report.findings[0].line_number, 11);
}

#[test]
fn text_report_writes_multi_digit_line_numbers() {
    let mut source = String::new();
    for _ in 0..11 {
        source.push('\n');
    }
    source.push_str("def late_helper():\n    return None\n");
    let files = [("late.py", source.as_str())];
    let report = analyze_sources(&files, &AnalyzerConfiguration::default());
    let text = render_report(&report, ReportFormat::Text, false, "");
    assert_eq!(
        text,
        "Найдено объектов мертвого кода: 1\n\n/project/late.py:12: функция `late.late_helper` не используется\n"
    );
}

#[test]
fn exit_codes_follow_findings_and_errors() {
    let clean = analyze_sources(&[("a.py", "urlpatterns = []\n")], &AnalyzerConfiguration::default());
    assert_eq!(exit_code(&Ok(clean)), 0);
    let dirty = analyze_sources(&[("a.py", "def f():\n    return 1\n")], &AnalyzerConfiguration::default());
    assert_eq!(exit_code(&Ok(dirty)), 1);
    let failed: Result<AnalysisReport, DcError> =
        Err(DcError::TargetNotFound { path: "/nonexistent/project".to_string() });
    assert_eq!(exit_code(&failed), 2);
}

#[test]
fn skipped_files_are_described_with_path_and_reason() {
    let skipped = SkippedFile {
        file_path: "/project/broken.py".to_string(),
        reason: "ошибка чтения: доступ запрещен".to_string(),
    };
    assert_eq!(
        skipped_file_warning(&skipped),
        "dc: пропущен файл /project/broken.py: ошибка чтения: доступ запрещен"
    );
}

#[test]
fn unreadable_files_are_skipped_with_the_read_error() {
    let skipped = skipped_for_read_error("/project/locked.py", "Permission denied (os error 13)");
    assert_eq!(skipped.file_path, "/project/locked.py");
    assert_eq!(skipped.reason, "ошибка чтения: Permission denied (os error 13)");
}

#[test]
fn deeply_nested_code_is_analysed() {
    let depth = 4500;
    let mut source_code = String::from("def deep():\n    return ");
    for _ in 0..depth {
        source_code.push('(');
    }
    source_code.push('1');
    for _ in 0..depth {
        source_code.push(')');
    }
    source_code.push('\n');
    let report = analyze_sources(&[("nested.py", source_code.as_str())], &AnalyzerConfiguration::default());
    assert_eq!(report.analyzed_file_count, 1);
    assert_eq!(dead_names(&report), vec!["nested.deep".to_string()]);
}

#[test]
fn verbose_text_is_statistics_then_plain_text() {
    let files = [("shop/views.py", "def abandoned_view():\n    return None\n")];
    let report = analyze_sources(&files, &AnalyzerConfiguration::default());
    let expected = format!(
        "Проанализировано файлов: {}\nИзвлечено сущностей: {}\nПропущено файлов: {}\n\n",
        report.analyzed_file_count,
        report.extracted_entity_count,
        report.skipped_files.len()
    ) + &render_text(&report, false);
    assert_eq!(render_text(&report, true), expected);
}
