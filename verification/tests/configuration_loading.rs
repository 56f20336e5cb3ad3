//! Tests of the choice of the analyzer configuration.

use dc::config::{
    ConfigurationCandidate, ConfigurationFile, ConfigurationSources, PyprojectCandidate,
    PyprojectFile,
};
use dc::{load_configuration, AnalyzerConfiguration, DcError};

/// The sources of a project without any configuration file.
fn sources_without_files(project_root: &str) -> ConfigurationSources {
    ConfigurationSources {
        explicit: None,
        standalone: ConfigurationCandidate {
            path: format!("{project_root}/.dc.toml"),
            file: ConfigurationFile::Missing,
        },
        pyproject: PyprojectCandidate {
            path: format!("{project_root}/pyproject.toml"),
            file: PyprojectFile::Missing,
        },
    }
}

/// A configuration that excludes one directory.
fn excluding(directory: &str) -> AnalyzerConfiguration {
    let mut configuration = AnalyzerConfiguration::default();
    configuration.exclude_directories = vec![directory.to_string()];
    configuration
}

#[test]
fn config_default_configuration_excludes_service_directories() {
    let configuration = AnalyzerConfiguration::default();
    assert!(configuration.exclude_directories.contains(&".venv".to_string()));
    assert!(configuration.exclude_directories.contains(&"migrations".to_string()));
    assert!(configuration.exclude_directories.contains(&"tests".to_string()));
}

#[test]
fn configuration_default_configuration_excludes_service_directories() {
    let configuration = AnalyzerConfiguration::default();
    assert!(configuration.exclude_directories.contains(&".venv".to_string()));
    assert!(configuration.exclude_directories.contains(&"migrations".to_string()));
    assert!(configuration.exclude_directories.contains(&"tests".to_string()));
}

#[test]
fn explicitly_requested_missing_configuration_is_an_error() {
    let mut sources = sources_without_files(".");
    sources.explicit = Some(ConfigurationCandidate {
        path: "/nonexistent/.dc.toml".to_string(),
        file: ConfigurationFile::Missing,
    });
    let load_result = load_configuration(sources);
    assert!(matches!(
        load_result,
        Err(DcError::ConfigurationNotFound { .. })
    ));
}

#[test]
fn configuration_is_loaded_from_pyproject_section() {
    let mut sources = sources_without_files("/tmp/pyproject");
    sources.pyproject.file = PyprojectFile::WithSection(excluding("vendored"));
    let configuration = load_configuration(sources).expect("корректная конфигурация");
    assert_eq!(configuration.exclude_directories, vec!["vendored".to_string()]);
}

#[test]
fn standalone_file_takes_priority_over_pyproject() {
    let mut sources = sources_without_files("/tmp/priority");
    sources.pyproject.file = PyprojectFile::WithSection(excluding("from_pyproject"));
    sources.standalone.file = ConfigurationFile::Parsed(excluding("from_standalone"));
    let configuration = load_configuration(sources).expect("корректная конфигурация");
    assert_eq!(configuration.exclude_directories, vec!["from_standalone".to_string()]);
}

#[test]
fn invalid_configuration_is_reported_as_error() {
    let mut sources = sources_without_files("/tmp/invalid");
    sources.standalone.file = ConfigurationFile::Invalid {
        message: "invalid type: integer `42`, expected a sequence".to_string(),
    };
    let load_result = load_configuration(sources);
    match load_result {
        Err(DcError::ConfigurationInvalid { path, .. }) => assert_eq!(path, "/tmp/invalid/.dc.toml"),
        _ => panic!("ожидается ошибка конфигурации"),
    }
}

#[test]
fn explicit_file_wins_over_project_files() {
    let mut sources = sources_without_files("/tmp/explicit");
    sources.standalone.file = ConfigurationFile::Parsed(excluding("from_standalone"));
    sources.explicit = Some(ConfigurationCandidate {
        path: "/etc/dc.toml".to_string(),
        file: ConfigurationFile::Parsed(excluding("from_explicit")),
    });
    let configuration = load_configuration(sources).expect("корректная конфигурация");
    assert_eq!(configuration.exclude_directories, vec!["from_explicit".to_string()]);
}

#[test]
fn defaults_apply_without_configuration_files() {
    let configuration = load_configuration(sources_without_files("/tmp/none")).expect("значения по умолчанию");
    assert_eq!(
        configuration.exclude_directories,
        vec![".venv".to_string(), "migrations".to_string(), "tests".to_string()]
    );
    let mut sources = sources_without_files("/tmp/none");
    sources.pyproject.file = PyprojectFile::WithoutSection;
    let configuration = load_configuration(sources).expect("значения по умолчанию");
    assert!(configuration.extra_dynamic_names.is_empty());
}

#[test]
fn invalid_pyproject_is_reported_with_its_path() {
    let mut sources = sources_without_files("/tmp/broken");
    sources.pyproject.file = PyprojectFile::Invalid { message: "expected `=`".to_string() };
    match load_configuration(sources) {
        Err(DcError::ConfigurationInvalid { path, message }) => {
            assert_eq!(path, "/tmp/broken/pyproject.toml");
            assert_eq!(message, "expected `=`");
        }
        _ => panic!("ожидается ошибка конфигурации"),
    }
}

#[test]
fn error_messages_name_the_path() {
    let not_found = DcError::ConfigurationNotFound { path: "/nonexistent/.dc.toml".to_string() };
    assert_eq!(not_found.message(), "файл конфигурации не найден: /nonexistent/.dc.toml");
    let invalid = DcError::ConfigurationInvalid {
        path: "/p/.dc.toml".to_string(),
        message: "bad".to_string(),
    };
    assert_eq!(invalid.message(), "некорректная конфигурация /p/.dc.toml: bad");
    let missing_target = DcError::TargetNotFound { path: "/nonexistent/project".to_string() };
    assert_eq!(missing_target.message(), "целевая директория не существует: /nonexistent/project");
}
