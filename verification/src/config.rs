//! The analyzer configuration and the choice of its source.
//!
//! Sources in order of priority:
//! 1. An explicitly requested file (`--config-path`).
//! 2. `.dc.toml` in the root of the analysed project.
//! 3. The `[tool.dc]` section of the project's `pyproject.toml`.
//! 4. The defaults.

use vstd::prelude::*;

use crate::error::{DcError, DcErrorView};
use crate::text::strings_view;

verus! {

/// Settings of the analyzer.
#[derive(Debug)]
pub struct AnalyzerConfiguration {
    /// Names of directories excluded from the analysis.
    pub exclude_directories: Vec<String>,
    /// Extra decorators that make functions entry points, by full dotted
    /// name (`broker.subscribe`) or by last segment (`subscribe`).
    pub extra_entry_point_decorators: Vec<String>,
    /// Extra names that always count as used.
    pub extra_dynamic_names: Vec<String>,
    /// Extra markers of framework-driven base classes. Methods of classes
    /// derived from a base with a marker in its name are called by the
    /// framework; the property spreads along the project's class hierarchy.
    pub extra_framework_base_markers: Vec<String>,
}

/// The abstract value of a configuration.
pub struct ConfigurationView {
    pub exclude_directories: Seq<Seq<char>>,
    pub extra_entry_point_decorators: Seq<Seq<char>>,
    pub extra_dynamic_names: Seq<Seq<char>>,
    pub extra_framework_base_markers: Seq<Seq<char>>,
}

impl View for AnalyzerConfiguration {
    type V = ConfigurationView;

    open spec fn view(&self) -> ConfigurationView {
        ConfigurationView {
            exclude_directories: strings_view(self.exclude_directories@),
            extra_entry_point_decorators: strings_view(self.extra_entry_point_decorators@),
            extra_dynamic_names: strings_view(self.extra_dynamic_names@),
            extra_framework_base_markers: strings_view(self.extra_framework_base_markers@),
        }
    }
}

/// The default configuration: service directories are excluded, nothing is added.
pub open spec fn default_configuration() -> ConfigurationView {
    ConfigurationView {
        exclude_directories: seq![".venv"@, "migrations"@, "tests"@],
        extra_entry_point_decorators: Seq::empty(),
        extra_dynamic_names: Seq::empty(),
        extra_framework_base_markers: Seq::empty(),
    }
}

impl Default for AnalyzerConfiguration {
    fn default() -> (configuration: Self)
        ensures
            configuration@ == default_configuration(),
    {
        let configuration = AnalyzerConfiguration {
            exclude_directories: vec![
                String::from_str(".venv"),
                String::from_str("migrations"),
                String::from_str("tests"),
            ],
            extra_entry_point_decorators: Vec::new(),
            extra_dynamic_names: Vec::new(),
            extra_framework_base_markers: Vec::new(),
        };
        assert(configuration@.exclude_directories =~= seq![".venv"@, "migrations"@, "tests"@]);
        assert(configuration@.extra_entry_point_decorators =~= Seq::<Seq<char>>::empty());
        assert(configuration@.extra_dynamic_names =~= Seq::<Seq<char>>::empty());
        assert(configuration@.extra_framework_base_markers =~= Seq::<Seq<char>>::empty());
        configuration
    }
}

/// What was found at the place of a standalone configuration file.
pub enum ConfigurationFile {
    /// No regular file is there.
    Missing,
    /// The file could not be read or parsed.
    Invalid {
        /// What went wrong.
        message: String,
    },
    /// The file holds a valid configuration.
    Parsed(AnalyzerConfiguration),
}

/// What was found at the place of `pyproject.toml`.
pub enum PyprojectFile {
    /// No regular file is there.
    Missing,
    /// The file or its `[tool.dc]` section could not be read or parsed.
    Invalid {
        /// What went wrong.
        message: String,
    },
    /// The file has no `[tool.dc]` section.
    WithoutSection,
    /// The `[tool.dc]` section holds a valid configuration.
    WithSection(AnalyzerConfiguration),
}

/// A standalone configuration file and what was found there.
pub struct ConfigurationCandidate {
    /// The path of the file.
    pub path: String,
    /// What was found there.
    pub file: ConfigurationFile,
}

/// The `pyproject.toml` of the project and what was found there.
pub struct PyprojectCandidate {
    /// The path of the file.
    pub path: String,
    /// What was found there.
    pub file: PyprojectFile,
}

/// Everything the choice of the configuration depends on.
pub struct ConfigurationSources {
    /// The explicitly requested file, if any.
    pub explicit: Option<ConfigurationCandidate>,
    /// `.dc.toml` in the project root.
    pub standalone: ConfigurationCandidate,
    /// `pyproject.toml` in the project root.
    pub pyproject: PyprojectCandidate,
}

/// The outcome of loading a configuration, as abstract values.
pub open spec fn outcome_view(outcome: Result<AnalyzerConfiguration, DcError>) -> Result<ConfigurationView, DcErrorView> {
    match outcome {
        Ok(configuration) => Ok(configuration@),
        Err(error) => Err(error@),
    }
}

/// The configuration chosen from the sources, or the error that stops the tool.
///
/// An explicitly requested file that does not exist is an error, and so is a
/// found file that cannot be read or parsed: silently falling back to the
/// defaults would hide configuration problems.
pub open spec fn chosen_configuration(sources: ConfigurationSources) -> Result<ConfigurationView, DcErrorView> {
    match sources.explicit {
        Some(candidate) => match candidate.file {
            ConfigurationFile::Missing => Err(DcErrorView::ConfigurationNotFound { path: candidate.path@ }),
            ConfigurationFile::Invalid { message } => Err(DcErrorView::ConfigurationInvalid {
                path: candidate.path@,
                message: message@,
            }),
            ConfigurationFile::Parsed(configuration) => Ok(configuration@),
        },
        None => match sources.standalone.file {
            ConfigurationFile::Invalid { message } => Err(DcErrorView::ConfigurationInvalid {
                path: sources.standalone.path@,
                message: message@,
            }),
            ConfigurationFile::Parsed(configuration) => Ok(configuration@),
            ConfigurationFile::Missing => match sources.pyproject.file {
                PyprojectFile::Invalid { message } => Err(DcErrorView::ConfigurationInvalid {
                    path: sources.pyproject.path@,
                    message: message@,
                }),
                PyprojectFile::WithSection(configuration) => Ok(configuration@),
                PyprojectFile::Missing | PyprojectFile::WithoutSection => Ok(default_configuration()),
            },
        },
    }
}

/// Loads the analyzer configuration from the first source that is present.
pub fn load_configuration(sources: ConfigurationSources) -> (outcome: Result<AnalyzerConfiguration, DcError>)
    ensures
        outcome_view(outcome) == chosen_configuration(sources),
{
    let ghost original = sources;
    let ConfigurationSources { explicit, standalone, pyproject } = sources;
    if let Some(candidate) = explicit {
        return match candidate.file {
            ConfigurationFile::Missing => Err(DcError::ConfigurationNotFound { path: candidate.path }),
            ConfigurationFile::Invalid { message } => Err(DcError::ConfigurationInvalid {
                path: candidate.path,
                message,
            }),
            ConfigurationFile::Parsed(configuration) => Ok(configuration),
        };
    }
    match standalone.file {
        ConfigurationFile::Invalid { message } => {
            return Err(DcError::ConfigurationInvalid { path: standalone.path, message });
        },
        ConfigurationFile::Parsed(configuration) => {
            return Ok(configuration);
        },
        ConfigurationFile::Missing => {},
    }
    match pyproject.file {
        PyprojectFile::Invalid { message } => Err(DcError::ConfigurationInvalid {
            path: pyproject.path,
            message,
        }),
        PyprojectFile::WithSection(configuration) => Ok(configuration),
        PyprojectFile::Missing | PyprojectFile::WithoutSection => Ok(AnalyzerConfiguration::default()),
    }
}


/// An explicitly requested file wins over every other source: its
/// configuration, or its error, is the outcome whatever the project holds.
pub proof fn lemma_explicit_file_wins(sources: ConfigurationSources, other: ConfigurationSources)
    requires
        sources.explicit is Some,
        other.explicit == sources.explicit,
    ensures
        chosen_configuration(sources) == chosen_configuration(other),
{
}

/// An explicitly requested file that does not exist is an error that names it.
pub proof fn lemma_missing_explicit_file_is_an_error(sources: ConfigurationSources)
    requires
        sources.explicit matches Some(candidate) && candidate.file is Missing,
    ensures
        chosen_configuration(sources) == Err::<ConfigurationView, DcErrorView>(
            DcErrorView::ConfigurationNotFound { path: sources.explicit.unwrap().path@ },
        ),
{
}

/// Without an explicit file, `.dc.toml` in the project root wins over
/// `pyproject.toml` when it is present.
pub proof fn lemma_standalone_file_wins_over_pyproject(sources: ConfigurationSources, other: ConfigurationSources)
    requires
        sources.explicit is None,
        other.explicit is None,
        !(sources.standalone.file is Missing),
        other.standalone == sources.standalone,
    ensures
        chosen_configuration(sources) == chosen_configuration(other),
{
}

/// With no file present, or only a `pyproject.toml` without a `[tool.dc]`
/// section, the defaults apply.
pub proof fn lemma_defaults_without_configuration(sources: ConfigurationSources)
    requires
        sources.explicit is None,
        sources.standalone.file is Missing,
        sources.pyproject.file is Missing || sources.pyproject.file is WithoutSection,
    ensures
        chosen_configuration(sources) == Ok::<ConfigurationView, DcErrorView>(default_configuration()),
{
}

/// A file that is found but cannot be read or parsed is never replaced by the
/// defaults: the outcome is an error.
pub proof fn lemma_invalid_found_file_is_an_error(sources: ConfigurationSources)
    requires
        match sources.explicit {
            Some(candidate) => candidate.file is Invalid,
            None => sources.standalone.file is Invalid || (sources.standalone.file is Missing
                && sources.pyproject.file is Invalid),
        },
    ensures
        chosen_configuration(sources) matches Err(DcErrorView::ConfigurationInvalid { .. }),
{
}

} // verus!
