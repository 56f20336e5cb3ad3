//! Dead code detection for Django projects: the verified core.
//!
//! The library selects the Python files of a project, extracts from each
//! syntax tree the entities it defines and the names it uses, builds a graph
//! of dependencies between modules and entities, and reports the entities
//! that no root (a module, an entry point, a dynamically named object or a
//! method the framework calls) reaches.

pub mod config;
pub mod error;
pub mod graph;
pub mod heuristics;
pub mod model;
pub mod order;
pub mod paths;
pub mod pipeline;
pub mod render;
pub mod sorting;
pub mod text;

pub use config::{load_configuration, AnalyzerConfiguration};
pub use error::DcError;
pub use model::{AnalysisReport, CodeEntity, DeadCodeFinding, EntityKind, FileAnalysis, SkippedFile};
pub use pipeline::run_analysis;
pub use render::{render_report, ReportFormat};
