//! Errors of the `dc` tool.
//!
//! Configuration errors are fatal. Read and parse errors of single project
//! files do not stop the analysis: they are gathered in the report as
//! skipped files.

use vstd::prelude::*;

use crate::text::{append_str, concat_strs};

verus! {

/// An error of the `dc` tool.
#[derive(Debug)]
pub enum DcError {
    /// The explicitly requested configuration file does not exist.
    ConfigurationNotFound {
        /// The path of the missing configuration file.
        path: String,
    },
    /// The configuration file could not be read or parsed.
    ConfigurationInvalid {
        /// The path of the configuration file.
        path: String,
        /// What went wrong while reading or parsing.
        message: String,
    },
    /// The target directory of the analysis does not exist.
    TargetNotFound {
        /// The path of the missing directory.
        path: String,
    },
}

/// The abstract value of an error.
pub enum DcErrorView {
    ConfigurationNotFound { path: Seq<char> },
    ConfigurationInvalid { path: Seq<char>, message: Seq<char> },
    TargetNotFound { path: Seq<char> },
}

impl View for DcError {
    type V = DcErrorView;

    open spec fn view(&self) -> DcErrorView {
        match self {
            DcError::ConfigurationNotFound { path } => DcErrorView::ConfigurationNotFound {
                path: path@,
            },
            DcError::ConfigurationInvalid { path, message } => DcErrorView::ConfigurationInvalid {
                path: path@,
                message: message@,
            },
            DcError::TargetNotFound { path } => DcErrorView::TargetNotFound { path: path@ },
        }
    }
}

/// The text that describes an error to the user.
pub open spec fn error_message(error: DcErrorView) -> Seq<char> {
    match error {
        DcErrorView::ConfigurationNotFound { path } => "файл конфигурации не найден: "@ + path,
        DcErrorView::ConfigurationInvalid { path, message } => "некорректная конфигурация "@
            + path + ": "@ + message,
        DcErrorView::TargetNotFound { path } => "целевая директория не существует: "@ + path,
    }
}

impl DcError {
    /// Describes the error to the user.
    pub fn message(&self) -> (text: String)
        ensures
            text@ == error_message(self@),
    {
        match self {
            DcError::ConfigurationNotFound { path } => {
                concat_strs("файл конфигурации не найден: ", path.as_str())
            },
            DcError::ConfigurationInvalid { path, message } => {
                let mut text = concat_strs("некорректная конфигурация ", path.as_str());
                append_str(&mut text, ": ");
                append_str(&mut text, message.as_str());
                text
            },
            DcError::TargetNotFound { path } => {
                concat_strs("целевая директория не существует: ", path.as_str())
            },
        }
    }
}

} // verus!
