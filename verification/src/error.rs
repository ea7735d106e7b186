//! Error taxonomy of the library.

use vstd::prelude::*;

verus! {

/// Everything that can go wrong while tracking, parsing or synchronizing.
/// Errors raised by outside collaborators (the graph store, the grammar
/// engine) are carried as plain messages.
#[derive(Clone, Debug)]
pub enum AppError {
    Io(String),
    TreeSitter(String),
    Neo4j(String),
    Parse(String),
    Tauri(String),
    UnsupportedLanguage(String),
    Config(String),
    EnvVarNotFound(String),
    EnvVarParseError(String, String),
}

/// The category prefix a variant is reported under.
pub open spec fn spec_error_prefix(e: AppError) -> Seq<char> {
    match e {
        AppError::Io(_) => "IO error: "@,
        AppError::TreeSitter(_) => "Tree-sitter error: "@,
        AppError::Neo4j(_) => "Neo4j error: "@,
        AppError::Parse(_) => "Parsing error: "@,
        AppError::Tauri(_) => "Tauri error: "@,
        AppError::UnsupportedLanguage(_) => "Unsupported language: "@,
        AppError::Config(_) => "Configuration error: "@,
        AppError::EnvVarNotFound(_) => "Environment variable not found: "@,
        AppError::EnvVarParseError(_, _) => "Failed to parse environment variable: "@,
    }
}

/// The detail text a variant carries.
pub open spec fn spec_error_detail(e: AppError) -> Seq<char> {
    match e {
        AppError::Io(m) => m@,
        AppError::TreeSitter(m) => m@,
        AppError::Neo4j(m) => m@,
        AppError::Parse(m) => m@,
        AppError::Tauri(m) => m@,
        AppError::UnsupportedLanguage(m) => m@,
        AppError::Config(m) => m@,
        AppError::EnvVarNotFound(m) => m@,
        AppError::EnvVarParseError(k, m) => k@ + ": "@ + m@,
    }
}

impl AppError {
    /// Renders the error as one line: its category, then the detail.
    pub fn message(&self) -> (r: String)
        ensures
            r@ == spec_error_prefix(*self) + spec_error_detail(*self),
    {
        let prefix: &'static str = match self {
            AppError::Io(_) => "IO error: ",
            AppError::TreeSitter(_) => "Tree-sitter error: ",
            AppError::Neo4j(_) => "Neo4j error: ",
            AppError::Parse(_) => "Parsing error: ",
            AppError::Tauri(_) => "Tauri error: ",
            AppError::UnsupportedLanguage(_) => "Unsupported language: ",
            AppError::Config(_) => "Configuration error: ",
            AppError::EnvVarNotFound(_) => "Environment variable not found: ",
            AppError::EnvVarParseError(_, _) => "Failed to parse environment variable: ",
        };
        let mut out = prefix.to_owned();
        match self {
            AppError::Io(m) => out.append(m.as_str()),
            AppError::TreeSitter(m) => out.append(m.as_str()),
            AppError::Neo4j(m) => out.append(m.as_str()),
            AppError::Parse(m) => out.append(m.as_str()),
            AppError::Tauri(m) => out.append(m.as_str()),
            AppError::UnsupportedLanguage(m) => out.append(m.as_str()),
            AppError::Config(m) => out.append(m.as_str()),
            AppError::EnvVarNotFound(m) => out.append(m.as_str()),
            AppError::EnvVarParseError(k, m) => {
                out.append(k.as_str());
                out.append(": ");
                out.append(m.as_str());
            },
        }
        out
    }
}

} // verus!
