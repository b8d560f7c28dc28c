//! Validation, formatting and export helpers around the core types.
pub mod export;
pub mod json_formatter;
pub mod text_formatter;
pub mod url_validator;
