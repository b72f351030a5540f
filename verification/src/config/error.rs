//! Errors of loading and validating a configuration.
use vstd::prelude::*;
use crate::text::{decimal_digits, decimal_text, join2, join3};

verus! {

/// One finding of the validation: the field, what is wrong with it, and
/// where in the document it was found.
#[derive(Debug, Clone)]
pub struct ValidationError {
    pub field: String,
    pub error: String,
    pub location: Option<String>,
}

/// What a validation error says, as plain texts.
pub struct ErrorRecord {
    pub field: Seq<char>,
    pub error: Seq<char>,
    pub location: Option<Seq<char>>,
}

impl View for ValidationError {
    type V = ErrorRecord;

    open spec fn view(&self) -> ErrorRecord {
        ErrorRecord {
            field: self.field@,
            error: self.error@,
            location: match self.location {
                Some(text) => Some(text@),
                None => None,
            },
        }
    }
}

/// What a list of validation errors says.
pub open spec fn records(errors: Seq<ValidationError>) -> Seq<ErrorRecord> {
    errors.map_values(|e: ValidationError| e@)
}

/// The one-line text of an error record: field, message and, in brackets,
/// the location where there is one.
pub open spec fn record_text(record: ErrorRecord) -> Seq<char> {
    match record.location {
        Some(location) => record.field + ": "@ + record.error + " ("@ + location + ")"@,
        None => record.field + ": "@ + record.error,
    }
}

impl ValidationError {
    /// This error on one line.
    pub fn to_text(&self) -> (text: String)
        ensures
            text@ == record_text(self@),
    {
        let mut text = join3(self.field.as_str(), ": ", self.error.as_str());
        match &self.location {
            Some(location) => {
                text.append(" (");
                text.append(location.as_str());
                text.append(")");
            },
            None => {},
        }
        text
    }
}

/// Why a configuration could not be loaded.
#[derive(Debug, Clone)]
pub enum ConfigError {
    /// The document could not be parsed; the text says why.
    ParseError(String),
    /// The document breaks rules; the count and the findings.
    ValidationError(usize, Vec<ValidationError>),
    /// The document could not be read or written; the text says why.
    IoError(String),
}

/// The one-line text of a configuration error.
pub open spec fn config_error_text(error: ConfigError) -> Seq<char> {
    match error {
        ConfigError::ParseError(reason) => "Failed to parse configuration: "@ + reason@,
        ConfigError::ValidationError(count, _) => "Configuration validation failed with "@
            + decimal_digits(count as nat) + " error(s)"@,
        ConfigError::IoError(reason) => "I/O error: "@ + reason@,
    }
}

impl ConfigError {
    /// The findings, where this is a validation error.
    pub fn validation_errors(&self) -> (found: Option<&Vec<ValidationError>>)
        ensures
            match *self {
                ConfigError::ValidationError(_, errors) => found == Some(&errors),
                _ => found is None,
            },
    {
        match self {
            ConfigError::ValidationError(_, errors) => Some(errors),
            _ => None,
        }
    }

    /// This error on one line.
    pub fn to_text(&self) -> (text: String)
        ensures
            text@ == config_error_text(*self),
    {
        match self {
            ConfigError::ParseError(reason) => join2(
                "Failed to parse configuration: ",
                reason.as_str(),
            ),
            ConfigError::ValidationError(count, _) => {
                let digits = decimal_text(*count);
                join3("Configuration validation failed with ", digits.as_str(), " error(s)")
            },
            ConfigError::IoError(reason) => join2("I/O error: ", reason.as_str()),
        }
    }
}

} // verus!
