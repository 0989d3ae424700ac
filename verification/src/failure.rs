//! The ways in which a run can fail.

use vstd::prelude::*;

verus! {

/// Every failure is terminal for the run in which it occurs.
#[derive(Debug, Clone, Copy, PartialEq, Eq, Structural)]
pub enum Failure {
    /// The configuration file is absent.
    ConfigMissing,
    /// The configuration file does not hold a JSON object.
    ConfigParseError,
    /// No base template exists for the extension of the output path.
    TemplateNotFound,
    /// The output path has no file extension.
    MissingExtension,
    /// A variable's value is not plain text.
    NonStringVariable,
    /// The document has no lines to measure.
    EmptyDocument,
    /// The output could not be written.
    WriteError,
    /// Initialisation was asked for although a configuration already exists.
    AlreadyInitialized,
}

impl Failure {
    /// The text of the message that names the failing stage.
    pub open spec fn message_text(self) -> Seq<char> {
        match self {
            Failure::ConfigMissing => "failed to read variables"@,
            Failure::ConfigParseError => "failed to parse variables"@,
            Failure::TemplateNotFound => "failed to read base file"@,
            Failure::MissingExtension => "failed to get output file extension"@,
            Failure::NonStringVariable => "variable is not a string"@,
            Failure::EmptyDocument => "failed to get longest line"@,
            Failure::WriteError => "failed to write output file"@,
            Failure::AlreadyInitialized => "variables.json already exists"@,
        }
    }

    /// A human-readable message for the operator.
    pub fn message(&self) -> (out: String)
        ensures
            out@ == self.message_text(),
    {
        let text: &str = match self {
            Failure::ConfigMissing => "failed to read variables",
            Failure::ConfigParseError => "failed to parse variables",
            Failure::TemplateNotFound => "failed to read base file",
            Failure::MissingExtension => "failed to get output file extension",
            Failure::NonStringVariable => "variable is not a string",
            Failure::EmptyDocument => "failed to get longest line",
            Failure::WriteError => "failed to write output file",
            Failure::AlreadyInitialized => "variables.json already exists",
        };
        text.to_owned()
    }
}

} // verus!
