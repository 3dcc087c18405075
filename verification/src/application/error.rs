//! What keeps an application from being admitted, evaluated or staged.

use vstd::prelude::*;

use crate::text::{with_text, with_text_then};

verus! {

/// Errors raised before an application is allowed to execute.
#[derive(Clone, Debug, PartialEq, Eq)]
pub enum ApplicationError {
    /// The syntax parser rejected the source.
    Parse(Vec<String>),
    /// Name resolution or static type and effect checking rejected the source.
    Semantic(Vec<String>),
    /// The requested entry function was not present in the admitted module.
    MissingEntry(String),
    /// The bounded evaluator rejected the already-admitted program.
    Evaluation(String),
    /// Runtime staging rejected a malformed mutation or activation.
    Runtime(String),
    /// Canonical snapshot encoding failed while computing an activation digest.
    DigestEncoding,
    /// A table effect targeted a relation without admitted write schema.
    UnadmittedTable(String),
    /// The evaluator rejected an admitted effect outside the table boundary.
    EffectRejected(String),
}

impl ApplicationError {
    /// What this error tells a reader.
    pub open spec fn text(&self) -> Seq<char> {
        match self {
            ApplicationError::Parse(_) => "application source failed syntax admission"@,
            ApplicationError::Semantic(_) => "application source failed semantic admission"@,
            ApplicationError::MissingEntry(name) => "application entry `"@ + name@ + "` was not admitted"@,
            ApplicationError::Evaluation(code) => "application evaluation failed: "@ + code@,
            ApplicationError::Runtime(message) => "runtime activation staging failed: "@ + message@,
            ApplicationError::DigestEncoding => "activation context could not be canonically encoded"@,
            ApplicationError::UnadmittedTable(name) => "table `"@ + name@ + "` has no admitted write schema"@,
            ApplicationError::EffectRejected(code) => "admitted effect was rejected: "@ + code@,
        }
    }

    /// Renders this error for a reader.
    pub fn message(&self) -> (message: String)
        ensures
            message@ == self.text(),
    {
        match self {
            ApplicationError::Parse(_) => "application source failed syntax admission".to_owned(),
            ApplicationError::Semantic(_) => "application source failed semantic admission".to_owned(),
            ApplicationError::MissingEntry(name) => {
                with_text_then("application entry `", name.as_str(), "` was not admitted")
            },
            ApplicationError::Evaluation(code) => with_text("application evaluation failed: ", code.as_str()),
            ApplicationError::Runtime(message) => {
                with_text("runtime activation staging failed: ", message.as_str())
            },
            ApplicationError::DigestEncoding => {
                "activation context could not be canonically encoded".to_owned()
            },
            ApplicationError::UnadmittedTable(name) => {
                with_text_then("table `", name.as_str(), "` has no admitted write schema")
            },
            ApplicationError::EffectRejected(code) => with_text("admitted effect was rejected: ", code.as_str()),
        }
    }
}

/// Why a table effect of an admitted source is refused.
#[derive(Clone, Copy, Debug, PartialEq, Eq, Structural)]
pub enum EffectError {
    /// The call does not pass exactly one argument.
    TableArgument,
    /// The row key is missing or cannot be encoded.
    TableKey,
    /// The row does not fit the admitted schema or cannot be encoded.
    TableRow,
    /// The table has no admitted write schema.
    TableUnadmitted,
    /// The activation has used up its mutation ordinals.
    Limit,
}

impl EffectError {
    /// The stable code of this refusal.
    pub open spec fn text(self) -> Seq<char> {
        match self {
            EffectError::TableArgument => "ORNA-EVAL-TABLE-ARGUMENT"@,
            EffectError::TableKey => "ORNA-EVAL-TABLE-KEY"@,
            EffectError::TableRow => "ORNA-EVAL-TABLE-ROW"@,
            EffectError::TableUnadmitted => "ORNA-EVAL-TABLE-UNADMITTED"@,
            EffectError::Limit => "ORNA-EVAL-LIMIT"@,
        }
    }

    /// Returns the stable code of this refusal.
    pub fn code(self) -> (code: &'static str)
        ensures
            code@ == self.text(),
    {
        match self {
            EffectError::TableArgument => "ORNA-EVAL-TABLE-ARGUMENT",
            EffectError::TableKey => "ORNA-EVAL-TABLE-KEY",
            EffectError::TableRow => "ORNA-EVAL-TABLE-ROW",
            EffectError::TableUnadmitted => "ORNA-EVAL-TABLE-UNADMITTED",
            EffectError::Limit => "ORNA-EVAL-LIMIT",
        }
    }
}

} // verus!
