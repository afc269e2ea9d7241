//! The data model: classifications, severities, extracted variables,
//! deduplicated error records, summary counts and the parse result —
//! each with a mathematical view used by the contracts.
use vstd::prelude::*;

verus! {

/// Classification of a line.
#[derive(Debug, Clone, Copy, PartialEq, Eq, Structural)]
pub enum ErrorType {
    Error,
    Warning,
    Info,
}

/// Severity of an error record.
#[derive(Debug, Clone, Copy, PartialEq, Eq, Structural)]
pub enum Severity {
    Critical,
    High,
    Medium,
    Low,
}

/// Kind of a literal value extracted from a message.
#[derive(Debug, Clone, Copy, PartialEq, Eq, Structural)]
pub enum VariableType {
    NumericId,
    IpAddress,
    Uuid,
}

/// A literal value removed from a message during canonicalisation.
#[derive(Debug, Clone)]
pub struct Variable {
    pub placeholder: String,
    pub value: String,
    pub var_type: VariableType,
}

/// Mathematical view of a `Variable`.
#[verifier::ext_equal]
pub ghost struct VariableModel {
    pub placeholder: Seq<char>,
    pub value: Seq<char>,
    pub var_type: VariableType,
}

impl View for Variable {
    type V = VariableModel;

    open spec fn view(&self) -> VariableModel {
        VariableModel {
            placeholder: self.placeholder@,
            value: self.value@,
            var_type: self.var_type,
        }
    }
}

/// One deduplicated error: its identity, classification, first-seen
/// message and template, the variables of every occurrence, the joined
/// trace text, the location, the occurrence count, the first-seen
/// timestamp, and the fingerprint that keys it.
#[derive(Debug, Clone)]
pub struct ParsedError {
    pub id: String,
    pub error_type: ErrorType,
    pub severity: Severity,
    pub message: String,
    pub template: String,
    pub variables: Vec<Variable>,
    pub full_trace: String,
    pub file: Option<String>,
    pub line: Option<u32>,
    pub column: Option<u32>,
    pub occurrences: u32,
    pub timestamp: Option<String>,
    pub fingerprint: String,
}

/// Mathematical view of a `ParsedError`.
#[verifier::ext_equal]
pub ghost struct RecordModel {
    pub id: Seq<char>,
    pub error_type: ErrorType,
    pub severity: Severity,
    pub message: Seq<char>,
    pub template: Seq<char>,
    pub variables: Seq<VariableModel>,
    pub full_trace: Seq<char>,
    pub file: Option<Seq<char>>,
    pub line: Option<u32>,
    pub column: Option<u32>,
    pub occurrences: int,
    pub timestamp: Option<Seq<char>>,
    pub fingerprint: Seq<char>,
}

pub open spec fn view_opt_string(o: Option<String>) -> Option<Seq<char>> {
    match o {
        Some(s) => Some(s@),
        None => None,
    }
}

impl View for ParsedError {
    type V = RecordModel;

    open spec fn view(&self) -> RecordModel {
        RecordModel {
            id: self.id@,
            error_type: self.error_type,
            severity: self.severity,
            message: self.message@,
            template: self.template@,
            variables: self.variables.deep_view(),
            full_trace: self.full_trace@,
            file: view_opt_string(self.file),
            line: self.line,
            column: self.column,
            occurrences: self.occurrences as int,
            timestamp: view_opt_string(self.timestamp),
            fingerprint: self.fingerprint@,
        }
    }
}

impl DeepView for Variable {
    type V = VariableModel;

    open spec fn deep_view(&self) -> VariableModel {
        self.view()
    }
}

impl DeepView for ParsedError {
    type V = RecordModel;

    open spec fn deep_view(&self) -> RecordModel {
        self.view()
    }
}

/// Aggregate counts over the whole input.
#[derive(Debug, Clone, PartialEq, Eq, Structural)]
pub struct LogStats {
    pub total_lines: usize,
    pub total_errors: usize,
    pub total_warnings: usize,
    pub total_info: usize,
    pub unique_errors: usize,
}

/// The outcome of a parse: summary counts and the retained records.
#[derive(Debug, Clone)]
pub struct ParseResult {
    pub summary: LogStats,
    pub errors: Vec<ParsedError>,
}

} // verus!
