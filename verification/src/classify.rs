//! Line classification: the priority cascade that decides Error, Warning
//! or Info, the severity rules, error-line and continuation-line
//! detection, and message extraction across the supported shapes.
use vstd::prelude::*;
use crate::text::{
    match_at, contains_sub, contains_ci, trim_spec, to_chars, is_match_at, has_sub, has_sub_ci,
    trim_chars,
};
use crate::matchers::{
    structured_level, sig_match, node_toks, python_toks, java_toks, generic_error_kw,
    generic_warn_kw, generic_info_kw, sig_msg, caused_by_match, caused_by_msg, code_context_match,
    structured_level_exec, has_sig, node_toks_exec, python_toks_exec, java_toks_exec,
    is_generic_error, is_generic_warn, is_generic_info, sig_message, caused_by_message,
    is_caused_by, is_code_context,
};
use crate::locate::{java_loc_from, go_stack_match, rust_loc_from, go_a_match_exec,
    go_b_parse_exec, java_loc_exec, rust_loc_exec};
use crate::records::{ErrorType, Severity};

verus! {

/// Any of the supported exception signatures matches the line.
pub open spec fn any_sig_match(s: Seq<char>) -> bool {
    sig_match(s, node_toks()) || sig_match(s, python_toks()) || sig_match(s, java_toks())
}

/// Classification of a line, in priority order: an explicit structured
/// level after a leading timestamp wins, and the first level keyword
/// after the stamp decides, so a free-text level word later in the
/// line cannot override it; an exception signature makes the line an
/// error even without a level keyword; generic keywords anywhere in
/// the line come next; everything else is Info.
pub open spec fn spec_error_type(s: Seq<char>) -> ErrorType {
    match structured_level(s) {
        Some(level) => level,
        None => if any_sig_match(s) {
            ErrorType::Error
        } else if generic_error_kw(s) {
            ErrorType::Error
        } else if generic_warn_kw(s) {
            ErrorType::Warning
        } else if generic_info_kw(s) {
            ErrorType::Info
        } else {
            ErrorType::Info
        },
    }
}

pub fn determine_error_type_chars(s: &Vec<char>) -> (r: ErrorType)
    ensures
        r == spec_error_type(s@),
{
    if let Some(level) = structured_level_exec(s) {
        return level;
    }
    let nt = node_toks_exec();
    let pt = python_toks_exec();
    let jt = java_toks_exec();
    if has_sig(s, &nt) || has_sig(s, &pt) || has_sig(s, &jt) {
        return ErrorType::Error;
    }
    if is_generic_error(s) {
        return ErrorType::Error;
    }
    if is_generic_warn(s) {
        return ErrorType::Warning;
    }
    if is_generic_info(s) {
        return ErrorType::Info;
    }
    ErrorType::Info
}

/// A line that produces or merges an error record: an exception
/// signature or a generic error keyword.
pub open spec fn is_error_line_spec(s: Seq<char>) -> bool {
    any_sig_match(s) || generic_error_kw(s)
}

pub fn is_error_line_chars(s: &Vec<char>) -> (r: bool)
    ensures
        r == is_error_line_spec(s@),
{
    let nt = node_toks_exec();
    let pt = python_toks_exec();
    let jt = java_toks_exec();
    has_sig(s, &nt) || has_sig(s, &pt) || has_sig(s, &jt) || is_generic_error(s)
}

/// Severity of an error record: Critical when the message names a fatal
/// condition, High when it points at a null/undefined reference, Medium
/// otherwise; warnings and info lines are always Low.
pub open spec fn spec_severity(et: ErrorType, msg: Seq<char>) -> Severity {
    match et {
        ErrorType::Error => {
            if contains_ci(msg, "fatal"@) || contains_ci(msg, "critical"@) || contains_ci(
                msg,
                "segfault"@,
            ) || contains_ci(msg, "panic"@) {
                Severity::Critical
            } else if contains_ci(msg, "null"@) || contains_ci(msg, "undefined"@) || contains_ci(
                msg,
                "reference"@,
            ) {
                Severity::High
            } else {
                Severity::Medium
            }
        },
        ErrorType::Warning => Severity::Low,
        ErrorType::Info => Severity::Low,
    }
}

pub fn determine_severity_chars(et: &ErrorType, msg: &Vec<char>) -> (r: Severity)
    ensures
        r == spec_severity(*et, msg@),
{
    match et {
        ErrorType::Error => {
            if has_sub_ci(msg, &to_chars("fatal")) || has_sub_ci(msg, &to_chars("critical"))
                || has_sub_ci(msg, &to_chars("segfault")) || has_sub_ci(msg, &to_chars("panic")) {
                Severity::Critical
            } else if has_sub_ci(msg, &to_chars("null")) || has_sub_ci(msg, &to_chars("undefined"))
                || has_sub_ci(msg, &to_chars("reference")) {
                Severity::High
            } else {
                Severity::Medium
            }
        },
        ErrorType::Warning => Severity::Low,
        ErrorType::Info => Severity::Low,
    }
}

/// The message of an error line: the first exception signature's text,
/// else a chained-cause message, else the trimmed line itself.
pub open spec fn spec_extract_message(s: Seq<char>) -> Seq<char> {
    match sig_msg(s, node_toks()) {
        Some(m) => m,
        None => match sig_msg(s, python_toks()) {
            Some(m) => m,
            None => match sig_msg(s, java_toks()) {
                Some(m) => m,
                None => match caused_by_msg(s) {
                    Some(m) => m,
                    None => trim_spec(s),
                },
            },
        },
    }
}

pub fn extract_error_message_chars(s: &Vec<char>) -> (r: Vec<char>)
    ensures
        r@ == spec_extract_message(s@),
{
    let nt = node_toks_exec();
    if let Some(m) = sig_message(s, &nt) {
        return m;
    }
    let pt = python_toks_exec();
    if let Some(m) = sig_message(s, &pt) {
        return m;
    }
    let jt = java_toks_exec();
    if let Some(m) = sig_message(s, &jt) {
        return m;
    }
    if let Some(m) = caused_by_message(s) {
        return m;
    }
    trim_chars(s)
}

/// A continuation line of an in-progress trace: a JS frame prefix, an
/// embedded indented frame, a Python frame opener, a JVM, Go or
/// panic-style frame, a chained cause, a code-context line, or plain
/// four-space indentation that is not a comment.
pub open spec fn stack_line_spec(s: Seq<char>) -> bool {
    let t = trim_spec(s);
    ||| match_at(t, 0, "at "@)
    ||| contains_sub(s, "    at "@)
    ||| match_at(t, 0, "File \""@)
    ||| match_at(t, 0, "File '"@)
    ||| java_loc_from(s, 0) is Some
    ||| go_stack_match(s)
    ||| rust_loc_from(s, 0) is Some
    ||| caused_by_match(s)
    ||| code_context_match(s)
    ||| (t.len() > 0 && match_at(s, 0, "    "@) && !match_at(t, 0, "//"@))
}

pub fn is_stack_trace_line_chars(s: &Vec<char>) -> (r: bool)
    ensures
        r == stack_line_spec(s@),
{
    let t = trim_chars(s);
    if is_match_at(&t, 0, &to_chars("at ")) {
        return true;
    }
    if has_sub(s, &to_chars("    at ")) {
        return true;
    }
    if is_match_at(&t, 0, &to_chars("File \"")) || is_match_at(&t, 0, &to_chars("File '")) {
        return true;
    }
    if java_loc_exec(s).is_some() {
        return true;
    }
    if go_a_match_exec(s) || go_b_parse_exec(s).is_some() {
        return true;
    }
    if rust_loc_exec(s).is_some() {
        return true;
    }
    if is_caused_by(s) {
        return true;
    }
    if is_code_context(s) {
        return true;
    }
    t.len() > 0 && is_match_at(s, 0, &to_chars("    ")) && !is_match_at(&t, 0, &to_chars("//"))
}

/// Classification of a log line.
pub fn determine_error_type(line: &str) -> (r: ErrorType)
    ensures
        r == spec_error_type(line@),
{
    let v = to_chars(line);
    determine_error_type_chars(&v)
}

/// Severity of a message under a classification.
pub fn determine_severity(error_type: &ErrorType, message: &str) -> (r: Severity)
    ensures
        r == spec_severity(*error_type, message@),
{
    let v = to_chars(message);
    determine_severity_chars(error_type, &v)
}

/// The message an error line carries.
pub fn extract_error_message(line: &str) -> (r: String)
    ensures
        r@ == spec_extract_message(line@),
{
    let v = to_chars(line);
    let m = extract_error_message_chars(&v);
    crate::text::from_chars(&m)
}

/// Whether a line continues the trace of the most recent error.
pub fn is_stack_trace_line(line: &str) -> (r: bool)
    ensures
        r == stack_line_spec(line@),
{
    let v = to_chars(line);
    is_stack_trace_line_chars(&v)
}

} // verus!
