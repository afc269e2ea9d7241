use log_parser::classify::{
    determine_error_type, determine_severity, extract_error_message, is_stack_trace_line,
};
use log_parser::fingerprint::{generate_fingerprint, test_fingerprint};
use log_parser::locate::{
    extract_go_location, extract_java_location, extract_location_any_format,
    extract_node_location, extract_python_location, extract_rust_location,
};
use log_parser::matchers::extract_timestamp;
use log_parser::records::{ErrorType, Severity, VariableType};
use log_parser::session::{parse_log, parse_log_content, LogParser};
use log_parser::template::{extract_template, test_extract_template};

#[test]
fn test_empty_input() {
    let result = parse_log("");
    assert_eq!(result.summary.total_lines, 0);
    assert_eq!(result.summary.total_errors, 0);
    assert_eq!(result.summary.total_warnings, 0);
    assert_eq!(result.summary.total_info, 0);
    assert_eq!(result.summary.unique_errors, 0);
    assert!(result.errors.is_empty());
}

#[test]
fn test_trace_join() {
    let result = parse_log("2025-01-01T00:00:00Z ERROR boom\n    at foo (file.js:10:5)");
    assert_eq!(result.summary.total_lines, 2);
    assert_eq!(result.summary.total_errors, 1);
    assert_eq!(result.summary.unique_errors, 1);
    assert_eq!(result.errors.len(), 1);
    let e = &result.errors[0];
    assert_eq!(e.error_type, ErrorType::Error);
    assert_eq!(e.file.as_deref(), Some("file.js"));
    assert_eq!(e.line, Some(10));
    assert_eq!(e.column, Some(5));
    assert!(e.full_trace.contains("ERROR boom"));
    assert!(e.full_trace.contains("at foo (file.js:10:5)"));
    assert_eq!(e.occurrences, 1);
}

#[test]
fn test_dedup_same_template() {
    let result = parse_log("Error: User 12345 not found\nError: User 67890 not found");
    assert_eq!(result.summary.unique_errors, 1);
    assert_eq!(result.errors.len(), 1);
    let e = &result.errors[0];
    assert_eq!(e.template, "User {ID} not found");
    assert_eq!(e.occurrences, 2);
    assert_eq!(e.variables.len(), 2);
    assert_eq!(e.variables[0].value, "12345");
    assert_eq!(e.variables[0].var_type, VariableType::NumericId);
    assert_eq!(e.variables[1].value, "67890");
    assert_eq!(e.variables[1].var_type, VariableType::NumericId);
    // first-seen message is retained
    assert_eq!(e.message, "User 12345 not found");
}

#[test]
fn test_top_twenty_bound() {
    let mut text = String::new();
    for i in 0..25 {
        text.push_str("Error: failure ");
        for _ in 0..(i + 1) {
            text.push('x');
        }
        text.push('\n');
    }
    let result = parse_log(&text);
    assert_eq!(result.summary.total_errors, 25);
    assert_eq!(result.summary.unique_errors, 25);
    assert_eq!(result.errors.len(), 20);
}

#[test]
fn test_sort_by_occurrences() {
    let text = "Error: rare glitch\nError: common fault\nError: common fault\nError: common fault";
    let result = parse_log(text);
    assert_eq!(result.summary.unique_errors, 2);
    assert_eq!(result.errors[0].occurrences, 3);
    assert_eq!(result.errors[0].template, "common fault");
    assert_eq!(result.errors[1].occurrences, 1);
}

#[test]
fn test_counters_bounded_by_lines() {
    let text = "INFO start\nWARN low disk\nError: crash\n    at a (b.js:1:2)\n\nplain text line";
    let result = parse_log(text);
    let s = &result.summary;
    assert_eq!(s.total_lines, 6);
    assert!(s.total_errors + s.total_warnings + s.total_info <= s.total_lines);
    assert_eq!(s.total_errors, 1);
    assert_eq!(s.total_warnings, 1);
    assert_eq!(s.total_info, 1);
}

#[test]
fn test_incremental_matches_whole() {
    let text = "Error: one\nWARN two\nINFO three";
    let whole = parse_log_content(text);
    let mut parser = LogParser::new();
    parser.process_line("Error: one");
    parser.process_line("WARN two");
    parser.process_line("INFO three");
    let inc = parser.get_result();
    assert_eq!(inc.summary, whole.summary);
    assert_eq!(inc.errors.len(), whole.errors.len());
    assert_eq!(inc.errors[0].template, whole.errors[0].template);
    // finalize is read-only and repeatable
    let again = parser.get_result();
    assert_eq!(again.summary, inc.summary);
}

#[test]
fn test_structured_level_classification() {
    let t = determine_error_type("2025-05-27 00:40:12 INFO all systems nominal");
    assert_eq!(t, ErrorType::Info);
    let t2 = determine_error_type("2025-05-27 00:40:12 WARN disk pressure");
    assert_eq!(t2, ErrorType::Warning);
    let t3 = determine_error_type("2025-05-27 00:40:12 ERROR it broke");
    assert_eq!(t3, ErrorType::Error);
    // a level keyword buried inside a longer word does not count
    let t4 = determine_error_type("2025-05-27 00:40:12 INFO connection erroneous");
    assert_eq!(t4, ErrorType::Info);
    // the first level keyword after the stamp decides: a free-text
    // "error" later in the line cannot override the explicit INFO
    let t5 = determine_error_type("2025-05-27 00:40:12 INFO connection error ignored");
    assert_eq!(t5, ErrorType::Info);
    // a bracketed tag ends the region in which a level keyword counts
    let t6 = determine_error_type("2025-05-27 00:40:12 [app] ERROR it broke");
    assert_eq!(t6, ErrorType::Error);
    let t7 = determine_error_type("2025-05-27 00:40:12 WARN saw an error today");
    assert_eq!(t7, ErrorType::Warning);
}

#[test]
fn test_exception_signature_is_error() {
    assert_eq!(
        determine_error_type("TypeError: x is undefined"),
        ErrorType::Error
    );
    assert_eq!(determine_error_type("nothing special"), ErrorType::Info);
    assert_eq!(determine_error_type("WARNING: low memory"), ErrorType::Warning);
}

#[test]
fn test_severity_rules() {
    assert_eq!(
        determine_severity(&ErrorType::Error, "fatal disk failure"),
        Severity::Critical
    );
    assert_eq!(
        determine_severity(&ErrorType::Error, "segfault in module"),
        Severity::Critical
    );
    assert_eq!(
        determine_severity(&ErrorType::Error, "null pointer here"),
        Severity::High
    );
    assert_eq!(
        determine_severity(&ErrorType::Error, "x is undefined"),
        Severity::High
    );
    assert_eq!(
        determine_severity(&ErrorType::Error, "ordinary breakage"),
        Severity::Medium
    );
    assert_eq!(
        determine_severity(&ErrorType::Warning, "fatal sounding warning"),
        Severity::Low
    );
    assert_eq!(
        determine_severity(&ErrorType::Info, "note"),
        Severity::Low
    );
}

#[test]
fn test_extract_error_message_shapes() {
    assert_eq!(
        extract_error_message("TypeError: x is undefined"),
        "x is undefined"
    );
    assert_eq!(
        extract_error_message("boom.RuntimeException: pool dry"),
        "pool dry"
    );
    assert_eq!(
        extract_error_message("Caused by: disk on fire"),
        "disk on fire"
    );
    assert_eq!(extract_error_message("  raw text line  "), "raw text line");
}

#[test]
fn test_extract_timestamp_shapes() {
    assert_eq!(
        extract_timestamp("2025-01-01T00:00:00.123Z something"),
        Some("2025-01-01T00:00:00.123Z".to_string())
    );
    assert_eq!(
        extract_timestamp("at 2025-01-01 10:20:30+02:00 it broke"),
        Some("2025-01-01 10:20:30+02:00".to_string())
    );
    assert_eq!(extract_timestamp("no stamp here"), None);
}

#[test]
fn test_locations_per_ecosystem() {
    assert_eq!(
        extract_node_location("    at foo (file.js:10:5)"),
        (Some("file.js".to_string()), Some(10), Some(5))
    );
    assert_eq!(
        extract_python_location("  File \"app.py\", line 42"),
        (Some("app.py".to_string()), Some(42), None)
    );
    assert_eq!(
        extract_java_location("\tat com.foo.Bar.baz(Bar.java:99)"),
        (Some("Bar.java".to_string()), Some(99), None)
    );
    assert_eq!(
        extract_go_location("\tmain.go:25 +0x1f"),
        (Some("main.go".to_string()), Some(25), None)
    );
    assert_eq!(
        extract_rust_location("at foo::bar (lib.rs:7:9)"),
        (Some("lib.rs".to_string()), Some(7), Some(9))
    );
    assert_eq!(
        extract_location_any_format("    at foo (file.js:10:5)"),
        (Some("file.js".to_string()), Some(10), Some(5))
    );
    assert_eq!(
        extract_location_any_format("nothing here"),
        (None, None, None)
    );
}

#[test]
fn test_stack_trace_line_shapes() {
    assert!(is_stack_trace_line("    at foo (a.js:1:2)"));
    assert!(is_stack_trace_line("  File \"x.py\", line 3"));
    assert!(is_stack_trace_line("\tat com.example.Main.run(Main.java:10)"));
    assert!(is_stack_trace_line("Caused by: java.io.IOException: nope"));
    assert!(is_stack_trace_line("  3 | let x = y;"));
    assert!(is_stack_trace_line("    deeply indented continuation"));
    assert!(!is_stack_trace_line("    // an indented comment"));
    assert!(!is_stack_trace_line("an ordinary line"));
}

#[test]
fn test_template_extraction_cases() {
    let (t, vars) = extract_template("User 12345 not found");
    assert_eq!(t, "User {ID} not found");
    assert_eq!(vars.len(), 1);
    assert_eq!(vars[0].placeholder, "{ID}");
    assert_eq!(vars[0].value, "12345");

    let (t, vars) = extract_template("ping 10.0.0.1 ok");
    assert_eq!(t, "ping {IP} ok");
    assert_eq!(vars.len(), 1);
    assert_eq!(vars[0].var_type, VariableType::IpAddress);

    // an octet above 255 is not an address, and short digit runs stay
    let (t, vars) = extract_template("ping 999.1.2.3 done");
    assert_eq!(t, "ping 999.1.2.3 done");
    assert!(vars.is_empty());

    // short counts are never treated as identifiers
    let (t, vars) = extract_template("5 users in 10 rooms");
    assert_eq!(t, "5 users in 10 rooms");
    assert!(vars.is_empty());

    let (t, vars) = extract_template("id 550e8400-e29b-41d4-a716-446655440000 gone");
    assert_eq!(t, "id {UUID} gone");
    assert_eq!(vars[0].placeholder, "{UUID}");
    assert_eq!(vars[0].var_type, VariableType::Uuid);
    // the long digit group inside the identifier is also recorded,
    // though its text is already gone from the template
    assert_eq!(vars.len(), 2);
    assert_eq!(vars[1].value, "446655440000");

    let (t2, v2) = test_extract_template("User 12345 not found");
    assert_eq!(t2, "User {ID} not found");
    assert_eq!(v2.len(), 1);
}

#[test]
fn test_fingerprint_deterministic() {
    let a = test_fingerprint("User {ID} not found");
    let b = test_fingerprint("User {ID} not found");
    assert_eq!(a, b);
    assert_eq!(a.len(), 64);
    let c = generate_fingerprint(
        "User {ID} not found",
        &Some("file.js".to_string()),
        &Some(10),
    );
    let d = generate_fingerprint(
        "User {ID} not found",
        &Some("file.js".to_string()),
        &Some(10),
    );
    assert_eq!(c, d);
    assert_ne!(a, c);
    // case folding and trimming canonicalise the template
    assert_eq!(
        test_fingerprint("  USER {id} NOT FOUND "),
        test_fingerprint("user {id} not found")
    );
}

#[test]
fn test_chained_cause_stays_attached() {
    let text = "Exception: top level\n\tat com.foo.A.b(A.java:5)\nCaused by: deeper trouble\n\tat com.foo.C.d(C.java:9)";
    let result = parse_log(text);
    assert_eq!(result.summary.unique_errors, 1);
    let e = &result.errors[0];
    assert!(e.full_trace.contains("Caused by: deeper trouble"));
    assert!(e.full_trace.contains("C.java:9"));
    assert_eq!(e.file.as_deref(), Some("A.java"));
}

#[test]
fn test_blank_line_keeps_trace_open() {
    let text = "Error: first\n\n    at foo (a.js:1:2)";
    let result = parse_log(text);
    let e = &result.errors[0];
    // the blank line neither breaks nor extends the trace
    assert!(e.full_trace.contains("a.js"));
    assert_eq!(result.summary.total_lines, 3);
}

#[test]
fn test_trailing_newline_no_extra_line() {
    let result = parse_log("INFO hi\n");
    assert_eq!(result.summary.total_lines, 1);
    let result2 = parse_log("INFO hi\r\nINFO ho");
    assert_eq!(result2.summary.total_lines, 2);
}

#[test]
fn test_carriage_return_handling() {
    // '\r' is consumed only as part of a "\r\n" terminator
    let r = parse_log("Error: boom\r\nError: boom");
    assert_eq!(r.summary.unique_errors, 1);
    assert_eq!(r.errors[0].occurrences, 2);
    // a bare trailing '\r' with no '\n' belongs to the final line
    let r2 = parse_log("Error: boom\r");
    assert_eq!(r2.summary.total_lines, 1);
    assert!(r2.errors[0].full_trace.ends_with('\r'));
}

#[test]
fn test_repeat_occurrence_merges_trace_and_variables() {
    let text = "Error: task 1111 died\nplain interlude\nError: task 2222 died";
    let result = parse_log(text);
    assert_eq!(result.summary.unique_errors, 1);
    let e = &result.errors[0];
    assert_eq!(e.occurrences, 2);
    assert!(e.full_trace.contains("---"));
    assert!(e.full_trace.contains("task 2222 died"));
    assert_eq!(e.variables.len(), 2);
    // first-seen severity and template are kept
    assert_eq!(e.template, "task {ID} died");
}
