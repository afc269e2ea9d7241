use log_parser::cluster::{cluster_by_similarity, cluster_errors};
use log_parser::editdist::{levenshtein_distance, similarity_score};
use log_parser::lcs::{compute_multi_lcs, lcs_two_strings};
use log_parser::pattern::{
    build_regex_from_template, calculate_confidence, detect_pattern, detect_pattern_lcs,
    extract_variable_segments, split_by_lcs,
};

#[test]
fn test_lcs() {
    let result = lcs_two_strings("User 123 not found", "User 456 not found");
    assert!(result.contains("User"));
    assert!(result.contains("not found"));
}

#[test]
fn test_levenshtein() {
    assert_eq!(levenshtein_distance("kitten", "sitting"), 3);
    assert_eq!(levenshtein_distance("", ""), 0);
    assert_eq!(levenshtein_distance("abc", "abc"), 0);
}

#[test]
fn test_pattern_detection() {
    let examples = vec![
        "User 12345 not found".to_string(),
        "User 67890 not found".to_string(),
        "User 99999 not found".to_string(),
    ];

    let pattern = detect_pattern_lcs(&examples);
    assert!(pattern.is_some());

    let p = pattern.unwrap();
    assert!(p.template.contains("{VAR}"));
    assert!(p.confidence > 700);
}

#[test]
fn test_levenshtein_one_empty() {
    assert_eq!(levenshtein_distance("abc", ""), 3);
    assert_eq!(levenshtein_distance("", "xyzw"), 4);
}

#[test]
fn test_similarity_score_units() {
    // identical strings score full, in thousandths
    assert_eq!(similarity_score("abc", "abc"), 1000);
    // completely different strings of equal length score zero
    assert_eq!(similarity_score("abc", "xyz"), 0);
    // kitten/sitting: distance 3 over length 7
    assert_eq!(similarity_score("kitten", "sitting"), (7 - 3) * 1000 / 7);
    // two empty strings count as identical
    assert_eq!(similarity_score("", ""), 1000);
}

#[test]
fn test_multi_lcs_fold() {
    let strings = vec![
        "User 123 not found".to_string(),
        "User 456 not found".to_string(),
        "User 789 not found".to_string(),
    ];
    let backbone = compute_multi_lcs(&strings);
    assert_eq!(backbone, "User  not found");
}

#[test]
fn test_pattern_single_example_absent() {
    let examples = vec!["abc".to_string()];
    assert!(detect_pattern(&examples).is_none());
}

#[test]
fn test_pattern_duplicate_examples_absent() {
    // two equal strings collapse to one distinct example
    let examples = vec!["same line".to_string(), "same line".to_string()];
    assert!(detect_pattern(&examples).is_none());
}

#[test]
fn test_pattern_connection_examples() {
    let examples = vec![
        "Connection to 10.0.0.1 failed".to_string(),
        "Connection to 10.0.0.2 failed".to_string(),
    ];
    let p = detect_pattern(&examples).expect("pattern expected");
    assert!(p.template.contains("{VAR}"));
    assert!(p.confidence > 700);
    assert!(p.common_parts.contains(&"Connection".to_string()));
    // the generated matcher accepts the examples it was learned from
    let re = regex::Regex::new(&p.regex).expect("generated matcher compiles");
    assert!(re.is_match("Connection to 10.0.0.1 failed"));
    assert!(re.is_match("Connection to 10.0.0.2 failed"));
    assert!(!re.is_match("something else entirely"));
}

#[test]
fn test_pattern_unrelated_examples_absent() {
    let examples = vec!["aaaaaaaaaaaa".to_string(), "zzzzzzzzzzzz".to_string()];
    assert!(detect_pattern_lcs(&examples).is_none());
}

#[test]
fn test_build_regex_from_template() {
    assert_eq!(build_regex_from_template(".a{VAR}b"), "^\\.a.*?b$");
    assert_eq!(build_regex_from_template("plain"), "^plain$");
}

#[test]
fn test_extract_variable_segments() {
    let examples = vec![
        "User 123 not found".to_string(),
        "User 456 not found".to_string(),
    ];
    let segments = extract_variable_segments(&examples, "User  not found");
    assert_eq!(segments, vec!["123".to_string(), "456".to_string()]);
}

#[test]
fn test_split_by_lcs() {
    let parts = split_by_lcs("User  not found");
    assert_eq!(
        parts,
        vec!["User".to_string(), "not".to_string(), "found".to_string()]
    );
}

#[test]
fn test_confidence_identical_backbone() {
    let examples = vec![
        "Connection to 10.0.0.1 failed".to_string(),
        "Connection to 10.0.0.2 failed".to_string(),
    ];
    let c = calculate_confidence(&examples, "Connection to 10.0.0. failed");
    assert!(c > 900);
    assert!(c <= 1000);
}

#[test]
fn test_cluster_exact_threshold() {
    let errors = vec!["abc".to_string(), "abc".to_string(), "xyz".to_string()];
    let clusters = cluster_by_similarity(&errors, 1000);
    assert_eq!(
        clusters,
        vec![
            vec!["abc".to_string(), "abc".to_string()],
            vec!["xyz".to_string()],
        ]
    );
}

#[test]
fn test_cluster_zero_threshold() {
    let errors = vec![
        "first".to_string(),
        "second".to_string(),
        "third".to_string(),
    ];
    let clusters = cluster_errors(&errors, 0);
    assert_eq!(clusters, vec![errors.clone()]);
}

#[test]
fn test_cluster_middle_threshold() {
    let errors = vec![
        "kitten".to_string(),
        "sitting".to_string(),
        "apple".to_string(),
    ];
    let clusters = cluster_by_similarity(&errors, 500);
    assert_eq!(
        clusters,
        vec![
            vec!["kitten".to_string(), "sitting".to_string()],
            vec!["apple".to_string()],
        ]
    );
}

#[test]
fn test_cluster_empty_input() {
    let errors: Vec<String> = Vec::new();
    let clusters = cluster_by_similarity(&errors, 800);
    assert!(clusters.is_empty());
}
