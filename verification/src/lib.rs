//! A log-analysis library: it classifies free-form log lines, extracts
//! messages and source locations for several runtime ecosystems, joins
//! multi-line stack traces, canonicalises messages into templates,
//! deduplicates errors by a content fingerprint, and — independently —
//! learns a textual pattern from example strings and clusters strings by
//! edit-distance similarity.
pub mod classify;
pub mod cluster;
pub mod editdist;
pub mod fingerprint;
pub mod lcs;
pub mod locate;
pub mod matchers;
pub mod pattern;
pub mod records;
pub mod session;
pub mod template;
pub mod text;
