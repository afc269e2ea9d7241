//! The session: the stateful orchestrator that drives classification,
//! extraction, the trace-accumulator state machine and the dedup map,
//! line by line, and finalizes into a ranked, bounded result. Both the
//! whole-document and the line-at-a-time mode step through the same
//! specification, `spec_step`.
use vstd::prelude::*;
use vstd::string::StringExecFns;
use crate::text::{trim_spec, lines_of, to_chars, from_chars, trim_chars, split_lines};
use crate::matchers::{
    generic_warn_kw, generic_info_kw, caused_by_match, extract_ts_spec, is_generic_warn,
    is_generic_info, is_caused_by, extract_timestamp_chars,
};
use crate::classify::{
    spec_error_type, is_error_line_spec, spec_severity, spec_extract_message, stack_line_spec,
    determine_error_type_chars, is_error_line_chars, determine_severity_chars,
    extract_error_message_chars, is_stack_trace_line_chars,
};
use crate::locate::{LocParts, locate_any_spec, locate_any_chars, loc_matches};
use crate::template::{spec_extract_template, extract_template_chars};
use crate::fingerprint::{spec_fingerprint, fingerprint_chars, fresh_id, view_opt_chars};
use crate::records::{
    ErrorType, Severity, Variable, VariableModel, ParsedError, RecordModel, LogStats, ParseResult,
    view_opt_string,
};

verus! {

/// Mathematical view of a session.
#[verifier::ext_equal]
pub ghost struct SessionModel {
    pub total_lines: int,
    pub total_errors: int,
    pub total_warnings: int,
    pub total_info: int,
    pub records: Seq<RecordModel>,
    pub in_trace: bool,
    pub last_fp: Option<Seq<char>>,
    pub pending: Seq<char>,
}

/// The state a fresh session starts in.
pub open spec fn init_model() -> SessionModel {
    SessionModel {
        total_lines: 0,
        total_errors: 0,
        total_warnings: 0,
        total_info: 0,
        records: Seq::empty(),
        in_trace: false,
        last_fp: None,
        pending: Seq::empty(),
    }
}

/// Well-formedness of a session: the classified-line counters never
/// exceed the number of lines seen, the line count fits the occurrence
/// counter's type, and every record's occurrence count is positive and
/// bounded by the classified-line total.
pub open spec fn wf(st: SessionModel) -> bool {
    &&& 0 <= st.total_errors
    &&& 0 <= st.total_warnings
    &&& 0 <= st.total_info
    &&& st.total_errors + st.total_warnings + st.total_info <= st.total_lines
    &&& st.total_lines <= u32::MAX
    &&& forall|j: int|
        0 <= j < st.records.len() ==> 1 <= (#[trigger] st.records[j]).occurrences
            <= st.total_errors + st.total_warnings + st.total_info
}

/// Index of the first record keyed by `fp`, if any.
pub open spec fn find_fp(records: Seq<RecordModel>, fp: Seq<char>, i: int) -> Option<int>
    decreases records.len() - i + 1,
{
    if i < 0 || i >= records.len() {
        None
    } else if records[i].fingerprint == fp {
        Some(i)
    } else {
        find_fp(records, fp, i + 1)
    }
}

/// A found index lies in range.
pub proof fn lemma_find_fp_range(records: Seq<RecordModel>, fp: Seq<char>, i: int)
    ensures
        find_fp(records, fp, i) is Some ==> 0 <= find_fp(records, fp, i).unwrap()
            < records.len(),
    decreases records.len() - i + 1,
{
    if !(i < 0 || i >= records.len()) && !(records[i].fingerprint == fp) {
        lemma_find_fp_range(records, fp, i + 1);
    }
}

/// A repeat occurrence merged into its record: the count grows, the new
/// occurrence's variables are appended, and the raw line is appended to
/// the trace text behind a visible separator. Message, template and
/// severity keep their first-seen values.
pub open spec fn merged_rec(r: RecordModel, line: Seq<char>, vars: Seq<VariableModel>) -> RecordModel {
    RecordModel {
        occurrences: r.occurrences + 1,
        variables: r.variables + vars,
        full_trace: r.full_trace + "\n\n---\n\n"@ + line,
        ..r
    }
}

/// A record created on first sight of a fingerprint.
pub open spec fn fresh_rec(
    id: Seq<char>,
    line: Seq<char>,
    et: ErrorType,
    sev: Severity,
    msg: Seq<char>,
    tmpl: Seq<char>,
    vars: Seq<VariableModel>,
    loc: LocParts,
    ts: Option<Seq<char>>,
    fp: Seq<char>,
) -> RecordModel {
    RecordModel {
        id: id,
        error_type: et,
        severity: sev,
        message: msg,
        template: tmpl,
        variables: vars,
        full_trace: line,
        file: loc.0,
        line: loc.1,
        column: loc.2,
        occurrences: 1,
        timestamp: ts,
        fingerprint: fp,
    }
}

/// A continuation line appended to a record's trace; the location is
/// backfilled lazily when the record still lacks a file.
pub open spec fn trace_appended(r: RecordModel, line: Seq<char>, loc: LocParts) -> RecordModel {
    let r2 = RecordModel { full_trace: r.full_trace + seq!['\n'] + line, ..r };
    if r.file is None && loc.0 is Some {
        RecordModel { file: loc.0, line: loc.1, column: loc.2, ..r2 }
    } else {
        r2
    }
}

/// A chained-cause line appended to a record's trace.
pub open spec fn cause_appended(r: RecordModel, line: Seq<char>) -> RecordModel {
    RecordModel { full_trace: r.full_trace + seq!['\n'] + line, ..r }
}

/// One line processed: the whole pipeline. An error-signature line
/// produces or merges a record and opens a trace; while a trace is
/// open, continuation lines extend the active record; any other
/// non-blank line is tallied by its generic keyword and closes the
/// trace; a blank line changes nothing but the line count.
pub open spec fn spec_step(st: SessionModel, line: Seq<char>, id: Seq<char>) -> SessionModel {
    let tl = st.total_lines + 1;
    if is_error_line_spec(line) {
        let et = spec_error_type(line);
        let msg = spec_extract_message(line);
        let ts = extract_ts_spec(line);
        let loc = locate_any_spec(line);
        let tv = spec_extract_template(msg);
        let sev = spec_severity(et, msg);
        let fp = spec_fingerprint(tv.0, loc.0, loc.1);
        let te = if et == ErrorType::Error {
            st.total_errors + 1
        } else {
            st.total_errors
        };
        let tw = if et == ErrorType::Warning {
            st.total_warnings + 1
        } else {
            st.total_warnings
        };
        let ti = if et == ErrorType::Info {
            st.total_info + 1
        } else {
            st.total_info
        };
        let recs = match find_fp(st.records, fp, 0) {
            Some(j) => st.records.update(j, merged_rec(st.records[j], line, tv.1)),
            None => st.records.push(fresh_rec(id, line, et, sev, msg, tv.0, tv.1, loc, ts, fp)),
        };
        SessionModel {
            total_lines: tl,
            total_errors: te,
            total_warnings: tw,
            total_info: ti,
            records: recs,
            in_trace: true,
            last_fp: Some(fp),
            pending: Seq::empty(),
        }
    } else if st.in_trace && stack_line_spec(line) {
        let pending = st.pending + seq!['\n'] + line;
        let recs = match st.last_fp {
            Some(fp) => match find_fp(st.records, fp, 0) {
                Some(j) => st.records.update(
                    j,
                    trace_appended(st.records[j], line, locate_any_spec(line)),
                ),
                None => st.records,
            },
            None => st.records,
        };
        SessionModel { total_lines: tl, records: recs, pending: pending, ..st }
    } else if st.in_trace && caused_by_match(line) {
        let recs = match st.last_fp {
            Some(fp) => match find_fp(st.records, fp, 0) {
                Some(j) => st.records.update(j, cause_appended(st.records[j], line)),
                None => st.records,
            },
            None => st.records,
        };
        SessionModel { total_lines: tl, records: recs, ..st }
    } else if trim_spec(line).len() > 0 {
        let tw = if generic_warn_kw(line) {
            st.total_warnings + 1
        } else {
            st.total_warnings
        };
        let ti = if !generic_warn_kw(line) && generic_info_kw(line) {
            st.total_info + 1
        } else {
            st.total_info
        };
        SessionModel {
            total_lines: tl,
            total_warnings: tw,
            total_info: ti,
            in_trace: false,
            ..st
        }
    } else {
        SessionModel { total_lines: tl, ..st }
    }
}

/// The streaming parser: a session processing one line at a time.
pub struct LogParser {
    records: Vec<ParsedError>,
    total_lines: usize,
    total_errors: usize,
    total_warnings: usize,
    total_info: usize,
    in_stack_trace: bool,
    last_error_fingerprint: Option<String>,
    current_stack_trace: String,
}

impl View for LogParser {
    type V = SessionModel;

    closed spec fn view(&self) -> SessionModel {
        SessionModel {
            total_lines: self.total_lines as int,
            total_errors: self.total_errors as int,
            total_warnings: self.total_warnings as int,
            total_info: self.total_info as int,
            records: self.records.deep_view(),
            in_trace: self.in_stack_trace,
            last_fp: view_opt_string(self.last_error_fingerprint),
            pending: self.current_stack_trace@,
        }
    }
}

fn find_record(records: &Vec<ParsedError>, fp: &String) -> (r: Option<usize>)
    ensures
        find_fp(records.deep_view(), fp@, 0) == match r {
            Some(j) => Some(j as int),
            None => None::<int>,
        },
        r is Some ==> r.unwrap() < records.len(),
{
    let ghost dv = records.deep_view();
    let mut i: usize = 0;
    while i < records.len()
        invariant
            i <= records.len(),
            dv == records.deep_view(),
            dv.len() == records@.len(),
            find_fp(dv, fp@, 0) == find_fp(dv, fp@, i as int),
        decreases records.len() - i,
    {
        proof {
            assert(dv[i as int] == records@[i as int]@);
        }
        if records[i].fingerprint == *fp {
            return Some(i);
        }
        i = i + 1;
    }
    None
}

impl LogParser {
    /// A fresh session: all counters zero, no records, no open trace.
    pub fn new() -> (r: LogParser)
        ensures
            r@ == init_model(),
            wf(r@),
    {
        let r = LogParser {
            records: Vec::new(),
            total_lines: 0,
            total_errors: 0,
            total_warnings: 0,
            total_info: 0,
            in_stack_trace: false,
            last_error_fingerprint: None,
            current_stack_trace: String::new(),
        };
        proof {
            assert(r@ =~~= init_model());
        }
        r
    }

    /// One line processed against the step specification, with the
    /// identifier a fresh record would take passed in.
    fn step_chars(&mut self, line: &Vec<char>, id: String)
        requires
            wf(old(self)@),
            old(self)@.total_lines < u32::MAX,
        ensures
            final(self)@ == spec_step(old(self)@, line@, id@),
            wf(final(self)@),
    {
        let ghost st0 = self@;
        self.total_lines = self.total_lines + 1;
        if is_error_line_chars(line) {
            let et = determine_error_type_chars(line);
            let msg = extract_error_message_chars(line);
            let ts = extract_timestamp_chars(line);
            let loc = locate_any_chars(line);
            let tv = extract_template_chars(&msg);
            let tmpl = tv.0;
            let vars = tv.1;
            let sev = determine_severity_chars(&et, &msg);
            let fp = fingerprint_chars(&tmpl, &loc.0, &loc.1);
            match et {
                ErrorType::Error => {
                    self.total_errors = self.total_errors + 1;
                },
                ErrorType::Warning => {
                    self.total_warnings = self.total_warnings + 1;
                },
                ErrorType::Info => {
                    self.total_info = self.total_info + 1;
                },
            }
            let found = find_record(&self.records, &fp);
            match found {
                Some(j) => {
                    let ghost old_recs = self.records.deep_view();
                    let ghost old_vec = self.records@;
                    let mut rec = self.records.remove(j);
                    proof {
                        assert(rec@ == old_recs[j as int]);
                        assert(1 <= rec@.occurrences <= st0.total_errors + st0.total_warnings
                            + st0.total_info);
                    }
                    rec.occurrences = rec.occurrences + 1;
                    let mut vars = vars;
                    let ghost vgoal = rec.variables.deep_view() + vars.deep_view();
                    let ghost rb = rec@;
                    while vars.len() > 0
                        invariant
                            rec.variables.deep_view() + vars.deep_view() == vgoal,
                            rec@.id == rb.id,
                            rec@.error_type == rb.error_type,
                            rec@.severity == rb.severity,
                            rec@.message == rb.message,
                            rec@.template == rb.template,
                            rec@.full_trace == rb.full_trace,
                            rec@.file == rb.file,
                            rec@.line == rb.line,
                            rec@.column == rb.column,
                            rec@.occurrences == rb.occurrences,
                            rec@.timestamp == rb.timestamp,
                            rec@.fingerprint == rb.fingerprint,
                        decreases vars.len(),
                    {
                        let v = vars.remove(0);
                        rec.variables.push(v);
                        proof {
                            assert(rec.variables.deep_view() + vars.deep_view() =~= vgoal);
                        }
                    }
                    proof {
                        assert(rec.variables.deep_view() =~= vgoal);
                    }
                    rec.full_trace.append("\n\n---\n\n");
                    let line_str = from_chars(line);
                    rec.full_trace.append(line_str.as_str());
                    proof {
                        assert(rec@ =~~= merged_rec(old_recs[j as int], line@, tv.1.deep_view()));
                    }
                    self.records.insert(j, rec);
                    proof {
                        assert(self.records@ =~= old_vec.update(j as int, self.records@[j as int]));
                        assert(self.records.deep_view() =~~= old_recs.update(
                            j as int,
                            merged_rec(old_recs[j as int], line@, tv.1.deep_view()),
                        ));
                    }
                },
                None => {
                    let file_s: Option<String> = match loc.0 {
                        Some(f) => Some(from_chars(&f)),
                        None => None,
                    };
                    let ts_s: Option<String> = match ts {
                        Some(t) => Some(from_chars(&t)),
                        None => None,
                    };
                    let rec = ParsedError {
                        id: id,
                        error_type: et,
                        severity: sev,
                        message: from_chars(&msg),
                        template: from_chars(&tmpl),
                        variables: vars,
                        full_trace: from_chars(line),
                        file: file_s,
                        line: loc.1,
                        column: loc.2,
                        occurrences: 1,
                        timestamp: ts_s,
                        fingerprint: fp.clone(),
                    };
                    self.records.push(rec);
                },
            }
            self.last_error_fingerprint = Some(fp);
            self.in_stack_trace = true;
            self.current_stack_trace = String::new();
            proof {
                assert(self@ =~~= spec_step(st0, line@, id@));
                let stn = self@;
                assert forall|k: int| 0 <= k < stn.records.len() implies 1 <= (
                #[trigger] stn.records[k]).occurrences <= stn.total_errors + stn.total_warnings
                    + stn.total_info by {
                    if k < st0.records.len() {
                        assert(1 <= st0.records[k].occurrences <= st0.total_errors
                            + st0.total_warnings + st0.total_info);
                    }
                }
            }
        } else if self.in_stack_trace && is_stack_trace_line_chars(line) {
            self.current_stack_trace.append("\n");
            let line_str = from_chars(line);
            self.current_stack_trace.append(line_str.as_str());
            let lf: Option<String> = match &self.last_error_fingerprint {
                Some(f) => Some(f.clone()),
                None => None,
            };
            if let Some(fp) = lf {
                let found = find_record(&self.records, &fp);
                if let Some(j) = found {
                    let ghost old_recs = self.records.deep_view();
                    let ghost old_vec = self.records@;
                    let mut rec = self.records.remove(j);
                    proof {
                        assert(rec@ == old_recs[j as int]);
                    }
                    rec.full_trace.append("\n");
                    rec.full_trace.append(line_str.as_str());
                    if rec.file.is_none() {
                        let loc = locate_any_chars(line);
                        if loc.0.is_some() {
                            let f = match loc.0 {
                                Some(f) => f,
                                None => Vec::new(),  // unreachable
                            };
                            rec.file = Some(from_chars(&f));
                            rec.line = loc.1;
                            rec.column = loc.2;
                        }
                    }
                    proof {
                        reveal_strlit("\n");
                        assert("\n"@ =~= seq!['\n']);
                        assert(rec@ =~~= trace_appended(
                            old_recs[j as int],
                            line@,
                            locate_any_spec(line@),
                        ));
                    }
                    self.records.insert(j, rec);
                    proof {
                        assert(self.records@ =~= old_vec.update(j as int, self.records@[j as int]));
                        assert(self.records.deep_view() =~~= old_recs.update(
                            j as int,
                            trace_appended(old_recs[j as int], line@, locate_any_spec(line@)),
                        ));
                    }
                }
            }
            proof {
                reveal_strlit("\n");
                assert("\n"@ =~= seq!['\n']);
                assert(self@ =~~= spec_step(st0, line@, id@));
                lemma_wf_after_trace(st0, self@, line@, id@);
            }
        } else if self.in_stack_trace && is_caused_by(line) {
            let lf: Option<String> = match &self.last_error_fingerprint {
                Some(f) => Some(f.clone()),
                None => None,
            };
            if let Some(fp) = lf {
                let found = find_record(&self.records, &fp);
                if let Some(j) = found {
                    let ghost old_recs = self.records.deep_view();
                    let ghost old_vec = self.records@;
                    let mut rec = self.records.remove(j);
                    proof {
                        assert(rec@ == old_recs[j as int]);
                    }
                    rec.full_trace.append("\n");
                    let line_str = from_chars(line);
                    rec.full_trace.append(line_str.as_str());
                    proof {
                        reveal_strlit("\n");
                        assert("\n"@ =~= seq!['\n']);
                        assert(rec@ =~~= cause_appended(old_recs[j as int], line@));
                    }
                    self.records.insert(j, rec);
                    proof {
                        assert(self.records@ =~= old_vec.update(j as int, self.records@[j as int]));
                        assert(self.records.deep_view() =~~= old_recs.update(
                            j as int,
                            cause_appended(old_recs[j as int], line@),
                        ));
                    }
                }
            }
            proof {
                assert(self@ =~~= spec_step(st0, line@, id@));
                lemma_wf_after_trace(st0, self@, line@, id@);
            }
        } else {
            let t = trim_chars(line);
            if t.len() > 0 {
                if is_generic_warn(line) {
                    self.total_warnings = self.total_warnings + 1;
                } else if is_generic_info(line) {
                    self.total_info = self.total_info + 1;
                }
                self.in_stack_trace = false;
            }
            proof {
                assert(self@ =~~= spec_step(st0, line@, id@));
                let stn = self@;
                assert forall|k: int| 0 <= k < stn.records.len() implies 1 <= (
                #[trigger] stn.records[k]).occurrences <= stn.total_errors + stn.total_warnings
                    + stn.total_info by {
                    assert(1 <= st0.records[k].occurrences <= st0.total_errors + st0.total_warnings
                        + st0.total_info);
                }
            }
        }
    }

    /// Process one line of log text; session state persists across
    /// calls. The record identifier is drawn freshly, so the new state
    /// steps from the old one for some identifier.
    pub fn process_line(&mut self, line: &str)
        requires
            wf(old(self)@),
            old(self)@.total_lines < u32::MAX,
        ensures
            wf(final(self)@),
            exists|id: Seq<char>| final(self)@ == spec_step(old(self)@, line@, id),
    {
        let chars = to_chars(line);
        let id = fresh_id();
        let ghost idv = id@;
        self.step_chars(&chars, id);
        proof {
            assert(self@ == spec_step(old(self)@, line@, idv));
        }
    }
}

/// A record inserted into a list sorted by occurrence count descending:
/// it goes after every record with at least as many occurrences, so
/// earlier-seen records win ties.
pub open spec fn insert_desc(sorted: Seq<RecordModel>, r: RecordModel) -> Seq<RecordModel>
    decreases sorted.len(),
{
    if sorted.len() == 0 {
        seq![r]
    } else if sorted[0].occurrences >= r.occurrences {
        seq![sorted[0]] + insert_desc(sorted.drop_first(), r)
    } else {
        seq![r] + sorted
    }
}

/// The records sorted by occurrence count descending, stably.
pub open spec fn sort_desc(rs: Seq<RecordModel>) -> Seq<RecordModel>
    decreases rs.len(),
{
    if rs.len() == 0 {
        Seq::empty()
    } else {
        insert_desc(sort_desc(rs.drop_last()), rs.last())
    }
}

pub proof fn lemma_insert_desc_len(s: Seq<RecordModel>, r: RecordModel)
    ensures
        insert_desc(s, r).len() == s.len() + 1,
    decreases s.len(),
{
    if s.len() > 0 && s[0].occurrences >= r.occurrences {
        lemma_insert_desc_len(s.drop_first(), r);
    }
}

pub proof fn lemma_sort_desc_len(rs: Seq<RecordModel>)
    ensures
        sort_desc(rs).len() == rs.len(),
    decreases rs.len(),
{
    if rs.len() > 0 {
        lemma_sort_desc_len(rs.drop_last());
        lemma_insert_desc_len(sort_desc(rs.drop_last()), rs.last());
    }
}

/// Inserting lands exactly at the first index whose occurrence count is
/// below the new record's.
proof fn lemma_insert_desc_at(s: Seq<RecordModel>, r: RecordModel, k: int)
    requires
        0 <= k <= s.len(),
        forall|i: int| 0 <= i < k ==> (#[trigger] s[i]).occurrences >= r.occurrences,
        k < s.len() ==> s[k].occurrences < r.occurrences,
    ensures
        insert_desc(s, r) == s.take(k) + seq![r] + s.skip(k),
    decreases k,
{
    if k == 0 {
        if s.len() == 0 {
            assert(insert_desc(s, r) =~= s.take(0) + seq![r] + s.skip(0));
        } else {
            assert(insert_desc(s, r) =~= s.take(0) + seq![r] + s.skip(0));
        }
    } else {
        assert(s[0].occurrences >= r.occurrences);
        lemma_insert_desc_at(s.drop_first(), r, k - 1);
        assert(s.drop_first().take(k - 1) =~= s.take(k).drop_first());
        assert(s.drop_first().skip(k - 1) =~= s.skip(k));
        assert(seq![s[0]] + (s.drop_first().take(k - 1) + seq![r] + s.drop_first().skip(k - 1))
            =~= s.take(k) + seq![r] + s.skip(k));
    }
}

fn clone_opt_string(o: &Option<String>) -> (r: Option<String>)
    ensures
        view_opt_string(r) == view_opt_string(*o),
{
    match o {
        Some(s) => Some(s.clone()),
        None => None,
    }
}

fn clone_variables(v: &Vec<Variable>) -> (r: Vec<Variable>)
    ensures
        r.deep_view() == v.deep_view(),
{
    let mut r: Vec<Variable> = Vec::new();
    let mut i: usize = 0;
    while i < v.len()
        invariant
            i <= v@.len(),
            r.deep_view() =~= v.deep_view().take(i as int),
        decreases v.len() - i,
    {
        let x = Variable {
            placeholder: v[i].placeholder.clone(),
            value: v[i].value.clone(),
            var_type: v[i].var_type,
        };
        proof {
            assert(x@ =~~= v.deep_view()[i as int]);
        }
        let ghost rdv0 = r.deep_view();
        let ghost xm = x@;
        r.push(x);
        i = i + 1;
        proof {
            assert(r.deep_view() =~= rdv0.push(xm));
            assert(rdv0.push(xm) =~= v.deep_view().take(i as int));
        }
    }
    proof {
        assert(r.deep_view() =~= v.deep_view());
    }
    r
}

fn clone_record(r: &ParsedError) -> (o: ParsedError)
    ensures
        o@ == r@,
{
    let o = ParsedError {
        id: r.id.clone(),
        error_type: r.error_type,
        severity: r.severity,
        message: r.message.clone(),
        template: r.template.clone(),
        variables: clone_variables(&r.variables),
        full_trace: r.full_trace.clone(),
        file: clone_opt_string(&r.file),
        line: r.line,
        column: r.column,
        occurrences: r.occurrences,
        timestamp: clone_opt_string(&r.timestamp),
        fingerprint: r.fingerprint.clone(),
    };
    proof {
        assert(o@ =~~= r@);
    }
    o
}

/// The retained list after finalizing: the records sorted by occurrence
/// count descending, cut to at most twenty.
pub open spec fn spec_top(st: SessionModel) -> Seq<RecordModel> {
    let s = sort_desc(st.records);
    if s.len() > 20 {
        s.take(20)
    } else {
        s
    }
}

/// The parse result reflects the session: summary counters equal the
/// session's, the distinct count is the true pre-truncation record
/// count, and the retained list is the sorted, bounded top.
pub open spec fn result_matches(r: ParseResult, st: SessionModel) -> bool {
    &&& r.summary.total_lines == st.total_lines
    &&& r.summary.total_errors == st.total_errors
    &&& r.summary.total_warnings == st.total_warnings
    &&& r.summary.total_info == st.total_info
    &&& r.summary.unique_errors == st.records.len()
    &&& r.errors.deep_view() == spec_top(st)
}

impl LogParser {
    /// The final parse results: records sorted by occurrences
    /// descending (ties kept in first-seen order), truncated to at most
    /// twenty, beside summary counts over every line processed. Can be
    /// called any number of times; it does not change the session.
    pub fn get_result(&self) -> (r: ParseResult)
        requires
            wf(self@),
        ensures
            result_matches(r, self@),
            r.errors@.len() <= 20,
            r.summary.unique_errors >= r.errors@.len(),
            r.summary.total_errors + r.summary.total_warnings + r.summary.total_info
                <= r.summary.total_lines,
    {
        let ghost dv = self.records.deep_view();
        let mut sorted: Vec<ParsedError> = Vec::new();
        let mut idx: usize = 0;
        proof {
            assert(dv.take(0) =~= Seq::<RecordModel>::empty());
            assert(sorted.deep_view() =~= sort_desc(dv.take(0)));
        }
        while idx < self.records.len()
            invariant
                idx <= self.records@.len(),
                dv == self.records.deep_view(),
                dv.len() == self.records@.len(),
                sorted.deep_view() == sort_desc(dv.take(idx as int)),
                sorted@.len() == idx,
            decreases self.records.len() - idx,
        {
            let rec = clone_record(&self.records[idx]);
            proof {
                assert(rec@ == dv[idx as int]);
            }
            let ghost sdv = sorted.deep_view();
            let mut k: usize = 0;
            while k < sorted.len() && sorted[k].occurrences >= rec.occurrences
                invariant
                    k <= sorted@.len(),
                    sdv == sorted.deep_view(),
                    sdv.len() == sorted@.len(),
                    forall|i: int|
                        0 <= i < k ==> (#[trigger] sdv[i]).occurrences >= rec@.occurrences,
                decreases sorted.len() - k,
            {
                proof {
                    assert(sdv[k as int] == sorted@[k as int]@);
                }
                k = k + 1;
            }
            proof {
                assert(k < sorted@.len() ==> sdv[k as int].occurrences < rec@.occurrences);
                lemma_insert_desc_at(sdv, rec@, k as int);
            }
            sorted.insert(k, rec);
            idx = idx + 1;
            proof {
                assert(sorted.deep_view() =~~= sdv.take(k as int) + seq![dv[idx as int - 1]]
                    + sdv.skip(k as int));
                assert(dv.take(idx as int).drop_last() =~= dv.take(idx as int - 1));
                assert(dv.take(idx as int).last() == dv[idx as int - 1]);
                assert(sorted.deep_view() =~~= sort_desc(dv.take(idx as int)));
                lemma_sort_desc_len(dv.take(idx as int));
            }
        }
        proof {
            assert(dv.take(self.records@.len() as int) =~= dv);
        }
        let unique = self.records.len();
        if sorted.len() > 20 {
            sorted.truncate(20);
            proof {
                assert(sorted.deep_view() =~~= sort_desc(dv).subrange(0, 20));
                assert(sort_desc(dv).subrange(0, 20) =~= sort_desc(dv).take(20));
            }
        }
        let r = ParseResult {
            summary: LogStats {
                total_lines: self.total_lines,
                total_errors: self.total_errors,
                total_warnings: self.total_warnings,
                total_info: self.total_info,
                unique_errors: unique,
            },
            errors: sorted,
        };
        r
    }
}

/// The sessions a text folds through, line by line, with the record
/// identifiers drawn along the way given as a sequence.
pub open spec fn spec_fold(
    st: SessionModel,
    lines: Seq<Seq<char>>,
    ids: Seq<Seq<char>>,
) -> SessionModel
    decreases lines.len(),
{
    if lines.len() == 0 {
        st
    } else {
        spec_step(spec_fold(st, lines.drop_last(), ids), lines.last(), ids[lines.len() - 1])
    }
}

/// The fold reads only the identifiers its lines consume.
proof fn lemma_fold_prefix(
    st: SessionModel,
    lines: Seq<Seq<char>>,
    ids1: Seq<Seq<char>>,
    ids2: Seq<Seq<char>>,
)
    requires
        forall|i: int| 0 <= i < lines.len() ==> ids1[i] == ids2[i],
    ensures
        spec_fold(st, lines, ids1) == spec_fold(st, lines, ids2),
    decreases lines.len(),
{
    if lines.len() > 0 {
        lemma_fold_prefix(st, lines.drop_last(), ids1, ids2);
    }
}

/// Parse a whole log text at once: split into lines, drive the session
/// over each, and finalize. The result steps from the fresh session
/// through every line, for the identifiers drawn along the way.
pub fn parse_log_content(content: &str) -> (r: ParseResult)
    requires
        content@.len() < u32::MAX,
    ensures
        exists|ids: Seq<Seq<char>>|
            result_matches(r, #[trigger] spec_fold(init_model(), lines_of(content@), ids)),
        r.errors@.len() <= 20,
        r.summary.total_errors + r.summary.total_warnings + r.summary.total_info
            <= r.summary.total_lines,
        r.summary.total_lines == lines_of(content@).len(),
{
    let chars = to_chars(content);
    let lines = split_lines(&chars);
    let ghost ldv = lines.deep_view();
    let mut parser = LogParser::new();
    let ghost mut ids: Seq<Seq<char>> = Seq::empty();
    let mut i: usize = 0;
    proof {
        assert(ldv.take(0) =~= Seq::<Seq<char>>::empty());
        crate::text::lemma_lines_count(content@);
    }
    let n = lines.len();
    while i < n
        invariant
            i <= n,
            n == lines@.len(),
            ldv == lines.deep_view(),
            ldv == lines_of(content@),
            ldv.len() <= u32::MAX,
            ids.len() == i,
            parser@ == spec_fold(init_model(), ldv.take(i as int), ids),
            wf(parser@),
            parser@.total_lines == i,
        decreases n - i,
    {
        let id = fresh_id();
        let ghost idv = id@;
        let ghost ids0 = ids;
        let line = &lines[i];
        proof {
            assert(line@ == ldv[i as int]);
        }
        parser.step_chars(line, id);
        proof {
            ids = ids.push(idv);
            lemma_fold_prefix(init_model(), ldv.take(i as int), ids0, ids);
            assert(ldv.take(i as int + 1).drop_last() =~= ldv.take(i as int));
            assert(ldv.take(i as int + 1).last() == ldv[i as int]);
            assert(ids[ldv.take(i as int + 1).len() - 1] == idv);
            assert(parser@ == spec_fold(init_model(), ldv.take(i as int + 1), ids));
        }
        i = i + 1;
    }
    proof {
        assert(ldv.take(n as int) =~= ldv);
    }
    let r = parser.get_result();
    proof {
        assert(result_matches(r, spec_fold(init_model(), lines_of(content@), ids)));
    }
    r
}

/// Parse a whole log text; the whole-document entry point.
pub fn parse_log(content: &str) -> (r: ParseResult)
    requires
        content@.len() < u32::MAX,
    ensures
        exists|ids: Seq<Seq<char>>|
            result_matches(r, #[trigger] spec_fold(init_model(), lines_of(content@), ids)),
        r.errors@.len() <= 20,
        r.summary.total_errors + r.summary.total_warnings + r.summary.total_info
            <= r.summary.total_lines,
        r.summary.total_lines == lines_of(content@).len(),
{
    parse_log_content(content)
}

/// Occurrence counts never decrease and records are never deleted: one
/// processed line leaves every existing record in place, under its
/// fingerprint, with at least its old occurrence count.
pub proof fn lemma_occurrences_monotone(st: SessionModel, line: Seq<char>, id: Seq<char>)
    ensures
        spec_step(st, line, id).records.len() >= st.records.len(),
        forall|j: int|
            0 <= j < st.records.len() ==> (#[trigger] spec_step(st, line, id).records[j]).occurrences
                >= st.records[j].occurrences && spec_step(st, line, id).records[j].fingerprint
                == st.records[j].fingerprint,
{
    let st2 = spec_step(st, line, id);
    if is_error_line_spec(line) {
        let msg = spec_extract_message(line);
        let loc = locate_any_spec(line);
        let tv = spec_extract_template(msg);
        let fp = spec_fingerprint(tv.0, loc.0, loc.1);
        lemma_find_fp_range(st.records, fp, 0);
        assert forall|j: int| 0 <= j < st.records.len() implies (
        #[trigger] st2.records[j]).occurrences >= st.records[j].occurrences
            && st2.records[j].fingerprint == st.records[j].fingerprint by {}
    } else if st.in_trace && (stack_line_spec(line) || caused_by_match(line)) {
        match st.last_fp {
            Some(fp) => lemma_find_fp_range(st.records, fp, 0),
            None => {},
        }
        assert forall|j: int| 0 <= j < st.records.len() implies (
        #[trigger] st2.records[j]).occurrences >= st.records[j].occurrences
            && st2.records[j].fingerprint == st.records[j].fingerprint by {}
    } else {
    }
}

/// The list is ordered by occurrence count, largest first.
pub open spec fn sorted_by_occurrences(s: Seq<RecordModel>) -> bool {
    forall|i: int, j: int|
        0 <= i <= j < s.len() ==> (#[trigger] s[i]).occurrences >= (#[trigger] s[j]).occurrences
}

proof fn lemma_insert_desc_sorted(s: Seq<RecordModel>, r: RecordModel)
    requires
        sorted_by_occurrences(s),
    ensures
        sorted_by_occurrences(insert_desc(s, r)),
    decreases s.len(),
{
    if s.len() == 0 {
    } else if s[0].occurrences >= r.occurrences {
        assert(sorted_by_occurrences(s.drop_first())) by {
            assert(forall|i: int, j: int|
                0 <= i <= j < s.drop_first().len() ==> (#[trigger] s.drop_first()[i]).occurrences
                    >= (#[trigger] s.drop_first()[j]).occurrences);
        }
        lemma_insert_desc_sorted(s.drop_first(), r);
        let out = seq![s[0]] + insert_desc(s.drop_first(), r);
        lemma_insert_desc_len(s.drop_first(), r);
        assert forall|i: int, j: int| 0 <= i <= j < out.len() implies (
        #[trigger] out[i]).occurrences >= (#[trigger] out[j]).occurrences by {
            if i == 0 && j > 0 {
                lemma_insert_desc_head(s.drop_first(), r, j - 1);
            }
        }
    } else {
    }
}

/// Every entry of an insertion result is one of the old entries or the
/// new record, so a head bounding all of them bounds the result too.
proof fn lemma_insert_desc_head(s: Seq<RecordModel>, r: RecordModel, j: int)
    requires
        0 <= j < insert_desc(s, r).len(),
    ensures
        insert_desc(s, r)[j].occurrences <= r.occurrences || (exists|k: int|
            0 <= k < s.len() && insert_desc(s, r)[j].occurrences == (#[trigger] s[k]).occurrences),
    decreases s.len(),
{
    if s.len() == 0 {
    } else if s[0].occurrences >= r.occurrences {
        if j > 0 {
            lemma_insert_desc_head(s.drop_first(), r, j - 1);
            if insert_desc(s, r)[j].occurrences <= r.occurrences {
            } else {
                let k = choose|k: int|
                    0 <= k < s.drop_first().len() && insert_desc(s.drop_first(), r)[j
                        - 1].occurrences == (#[trigger] s.drop_first()[k]).occurrences;
                assert(s.drop_first()[k] == s[k + 1]);
            }
        } else {
            assert(insert_desc(s, r)[0].occurrences == s[0].occurrences);
        }
    } else {
        if j > 0 {
            assert(insert_desc(s, r)[j] == s[j - 1]);
        }
    }
}

proof fn lemma_sort_desc_sorted(rs: Seq<RecordModel>)
    ensures
        sorted_by_occurrences(sort_desc(rs)),
    decreases rs.len(),
{
    if rs.len() > 0 {
        lemma_sort_desc_sorted(rs.drop_last());
        lemma_insert_desc_sorted(sort_desc(rs.drop_last()), rs.last());
    }
}

/// The finalized list is ranked: occurrence counts never increase along
/// the retained records.
pub proof fn lemma_top_ranked(st: SessionModel)
    ensures
        sorted_by_occurrences(spec_top(st)),
{
    lemma_sort_desc_sorted(st.records);
    let s = sort_desc(st.records);
    if s.len() > 20 {
        assert forall|i: int, j: int| 0 <= i <= j < s.take(20).len() implies (
        #[trigger] s.take(20)[i]).occurrences >= (#[trigger] s.take(20)[j]).occurrences by {
            assert(s.take(20)[i] == s[i] && s.take(20)[j] == s[j]);
        }
    }
}

/// Well-formedness is kept when a step only rewrote trace text or
/// location fields of records.
proof fn lemma_wf_after_trace(st0: SessionModel, stn: SessionModel, line: Seq<char>, id: Seq<char>)
    requires
        wf(st0),
        st0.total_lines < u32::MAX,
        stn == spec_step(st0, line, id),
        !is_error_line_spec(line),
    ensures
        wf(stn),
{
    match st0.last_fp {
        Some(fp) => lemma_find_fp_range(st0.records, fp, 0),
        None => {},
    }
    assert(stn.records.len() == st0.records.len());
    assert forall|k: int| 0 <= k < stn.records.len() implies 1 <= (
    #[trigger] stn.records[k]).occurrences <= stn.total_errors + stn.total_warnings
        + stn.total_info by {
        assert(stn.records[k].occurrences == st0.records[k].occurrences);
        assert(1 <= st0.records[k].occurrences <= st0.total_errors + st0.total_warnings
            + st0.total_info);
    }
}

} // verus!
