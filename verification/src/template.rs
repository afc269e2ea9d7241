//! Template extraction: rewriting a raw message into a canonical
//! template by replacing UUIDs, validated IPv4 addresses and long digit
//! runs with typed placeholders, recording one variable entry per
//! detected occurrence. The passes run in strict priority order
//! UUID, then IPv4, then numeric id.
use vstd::prelude::*;
use vstd::string::StringExecFns;
use crate::text::{
    is_digit, is_lhex, is_word, match_at, replace_all, dec_val, digit_end, to_chars, from_chars,
    c_is_digit, c_is_lhex, c_is_word, digit_run_end, sub_chars, do_replace_all, parse_u32_chars,
    parse_u32_spec, lemma_run_end, all_digits,
};
use crate::matchers::{boundary_before, boundary_after, digits_in};
use crate::records::{Variable, VariableModel, VariableType};

verus! {

/// All characters in `[a, b)` are lower-case hexadecimal digits.
pub open spec fn lhex_in(s: Seq<char>, a: int, b: int) -> bool {
    forall|k: int| a <= k < b ==> is_lhex(#[trigger] s[k])
}

/// A UUID shape stands at `i`: five lower-case hexadecimal groups of
/// lengths 8-4-4-4-12 joined by hyphens, between word boundaries.
pub open spec fn uuid_at(s: Seq<char>, i: int) -> bool {
    &&& i >= 0
    &&& i + 36 <= s.len()
    &&& boundary_before(s, i)
    &&& lhex_in(s, i, i + 8)
    &&& s[i + 8] == '-'
    &&& lhex_in(s, i + 9, i + 13)
    &&& s[i + 13] == '-'
    &&& lhex_in(s, i + 14, i + 18)
    &&& s[i + 18] == '-'
    &&& lhex_in(s, i + 19, i + 23)
    &&& s[i + 23] == '-'
    &&& lhex_in(s, i + 24, i + 36)
    &&& boundary_after(s, i + 36)
}

/// Length of the IPv4 shape at `i`, if one stands there: four digit
/// runs of one to three digits joined by dots, between word boundaries.
pub open spec fn ip_at(s: Seq<char>, i: int) -> Option<int> {
    if i < 0 || !boundary_before(s, i) {
        None
    } else {
        let r1 = digit_end(s, i) - i;
        if 1 <= r1 <= 3 && i + r1 < s.len() && s[i + r1] == '.' {
            let b = i + r1 + 1;
            let r2 = digit_end(s, b) - b;
            if 1 <= r2 <= 3 && b + r2 < s.len() && s[b + r2] == '.' {
                let c = b + r2 + 1;
                let r3 = digit_end(s, c) - c;
                if 1 <= r3 <= 3 && c + r3 < s.len() && s[c + r3] == '.' {
                    let d = c + r3 + 1;
                    let r4 = digit_end(s, d) - d;
                    if 1 <= r4 <= 3 && boundary_after(s, d + r4) {
                        Some(d + r4 - i)
                    } else {
                        None
                    }
                } else {
                    None
                }
            } else {
                None
            }
        } else {
            None
        }
    }
}

/// All four octet values of the IPv4 shape at `i` are at most 255.
pub open spec fn ip_valid(s: Seq<char>, i: int) -> bool {
    let r1 = digit_end(s, i) - i;
    let b = i + r1 + 1;
    let r2 = digit_end(s, b) - b;
    let c = b + r2 + 1;
    let r3 = digit_end(s, c) - c;
    let d = c + r3 + 1;
    let r4 = digit_end(s, d) - d;
    &&& dec_val(s.subrange(i, i + r1)) <= 255
    &&& dec_val(s.subrange(b, b + r2)) <= 255
    &&& dec_val(s.subrange(c, c + r3)) <= 255
    &&& dec_val(s.subrange(d, d + r4)) <= 255
}

/// Length of the numeric-id shape at `i`: a maximal digit run of at
/// least four digits between word boundaries.
pub open spec fn num_at(s: Seq<char>, i: int) -> Option<int> {
    if i < 0 || !boundary_before(s, i) {
        None
    } else {
        let r = digit_end(s, i) - i;
        if r >= 4 && boundary_after(s, i + r) {
            Some(r)
        } else {
            None
        }
    }
}

/// One variable entry.
pub open spec fn var_model(ph: Seq<char>, v: Seq<char>, t: VariableType) -> VariableModel {
    VariableModel { placeholder: ph, value: v, var_type: t }
}

/// The UUID pass from position `i`: scan the original message for UUID
/// shapes left to right without overlap; each match appends a variable
/// and replaces every occurrence of its text in the running template.
pub open spec fn uuid_pass(msg: Seq<char>, i: int, tmpl: Seq<char>) -> (Seq<char>, Seq<
    VariableModel,
>)
    decreases msg.len() - i + 1,
{
    if i > msg.len() || i < 0 {
        (tmpl, Seq::empty())
    } else if uuid_at(msg, i) {
        let v = msg.subrange(i, i + 36);
        let t2 = replace_all(tmpl, v, "{UUID}"@);
        let rec = uuid_pass(msg, i + 36, t2);
        (rec.0, seq![var_model("{UUID}"@, v, VariableType::Uuid)] + rec.1)
    } else if i == msg.len() {
        (tmpl, Seq::empty())
    } else {
        uuid_pass(msg, i + 1, tmpl)
    }
}

/// The IPv4 pass: shapes with an octet above 255 are consumed but
/// neither recorded nor replaced.
pub open spec fn ip_pass(msg: Seq<char>, i: int, tmpl: Seq<char>) -> (Seq<char>, Seq<
    VariableModel,
>)
    decreases msg.len() - i + 1,
{
    if i > msg.len() || i < 0 {
        (tmpl, Seq::empty())
    } else if ip_at(msg, i) is Some && ip_at(msg, i).unwrap() >= 1 && i + ip_at(msg, i).unwrap()
        <= msg.len() {
        let l = ip_at(msg, i).unwrap();
        let v = msg.subrange(i, i + l);
        if ip_valid(msg, i) {
            let t2 = replace_all(tmpl, v, "{IP}"@);
            let rec = ip_pass(msg, i + l, t2);
            (rec.0, seq![var_model("{IP}"@, v, VariableType::IpAddress)] + rec.1)
        } else {
            ip_pass(msg, i + l, tmpl)
        }
    } else if i == msg.len() {
        (tmpl, Seq::empty())
    } else {
        ip_pass(msg, i + 1, tmpl)
    }
}

/// The numeric-id pass.
pub open spec fn num_pass(msg: Seq<char>, i: int, tmpl: Seq<char>) -> (Seq<char>, Seq<
    VariableModel,
>)
    decreases msg.len() - i + 1,
{
    if i > msg.len() || i < 0 {
        (tmpl, Seq::empty())
    } else if num_at(msg, i) is Some && num_at(msg, i).unwrap() >= 1 && i + num_at(msg, i).unwrap()
        <= msg.len() {
        let l = num_at(msg, i).unwrap();
        let v = msg.subrange(i, i + l);
        let t2 = replace_all(tmpl, v, "{ID}"@);
        let rec = num_pass(msg, i + l, t2);
        (rec.0, seq![var_model("{ID}"@, v, VariableType::NumericId)] + rec.1)
    } else if i == msg.len() {
        (tmpl, Seq::empty())
    } else {
        num_pass(msg, i + 1, tmpl)
    }
}

/// The canonical template of a message and the variables removed from
/// it, over the three passes in priority order.
pub open spec fn spec_extract_template(msg: Seq<char>) -> (Seq<char>, Seq<VariableModel>) {
    let u = uuid_pass(msg, 0, msg);
    let p = ip_pass(msg, 0, u.0);
    let n = num_pass(msg, 0, p.0);
    (n.0, u.1 + p.1 + n.1)
}

fn lhex_range(s: &Vec<char>, a: usize, b: usize) -> (r: bool)
    requires
        a <= b <= s.len(),
    ensures
        r == lhex_in(s@, a as int, b as int),
{
    let mut k: usize = a;
    while k < b
        invariant
            a <= k <= b <= s.len(),
            forall|j: int| a <= j < k ==> is_lhex(#[trigger] s@[j]),
        decreases b - k,
    {
        if !c_is_lhex(s[k]) {
            return false;
        }
        k = k + 1;
    }
    true
}

fn uuid_at_exec(s: &Vec<char>, i: usize) -> (r: bool)
    requires
        i <= s.len(),
    ensures
        r == uuid_at(s@, i as int),
{
    if s.len() - i < 36 {
        return false;
    }
    let bb = i == 0 || !c_is_word(s[i - 1]);
    if !bb {
        return false;
    }
    let ba = i + 36 == s.len() || !c_is_word(s[i + 36]);
    bb && ba && lhex_range(s, i, i + 8) && s[i + 8] == '-' && lhex_range(s, i + 9, i + 13) && s[i
        + 13] == '-' && lhex_range(s, i + 14, i + 18) && s[i + 18] == '-' && lhex_range(
        s,
        i + 19,
        i + 23,
    ) && s[i + 23] == '-' && lhex_range(s, i + 24, i + 36)
}

/// Octet value of a digit run of at most three digits.
fn octet_le_255(s: &Vec<char>, a: usize, b: usize) -> (r: bool)
    requires
        a < b <= s.len(),
        b - a <= 3,
        digits_in(s@, a as int, b as int),
    ensures
        r == (dec_val(s@.subrange(a as int, b as int)) <= 255),
{
    let piece = sub_chars(s, a, b);
    proof {
        assert(all_digits(piece@));
        assert(piece@.len() <= 3);
        lemma_dec_val_small(piece@);
    }
    let v = parse_u32_chars(&piece);
    match v {
        Some(x) => x <= 255,
        None => false,  // unreachable: three digits always fit
    }
}

/// Ten to a small power.
spec fn ten_to(n: nat) -> int
    decreases n,
{
    if n == 0 {
        1
    } else {
        10 * ten_to((n - 1) as nat)
    }
}

/// A digit string denotes a value under ten to its length.
proof fn lemma_dec_val_lt(s: Seq<char>)
    requires
        all_digits(s),
    ensures
        0 <= dec_val(s) < ten_to(s.len()),
    decreases s.len(),
{
    if s.len() > 0 {
        assert(all_digits(s.drop_last())) by {
            assert(forall|k: int| 0 <= k < s.len() - 1 ==> s.drop_last()[k] == #[trigger] s[k]);
        }
        lemma_dec_val_lt(s.drop_last());
    }
}

/// A digit string of at most three digits denotes a value under 1000.
proof fn lemma_dec_val_small(s: Seq<char>)
    requires
        all_digits(s),
        s.len() <= 3,
    ensures
        0 <= dec_val(s) <= 999,
{
    lemma_dec_val_lt(s);
    assert(ten_to(0) == 1);
    assert(ten_to(1) == 10);
    assert(ten_to(2) == 100);
    assert(ten_to(3) == 1000);
    if s.len() == 0 {
    } else if s.len() == 1 {
    } else if s.len() == 2 {
    }
}

fn ip_at_exec(s: &Vec<char>, i: usize) -> (r: Option<usize>)
    requires
        i <= s.len(),
    ensures
        ip_at(s@, i as int) == match r {
            Some(l) => Some(l as int),
            None => None::<int>,
        },
        r is Some ==> i + r.unwrap() <= s.len() && r.unwrap() >= 7,
{
    let bb = i == 0 || !c_is_word(s[i - 1]);
    if !bb {
        return None;
    }
    let e1 = digit_run_end(s, i);
    let r1 = e1 - i;
    if 1 <= r1 && r1 <= 3 && e1 < s.len() && s[e1] == '.' {
        let b = e1 + 1;
        let e2 = digit_run_end(s, b);
        let r2 = e2 - b;
        if 1 <= r2 && r2 <= 3 && e2 < s.len() && s[e2] == '.' {
            let c = e2 + 1;
            let e3 = digit_run_end(s, c);
            let r3 = e3 - c;
            if 1 <= r3 && r3 <= 3 && e3 < s.len() && s[e3] == '.' {
                let d = e3 + 1;
                let e4 = digit_run_end(s, d);
                let r4 = e4 - d;
                if 1 <= r4 && r4 <= 3 && (e4 == s.len() || !c_is_word(s[e4])) {
                    return Some(e4 - i);
                }
            }
        }
    }
    None
}

fn ip_valid_exec(s: &Vec<char>, i: usize) -> (r: bool)
    requires
        i <= s.len(),
        ip_at(s@, i as int) is Some,
    ensures
        r == ip_valid(s@, i as int),
{
    let e1 = digit_run_end(s, i);
    proof {
        lemma_run_end(s@, i as int, |c: char| is_digit(c));
    }
    let b = e1 + 1;
    let e2 = digit_run_end(s, b);
    proof {
        lemma_run_end(s@, b as int, |c: char| is_digit(c));
    }
    let c = e2 + 1;
    let e3 = digit_run_end(s, c);
    proof {
        lemma_run_end(s@, c as int, |c0: char| is_digit(c0));
    }
    let d = e3 + 1;
    let e4 = digit_run_end(s, d);
    proof {
        lemma_run_end(s@, d as int, |c0: char| is_digit(c0));
    }
    octet_le_255(s, i, e1) && octet_le_255(s, b, e2) && octet_le_255(s, c, e3) && octet_le_255(
        s,
        d,
        e4,
    )
}

fn num_at_exec(s: &Vec<char>, i: usize) -> (r: Option<usize>)
    requires
        i <= s.len(),
    ensures
        num_at(s@, i as int) == match r {
            Some(l) => Some(l as int),
            None => None::<int>,
        },
        r is Some ==> i + r.unwrap() <= s.len() && r.unwrap() >= 4,
{
    let bb = i == 0 || !c_is_word(s[i - 1]);
    if !bb {
        return None;
    }
    let e = digit_run_end(s, i);
    let r = e - i;
    if r >= 4 && (e == s.len() || !c_is_word(s[e])) {
        Some(r)
    } else {
        None
    }
}

/// The executable template state a pass threads: the running template
/// and the variables recorded so far.
fn push_var(vars: &mut Vec<Variable>, ph: &str, value: Vec<char>, t: VariableType)
    ensures
        final(vars).deep_view() == old(vars).deep_view().push(var_model(ph@, value@, t)),
{
    let v = Variable { placeholder: String::from_str(ph), value: from_chars(&value), var_type: t };
    vars.push(v);
    proof {
        assert(vars.deep_view() =~= old(vars).deep_view().push(var_model(ph@, value@, t)));
    }
}

/// Template and variables of a message, per the three passes.
pub fn extract_template_chars(msg: &Vec<char>) -> (r: (Vec<char>, Vec<Variable>))
    ensures
        r.0@ == spec_extract_template(msg@).0,
        r.1.deep_view() == spec_extract_template(msg@).1,
{
    let mut tmpl: Vec<char> = sub_chars(msg, 0, msg.len());
    let mut vars: Vec<Variable> = Vec::new();
    proof {
        assert(tmpl@ =~= msg@);
        assert(vars.deep_view() =~= Seq::<VariableModel>::empty());
    }
    let ghost ug = uuid_pass(msg@, 0, msg@);
    let uuid_rep = to_chars("{UUID}");
    let mut i: usize = 0;
    while i < msg.len()
        invariant
            i <= msg@.len(),
            uuid_rep@ == "{UUID}"@,
            ug == uuid_pass(msg@, 0, msg@),
            uuid_pass(msg@, i as int, tmpl@).0 == ug.0,
            vars.deep_view() + uuid_pass(msg@, i as int, tmpl@).1 == ug.1,
        decreases msg.len() - i,
    {
        if uuid_at_exec(msg, i) {
            let v = sub_chars(msg, i, i + 36);
            proof {
                assert(v@.len() == 36);
            }
            let t2 = do_replace_all(&tmpl, &v, &uuid_rep);
            let ghost before = vars.deep_view();
            push_var(&mut vars, "{UUID}", v, VariableType::Uuid);
            proof {
                assert(before.push(
                    var_model("{UUID}"@, msg@.subrange(i as int, i as int + 36),
                    VariableType::Uuid),
                ) + uuid_pass(msg@, i as int + 36, t2@).1 =~= before + (seq![
                    var_model("{UUID}"@, msg@.subrange(i as int, i as int + 36),
                    VariableType::Uuid),
                ] + uuid_pass(msg@, i as int + 36, t2@).1));
            }
            tmpl = t2;
            i = i + 36;
        } else {
            i = i + 1;
        }
    }
    proof {
        assert(vars.deep_view() + Seq::<VariableModel>::empty() =~= vars.deep_view());
        assert(tmpl@ == ug.0 && vars.deep_view() == ug.1);
    }
    let ghost pg = ip_pass(msg@, 0, ug.0);
    let ip_rep = to_chars("{IP}");
    let mut i: usize = 0;
    while i < msg.len()
        invariant
            i <= msg@.len(),
            ip_rep@ == "{IP}"@,
            pg == ip_pass(msg@, 0, ug.0),
            ug == uuid_pass(msg@, 0, msg@),
            ip_pass(msg@, i as int, tmpl@).0 == pg.0,
            vars.deep_view() + ip_pass(msg@, i as int, tmpl@).1 == ug.1 + pg.1,
        decreases msg.len() - i,
    {
        let ipl = ip_at_exec(msg, i);
        if let Some(l) = ipl {
            if ip_valid_exec(msg, i) {
                let v = sub_chars(msg, i, i + l);
                proof {
                    assert(v@.len() == l >= 7);
                }
                let t2 = do_replace_all(&tmpl, &v, &ip_rep);
                let ghost before = vars.deep_view();
                push_var(&mut vars, "{IP}", v, VariableType::IpAddress);
                proof {
                    assert(before.push(
                        var_model("{IP}"@, msg@.subrange(i as int, i as int + l),
                        VariableType::IpAddress),
                    ) + ip_pass(msg@, i as int + l, t2@).1 =~= before + (seq![
                        var_model("{IP}"@, msg@.subrange(i as int, i as int + l),
                        VariableType::IpAddress),
                    ] + ip_pass(msg@, i as int + l, t2@).1));
                }
                tmpl = t2;
            }
            i = i + l;
        } else {
            i = i + 1;
        }
    }
    proof {
        assert(vars.deep_view() + Seq::<VariableModel>::empty() =~= vars.deep_view());
        assert(tmpl@ == pg.0 && vars.deep_view() == ug.1 + pg.1);
    }
    let ghost ng = num_pass(msg@, 0, pg.0);
    let id_rep = to_chars("{ID}");
    let mut i: usize = 0;
    while i < msg.len()
        invariant
            i <= msg@.len(),
            id_rep@ == "{ID}"@,
            ng == num_pass(msg@, 0, pg.0),
            pg == ip_pass(msg@, 0, ug.0),
            ug == uuid_pass(msg@, 0, msg@),
            num_pass(msg@, i as int, tmpl@).0 == ng.0,
            vars.deep_view() + num_pass(msg@, i as int, tmpl@).1 == ug.1 + pg.1 + ng.1,
        decreases msg.len() - i,
    {
        let nl = num_at_exec(msg, i);
        if let Some(l) = nl {
            let v = sub_chars(msg, i, i + l);
            proof {
                assert(v@.len() == l >= 4);
            }
            let t2 = do_replace_all(&tmpl, &v, &id_rep);
            let ghost before = vars.deep_view();
            push_var(&mut vars, "{ID}", v, VariableType::NumericId);
            proof {
                assert(before.push(
                    var_model("{ID}"@, msg@.subrange(i as int, i as int + l),
                    VariableType::NumericId),
                ) + num_pass(msg@, i as int + l, t2@).1 =~= before + (seq![
                    var_model("{ID}"@, msg@.subrange(i as int, i as int + l),
                    VariableType::NumericId),
                ] + num_pass(msg@, i as int + l, t2@).1));
            }
            tmpl = t2;
            i = i + l;
        } else {
            i = i + 1;
        }
    }
    proof {
        assert(vars.deep_view() + Seq::<VariableModel>::empty() =~= vars.deep_view());
        assert(tmpl@ == spec_extract_template(msg@).0);
        assert(vars.deep_view() == spec_extract_template(msg@).1);
    }
    (tmpl, vars)
}

/// Template and variables of a message.
pub fn extract_template(message: &str) -> (r: (String, Vec<Variable>))
    ensures
        r.0@ == spec_extract_template(message@).0,
        r.1.deep_view() == spec_extract_template(message@).1,
{
    let v = to_chars(message);
    let tv = extract_template_chars(&v);
    (from_chars(&tv.0), tv.1)
}

/// Template extraction exposed piecewise, as the host boundary offers
/// it for inspection.
pub fn test_extract_template(message: &str) -> (r: (String, Vec<Variable>))
    ensures
        r.0@ == spec_extract_template(message@).0,
        r.1.deep_view() == spec_extract_template(message@).1,
{
    extract_template(message)
}

} // verus!
