//! Content fingerprinting: a stable identity per logical error, derived
//! from the canonical template and the location. The hash itself and
//! the Unicode lower-case mapping come from outside code and carry
//! names; everything around them is verified.
use vstd::prelude::*;
use crate::text::{trim_spec, to_chars, from_chars, trim_chars};

verus! {

/// The lower-case mapping of a string's characters.
pub uninterp spec fn lower_of(s: Seq<char>) -> Seq<char>;

/// The hexadecimal rendering of the content hash of a string.
pub uninterp spec fn blake3_hex_of(s: Seq<char>) -> Seq<char>;

/// Relies on `str::to_lowercase`: the result depends on the characters
/// of the string alone.
#[verifier::external_body]
fn lowercase(s: &str) -> (r: String)
    ensures
        r@ == lower_of(s@),
{
    s.to_lowercase()
}

/// Relies on `blake3::hash` and `blake3::Hash::to_hex`: the hash is a
/// deterministic function of the input bytes alone (and a string's
/// UTF-8 bytes are a function of its characters), rendered as
/// hexadecimal digits.
#[verifier::external_body]
fn blake3_hex(s: &str) -> (r: String)
    ensures
        r@ == blake3_hex_of(s@),
{
    blake3::hash(s.as_bytes()).to_hex().to_string()
}

/// Relies on `uuid::Uuid::new_v4` and `uuid::fmt::Hyphenated`: a freshly
/// generated random identifier. Its value is random, so nothing is
/// promised of it.
#[verifier::external_body]
pub(crate) fn fresh_id() -> (r: String) {
    uuid::Uuid::new_v4().to_string()
}

/// The character of one decimal digit.
pub open spec fn digit_char(d: int) -> char {
    if d == 0 {
        '0'
    } else if d == 1 {
        '1'
    } else if d == 2 {
        '2'
    } else if d == 3 {
        '3'
    } else if d == 4 {
        '4'
    } else if d == 5 {
        '5'
    } else if d == 6 {
        '6'
    } else if d == 7 {
        '7'
    } else if d == 8 {
        '8'
    } else {
        '9'
    }
}

/// Decimal rendering of a number.
pub open spec fn dec_str_of(n: nat) -> Seq<char>
    decreases n,
{
    if n < 10 {
        seq![digit_char(n as int)]
    } else {
        dec_str_of(n / 10).push(digit_char((n % 10) as int))
    }
}

fn digit_char_exec(d: u32) -> (r: char)
    requires
        d <= 9,
    ensures
        r == digit_char(d as int),
{
    if d == 0 {
        '0'
    } else if d == 1 {
        '1'
    } else if d == 2 {
        '2'
    } else if d == 3 {
        '3'
    } else if d == 4 {
        '4'
    } else if d == 5 {
        '5'
    } else if d == 6 {
        '6'
    } else if d == 7 {
        '7'
    } else if d == 8 {
        '8'
    } else {
        '9'
    }
}

fn u32_dec_chars(n: u32) -> (r: Vec<char>)
    ensures
        r@ == dec_str_of(n as nat),
    decreases n,
{
    if n < 10 {
        let mut r: Vec<char> = Vec::new();
        r.push(digit_char_exec(n));
        proof {
            assert(r@ =~= dec_str_of(n as nat));
        }
        r
    } else {
        let mut r = u32_dec_chars(n / 10);
        r.push(digit_char_exec(n % 10));
        r
    }
}

/// The text whose hash identifies an error: the canonical template,
/// lower-cased and trimmed, then the file and the line number, the
/// three joined by colons; an absent part contributes nothing.
pub open spec fn fp_input(template: Seq<char>, file: Option<Seq<char>>, line: Option<u32>) -> Seq<
    char,
> {
    trim_spec(lower_of(template)) + seq![':'] + (match file {
        Some(f) => f,
        None => Seq::empty(),
    }) + seq![':'] + (match line {
        Some(l) => dec_str_of(l as nat),
        None => Seq::empty(),
    })
}

/// The fingerprint of an error: the content hash of its identifying
/// text. A pure, deterministic function of template, file and line.
pub open spec fn spec_fingerprint(
    template: Seq<char>,
    file: Option<Seq<char>>,
    line: Option<u32>,
) -> Seq<char> {
    blake3_hex_of(fp_input(template, file, line))
}

/// Fingerprint determinism: identical arguments always yield an
/// identical fingerprint, in any session and at any time — the
/// fingerprint is a function of the three arguments and nothing else.
pub proof fn lemma_fingerprint_deterministic(
    t1: Seq<char>,
    f1: Option<Seq<char>>,
    l1: Option<u32>,
    t2: Seq<char>,
    f2: Option<Seq<char>>,
    l2: Option<u32>,
)
    requires
        t1 == t2,
        f1 == f2,
        l1 == l2,
    ensures
        spec_fingerprint(t1, f1, l1) == spec_fingerprint(t2, f2, l2),
{
}

/// View of an optional character vector.
pub open spec fn view_opt_chars(o: Option<Vec<char>>) -> Option<Seq<char>> {
    match o {
        Some(v) => Some(v@),
        None => None,
    }
}

/// Fingerprint of a template and location.
pub fn fingerprint_chars(template: &Vec<char>, file: &Option<Vec<char>>, line: &Option<u32>) -> (r:
    String)
    ensures
        r@ == spec_fingerprint(template@, view_opt_chars(*file), *line),
{
    let t_str = from_chars(template);
    let lowered = lowercase(&t_str);
    let low_chars = to_chars(&lowered);
    let mut combined = trim_chars(&low_chars);
    combined.push(':');
    let ghost after_first = combined@;
    match file {
        Some(f) => {
            let mut k: usize = 0;
            while k < f.len()
                invariant
                    k <= f@.len(),
                    combined@ == after_first + f@.take(k as int),
                decreases f.len() - k,
            {
                combined.push(f[k]);
                k = k + 1;
                proof {
                    assert(combined@ =~= after_first + f@.take(k as int));
                }
            }
            proof {
                assert(combined@ =~= after_first + f@);
            }
        },
        None => {
            proof {
                assert(combined@ =~= after_first + Seq::<char>::empty());
            }
        },
    }
    combined.push(':');
    let ghost after_second = combined@;
    match line {
        Some(l) => {
            let digits = u32_dec_chars(*l);
            let mut k: usize = 0;
            while k < digits.len()
                invariant
                    k <= digits@.len(),
                    digits@ == dec_str_of(line.unwrap() as nat),
                    combined@ == after_second + digits@.take(k as int),
                decreases digits.len() - k,
            {
                combined.push(digits[k]);
                k = k + 1;
                proof {
                    assert(combined@ =~= after_second + digits@.take(k as int));
                }
            }
            proof {
                assert(combined@ =~= after_second + digits@);
            }
        },
        None => {
            proof {
                assert(combined@ =~= after_second + Seq::<char>::empty());
            }
        },
    }
    proof {
        assert(combined@ =~= fp_input(template@, view_opt_chars(*file), *line));
    }
    let c_str = from_chars(&combined);
    blake3_hex(&c_str)
}

/// Fingerprint of a template and location, as strings.
pub fn generate_fingerprint(template: &str, file: &Option<String>, line: &Option<u32>) -> (r:
    String)
    ensures
        r@ == spec_fingerprint(
            template@,
            crate::records::view_opt_string(*file),
            *line,
        ),
{
    let t = to_chars(template);
    let f: Option<Vec<char>> = match file {
        Some(s) => Some(to_chars(s.as_str())),
        None => None,
    };
    fingerprint_chars(&t, &f, line)
}

/// Fingerprint of a bare template, with no location.
pub fn test_fingerprint(template: &str) -> (r: String)
    ensures
        r@ == spec_fingerprint(template@, None, None),
{
    let t = to_chars(template);
    fingerprint_chars(&t, &None, &None)
}

} // verus!
