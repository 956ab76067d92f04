//! The one-line JSON report that `my-app` prints, and the reading of that
//! line back by the benchmark driver.

use vstd::prelude::*;

use crate::decimal::{
    dec_str, first_pos, is_float_literal, is_float_text, lemma_first_pos, parse_unsigned,
    parse_unsigned_spec, position_of, u64_to_string,
};
use crate::text::{
    chars_of, find, find_at, lemma_find_from, replace, replace_str, string_of, trim, trim_bounds,
};

verus! {

/// The report of one run of `my-app`. `internal_compute_ms` is the compute
/// time as it stands in the JSON line: the application prints the float
/// with six decimals, and a reader gets the text back, checked to be a
/// number that `f64`'s `FromStr` accepts.
#[derive(Clone, Debug, PartialEq)]
pub struct AppOutput {
    pub workload: String,
    pub parameter: String,
    pub result_digest: u64,
    pub internal_compute_ms: String,
}

/// The plain-value view of a report.
pub open spec fn output_view(o: AppOutput) -> (Seq<char>, Seq<char>, u64, Seq<char>) {
    (o.workload@, o.parameter@, o.result_digest, o.internal_compute_ms@)
}

/// A JSON string body: backslashes doubled first, then quotes escaped.
pub open spec fn escape_json(s: Seq<char>) -> Seq<char> {
    replace(replace(s, "\\"@, "\\\\"@), "\""@, "\\\""@)
}

/// The reverse of `escape_json` as the reader applies it: escaped quotes
/// first, then doubled backslashes.
pub open spec fn unescape_json(s: Seq<char>) -> Seq<char> {
    replace(replace(s, "\\\""@, "\""@), "\\\\"@, "\\"@)
}

/// The JSON line for a report.
pub open spec fn render_json(w: Seq<char>, p: Seq<char>, d: u64, ms: Seq<char>) -> Seq<char> {
    "{\"workload\":\""@ + escape_json(w) + "\",\"parameter\":\""@ + escape_json(p)
        + "\",\"result_digest\":"@ + dec_str(d as nat) + ",\"internal_compute_ms\":"@ + ms + "}"@
}

/// Escapes backslashes and quotes for a JSON string body.
pub fn escape_json_string(value: &str) -> (r: String)
    ensures
        r@ == escape_json(value@),
{
    proof {
        reveal_strlit("\\");
        reveal_strlit("\"");
    }
    let once = replace_str(value, "\\", "\\\\");
    replace_str(once.as_str(), "\"", "\\\"")
}

/// The JSON line that `my-app` prints for a report.
pub fn render_app_output_json(output: &AppOutput) -> (r: String)
    ensures
        r@ == render_json(
            output.workload@,
            output.parameter@,
            output.result_digest,
            output.internal_compute_ms@,
        ),
{
    let mut s = String::new();
    s.append("{\"workload\":\"");
    let w = escape_json_string(output.workload.as_str());
    s.append(w.as_str());
    s.append("\",\"parameter\":\"");
    let p = escape_json_string(output.parameter.as_str());
    s.append(p.as_str());
    s.append("\",\"result_digest\":");
    let d = u64_to_string(output.result_digest);
    s.append(d.as_str());
    s.append(",\"internal_compute_ms\":");
    s.append(output.internal_compute_ms.as_str());
    s.append("}");
    s
}

/// The text that announces a field: `"key":`.
pub open spec fn key_pattern(key: Seq<char>) -> Seq<char> {
    "\""@ + key + "\":"@
}

/// Scans a JSON string from index `i`, after an escape when `escaped`, for
/// its closing quote.
pub open spec fn string_end_from(s: Seq<char>, i: int, escaped: bool) -> Option<int>
    decreases s.len() - i,
{
    if i < 0 || i >= s.len() {
        None
    } else if escaped {
        string_end_from(s, i + 1, false)
    } else if s[i] == '\\' {
        string_end_from(s, i + 1, true)
    } else if s[i] == '"' {
        Some(i)
    } else {
        string_end_from(s, i + 1, false)
    }
}

/// A closing quote found from `i` lies at or after `i`, inside `s`, and is a quote.
pub proof fn lemma_string_end_from(s: Seq<char>, i: int, escaped: bool)
    ensures
        string_end_from(s, i, escaped) matches Some(e) ==> 0 <= i <= e < s.len() && s[e] == '"',
    decreases s.len() - i,
{
    if 0 <= i < s.len() {
        if escaped || s[i] == '\\' || s[i] != '"' {
            lemma_string_end_from(s, i + 1, !escaped && s[i] == '\\');
        }
    }
}

/// The index of the quote that closes the JSON string opening at index 0.
pub open spec fn json_string_end(s: Seq<char>) -> Option<int> {
    string_end_from(s, 1, false)
}

/// Where a bare value ends: at the first `,` or `}`, or at the end.
pub open spec fn value_end(s: Seq<char>) -> int {
    let a = first_pos(s, ',');
    let b = first_pos(s, '}');
    if a < b {
        a
    } else {
        b
    }
}

/// The raw text of field `key` in `input`: the quoted string with its
/// quotes when the value starts with a quote, else the trimmed text up to
/// the first `,` or `}`.
pub open spec fn extract_raw_value_spec(input: Seq<char>, key: Seq<char>) -> Result<
    Seq<char>,
    Seq<char>,
> {
    let pattern = key_pattern(key);
    match find(input, pattern) {
        None => Err("missing field "@ + key),
        Some(i) => {
            let rem = input.skip(i + pattern.len());
            if rem.len() > 0 && rem[0] == '"' {
                match json_string_end(rem) {
                    Some(e) => Ok(rem.take(e + 1)),
                    None => Err("unterminated JSON string"@),
                }
            } else {
                Ok(trim(rem.take(value_end(rem))))
            }
        },
    }
}

/// Whether reading string field `key` would meet a value that is a lone
/// quote (`"`), which starts and ends with a quote but has no body.
pub open spec fn lone_quote_field(input: Seq<char>, key: Seq<char>) -> bool {
    extract_raw_value_spec(input, key) == Ok::<Seq<char>, Seq<char>>(seq!['"'])
}

/// The string value of field `key`, unescaped.
pub open spec fn extract_string_field_spec(input: Seq<char>, key: Seq<char>) -> Result<
    Seq<char>,
    Seq<char>,
> {
    match extract_raw_value_spec(input, key) {
        Err(e) => Err(e),
        Ok(raw) => if raw.len() >= 2 && raw[0] == '"' && raw.last() == '"' {
            Ok(unescape_json(raw.subrange(1, raw.len() - 1)))
        } else {
            Err("field "@ + key + " was not a JSON string"@)
        },
    }
}

/// The `u64` value of field `key`.
pub open spec fn extract_u64_field_spec(input: Seq<char>, key: Seq<char>) -> Result<u64, Seq<char>> {
    match extract_raw_value_spec(input, key) {
        Err(e) => Err(e),
        Ok(raw) => match parse_unsigned_spec(raw, u64::MAX as nat) {
            Some(v) => Ok(v as u64),
            None => Err("field "@ + key + " was not a valid u64"@),
        },
    }
}

/// The text of field `key`, which must be a number that `f64` accepts.
pub open spec fn extract_float_field_spec(input: Seq<char>, key: Seq<char>) -> Result<
    Seq<char>,
    Seq<char>,
> {
    match extract_raw_value_spec(input, key) {
        Err(e) => Err(e),
        Ok(raw) => if is_float_literal(raw) {
            Ok(raw)
        } else {
            Err("field "@ + key + " was not a valid f64"@)
        },
    }
}

/// The braces test of a report line (after trimming).
pub open spec fn has_object_braces(t: Seq<char>) -> bool {
    t.len() > 0 && t[0] == '{' && t.last() == '}'
}

/// Whether reading a report line would slice the body of a lone-quote
/// string value, which the reader does not survive.
pub open spec fn reading_app_output_panics(input: Seq<char>) -> bool {
    let t = trim(input);
    has_object_braces(t) && (lone_quote_field(t, "workload"@) || (
    extract_string_field_spec(t, "workload"@) is Ok && lone_quote_field(t, "parameter"@)))
}

/// The report that a JSON line holds, or the message that refuses it.
pub open spec fn parse_app_output_spec(input: Seq<char>) -> Result<
    (Seq<char>, Seq<char>, u64, Seq<char>),
    Seq<char>,
> {
    let t = trim(input);
    if !has_object_braces(t) {
        Err("application output was not valid JSON object syntax"@)
    } else {
        match extract_string_field_spec(t, "workload"@) {
            Err(e) => Err(e),
            Ok(w) => match extract_string_field_spec(t, "parameter"@) {
                Err(e) => Err(e),
                Ok(p) => match extract_u64_field_spec(t, "result_digest"@) {
                    Err(e) => Err(e),
                    Ok(d) => match extract_float_field_spec(t, "internal_compute_ms"@) {
                        Err(e) => Err(e),
                        Ok(ms) => Ok((w, p, d, ms)),
                    },
                },
            },
        }
    }
}

/// `"key":` as characters.
fn key_pattern_chars(key: &str) -> (r: Vec<char>)
    ensures
        r@ == key_pattern(key@),
{
    proof {
        reveal_strlit("\"");
        reveal_strlit("\":");
    }
    let mut r: Vec<char> = Vec::new();
    r.push('"');
    let k = chars_of(key);
    let mut i: usize = 0;
    while i < k.len()
        invariant
            i <= k@.len(),
            k@ == key@,
            r@ == seq!['"'] + k@.take(i as int),
        decreases k@.len() - i,
    {
        r.push(k[i]);
        i = i + 1;
        assert(r@ =~= seq!['"'] + k@.take(i as int));
    }
    r.push('"');
    r.push(':');
    assert(k@.take(i as int) =~= k@);
    assert(r@ =~= key_pattern(key@));
    r
}

/// The index of the quote that closes the JSON string opening at `v[lo]`.
fn find_string_end(v: &Vec<char>, lo: usize) -> (r: Option<usize>)
    requires
        lo < v@.len(),
    ensures
        r == (match json_string_end(v@.skip(lo as int)) {
            Some(e) => Some((lo + e) as usize),
            None => None,
        }),
{
    let ghost s = v@.skip(lo as int);
    let n = v.len();
    let mut escaped = false;
    let mut i = lo + 1;
    while i < v.len()
        invariant
            lo < i <= v@.len(),
            s == v@.skip(lo as int),
            json_string_end(s) == string_end_from(s, i - lo, escaped),
        decreases v@.len() - i,
    {
        let c = v[i];
        assert(s[i - lo] == c);
        if escaped {
            escaped = false;
        } else if c == '\\' {
            escaped = true;
        } else if c == '"' {
            return Some(i);
        }
        i = i + 1;
    }
    None
}

/// The bounds in `v` of the raw text of field `key`.
fn extract_raw_bounds(v: &Vec<char>, key: &str) -> (r: Result<(usize, usize), String>)
    ensures
        match extract_raw_value_spec(v@, key@) {
            Ok(raw) => r matches Ok((a, b)) && a <= b <= v@.len() && v@.subrange(a as int, b as int)
                == raw,
            Err(m) => r matches Err(s) && s@ == m,
        },
{
    let pattern = key_pattern_chars(key);
    proof {
        lemma_find_from(v@, pattern@, 0);
    }
    let n = v.len();
    let start = match find_at(v, 0, &pattern) {
        Some(i) => {
            assert(i + pattern@.len() <= n);
            i + pattern.len()
        },
        None => {
            let mut s = String::new();
            s.append("missing field ");
            s.append(key);
            return Err(s);
        },
    };
    let ghost rem = v@.skip(start as int);
    if start < v.len() && v[start] == '"' {
        proof {
            lemma_string_end_from(rem, 1, false);
        }
        match find_string_end(v, start) {
            Some(e) => {
                assert(v@.subrange(start as int, e + 1) =~= rem.take(e - start + 1));
                Ok((start, e + 1))
            },
            None => {
                let mut s = String::new();
                s.append("unterminated JSON string");
                Err(s)
            },
        }
    } else {
        let a = position_of(v, start, n, ',');
        let b = position_of(v, start, n, '}');
        assert(rem =~= v@.subrange(start as int, n as int));
        proof {
            lemma_first_pos(rem, ',');
            lemma_first_pos(rem, '}');
        }
        let end = if a < b {
            a
        } else {
            b
        };
        assert(rem.take(end - start) =~= v@.subrange(start as int, end as int));
        let (x, y) = trim_bounds(v, start, end);
        Ok((x, y))
    }
}

/// The message that a field is not of the expected kind.
fn field_message(key: &str, what: &str) -> (r: String)
    ensures
        r@ == "field "@ + key@ + what@,
{
    let mut s = String::new();
    s.append("field ");
    s.append(key);
    s.append(what);
    s
}

/// The string value of field `key`, unescaped.
fn extract_string_field(v: &Vec<char>, key: &str) -> (r: Result<String, String>)
    requires
        !lone_quote_field(v@, key@),
    ensures
        match extract_string_field_spec(v@, key@) {
            Ok(x) => r matches Ok(s) && s@ == x,
            Err(m) => r matches Err(s) && s@ == m,
        },
{
    let (a, b) = extract_raw_bounds(v, key)?;
    let ghost raw = v@.subrange(a as int, b as int);
    if b > a && v[a] == '"' && v[b - 1] == '"' {
        if b - a < 2 {
            assert(raw =~= seq!['"']);
            assert(false);
        }
        let body = string_of(v, a + 1, b - 1);
        assert(raw.subrange(1, raw.len() - 1) =~= body@);
        proof {
            reveal_strlit("\\\"");
            reveal_strlit("\\\\");
        }
        let once = replace_str(body.as_str(), "\\\"", "\"");
        Ok(replace_str(once.as_str(), "\\\\", "\\"))
    } else {
        Err(field_message(key, " was not a JSON string"))
    }
}

/// The `u64` value of field `key`.
fn extract_u64_field(v: &Vec<char>, key: &str) -> (r: Result<u64, String>)
    ensures
        match extract_u64_field_spec(v@, key@) {
            Ok(x) => r == Ok::<u64, String>(x),
            Err(m) => r matches Err(s) && s@ == m,
        },
{
    let (a, b) = extract_raw_bounds(v, key)?;
    let raw = string_of(v, a, b);
    match parse_unsigned(raw.as_str(), u64::MAX) {
        Some(x) => Ok(x),
        None => Err(field_message(key, " was not a valid u64")),
    }
}

/// The text of field `key`, which must be a number that `f64` accepts.
fn extract_float_field(v: &Vec<char>, key: &str) -> (r: Result<String, String>)
    ensures
        match extract_float_field_spec(v@, key@) {
            Ok(x) => r matches Ok(s) && s@ == x,
            Err(m) => r matches Err(s) && s@ == m,
        },
{
    let (a, b) = extract_raw_bounds(v, key)?;
    let raw = string_of(v, a, b);
    if is_float_text(raw.as_str()) {
        Ok(raw)
    } else {
        Err(field_message(key, " was not a valid f64"))
    }
}

/// Reads the JSON line of a report back. Fields are found by their first
/// `"key":`, in the order workload, parameter, result_digest,
/// internal_compute_ms; the first field that cannot be read gives the error.
pub fn parse_app_output_json(input: &str) -> (r: Result<AppOutput, String>)
    requires
        !reading_app_output_panics(input@),
    ensures
        match parse_app_output_spec(input@) {
            Ok(x) => r matches Ok(o) && output_view(o) == x,
            Err(m) => r matches Err(s) && s@ == m,
        },
{
    let all = chars_of(input);
    let (lo, hi) = trim_bounds(&all, 0, all.len());
    assert(all@.subrange(0, all@.len() as int) =~= all@);
    let t = string_of(&all, lo, hi);
    let v = chars_of(t.as_str());
    if !(v.len() > 0 && v[0] == '{' && v[v.len() - 1] == '}') {
        let mut s = String::new();
        s.append("application output was not valid JSON object syntax");
        return Err(s);
    }
    let workload = extract_string_field(&v, "workload")?;
    let parameter = extract_string_field(&v, "parameter")?;
    let result_digest = extract_u64_field(&v, "result_digest")?;
    let internal_compute_ms = extract_float_field(&v, "internal_compute_ms")?;
    Ok(AppOutput { workload, parameter, result_digest, internal_compute_ms })
}

/// Whether `parse_app_output_json` may be called on `input`: false exactly
/// when reading it would meet a lone-quote string value.
pub fn app_output_json_is_readable(input: &str) -> (r: bool)
    ensures
        r == !reading_app_output_panics(input@),
{
    let all = chars_of(input);
    let (lo, hi) = trim_bounds(&all, 0, all.len());
    assert(all@.subrange(0, all@.len() as int) =~= all@);
    let t = string_of(&all, lo, hi);
    let v = chars_of(t.as_str());
    if !(v.len() > 0 && v[0] == '{' && v[v.len() - 1] == '}') {
        return true;
    }
    match lone_quote_bounds(&v, "workload") {
        None => { return false; },
        Some(false) => {},
        Some(true) => { return true; },
    }
    assert(!lone_quote_field(v@, "workload"@));
    if extract_string_field(&v, "workload").is_err() {
        return true;
    }
    match lone_quote_bounds(&v, "parameter") {
        None => false,
        _ => true,
    }
}

/// `None` when the raw value of field `key` is a lone quote; otherwise
/// whether reading it fails.
fn lone_quote_bounds(v: &Vec<char>, key: &str) -> (r: Option<bool>)
    ensures
        r is None <==> lone_quote_field(v@, key@),
        r == Some(true) ==> extract_raw_value_spec(v@, key@) is Err,
{
    match extract_raw_bounds(v, key) {
        Err(_) => Some(true),
        Ok((a, b)) => {
            if b - a == 1 && v[a] == '"' {
                assert(v@.subrange(a as int, b as int) =~= seq!['"']);
                None
            } else {
                proof {
                    if v@.subrange(a as int, b as int) == seq!['"'] {
                        assert(v@.subrange(a as int, b as int).len() == 1);
                        assert(v@.subrange(a as int, b as int)[0] == v@[a as int]);
                    }
                }
                Some(false)
            }
        },
    }
}

} // verus!
