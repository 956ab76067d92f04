//! Decimal text of unsigned and signed integers: the notation that
//! std's `FromStr` accepts for integers and that `Display` prints.

use vstd::prelude::*;

use crate::text::push_char;

verus! {

/// An ASCII decimal digit.
pub open spec fn is_digit(c: char) -> bool {
    '0' <= c && c <= '9'
}

/// The value of an ASCII decimal digit.
pub open spec fn digit_value(c: char) -> nat {
    (c as int - '0' as int) as nat
}

/// Every character is a decimal digit.
pub open spec fn all_digits(s: Seq<char>) -> bool {
    forall|i: int| 0 <= i < s.len() ==> is_digit(#[trigger] s[i])
}

/// The number that a string of decimal digits denotes (most significant first).
pub open spec fn digits_value(s: Seq<char>) -> nat
    decreases s.len(),
{
    if s.len() == 0 {
        0
    } else {
        digits_value(s.drop_last()) * 10 + digit_value(s.last())
    }
}

/// The digit character of a value below ten.
pub open spec fn digit_char(d: nat) -> char {
    (d + '0' as nat) as char
}

/// The shortest decimal notation of `n`, as `Display` prints it.
pub open spec fn dec_str(n: nat) -> Seq<char>
    decreases n,
{
    if n < 10 {
        seq![digit_char(n)]
    } else {
        dec_str(n / 10).push(digit_char(n % 10))
    }
}


/// The digits that `FromStr` reads for an unsigned integer: one leading `+`
/// is dropped.
pub open spec fn unsigned_digits(s: Seq<char>) -> Seq<char> {
    if s.len() > 0 && s[0] == '+' {
        s.drop_first()
    } else {
        s
    }
}

/// What `FromStr` gives for an unsigned integer type whose largest value is
/// `max`: an optional `+`, then one or more digits denoting at most `max`.
pub open spec fn parse_unsigned_spec(s: Seq<char>, max: nat) -> Option<nat> {
    let d = unsigned_digits(s);
    if d.len() > 0 && all_digits(d) && digits_value(d) <= max {
        Some(digits_value(d))
    } else {
        None
    }
}

/// What `FromStr` gives for `i32`: an optional sign, then one or more digits,
/// with the value inside the range of `i32`.
pub open spec fn parse_i32_spec(s: Seq<char>) -> Option<int> {
    if s.len() > 0 && s[0] == '-' {
        let d = s.drop_first();
        if d.len() > 0 && all_digits(d) && digits_value(d) <= 0x8000_0000 {
            Some(-digits_value(d))
        } else {
            None
        }
    } else {
        match parse_unsigned_spec(s, 0x7fff_ffff) {
            Some(v) => Some(v as int),
            None => None,
        }
    }
}

/// A value of a digit prefix never exceeds the value of the whole.
pub proof fn lemma_digits_value_prefix(s: Seq<char>, k: int)
    requires
        0 <= k <= s.len(),
    ensures
        digits_value(s.take(k)) <= digits_value(s),
    decreases s.len(),
{
    if k < s.len() {
        assert(s.drop_last().take(k) =~= s.take(k));
        lemma_digits_value_prefix(s.drop_last(), k);
    } else {
        assert(s.take(k) =~= s);
    }
}

/// Appending a digit multiplies by ten and adds the digit.
pub proof fn lemma_digits_value_push(s: Seq<char>, c: char)
    ensures
        digits_value(s.push(c)) == digits_value(s) * 10 + digit_value(c),
{
    assert(s.push(c).drop_last() =~= s);
}

/// Reads the digits `s[lo..]`, returning their value when it is at most `max`.
fn digits_up_to(s: &Vec<char>, lo: usize, max: u64) -> (r: Option<u64>)
    requires
        lo <= s@.len(),
    ensures
        ({
            let d = s@.skip(lo as int);
            r == (if d.len() > 0 && all_digits(d) && digits_value(d) <= max {
                Some(digits_value(d) as u64)
            } else {
                None
            })
        }),
{
    let ghost d = s@.skip(lo as int);
    if lo == s.len() {
        return None;
    }
    let mut value: u64 = 0;
    let mut i = lo;
    while i < s.len()
        invariant
            lo <= i <= s@.len(),
            d == s@.skip(lo as int),
            all_digits(s@.subrange(lo as int, i as int)),
            value == digits_value(s@.subrange(lo as int, i as int)),
            value <= max,
        decreases s@.len() - i,
    {
        let c = s[i];
        let ghost pre = s@.subrange(lo as int, i as int);
        assert(s@.subrange(lo as int, i + 1) =~= pre.push(c));
        if !('0' <= c && c <= '9') {
            assert(d[i - lo] == c);
            return None;
        }
        proof {
            lemma_digits_value_push(pre, c);
        }
        let dv = (c as u32 - '0' as u32) as u64;
        assert(dv == digit_value(c));
        assert(value <= max / 10 ==> value * 10 <= max) by (nonlinear_arith);
        if value > max / 10 || max - value * 10 < dv {
            proof {
                assert(value * 10 + dv > max) by (nonlinear_arith)
                    requires value > max / 10 || value * 10 + dv > max, dv <= 9, max >= 0;
                if all_digits(d) {
                    assert(s@.subrange(lo as int, i + 1) =~= d.take(i + 1 - lo));
                    lemma_digits_value_prefix(d, i + 1 - lo);
                }
            }
            return None;
        }
        value = value * 10 + dv;
        i = i + 1;
    }
    assert(s@.subrange(lo as int, s@.len() as int) =~= d);
    Some(value)
}

/// Parses an unsigned integer as `FromStr` does for a type whose largest value
/// is `max`.
pub fn parse_unsigned(s: &str, max: u64) -> (r: Option<u64>)
    ensures
        r == (match parse_unsigned_spec(s@, max as nat) {
            Some(v) => Some(v as u64),
            None => None,
        }),
{
    let v = crate::text::chars_of(s);
    if v.len() > 0 && v[0] == '+' {
        assert(v@.skip(1) =~= v@.drop_first());
        digits_up_to(&v, 1, max)
    } else {
        assert(v@.skip(0) =~= v@);
        digits_up_to(&v, 0, max)
    }
}

/// Parses an `i32` as `FromStr` does.
pub fn parse_i32(s: &str) -> (r: Option<i32>)
    ensures
        r == (match parse_i32_spec(s@) {
            Some(v) => Some(v as i32),
            None => None,
        }),
{
    let v = crate::text::chars_of(s);
    if v.len() > 0 && v[0] == '-' {
        assert(v@.skip(1) =~= v@.drop_first());
        match digits_up_to(&v, 1, 0x8000_0000) {
            Some(m) => {
                if m == 0x8000_0000 {
                    Some(i32::MIN)
                } else {
                    Some(-(m as i32))
                }
            },
            None => None,
        }
    } else {
        match parse_unsigned(s, 0x7fff_ffff) {
            Some(m) => Some(m as i32),
            None => None,
        }
    }
}

/// The digit character of a value below ten is a digit of that value.
pub proof fn lemma_digit_char(d: nat)
    requires
        d < 10,
    ensures
        is_digit(digit_char(d)),
        digit_value(digit_char(d)) == d,
{
}

/// The shortest decimal notation of `n` is made of digits.
pub proof fn lemma_dec_str_digits(n: nat)
    ensures
        dec_str(n).len() > 0,
        all_digits(dec_str(n)),
        digits_value(dec_str(n)) == n,
    decreases n,
{
    lemma_digit_char(n % 10);
    if n < 10 {
        assert(dec_str(n).drop_last() =~= Seq::<char>::empty());
        assert(digits_value(Seq::<char>::empty()) == 0);
        assert(dec_str(n).last() == digit_char(n));
    } else {
        lemma_dec_str_digits(n / 10);
        lemma_digits_value_push(dec_str(n / 10), digit_char(n % 10));
        assert(dec_str(n) == dec_str(n / 10).push(digit_char(n % 10)));
        assert((n / 10) * 10 + n % 10 == n);
    }
}

/// The decimal notation of `n`, as `n.to_string()` gives it.
pub fn u64_to_string(n: u64) -> (s: String)
    ensures
        s@ == dec_str(n as nat),
    decreases n,
{
    if n < 10 {
        let mut s = String::new();
        push_char(&mut s, ((n as u8) + 48u8) as char);
        assert(s@ =~= dec_str(n as nat));
        s
    } else {
        let mut s = u64_to_string(n / 10);
        push_char(&mut s, (((n % 10) as u8) + 48u8) as char);
        s
    }
}

/// The index of the first `c` in `s`, or the length of `s` when there is none.
pub open spec fn first_pos(s: Seq<char>, c: char) -> int
    decreases s.len(),
{
    if s.len() == 0 {
        0
    } else if s[0] == c {
        0
    } else {
        1 + first_pos(s.drop_first(), c)
    }
}

/// The index of the first exponent mark (`e` or `E`), or the length of `s`.
pub open spec fn exp_pos(s: Seq<char>) -> int
    decreases s.len(),
{
    if s.len() == 0 {
        0
    } else if s[0] == 'e' || s[0] == 'E' {
        0
    } else {
        1 + exp_pos(s.drop_first())
    }
}

/// What `first_pos` says of the characters it passes and the one it stops at.
pub proof fn lemma_first_pos(s: Seq<char>, c: char)
    ensures
        0 <= first_pos(s, c) <= s.len(),
        first_pos(s, c) < s.len() ==> s[first_pos(s, c)] == c,
        forall|i: int| 0 <= i < first_pos(s, c) ==> s[i] != c,
    decreases s.len(),
{
    if s.len() > 0 && s[0] != c {
        lemma_first_pos(s.drop_first(), c);
        assert forall|i: int| 0 <= i < first_pos(s, c) implies s[i] != c by {
            if i > 0 {
                assert(s[i] == s.drop_first()[i - 1]);
            }
        }
    }
}

/// What `exp_pos` says of the characters it passes and the one it stops at.
pub proof fn lemma_exp_pos(s: Seq<char>)
    ensures
        0 <= exp_pos(s) <= s.len(),
        exp_pos(s) < s.len() ==> (s[exp_pos(s)] == 'e' || s[exp_pos(s)] == 'E'),
        forall|i: int| 0 <= i < exp_pos(s) ==> s[i] != 'e' && s[i] != 'E',
    decreases s.len(),
{
    if s.len() > 0 && s[0] != 'e' && s[0] != 'E' {
        lemma_exp_pos(s.drop_first());
        assert forall|i: int| 0 <= i < exp_pos(s) implies s[i] != 'e' && s[i] != 'E' by {
            if i > 0 {
                assert(s[i] == s.drop_first()[i - 1]);
            }
        }
    }
}

/// The first index in `v[lo..hi]` holding `c`, or `hi`.
pub fn position_of(v: &Vec<char>, lo: usize, hi: usize, c: char) -> (r: usize)
    requires
        lo <= hi <= v@.len(),
    ensures
        r == lo + first_pos(v@.subrange(lo as int, hi as int), c),
{
    let mut i = lo;
    while i < hi
        invariant
            lo <= i <= hi <= v@.len(),
            first_pos(v@.subrange(lo as int, hi as int), c) == (i - lo) + first_pos(
                v@.subrange(i as int, hi as int),
                c,
            ),
        decreases hi - i,
    {
        if v[i] == c {
            return i;
        }
        assert(v@.subrange(i as int, hi as int).drop_first() =~= v@.subrange(i + 1, hi as int));
        i = i + 1;
    }
    i
}

/// The first index in `v[lo..hi]` holding `e` or `E`, or `hi`.
fn exp_position(v: &Vec<char>, lo: usize, hi: usize) -> (r: usize)
    requires
        lo <= hi <= v@.len(),
    ensures
        r == lo + exp_pos(v@.subrange(lo as int, hi as int)),
{
    let mut i = lo;
    while i < hi
        invariant
            lo <= i <= hi <= v@.len(),
            exp_pos(v@.subrange(lo as int, hi as int)) == (i - lo) + exp_pos(
                v@.subrange(i as int, hi as int),
            ),
        decreases hi - i,
    {
        if v[i] == 'e' || v[i] == 'E' {
            return i;
        }
        assert(v@.subrange(i as int, hi as int).drop_first() =~= v@.subrange(i + 1, hi as int));
        i = i + 1;
    }
    i
}

/// A decimal number made of digits and at most one point, with at least one
/// digit: `Digit+ | Digit+ '.' Digit* | Digit* '.' Digit+`.
pub open spec fn is_plain_decimal(s: Seq<char>) -> bool {
    let k = first_pos(s, '.');
    all_digits(s.take(k)) && (k == s.len() || all_digits(s.skip(k + 1))) && (k > 0 || s.len() > k
        + 1)
}

/// The length of a leading sign (`+` or `-`), 0 or 1.
pub open spec fn sign_len(s: Seq<char>) -> int {
    if s.len() > 0 && (s[0] == '+' || s[0] == '-') {
        1
    } else {
        0
    }
}

/// The exponent digits after `e`: `Sign? Digit+`.
pub open spec fn is_exponent_digits(s: Seq<char>) -> bool {
    let d = s.skip(sign_len(s));
    d.len() > 0 && all_digits(d)
}

/// A number of `f64`'s `FromStr` grammar without its sign:
/// `( Digit+ | Digit+ '.' Digit* | Digit* '.' Digit+ ) Exp?` with
/// `Exp ::= [eE] Sign? Digit+`.
pub open spec fn is_float_number(s: Seq<char>) -> bool {
    let m = exp_pos(s);
    is_plain_decimal(s.take(m)) && (m == s.len() || is_exponent_digits(s.skip(m + 1)))
}

/// ASCII upper-case letters lowered, other characters kept.
pub open spec fn ascii_lower(c: char) -> char {
    if 'A' <= c && c <= 'Z' {
        ((c as int) + 32) as char
    } else {
        c
    }
}

/// `s` equals the lower-case word `w` when ASCII case is ignored.
pub open spec fn eq_ignore_case(s: Seq<char>, w: Seq<char>) -> bool {
    s.len() == w.len() && forall|i: int| 0 <= i < s.len() ==> ascii_lower(#[trigger] s[i]) == w[i]
}

/// The strings that `f64`'s `FromStr` accepts: an optional sign, then `inf`,
/// `infinity` or `nan` in any ASCII case, or a number.
pub open spec fn is_float_literal(s: Seq<char>) -> bool {
    let b = s.skip(sign_len(s));
    eq_ignore_case(b, "inf"@) || eq_ignore_case(b, "infinity"@) || eq_ignore_case(b, "nan"@)
        || is_float_number(b)
}

/// Whether `v[lo..hi]` is made of digits.
fn digits_only(v: &Vec<char>, lo: usize, hi: usize) -> (r: bool)
    requires
        lo <= hi <= v@.len(),
    ensures
        r == all_digits(v@.subrange(lo as int, hi as int)),
{
    let mut i = lo;
    while i < hi
        invariant
            lo <= i <= hi <= v@.len(),
            all_digits(v@.subrange(lo as int, i as int)),
        decreases hi - i,
    {
        if !('0' <= v[i] && v[i] <= '9') {
            assert(v@.subrange(lo as int, hi as int)[i - lo] == v@[i as int]);
            return false;
        }
        i = i + 1;
        assert forall|k: int| 0 <= k < i - lo implies crate::decimal::is_digit(
            #[trigger] v@.subrange(lo as int, i as int)[k],
        ) by {
            if k < i - 1 - lo {
                assert(v@.subrange(lo as int, i as int)[k] == v@.subrange(lo as int, i - 1)[k]);
            }
        }
    }
    true
}

/// Whether `v[lo..hi]` is a plain decimal number.
fn plain_decimal(v: &Vec<char>, lo: usize, hi: usize) -> (r: bool)
    requires
        lo <= hi <= v@.len(),
    ensures
        r == is_plain_decimal(v@.subrange(lo as int, hi as int)),
{
    let ghost t = v@.subrange(lo as int, hi as int);
    let k = position_of(v, lo, hi, '.');
    proof {
        lemma_first_pos(t, '.');
    }
    assert(t.take(k - lo) =~= v@.subrange(lo as int, k as int));
    let head = digits_only(v, lo, k);
    if k == hi {
        head && k > lo
    } else {
        assert(t.skip(k - lo + 1) =~= v@.subrange(k + 1, hi as int));
        head && digits_only(v, k + 1, hi) && (k > lo || hi > k + 1)
    }
}

/// Whether `v[lo..hi]` equals the lower-case word `w` when ASCII case is ignored.
fn lower_equals(v: &Vec<char>, lo: usize, hi: usize, w: &str) -> (r: bool)
    requires
        lo <= hi <= v@.len(),
    ensures
        r == eq_ignore_case(v@.subrange(lo as int, hi as int), w@),
{
    let wv = crate::text::chars_of(w);
    if hi - lo != wv.len() {
        return false;
    }
    let mut i: usize = 0;
    while i < wv.len()
        invariant
            hi - lo == wv@.len(),
            lo <= hi <= v@.len(),
            wv@ == w@,
            i <= wv@.len(),
            forall|k: int| 0 <= k < i ==> ascii_lower(#[trigger] v@.subrange(lo as int, hi as int)[k]) == wv@[k],
        decreases wv@.len() - i,
    {
        let c = v[lo + i];
        let l = if 'A' <= c && c <= 'Z' {
            ((c as u32) + 32) as u8 as char
        } else {
            c
        };
        assert(v@.subrange(lo as int, hi as int)[i as int] == c);
        assert(l == ascii_lower(c));
        if l != wv[i] {
            return false;
        }
        i = i + 1;
    }
    true
}

/// Whether `s` is accepted by `f64`'s `FromStr` (`s.parse::<f64>().is_ok()`).
pub fn is_float_text(s: &str) -> (r: bool)
    ensures
        r == is_float_literal(s@),
{
    let v = crate::text::chars_of(s);
    let n = v.len();
    let lo: usize = if n > 0 && (v[0] == '+' || v[0] == '-') {
        1
    } else {
        0
    };
    let ghost b = v@.skip(lo as int);
    assert(b =~= v@.subrange(lo as int, n as int));
    if lower_equals(&v, lo, n, "inf") || lower_equals(&v, lo, n, "infinity") || lower_equals(
        &v,
        lo,
        n,
        "nan",
    ) {
        return true;
    }
    let m = exp_position(&v, lo, n);
    proof {
        lemma_exp_pos(b);
    }
    assert(b.take(m - lo) =~= v@.subrange(lo as int, m as int));
    let mantissa = plain_decimal(&v, lo, m);
    if m == n {
        return mantissa;
    }
    let e = m + 1;
    let ghost x = b.skip(m - lo + 1);
    assert(x =~= v@.subrange(e as int, n as int));
    let d: usize = if e < n && (v[e] == '+' || v[e] == '-') {
        e + 1
    } else {
        e
    };
    assert(x.skip(d - e) =~= v@.subrange(d as int, n as int));
    mantissa && d < n && digits_only(&v, d, n)
}


/// A character that can stand in a literal that `f64` accepts.
pub open spec fn is_float_char(c: char) -> bool {
    ||| is_digit(c)
    ||| c == '+' || c == '-' || c == '.' || c == 'e' || c == 'E'
    ||| c == 'i' || c == 'I' || c == 'n' || c == 'N' || c == 'f' || c == 'F'
    ||| c == 't' || c == 'T' || c == 'y' || c == 'Y' || c == 'a' || c == 'A'
}

/// A character whose ASCII lower case is a letter of `infinity` or `nan`.
proof fn lemma_lower_letter(c: char, w: Seq<char>, k: int)
    requires
        w == "inf"@ || w == "infinity"@ || w == "nan"@,
        0 <= k < w.len(),
        ascii_lower(c) == w[k],
    ensures
        is_float_char(c),
{
    reveal_strlit("inf");
    reveal_strlit("infinity");
    reveal_strlit("nan");
    if w == "inf"@ {
        assert(w[k] == 'i' || w[k] == 'n' || w[k] == 'f');
    } else if w == "infinity"@ {
        assert(w[k] == 'i' || w[k] == 'n' || w[k] == 'f' || w[k] == 't' || w[k] == 'y');
    } else {
        assert(w[k] == 'n' || w[k] == 'a');
    }
}

/// Every character of a literal that `f64` accepts is a float character, and
/// such a literal is not empty.
pub proof fn lemma_float_literal_chars(s: Seq<char>)
    requires
        is_float_literal(s),
    ensures
        s.len() > 0,
        forall|k: int| 0 <= k < s.len() ==> is_float_char(#[trigger] s[k]),
{
    reveal_strlit("inf");
    reveal_strlit("infinity");
    reveal_strlit("nan");
    let sl = sign_len(s);
    let b = s.skip(sl);
    let m = exp_pos(b);
    lemma_exp_pos(b);
    let t = b.take(m);
    let k0 = first_pos(t, '.');
    lemma_first_pos(t, '.');
    if !(eq_ignore_case(b, "inf"@) || eq_ignore_case(b, "infinity"@) || eq_ignore_case(b, "nan"@)) {
        assert(is_float_number(b));
        assert(t.len() > 0);
    }
    assert forall|k: int| 0 <= k < s.len() implies is_float_char(#[trigger] s[k]) by {
        if k >= sl {
            let kb = k - sl;
            assert(s[k] == b[kb]);
            if eq_ignore_case(b, "inf"@) {
                lemma_lower_letter(b[kb], "inf"@, kb);
            } else if eq_ignore_case(b, "infinity"@) {
                lemma_lower_letter(b[kb], "infinity"@, kb);
            } else if eq_ignore_case(b, "nan"@) {
                lemma_lower_letter(b[kb], "nan"@, kb);
            } else {
                if kb < m {
                    assert(b[kb] == t[kb]);
                    if kb < k0 {
                        assert(t[kb] == t.take(k0)[kb]);
                    } else if kb > k0 {
                        assert(t[kb] == t.skip(k0 + 1)[kb - k0 - 1]);
                    }
                } else if kb > m {
                    let x = b.skip(m + 1);
                    let xs = sign_len(x);
                    assert(b[kb] == x[kb - m - 1]);
                    if kb - m - 1 >= xs {
                        assert(x[kb - m - 1] == x.skip(xs)[kb - m - 1 - xs]);
                    }
                }
            }
        }
    }
}

/// The decimal notation of an integer, with a leading `-` when negative, as
/// `Display` prints it.
pub open spec fn int_str(v: int) -> Seq<char> {
    if v < 0 {
        seq!['-'] + dec_str((-v) as nat)
    } else {
        dec_str(v as nat)
    }
}

/// The decimal notation of an `i32`, as `v.to_string()` gives it.
pub fn i32_to_string(v: i32) -> (s: String)
    ensures
        s@ == int_str(v as int),
{
    if v < 0 {
        let mut s = String::new();
        push_char(&mut s, '-');
        let magnitude: u64 = if v == i32::MIN {
            2147483648
        } else {
            (-v) as u64
        };
        let d = u64_to_string(magnitude);
        s.append(d.as_str());
        assert(s@ =~= int_str(v as int));
        s
    } else {
        u64_to_string(v as u64)
    }
}

} // verus!
