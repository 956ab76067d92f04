//! Character-level text operations on `str` and `String`, each stated over
//! the sequence of characters that the text holds.

use vstd::prelude::*;

verus! {

/// Appends one character to a `String`.
///
/// Trusted: calls `String::push`, which std documents as appending the
/// given `char` to the end of the string.
#[verifier::external_body]
pub(crate) fn push_char(s: &mut String, c: char)
    ensures
        final(s)@ == old(s)@.push(c),
{
    s.push(c);
}

/// The characters of a string slice, in order.
pub fn chars_of(s: &str) -> (v: Vec<char>)
    ensures
        v@ == s@,
{
    let mut v: Vec<char> = Vec::new();
    for c in it: s.chars()
        invariant
            v@ == it.seq().take(it.index() as int),
            it.seq() == s@,
    {
        v.push(c);
    }
    v
}

/// A `String` holding the characters `v[lo..hi]`.
pub fn string_of(v: &Vec<char>, lo: usize, hi: usize) -> (s: String)
    requires
        lo <= hi <= v@.len(),
    ensures
        s@ == v@.subrange(lo as int, hi as int),
{
    let mut s = String::new();
    let mut i = lo;
    while i < hi
        invariant
            lo <= i <= hi <= v@.len(),
            s@ == v@.subrange(lo as int, i as int),
        decreases hi - i,
    {
        push_char(&mut s, v[i]);
        i = i + 1;
        assert(s@ =~= v@.subrange(lo as int, i as int));
    }
    s
}

/// The characters that `char::is_whitespace` accepts: those with the Unicode
/// `White_Space` property.
pub open spec fn is_whitespace(c: char) -> bool {
    ||| '\u{9}' <= c && c <= '\u{D}'
    ||| c == ' '
    ||| c == '\u{85}'
    ||| c == '\u{A0}'
    ||| c == '\u{1680}'
    ||| '\u{2000}' <= c && c <= '\u{200A}'
    ||| c == '\u{2028}'
    ||| c == '\u{2029}'
    ||| c == '\u{202F}'
    ||| c == '\u{205F}'
    ||| c == '\u{3000}'
}

/// Whether `c` has the Unicode `White_Space` property.
pub fn is_whitespace_char(c: char) -> (b: bool)
    ensures
        b == is_whitespace(c),
{
    ('\u{9}' <= c && c <= '\u{D}') || c == ' ' || c == '\u{85}' || c == '\u{A0}' || c == '\u{1680}'
        || ('\u{2000}' <= c && c <= '\u{200A}') || c == '\u{2028}' || c == '\u{2029}' || c
        == '\u{202F}' || c == '\u{205F}' || c == '\u{3000}'
}

/// `s` without its leading whitespace.
pub open spec fn trim_start(s: Seq<char>) -> Seq<char>
    decreases s.len(),
{
    if s.len() > 0 && is_whitespace(s[0]) {
        trim_start(s.drop_first())
    } else {
        s
    }
}

/// `s` without its trailing whitespace.
pub open spec fn trim_end(s: Seq<char>) -> Seq<char>
    decreases s.len(),
{
    if s.len() > 0 && is_whitespace(s.last()) {
        trim_end(s.drop_last())
    } else {
        s
    }
}

/// `s` without leading and trailing whitespace, as `str::trim` gives it.
pub open spec fn trim(s: Seq<char>) -> Seq<char> {
    trim_end(trim_start(s))
}

/// What `trim_start` leaves: a suffix that starts at the first character
/// that is not whitespace.
proof fn lemma_trim_start_cut(s: Seq<char>) -> (a: int)
    ensures
        0 <= a <= s.len(),
        trim_start(s) == s.skip(a),
        forall|i: int| 0 <= i < a ==> is_whitespace(#[trigger] s[i]),
        a < s.len() ==> !is_whitespace(s[a]),
    decreases s.len(),
{
    if s.len() > 0 && is_whitespace(s[0]) {
        let a0 = lemma_trim_start_cut(s.drop_first());
        assert(s.drop_first().skip(a0) =~= s.skip(a0 + 1));
        assert forall|i: int| 0 <= i < a0 + 1 implies is_whitespace(#[trigger] s[i]) by {
            if i > 0 {
                assert(s[i] == s.drop_first()[i - 1]);
            }
        }
        a0 + 1
    } else {
        assert(s.skip(0) =~= s);
        0
    }
}

/// What `trim_end` leaves: a prefix that ends at the last character that is
/// not whitespace.
proof fn lemma_trim_end_cut(s: Seq<char>) -> (b: int)
    ensures
        0 <= b <= s.len(),
        trim_end(s) == s.take(b),
        forall|i: int| b <= i < s.len() ==> is_whitespace(#[trigger] s[i]),
        b > 0 ==> !is_whitespace(s[b - 1]),
    decreases s.len(),
{
    if s.len() > 0 && is_whitespace(s.last()) {
        let b0 = lemma_trim_end_cut(s.drop_last());
        assert(s.drop_last().take(b0) =~= s.take(b0));
        assert forall|i: int| b0 <= i < s.len() implies is_whitespace(#[trigger] s[i]) by {
            if i < s.len() - 1 {
                assert(s[i] == s.drop_last()[i]);
            }
        }
        b0
    } else {
        assert(s.take(s.len() as int) =~= s);
        s.len() as int
    }
}

/// Law: `trim` removes exactly the leading and the trailing whitespace. Its
/// result is the slice `s[a..b]` where everything before `a` and from `b`
/// on is whitespace, and the slice, when not empty, starts and ends with a
/// character that is not whitespace. In particular it is empty exactly when
/// `s` is all whitespace.
pub proof fn lemma_trim_is_slice(s: Seq<char>)
    ensures
        exists|a: int, b: int|
            {
                &&& 0 <= a <= b <= s.len()
                &&& trim(s) == s.subrange(a, b)
                &&& forall|i: int| 0 <= i < a ==> is_whitespace(#[trigger] s[i])
                &&& forall|i: int| b <= i < s.len() ==> is_whitespace(#[trigger] s[i])
                &&& a < b ==> !is_whitespace(s[a]) && !is_whitespace(s[b - 1])
            },
        (trim(s).len() == 0) == (forall|i: int| 0 <= i < s.len() ==> is_whitespace(#[trigger] s[i])),
{
    let a = lemma_trim_start_cut(s);
    let t = s.skip(a);
    let c = lemma_trim_end_cut(t);
    let b = a + c;
    assert(t.take(c) =~= s.subrange(a, b));
    assert forall|i: int| b <= i < s.len() implies is_whitespace(#[trigger] s[i]) by {
        assert(s[i] == t[i - a]);
    }
    if a < b {
        assert(s[a] == t[0]);
        assert(s[b - 1] == t[c - 1]);
    }
    if trim(s).len() == 0 {
        assert forall|i: int| 0 <= i < s.len() implies is_whitespace(#[trigger] s[i]) by {
            if i >= a {
                assert(b == a);
            }
        }
    }
    if forall|i: int| 0 <= i < s.len() ==> is_whitespace(#[trigger] s[i]) {
        if a < b {
            assert(is_whitespace(s[a]));
        }
    }
}

/// The bounds of `v[lo..hi]` once leading and trailing whitespace is left out.
pub fn trim_bounds(v: &Vec<char>, lo: usize, hi: usize) -> (r: (usize, usize))
    requires
        lo <= hi <= v@.len(),
    ensures
        lo <= r.0 <= r.1 <= hi,
        v@.subrange(r.0 as int, r.1 as int) == trim(v@.subrange(lo as int, hi as int)),
{
    let mut a = lo;
    while a < hi && is_whitespace_char(v[a])
        invariant
            lo <= a <= hi <= v@.len(),
            trim_start(v@.subrange(lo as int, hi as int)) == trim_start(
                v@.subrange(a as int, hi as int),
            ),
        decreases hi - a,
    {
        assert(v@.subrange(a as int, hi as int).drop_first() =~= v@.subrange(a + 1, hi as int));
        a = a + 1;
    }
    assert(trim_start(v@.subrange(a as int, hi as int)) == v@.subrange(a as int, hi as int));
    let mut b = hi;
    while b > a && is_whitespace_char(v[b - 1])
        invariant
            lo <= a <= b <= hi <= v@.len(),
            trim_end(v@.subrange(a as int, hi as int)) == trim_end(
                v@.subrange(a as int, b as int),
            ),
        decreases b - a,
    {
        assert(v@.subrange(a as int, b as int).drop_last() =~= v@.subrange(a as int, b - 1));
        b = b - 1;
    }
    (a, b)
}

/// `s.trim()` as an owned string.
pub fn trim_str(s: &str) -> (r: String)
    ensures
        r@ == trim(s@),
{
    let v = chars_of(s);
    let (a, b) = trim_bounds(&v, 0, v.len());
    assert(v@.subrange(0, v@.len() as int) =~= v@);
    string_of(&v, a, b)
}

/// The first index at or after `i` at which `pat` occurs in `s`.
pub open spec fn find_from(s: Seq<char>, pat: Seq<char>, i: int) -> Option<int>
    decreases s.len() + 1 - i,
{
    if i < 0 || i + pat.len() > s.len() {
        None
    } else if s.subrange(i, i + pat.len()) == pat {
        Some(i)
    } else {
        find_from(s, pat, i + 1)
    }
}

/// The first index at which `pat` occurs in `s`, as `str::find` gives it
/// (counted in characters).
pub open spec fn find(s: Seq<char>, pat: Seq<char>) -> Option<int> {
    find_from(s, pat, 0)
}

/// What a search from `i` finds is an occurrence, and the first one from `i`.
pub proof fn lemma_find_from(s: Seq<char>, pat: Seq<char>, i: int)
    ensures
        find_from(s, pat, i) matches Some(j) ==> {
            &&& 0 <= i <= j
            &&& j + pat.len() <= s.len()
            &&& s.subrange(j, j + pat.len()) == pat
            &&& forall|k: int|
                i <= k < j ==> #[trigger] s.subrange(k, k + pat.len()) != pat
        },
        find_from(s, pat, i) is None ==> forall|k: int|
            0 <= i <= k && k + pat.len() <= s.len() ==> #[trigger] s.subrange(k, k + pat.len())
                != pat,
    decreases s.len() + 1 - i,
{
    if i < 0 || i + pat.len() > s.len() {
    } else if s.subrange(i, i + pat.len()) == pat {
    } else {
        lemma_find_from(s, pat, i + 1);
    }
}

/// Whether `pat` occurs in `s` at index `i`.
pub fn occurs_at(s: &Vec<char>, i: usize, pat: &Vec<char>) -> (b: bool)
    requires
        i + pat@.len() <= s@.len(),
    ensures
        b == (s@.subrange(i as int, i + pat@.len()) == pat@),
{
    let n = s.len();
    let mut k: usize = 0;
    while k < pat.len()
        invariant
            n == s@.len(),
            i + pat@.len() <= s@.len(),
            k <= pat@.len(),
            s@.subrange(i as int, i + k) == pat@.take(k as int),
        decreases pat@.len() - k,
    {
        if s[i + k] != pat[k] {
            assert(s@.subrange(i as int, i + pat@.len())[k as int] != pat@[k as int]);
            return false;
        }
        k = k + 1;
        assert(s@.subrange(i as int, i + k) =~= pat@.take(k as int));
    }
    assert(pat@.take(k as int) =~= pat@);
    true
}

/// The first index at or after `from` at which `pat` occurs in `s`.
pub fn find_at(s: &Vec<char>, from: usize, pat: &Vec<char>) -> (r: Option<usize>)
    requires
        from <= s@.len(),
    ensures
        r == (match find_from(s@, pat@, from as int) {
            Some(j) => Some(j as usize),
            None => None,
        }),
{
    let mut i = from;
    while pat.len() <= s.len() - i
        invariant
            from <= i <= s@.len(),
            find_from(s@, pat@, from as int) == find_from(s@, pat@, i as int),
        decreases s@.len() + 1 - i,
    {
        if occurs_at(s, i, pat) {
            return Some(i);
        }
        if i == s.len() {
            assert(find_from(s@, pat@, i + 1) is None);
            return None;
        }
        i = i + 1;
    }
    None
}

/// `s` from index `i` on, with each leftmost occurrence of the nonempty `from`
/// replaced by `to`, scanning left to right without overlap.
pub open spec fn replace_from(s: Seq<char>, from: Seq<char>, to: Seq<char>, i: int) -> Seq<char>
    decreases s.len() - i,
{
    if from.len() == 0 || i < 0 || i > s.len() {
        s.skip(i)
    } else {
        match find_from(s, from, i) {
            None => s.skip(i),
            Some(j) => if i <= j && j + from.len() <= s.len() {
                s.subrange(i, j) + to + replace_from(s, from, to, j + from.len())
            } else {
                s.skip(i)
            },
        }
    }
}

/// `str::replace`: every leftmost non-overlapping occurrence of the nonempty
/// `from` replaced by `to`.
pub open spec fn replace(s: Seq<char>, from: Seq<char>, to: Seq<char>) -> Seq<char> {
    replace_from(s, from, to, 0)
}

/// `s.replace(from, to)` for a nonempty `from`.
pub fn replace_str(s: &str, from: &str, to: &str) -> (r: String)
    requires
        from@.len() > 0,
    ensures
        r@ == replace(s@, from@, to@),
{
    let v = chars_of(s);
    let f = chars_of(from);
    let mut out = String::new();
    let mut i: usize = 0;
    while i <= v.len()
        invariant_except_break
            i <= v@.len(),
            f@ == from@,
            f@.len() > 0,
            out@ + replace_from(v@, f@, to@, i as int) == replace(v@, f@, to@),
        ensures
            out@ == replace(v@, f@, to@),
        decreases v@.len() + 1 - i,
    {
        proof {
            lemma_find_from(v@, f@, i as int);
        }
        match find_at(&v, i, &f) {
            None => {
                let rest = string_of(&v, i, v.len());
                assert(v@.subrange(i as int, v@.len() as int) =~= v@.skip(i as int));
                out.append(rest.as_str());
                assert(out@ =~= replace(v@, f@, to@));
                break;
            },
            Some(j) => {
                let piece = string_of(&v, i, j);
                out.append(piece.as_str());
                out.append(to);
                let ghost before = out@;
                assert(out@ + replace_from(v@, f@, to@, j + f@.len()) =~= replace(v@, f@, to@));
                i = j + f.len();
            },
        }
    }
    out
}

/// Whether any character of `s` is one of `set`.
pub fn contains_any(s: &str, set: &Vec<char>) -> (b: bool)
    ensures
        b == (exists|i: int| 0 <= i < s@.len() && set@.contains(#[trigger] s@[i])),
{
    let v = chars_of(s);
    let mut i: usize = 0;
    while i < v.len()
        invariant
            i <= v@.len(),
            v@ == s@,
            forall|k: int| 0 <= k < i ==> !set@.contains(#[trigger] v@[k]),
        decreases v@.len() - i,
    {
        let mut k: usize = 0;
        while k < set.len()
            invariant
                i < v@.len(),
                v@ == s@,
                k <= set@.len(),
                forall|m: int| 0 <= m < k ==> set@[m] != v@[i as int],
            decreases set@.len() - k,
        {
            if set[k] == v[i] {
                assert(set@.contains(s@[i as int]));
                return true;
            }
            k = k + 1;
        }
        i = i + 1;
    }
    false
}

/// Whether two string slices hold the same characters (`a == b`).
pub fn str_eq(a: &str, b: &str) -> (r: bool)
    ensures
        r == (a@ == b@),
{
    let x = chars_of(a);
    let y = chars_of(b);
    if x.len() != y.len() {
        return false;
    }
    let mut i: usize = 0;
    while i < x.len()
        invariant
            x@.len() == y@.len(),
            i <= x@.len(),
            x@ == a@,
            y@ == b@,
            forall|k: int| 0 <= k < i ==> x@[k] == y@[k],
        decreases x@.len() - i,
    {
        if x[i] != y[i] {
            return false;
        }
        i = i + 1;
    }
    assert(x@ =~= y@);
    true
}

/// `replace` read as a left-to-right scan: at each position either the
/// pattern matches and is replaced, or one character is kept.
pub open spec fn replace_scan(s: Seq<char>, from: Seq<char>, to: Seq<char>) -> Seq<char>
    decreases s.len(),
{
    if from.len() == 0 || s.len() < from.len() {
        s
    } else if s.take(from.len() as int) == from {
        to + replace_scan(s.skip(from.len() as int), from, to)
    } else {
        seq![s[0]] + replace_scan(s.drop_first(), from, to)
    }
}

/// `replace` from index `i` is the scan of the rest of the text.
pub proof fn lemma_replace_scan(s: Seq<char>, from: Seq<char>, to: Seq<char>, i: int)
    requires
        from.len() > 0,
        0 <= i <= s.len(),
    ensures
        replace_from(s, from, to, i) == replace_scan(s.skip(i), from, to),
    decreases s.len() - i,
{
    let r = s.skip(i);
    lemma_find_from(s, from, i);
    if i + from.len() > s.len() {
    } else if s.subrange(i, i + from.len()) == from {
        assert(r.take(from.len() as int) =~= s.subrange(i, i + from.len()));
        assert(r.skip(from.len() as int) =~= s.skip(i + from.len()));
        lemma_replace_scan(s, from, to, i + from.len());
        assert(s.subrange(i, i) =~= Seq::<char>::empty());
        assert(replace_from(s, from, to, i) =~= to + replace_from(s, from, to, i + from.len()));
    } else {
        assert(r.take(from.len() as int) =~= s.subrange(i, i + from.len()));
        assert(r.drop_first() =~= s.skip(i + 1));
        lemma_replace_scan(s, from, to, i + 1);
        lemma_find_from(s, from, i + 1);
        assert(find_from(s, from, i) == find_from(s, from, i + 1));
        match find_from(s, from, i + 1) {
            None => {
                assert(s.skip(i) =~= seq![s[i]] + s.skip(i + 1));
            },
            Some(j) => {
                assert(s.subrange(i, j) =~= seq![s[i]] + s.subrange(i + 1, j));
                assert(replace_from(s, from, to, i) =~= seq![s[i]] + replace_from(
                    s,
                    from,
                    to,
                    i + 1,
                ));
            },
        }
    }
}

/// `replace` is the scan of the whole text.
pub proof fn lemma_replace_is_scan(s: Seq<char>, from: Seq<char>, to: Seq<char>)
    requires
        from.len() > 0,
    ensures
        replace(s, from, to) == replace_scan(s, from, to),
{
    lemma_replace_scan(s, from, to, 0);
    assert(s.skip(0) =~= s);
}

/// Scanning for a one-character pattern treats the two parts of a
/// concatenation separately.
pub proof fn lemma_replace_scan_concat1(a: Seq<char>, b: Seq<char>, from: Seq<char>, to: Seq<char>)
    requires
        from.len() == 1,
    ensures
        replace_scan(a + b, from, to) == replace_scan(a, from, to) + replace_scan(b, from, to),
    decreases a.len(),
{
    if a.len() == 0 {
        assert(a + b =~= b);
        assert(replace_scan(a, from, to) =~= a);
    } else {
        let ab = a + b;
        assert(ab.take(1) =~= a.take(1));
        assert(ab.skip(1) =~= a.skip(1) + b);
        assert(ab.drop_first() =~= a.drop_first() + b);
        assert(a.skip(1) =~= a.drop_first());
        lemma_replace_scan_concat1(a.drop_first(), b, from, to);
        assert(ab[0] == a[0]);
    }
}

} // verus!
