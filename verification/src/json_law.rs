//! The round trip of the JSON report: what `render_app_output_json` writes,
//! `parse_app_output_json` reads back unchanged.

use vstd::prelude::*;

use crate::decimal::{dec_str, first_pos, is_digit, is_float_literal, lemma_dec_str_digits};
use crate::json::{escape_json, unescape_json, string_end_from};
use crate::text::{
    is_whitespace, lemma_replace_is_scan, lemma_replace_scan_concat1, replace_scan, trim,
};
use crate::workload::lemma_dec_str_parses_back;

verus! {

/// The escaped form of one character.
pub open spec fn esc_char(c: char) -> Seq<char> {
    if c == '\\' {
        seq!['\\', '\\']
    } else if c == '"' {
        seq!['\\', '"']
    } else {
        seq![c]
    }
}

/// The escaped form of a text, character by character.
pub open spec fn esc_map(w: Seq<char>) -> Seq<char>
    decreases w.len(),
{
    if w.len() == 0 {
        Seq::empty()
    } else {
        esc_char(w[0]) + esc_map(w.drop_first())
    }
}

/// A text with each backslash doubled.
pub open spec fn dbl_map(w: Seq<char>) -> Seq<char>
    decreases w.len(),
{
    if w.len() == 0 {
        Seq::empty()
    } else {
        (if w[0] == '\\' {
            seq!['\\', '\\']
        } else {
            seq![w[0]]
        }) + dbl_map(w.drop_first())
    }
}

/// The literals of the escapes, as characters.
proof fn lemma_escape_literals()
    ensures
        "\\"@ == seq!['\\'],
        "\\\\"@ == seq!['\\', '\\'],
        "\""@ == seq!['"'],
        "\\\""@ == seq!['\\', '"'],
{
    reveal_strlit("\\");
    reveal_strlit("\\\\");
    reveal_strlit("\"");
    reveal_strlit("\\\"");
    assert("\\"@ =~= seq!['\\']);
    assert("\\\\"@ =~= seq!['\\', '\\']);
    assert("\""@ =~= seq!['"']);
    assert("\\\""@ =~= seq!['\\', '"']);
}

/// Doubling backslashes is the scan that replaces `\` by `\\`.
proof fn lemma_scan_doubles(w: Seq<char>)
    ensures
        replace_scan(w, seq!['\\'], seq!['\\', '\\']) == dbl_map(w),
    decreases w.len(),
{
    if w.len() > 0 {
        lemma_scan_doubles(w.drop_first());
        assert(w.skip(1) =~= w.drop_first());
        if w[0] == '\\' {
            assert(w.take(1) =~= seq!['\\']);
        } else {
            assert(w.take(1) != seq!['\\']) by {
                assert(w.take(1)[0] != seq!['\\'][0]);
            }
        }
    }
}

/// Escaping quotes in a doubled text gives the escaped text.
proof fn lemma_scan_quotes(w: Seq<char>)
    ensures
        replace_scan(dbl_map(w), seq!['"'], seq!['\\', '"']) == esc_map(w),
    decreases w.len(),
{
    if w.len() > 0 {
        let c = w[0];
        let head = if c == '\\' {
            seq!['\\', '\\']
        } else {
            seq![c]
        };
        assert(dbl_map(w) == head + dbl_map(w.drop_first()));
        lemma_replace_scan_concat1(head, dbl_map(w.drop_first()), seq!['"'], seq!['\\', '"']);
        lemma_scan_quotes(w.drop_first());
        let q = seq!['"'];
        let t = seq!['\\', '"'];
        if c == '\\' {
            let rest = seq!['\\'];
            assert(head.take(1) =~= seq!['\\']);
            assert(head.take(1) != q) by {
                assert(head.take(1)[0] != q[0]);
            }
            assert(head.drop_first() =~= rest);
            assert(rest.take(1) != q) by {
                assert(rest.take(1)[0] != q[0]);
            }
            assert(rest.drop_first() =~= Seq::<char>::empty());
            assert(replace_scan(Seq::<char>::empty(), q, t) =~= Seq::<char>::empty());
            assert(replace_scan(rest, q, t) =~= rest);
            assert(replace_scan(head, q, t) =~= head);
        } else if c == '"' {
            assert(head.take(1) =~= q);
            assert(head.skip(1) =~= Seq::<char>::empty());
            assert(replace_scan(Seq::<char>::empty(), q, t) =~= Seq::<char>::empty());
            assert(replace_scan(head, q, t) =~= t);
        } else {
            assert(head.take(1) != q) by {
                assert(head.take(1)[0] != q[0]);
            }
            assert(head.drop_first() =~= Seq::<char>::empty());
            assert(replace_scan(Seq::<char>::empty(), q, t) =~= Seq::<char>::empty());
            assert(replace_scan(head, q, t) =~= head);
        }
    }
}

/// `escape_json` escapes character by character.
pub proof fn lemma_escape_is_map(w: Seq<char>)
    ensures
        escape_json(w) == esc_map(w),
{
    lemma_escape_literals();
    lemma_replace_is_scan(w, seq!['\\'], seq!['\\', '\\']);
    lemma_scan_doubles(w);
    lemma_replace_is_scan(dbl_map(w), seq!['"'], seq!['\\', '"']);
    lemma_scan_quotes(w);
}

/// An escaped text never starts with a quote.
proof fn lemma_esc_map_head(w: Seq<char>)
    ensures
        esc_map(w).len() > 0 ==> esc_map(w)[0] != '"',
        esc_map(w).len() >= w.len(),
    decreases w.len(),
{
    if w.len() > 0 {
        lemma_esc_map_head(w.drop_first());
    }
}

/// Every quote of an escaped text follows a backslash.
pub proof fn lemma_esc_map_quotes(w: Seq<char>)
    ensures
        forall|k: int|
            0 <= k < esc_map(w).len() && #[trigger] esc_map(w)[k] == '"' ==> k >= 1 && esc_map(w)[k
                - 1] == '\\',
    decreases w.len(),
{
    if w.len() > 0 {
        lemma_esc_map_quotes(w.drop_first());
        let h = esc_char(w[0]);
        let r = esc_map(w.drop_first());
        assert(esc_map(w) == h + r);
        lemma_esc_map_head(w.drop_first());
        assert forall|k: int|
            0 <= k < esc_map(w).len() && #[trigger] esc_map(w)[k] == '"' implies k >= 1 && esc_map(
                w,
            )[k - 1] == '\\' by {
            if k >= h.len() {
                let k2 = k - h.len();
                assert(esc_map(w)[k] == r[k2]);
                if k2 == 0 {
                    assert(false);
                } else {
                    assert(r[k2] == '"');
                    assert(esc_map(w)[k - 1] == r[k2 - 1]);
                }
            }
        }
    }
}

/// Unescaping quotes in an escaped text gives the doubled text.
proof fn lemma_unscan_quotes(w: Seq<char>)
    ensures
        replace_scan(esc_map(w), seq!['\\', '"'], seq!['"']) == dbl_map(w),
    decreases w.len(),
{
    let p = seq!['\\', '"'];
    let t = seq!['"'];
    if w.len() > 0 {
        let c = w[0];
        let x = esc_map(w.drop_first());
        lemma_unscan_quotes(w.drop_first());
        lemma_esc_map_head(w.drop_first());
        let s = esc_map(w);
        assert(s == esc_char(c) + x);
        if c == '\\' {
            assert(s.len() >= 2);
            assert(s.take(2) != p) by {
                assert(s.take(2)[1] != p[1]);
            }
            let s1 = s.drop_first();
            assert(s1 =~= seq!['\\'] + x);
            if x.len() == 0 {
                assert(s1.len() < 2);
                assert(replace_scan(x, p, t) =~= Seq::<char>::empty());
                assert(replace_scan(s1, p, t) =~= seq!['\\'] + replace_scan(x, p, t));
            } else {
                assert(s1.take(2) != p) by {
                    assert(s1.take(2)[1] == x[0]);
                }
                assert(s1.drop_first() =~= x);
                assert(replace_scan(s1, p, t) =~= seq![s1[0]] + replace_scan(x, p, t));
                assert(replace_scan(s1, p, t) =~= seq!['\\'] + replace_scan(x, p, t));
            }
            assert(replace_scan(s, p, t) =~= seq![s[0]] + replace_scan(s1, p, t));
            assert(replace_scan(s, p, t) =~= seq!['\\', '\\'] + replace_scan(x, p, t));
        } else if c == '"' {
            assert(s.take(2) =~= p);
            assert(s.skip(2) =~= x);
        } else {
            if s.len() >= 2 {
                assert(s.take(2) != p) by {
                    assert(s.take(2)[0] == c);
                }
            }
            assert(s.drop_first() =~= x);
            if s.len() < 2 {
                assert(x.len() == 0);
                assert(replace_scan(x, p, t) =~= Seq::<char>::empty());
            }
        }
    }
}

/// Halving doubled backslashes gives the original text.
proof fn lemma_unscan_doubles(w: Seq<char>)
    ensures
        replace_scan(dbl_map(w), seq!['\\', '\\'], seq!['\\']) == w,
    decreases w.len(),
{
    let p = seq!['\\', '\\'];
    let t = seq!['\\'];
    if w.len() > 0 {
        let c = w[0];
        let y = dbl_map(w.drop_first());
        lemma_unscan_doubles(w.drop_first());
        let s = dbl_map(w);
        if c == '\\' {
            assert(s == seq!['\\', '\\'] + y);
            assert(s.take(2) =~= p);
            assert(s.skip(2) =~= y);
        } else {
            assert(s == seq![c] + y);
            if s.len() >= 2 {
                assert(s.take(2) != p) by {
                    assert(s.take(2)[0] == c);
                }
            }
            assert(s.drop_first() =~= y);
            if s.len() < 2 {
                assert(w.drop_first().len() == 0);
                assert(replace_scan(y, p, t) =~= Seq::<char>::empty());
            }
        }
        assert(w =~= seq![c] + w.drop_first());
    } else {
        assert(replace_scan(dbl_map(w), p, t) =~= w);
    }
}

/// Law: unescaping an escaped text gives the text back.
pub proof fn lemma_unescape_escape(w: Seq<char>)
    ensures
        unescape_json(escape_json(w)) == w,
{
    lemma_escape_is_map(w);
    lemma_escape_literals();
    lemma_replace_is_scan(esc_map(w), seq!['\\', '"'], seq!['"']);
    lemma_unscan_quotes(w);
    lemma_replace_is_scan(dbl_map(w), seq!['\\', '\\'], seq!['\\']);
    lemma_unscan_doubles(w);
}

/// Scanning a JSON string over an escaped text ends where the text ends,
/// outside any escape.
pub proof fn lemma_string_scan_skips_escaped(s: Seq<char>, i: int, w: Seq<char>)
    requires
        0 <= i,
        i + esc_map(w).len() <= s.len(),
        s.subrange(i, i + esc_map(w).len()) == esc_map(w),
    ensures
        string_end_from(s, i, false) == string_end_from(s, i + esc_map(w).len(), false),
    decreases w.len(),
{
    if w.len() > 0 {
        let c = w[0];
        let h = esc_char(c);
        let e = esc_map(w);
        assert(e == h + esc_map(w.drop_first()));
        assert(s[i] == e[0]);
        let sub = s.subrange(i, i + e.len());
        assert(e.subrange(h.len() as int, e.len() as int) =~= esc_map(w.drop_first()));
        assert(s.subrange(i + h.len(), i + e.len()) =~= sub.subrange(h.len() as int, e.len() as int));
        assert(s.subrange(i + h.len(), i + e.len()) =~= esc_map(w.drop_first()));
        lemma_string_scan_skips_escaped(s, i + h.len(), w.drop_first());
        if h.len() == 2 {
            assert(s[i] == '\\');
            assert(string_end_from(s, i, false) == string_end_from(s, i + 1, true));
            assert(string_end_from(s, i + 1, true) == string_end_from(s, i + 2, false));
        }
    }
}

/// The fixed pieces of the report line, as characters.
proof fn lemma_template_literals()
    ensures
        "{\"workload\":\""@ == seq!['{', '"', 'w', 'o', 'r', 'k', 'l', 'o', 'a', 'd', '"', ':', '"'],
        "\",\"parameter\":\""@ == seq!['"', ',', '"', 'p', 'a', 'r', 'a', 'm', 'e', 't', 'e', 'r', '"', ':', '"'],
        "\",\"result_digest\":"@ == seq!['"', ',', '"', 'r', 'e', 's', 'u', 'l', 't', '_', 'd', 'i', 'g', 'e', 's', 't', '"', ':'],
        ",\"internal_compute_ms\":"@ == seq![',', '"', 'i', 'n', 't', 'e', 'r', 'n', 'a', 'l', '_', 'c', 'o', 'm', 'p', 'u', 't', 'e', '_', 'm', 's', '"', ':'],
        "}"@ == seq!['}'],
        crate::json::key_pattern("workload"@) == seq!['"', 'w', 'o', 'r', 'k', 'l', 'o', 'a', 'd', '"', ':'],
        crate::json::key_pattern("parameter"@) == seq!['"', 'p', 'a', 'r', 'a', 'm', 'e', 't', 'e', 'r', '"', ':'],
        crate::json::key_pattern("result_digest"@) == seq!['"', 'r', 'e', 's', 'u', 'l', 't', '_', 'd', 'i', 'g', 'e', 's', 't', '"', ':'],
        crate::json::key_pattern("internal_compute_ms"@) == seq!['"', 'i', 'n', 't', 'e', 'r', 'n', 'a', 'l', '_', 'c', 'o', 'm', 'p', 'u', 't', 'e', '_', 'm', 's', '"', ':'],
{
    reveal_strlit("{\"workload\":\"");
    assert("{\"workload\":\""@ =~= seq!['{', '"', 'w', 'o', 'r', 'k', 'l', 'o', 'a', 'd', '"', ':', '"']);
    reveal_strlit("\",\"parameter\":\"");
    assert("\",\"parameter\":\""@ =~= seq!['"', ',', '"', 'p', 'a', 'r', 'a', 'm', 'e', 't', 'e', 'r', '"', ':', '"']);
    reveal_strlit("\",\"result_digest\":");
    assert("\",\"result_digest\":"@ =~= seq!['"', ',', '"', 'r', 'e', 's', 'u', 'l', 't', '_', 'd', 'i', 'g', 'e', 's', 't', '"', ':']);
    reveal_strlit(",\"internal_compute_ms\":");
    assert(",\"internal_compute_ms\":"@ =~= seq![',', '"', 'i', 'n', 't', 'e', 'r', 'n', 'a', 'l', '_', 'c', 'o', 'm', 'p', 'u', 't', 'e', '_', 'm', 's', '"', ':']);
    reveal_strlit("}");
    assert("}"@ =~= seq!['}']);
    reveal_strlit("\"");
    reveal_strlit("\":");
    reveal_strlit("workload");
    assert(crate::json::key_pattern("workload"@) =~= seq!['"', 'w', 'o', 'r', 'k', 'l', 'o', 'a', 'd', '"', ':']);
    reveal_strlit("parameter");
    assert(crate::json::key_pattern("parameter"@) =~= seq!['"', 'p', 'a', 'r', 'a', 'm', 'e', 't', 'e', 'r', '"', ':']);
    reveal_strlit("result_digest");
    assert(crate::json::key_pattern("result_digest"@) =~= seq!['"', 'r', 'e', 's', 'u', 'l', 't', '_', 'd', 'i', 'g', 'e', 's', 't', '"', ':']);
    reveal_strlit("internal_compute_ms");
    assert(crate::json::key_pattern("internal_compute_ms"@) =~= seq!['"', 'i', 'n', 't', 'e', 'r', 'n', 'a', 'l', '_', 'c', 'o', 'm', 'p', 'u', 't', 'e', '_', 'm', 's', '"', ':']);
}

/// An ASCII lower-case letter.
pub open spec fn is_lower_letter(c: char) -> bool {
    'a' <= c && c <= 'z'
}

/// The positions of a report line where a quote that follows a lower-case
/// letter is followed by a colon: exactly the ends of the four keys.
proof fn lemma_key_ends(w: Seq<char>, p: Seq<char>, d: u64, ms: Seq<char>, q: int)
    requires
        is_float_literal(ms),
        1 <= q,
        q + 1 < crate::json::render_json(w, p, d, ms).len(),
        crate::json::render_json(w, p, d, ms)[q] == '"',
        crate::json::render_json(w, p, d, ms)[q + 1] == ':',
        is_lower_letter(crate::json::render_json(w, p, d, ms)[q - 1]),
    ensures
        ({
            let o2: int = 13int + esc_map(w).len();
            let o4: int = o2 + 15 + esc_map(p).len();
            let o6: int = o4 + 18 + dec_str(d as nat).len();
            q == 10 || q == o2 + 12 || q == o4 + 16 || q == o6 + 21
        }),
{
    lemma_template_literals();
    lemma_escape_is_map(w);
    lemma_escape_is_map(p);
    lemma_esc_map_quotes(w);
    lemma_esc_map_quotes(p);
    lemma_dec_str_digits(d as nat);
    crate::decimal::lemma_float_literal_chars(ms);
    let t0 = seq!['{', '"', 'w', 'o', 'r', 'k', 'l', 'o', 'a', 'd', '"', ':', '"'];
    let t1 = seq!['"', ',', '"', 'p', 'a', 'r', 'a', 'm', 'e', 't', 'e', 'r', '"', ':', '"'];
    let t2 = seq![
        '"', ',', '"', 'r', 'e', 's', 'u', 'l', 't', '_', 'd', 'i', 'g', 'e', 's', 't', '"', ':'
    ];
    let t3 = seq![
        ',', '"', 'i', 'n', 't', 'e', 'r', 'n', 'a', 'l', '_', 'c', 'o', 'm', 'p', 'u', 't', 'e',
        '_', 'm', 's', '"', ':'
    ];
    let t4 = seq!['}'];
    let e1 = esc_map(w);
    let e2 = esc_map(p);
    let ds = dec_str(d as nat);
    let r = crate::json::render_json(w, p, d, ms);
    assert(r == t0 + e1 + t1 + e2 + t2 + ds + t3 + ms + t4);
    let o1: int = 13;
    let o2: int = o1 + e1.len() as int;
    let o3: int = o2 + 15;
    let o4: int = o3 + e2.len();
    let o5: int = o4 + 18;
    let o6: int = o5 + ds.len();
    let o7: int = o6 + 23;
    let o8: int = o7 + ms.len();
    assert(r.len() == o8 + 1);
    if q < o1 {
        assert(r[q] == t0[q]);
        assert(r[q + 1] == t0[q + 1]);
        assert(r[q - 1] == t0[q - 1]);
    } else if q < o2 {
        assert(r[q] == e1[q - o1]);
        assert(r[q - 1] == (t0 + e1)[q - 1]);
    } else if q < o3 {
        assert(r[q] == t1[q - o2]);
        if q + 1 < o3 {
            assert(r[q + 1] == t1[q + 1 - o2]);
        } else {
            assert(r[q + 1] == (t0 + e1 + t1 + e2 + t2)[q + 1]);
        }
        if q > o2 {
            assert(r[q - 1] == t1[q - 1 - o2]);
        }
    } else if q < o4 {
        assert(r[q] == e2[q - o3]);
        assert(r[q - 1] == (t0 + e1 + t1 + e2)[q - 1]);
    } else if q < o5 {
        assert(r[q] == t2[q - o4]);
        if q + 1 < o5 {
            assert(r[q + 1] == t2[q + 1 - o4]);
        }
        if q > o4 {
            assert(r[q - 1] == t2[q - 1 - o4]);
        }
    } else if q < o6 {
        assert(r[q] == ds[q - o5]);
        assert(is_digit(ds[q - o5]));
    } else if q < o7 {
        assert(r[q] == t3[q - o6]);
        if q + 1 < o7 {
            assert(r[q + 1] == t3[q + 1 - o6]);
        }
        if q > o6 {
            assert(r[q - 1] == t3[q - 1 - o6]);
        }
    } else if q < o8 {
        assert(r[q] == ms[q - o7]);
        assert(crate::decimal::is_float_char(ms[q - o7]));
    } else {
        assert(r[q] == t4[q - o8]);
    }
}

/// A pattern that occurs only at `j0` is found at `j0`.
proof fn lemma_only_occurrence(s: Seq<char>, pat: Seq<char>, j0: int)
    requires
        0 <= j0,
        j0 + pat.len() <= s.len(),
        s.subrange(j0, j0 + pat.len()) == pat,
        forall|j: int|
            0 <= j && j + pat.len() <= s.len() && #[trigger] s.subrange(j, j + pat.len()) == pat
                ==> j == j0,
    ensures
        crate::text::find(s, pat) == Some(j0),
{
    crate::text::lemma_find_from(s, pat, 0);
}

/// The layout of a report line: where each key stands and what follows it.
proof fn lemma_render_layout(w: Seq<char>, p: Seq<char>, d: u64, ms: Seq<char>)
    requires
        is_float_literal(ms),
    ensures
        ({
            let r = crate::json::render_json(w, p, d, ms);
            let e1 = esc_map(w);
            let e2 = esc_map(p);
            let ds = dec_str(d as nat);
            let o2: int = 13int + e1.len();
            let o4: int = o2 + 15 + e2.len();
            let o5: int = o4 + 18;
            let o6: int = o5 + ds.len();
            let o7: int = o6 + 23;
            &&& r.len() == o7 + ms.len() + 1
            &&& r.subrange(1, 12) == crate::json::key_pattern("workload"@)
            &&& r.subrange(o2 + 2, o2 + 14) == crate::json::key_pattern("parameter"@)
            &&& r.subrange(o4 + 2, o4 + 18) == crate::json::key_pattern("result_digest"@)
            &&& r.subrange(o6 + 1, o6 + 23) == crate::json::key_pattern("internal_compute_ms"@)
            &&& r[9] == 'd' && r[10] == '"'
            &&& r[o2 + 11] == 'r' && r[o2 + 12] == '"'
            &&& r[o4 + 15] == 't' && r[o4 + 16] == '"'
            &&& r[o6 + 20] == 's' && r[o6 + 21] == '"'
            &&& r.subrange(13, o2) == e1
            &&& r[12] == '"' && r[o2] == '"'
            &&& r.subrange(o2 + 15, o4) == e2
            &&& r[o2 + 14] == '"' && r[o4] == '"'
            &&& r.skip(o5) == ds + seq![','] + r.skip(o6 + 1)
            &&& r.skip(o7) == ms + seq!['}']
            &&& r[0] == '{'
            &&& r.last() == '}'
        }),
{
    lemma_template_literals();
    lemma_escape_is_map(w);
    lemma_escape_is_map(p);
    let t0 = seq!['{', '"', 'w', 'o', 'r', 'k', 'l', 'o', 'a', 'd', '"', ':', '"'];
    let t1 = seq!['"', ',', '"', 'p', 'a', 'r', 'a', 'm', 'e', 't', 'e', 'r', '"', ':', '"'];
    let t2 = seq![
        '"', ',', '"', 'r', 'e', 's', 'u', 'l', 't', '_', 'd', 'i', 'g', 'e', 's', 't', '"', ':'
    ];
    let t3 = seq![
        ',', '"', 'i', 'n', 't', 'e', 'r', 'n', 'a', 'l', '_', 'c', 'o', 'm', 'p', 'u', 't', 'e',
        '_', 'm', 's', '"', ':'
    ];
    let t4 = seq!['}'];
    let e1 = esc_map(w);
    let e2 = esc_map(p);
    let ds = dec_str(d as nat);
    let r = crate::json::render_json(w, p, d, ms);
    assert(r == t0 + e1 + t1 + e2 + t2 + ds + t3 + ms + t4);
    let o2: int = 13int + e1.len();
    let o3: int = o2 + 15;
    let o4: int = o3 + e2.len();
    let o5: int = o4 + 18;
    let o6: int = o5 + ds.len();
    let o7: int = o6 + 23;
    assert(r.subrange(1, 12) =~= t0.subrange(1, 12));
    assert(r.subrange(o2 + 2, o2 + 14) =~= t1.subrange(2, 14));
    assert(r.subrange(o4 + 2, o4 + 18) =~= t2.subrange(2, 18));
    assert(r.subrange(o6 + 1, o6 + 23) =~= t3.subrange(1, 23));
    assert(r.subrange(13, o2) =~= e1);
    assert(r.subrange(o2 + 15, o4) =~= e2);
    assert(r[o2] == t1[0]);
    assert(r[o4] == t2[0]);
    assert(r[o2 + 11] == t1[11]);
    assert(r[o2 + 12] == t1[12]);
    assert(r[o2 + 14] == t1[14]);
    assert(r[o4 + 15] == t2[15]);
    assert(r[o4 + 16] == t2[16]);
    assert(r[o6 + 20] == t3[20]);
    assert(r[o6 + 21] == t3[21]);
    assert(r.skip(o5) =~= ds + seq![','] + r.skip(o6 + 1));
    assert(r.skip(o7) =~= ms + seq!['}']);
}

/// A search for `c` passes over a part that does not hold it.
proof fn lemma_first_pos_concat(a: Seq<char>, b: Seq<char>, c: char)
    requires
        forall|k: int| 0 <= k < a.len() ==> a[k] != c,
    ensures
        first_pos(a + b, c) == a.len() + first_pos(b, c),
    decreases a.len(),
{
    if a.len() > 0 {
        assert((a + b).drop_first() =~= a.drop_first() + b);
        lemma_first_pos_concat(a.drop_first(), b, c);
    } else {
        assert(a + b =~= b);
    }
}

/// A text that neither starts nor ends with whitespace is its own trim.
proof fn lemma_trim_noop(x: Seq<char>)
    requires
        x.len() > 0,
        !is_whitespace(x[0]),
        !is_whitespace(x.last()),
    ensures
        trim(x) == x,
{
}

/// A key that occurs once, where the layout puts it, is found there.
proof fn lemma_find_key(w: Seq<char>, p: Seq<char>, d: u64, ms: Seq<char>, pat: Seq<char>, j0: int)
    requires
        is_float_literal(ms),
        pat.len() >= 3,
        0 <= j0,
        j0 + pat.len() <= crate::json::render_json(w, p, d, ms).len(),
        crate::json::render_json(w, p, d, ms).subrange(j0, j0 + pat.len()) == pat,
        pat[pat.len() - 2] == '"',
        pat[pat.len() - 1] == ':',
        is_lower_letter(pat[pat.len() - 3]),
        ({
            let r = crate::json::render_json(w, p, d, ms);
            let q0 = j0 + pat.len() - 2;
            let o2: int = 13int + esc_map(w).len();
            let o4: int = o2 + 15 + esc_map(p).len();
            let o6: int = o4 + 18 + dec_str(d as nat).len();
            &&& r[10 - 1] == pat[pat.len() - 3] ==> q0 == 10
            &&& r[o2 + 12 - 1] == pat[pat.len() - 3] ==> q0 == o2 + 12
            &&& r[o4 + 16 - 1] == pat[pat.len() - 3] ==> q0 == o4 + 16
            &&& r[o6 + 21 - 1] == pat[pat.len() - 3] ==> q0 == o6 + 21
        }),
    ensures
        crate::text::find(crate::json::render_json(w, p, d, ms), pat) == Some(j0),
{
    let r = crate::json::render_json(w, p, d, ms);
    assert forall|j: int|
        0 <= j && j + pat.len() <= r.len() && #[trigger] r.subrange(j, j + pat.len()) == pat
            implies j == j0 by {
        let q = j + pat.len() - 2;
        assert(r[q] == r.subrange(j, j + pat.len())[pat.len() - 2]);
        assert(r[q + 1] == r.subrange(j, j + pat.len())[pat.len() - 1]);
        assert(r[q - 1] == r.subrange(j, j + pat.len())[pat.len() - 3]);
        lemma_key_ends(w, p, d, ms, q);
    }
    lemma_only_occurrence(r, pat, j0);
}

/// A string field whose quoted value is an escaped text reads back as that
/// text.
proof fn lemma_string_field(r: Seq<char>, key: Seq<char>, j0: int, w: Seq<char>)
    requires
        0 <= j0,
        crate::text::find(r, crate::json::key_pattern(key)) == Some(j0),
        ({
            let s0 = j0 + crate::json::key_pattern(key).len();
            let e = esc_map(w);
            &&& s0 + e.len() + 2 <= r.len()
            &&& r[s0] == '"'
            &&& r.subrange(s0 + 1, s0 + 1 + e.len()) == e
            &&& r[s0 + 1 + e.len()] == '"'
        }),
    ensures
        !crate::json::lone_quote_field(r, key),
        crate::json::extract_string_field_spec(r, key) == Ok::<Seq<char>, Seq<char>>(w),
{
    let s0 = j0 + crate::json::key_pattern(key).len();
    let e = esc_map(w);
    let rem = r.skip(s0);
    assert(rem[0] == '"');
    assert(rem.subrange(1, 1 + e.len() as int) =~= e);
    lemma_string_scan_skips_escaped(rem, 1, w);
    assert(rem[1 + e.len() as int] == '"');
    assert(string_end_from(rem, 1 + e.len() as int, false) == Some(1 + e.len() as int));
    assert(crate::json::json_string_end(rem) == Some(1 + e.len() as int));
    let raw = rem.take(e.len() + 2int);
    assert(crate::json::extract_raw_value_spec(r, key) == Ok::<Seq<char>, Seq<char>>(raw));
    assert(raw.subrange(1, raw.len() - 1) =~= e);
    lemma_escape_is_map(w);
    lemma_unescape_escape(w);
    assert(raw.len() >= 2);
    assert(raw != seq!['"']);
    assert(raw[0] == '"' && raw.last() == '"');
}

/// The workload field of a report line reads back as the workload.
proof fn lemma_workload_field(w: Seq<char>, p: Seq<char>, d: u64, ms: Seq<char>)
    requires
        is_float_literal(ms),
    ensures
        !crate::json::lone_quote_field(crate::json::render_json(w, p, d, ms), "workload"@),
        crate::json::extract_string_field_spec(crate::json::render_json(w, p, d, ms), "workload"@)
            == Ok::<Seq<char>, Seq<char>>(w),
{
    let r = crate::json::render_json(w, p, d, ms);
    lemma_render_layout(w, p, d, ms);
    lemma_template_literals();
    let kw = crate::json::key_pattern("workload"@);
    lemma_find_key(w, p, d, ms, kw, 1);
    lemma_string_field(r, "workload"@, 1, w);
}

/// The parameter field of a report line reads back as the parameter.
proof fn lemma_parameter_field(w: Seq<char>, p: Seq<char>, d: u64, ms: Seq<char>)
    requires
        is_float_literal(ms),
    ensures
        !crate::json::lone_quote_field(crate::json::render_json(w, p, d, ms), "parameter"@),
        crate::json::extract_string_field_spec(crate::json::render_json(w, p, d, ms), "parameter"@)
            == Ok::<Seq<char>, Seq<char>>(p),
{
    let r = crate::json::render_json(w, p, d, ms);
    lemma_render_layout(w, p, d, ms);
    lemma_template_literals();
    let o2: int = 13int + esc_map(w).len();
    let kp = crate::json::key_pattern("parameter"@);
    lemma_find_key(w, p, d, ms, kp, o2 + 2);
    lemma_string_field(r, "parameter"@, o2 + 2, p);
}

/// The digest field of a report line reads back as the digest.
proof fn lemma_digest_field(w: Seq<char>, p: Seq<char>, d: u64, ms: Seq<char>)
    requires
        is_float_literal(ms),
    ensures
        crate::json::extract_u64_field_spec(crate::json::render_json(w, p, d, ms), "result_digest"@)
            == Ok::<u64, Seq<char>>(d),
{
    let r = crate::json::render_json(w, p, d, ms);
    lemma_render_layout(w, p, d, ms);
    lemma_template_literals();
    lemma_dec_str_digits(d as nat);
    let ds = dec_str(d as nat);
    let o2: int = 13int + esc_map(w).len();
    let o4: int = o2 + 15 + esc_map(p).len();
    let o5: int = o4 + 18;
    let o6: int = o5 + ds.len();
    let kd = crate::json::key_pattern("result_digest"@);
    lemma_find_key(w, p, d, ms, kd, o4 + 2);
    let rem3 = r.skip(o5);
    let tail3 = seq![','] + r.skip(o6 + 1);
    assert(rem3 == ds + tail3);
    assert forall|k: int| 0 <= k < ds.len() implies ds[k] != ',' && ds[k] != '}' by {
        assert(is_digit(ds[k]));
    }
    lemma_first_pos_concat(ds, tail3, ',');
    lemma_first_pos_concat(ds, tail3, '}');
    crate::decimal::lemma_first_pos(tail3, '}');
    assert(crate::json::value_end(rem3) == ds.len());
    assert(rem3.take(ds.len() as int) =~= ds);
    assert(is_digit(ds[0]) && is_digit(ds.last()));
    lemma_trim_noop(ds);
    assert(crate::json::extract_raw_value_spec(r, "result_digest"@) == Ok::<Seq<char>, Seq<char>>(
        ds,
    ));
    lemma_dec_str_parses_back(d as nat, u64::MAX as nat);
}

/// The compute-time field of a report line reads back as its text.
#[verifier::rlimit(40)]
proof fn lemma_compute_field(w: Seq<char>, p: Seq<char>, d: u64, ms: Seq<char>)
    requires
        is_float_literal(ms),
    ensures
        crate::json::extract_float_field_spec(
            crate::json::render_json(w, p, d, ms),
            "internal_compute_ms"@,
        ) == Ok::<Seq<char>, Seq<char>>(ms),
{
    let r = crate::json::render_json(w, p, d, ms);
    lemma_render_layout(w, p, d, ms);
    lemma_template_literals();
    crate::decimal::lemma_float_literal_chars(ms);
    let o2: int = 13int + esc_map(w).len();
    let o4: int = o2 + 15 + esc_map(p).len();
    let o6: int = o4 + 18 + dec_str(d as nat).len();
    let o7: int = o6 + 23;
    let km = crate::json::key_pattern("internal_compute_ms"@);
    lemma_find_key(w, p, d, ms, km, o6 + 1);
    let rem4 = r.skip(o7);
    assert(rem4 == ms + seq!['}']);
    assert(seq!['}'].drop_first() =~= Seq::<char>::empty());
    assert(first_pos(Seq::<char>::empty(), ',') == 0);
    assert(seq!['}'][0] != ',');
    assert(first_pos(seq!['}'], ',') == 1);
    assert(first_pos(seq!['}'], '}') == 0);
    assert forall|k: int| 0 <= k < ms.len() implies ms[k] != ',' && ms[k] != '}' by {
        assert(crate::decimal::is_float_char(ms[k]));
    }
    lemma_first_pos_concat(ms, seq!['}'], ',');
    lemma_first_pos_concat(ms, seq!['}'], '}');
    assert(crate::json::value_end(rem4) == ms.len());
    assert(rem4.take(ms.len() as int) =~= ms);
    assert(crate::decimal::is_float_char(ms[0]) && crate::decimal::is_float_char(ms.last()));
    lemma_trim_noop(ms);
    assert(crate::json::extract_raw_value_spec(r, "internal_compute_ms"@) == Ok::<
        Seq<char>,
        Seq<char>,
    >(ms));
}

/// Law: what `render_app_output_json` writes, `parse_app_output_json` reads
/// back unchanged (and without meeting a lone-quote value), for any workload
/// and parameter text, any digest, and a compute time printed as a number
/// that `f64` accepts (as the application's `{:.6}` always prints).
pub proof fn lemma_json_round_trip(w: Seq<char>, p: Seq<char>, d: u64, ms: Seq<char>)
    requires
        is_float_literal(ms),
    ensures
        !crate::json::reading_app_output_panics(crate::json::render_json(w, p, d, ms)),
        crate::json::parse_app_output_spec(crate::json::render_json(w, p, d, ms)) == Ok::<
            (Seq<char>, Seq<char>, u64, Seq<char>),
            Seq<char>,
        >((w, p, d, ms)),
{
    let r = crate::json::render_json(w, p, d, ms);
    lemma_render_layout(w, p, d, ms);
    lemma_trim_noop(r);
    lemma_workload_field(w, p, d, ms);
    lemma_parameter_field(w, p, d, ms);
    lemma_digest_field(w, p, d, ms);
    lemma_compute_field(w, p, d, ms);
}

} // verus!
