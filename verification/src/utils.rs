//! Helpers used throughout the crate: normalising names and reading the
//! comma-separated values of the non-interactive mode.
pub mod validators;

use vstd::prelude::*;
use crate::text::{
    is_white_space, lemma_trim_idempotent, alphanumeric, ascii_upper, chars_of, decimal, is_alphanumeric, is_ascii_char, join_with, push_char,
    push_decimal, string_of, to_uppercase_text, trim, trim_bounds, upper_text,
};

verus! {

/// Position `i` of `s` holds the first character of a word: an alphanumeric
/// character that is not preceded by another one.
pub open spec fn starts_word(s: Seq<char>, i: int) -> bool {
    alphanumeric(s[i]) && (i == 0 || !alphanumeric(s[i - 1]))
}

/// Every word of `s` begins with an ASCII character.
pub open spec fn words_start_ascii(s: Seq<char>) -> bool {
    forall|i: int| 0 <= i < s.len() && #[trigger] starts_word(s, i) ==> is_ascii_char(s[i])
}

/// `s` in PascalCase: the words of `s` (its maximal runs of alphanumeric
/// characters) concatenated, each with its first character in upper case
/// (which may take more than one character, as `char::to_uppercase` gives
/// it); every other character dropped.
pub open spec fn pascal_case(s: Seq<char>) -> Seq<char>
    decreases s.len(),
{
    if s.len() == 0 {
        seq![]
    } else {
        let i = s.len() - 1;
        let rest = pascal_case(s.drop_last());
        if !alphanumeric(s[i]) {
            rest
        } else if starts_word(s, i) {
            rest + upper_text(s[i])
        } else {
            rest.push(s[i])
        }
    }
}

/// Formats `string` as PascalCase.
pub fn pascalize(string: &str) -> (r: String)
    ensures
        r@ == pascal_case(string@),
{
    let v = chars_of(string);
    let n = v.len();
    let mut out = String::new();
    let mut prev_alnum = false;
    let mut i: usize = 0;
    while i < n
        invariant
            i <= n == v.len(),
            v@ == string@,
            out@ == pascal_case(v@.take(i as int)),
            i > 0 ==> prev_alnum == alphanumeric(v@[i - 1]),
            i == 0 ==> !prev_alnum,
        decreases n - i,
    {
        let c = v[i];
        let a = is_alphanumeric(c);
        if a {
            if !prev_alnum {
                let up = to_uppercase_text(c);
                out.append(up.as_str());
            } else {
                push_char(&mut out, c);
            }
        }
        proof {
            let t = v@.take(i + 1);
            assert(t.drop_last() == v@.take(i as int));
            assert(t[i as int] == c);
            if i > 0 {
                assert(t[i - 1] == v@[i - 1]);
            }
        }
        prev_alnum = a;
        i = i + 1;
    }
    assert(v@.take(n as int) == v@);
    out
}

/// Where every word begins with an ASCII character, a PascalCase name is
/// made of alphanumeric characters only, and its first character is ASCII and
/// already in upper case; a name is non-empty where the input ends in an
/// alphanumeric character.
pub proof fn lemma_pascal_case_shape(s: Seq<char>)
    requires
        words_start_ascii(s),
    ensures
        forall|k: int| 0 <= k < pascal_case(s).len() ==> alphanumeric(#[trigger] pascal_case(s)[k]),
        pascal_case(s).len() > 0 ==> is_ascii_char(pascal_case(s)[0]) && ascii_upper(
            pascal_case(s)[0],
        ) == pascal_case(s)[0],
        alphanumeric(s.last()) && s.len() > 0 ==> pascal_case(s).len() > 0,
    decreases s.len(),
{
    if s.len() > 0 {
        let p = s.drop_last();
        let i = s.len() - 1;
        assert forall|k: int| 0 <= k < p.len() && #[trigger] starts_word(p, k) implies is_ascii_char(
            p[k],
        ) by {
            assert(starts_word(s, k));
        }
        lemma_pascal_case_shape(p);
        let c = s[i];
        if alphanumeric(c) && starts_word(s, i) {
            assert(is_ascii_char(c));
            let u = ascii_upper(c);
            assert(upper_text(c) == seq![u]);
            assert(pascal_case(p) + seq![u] =~= pascal_case(p).push(u));
            if 97 <= (c as u32) <= 122 {
                assert((u as u32) == (c as u32) - 32);
            }
            assert(alphanumeric(u));
            assert(ascii_upper(u) == u);
        }
        if alphanumeric(c) && !starts_word(s, i) {
            assert(i > 0 && alphanumeric(s[i - 1]));
            assert(p.last() == s[i - 1]);
        }
    }
}

proof fn lemma_pascal_case_fixed(t: Seq<char>)
    requires
        forall|k: int| 0 <= k < t.len() ==> alphanumeric(#[trigger] t[k]),
        t.len() > 0 ==> is_ascii_char(t[0]) && ascii_upper(t[0]) == t[0],
    ensures
        pascal_case(t) == t,
    decreases t.len(),
{
    if t.len() > 0 {
        let p = t.drop_last();
        assert forall|k: int| 0 <= k < p.len() implies alphanumeric(#[trigger] p[k]) by {
            assert(p[k] == t[k]);
        }
        lemma_pascal_case_fixed(p);
        let i = t.len() - 1;
        assert(alphanumeric(t[i]));
        if i > 0 {
            assert(alphanumeric(t[i - 1]));
        } else {
            assert(upper_text(t[0]) == seq![t[0]]);
            assert(pascal_case(p) + seq![t[0]] =~= t);
        }
        assert(p.push(t[i]) == t);
    }
}

/// PascalCase is idempotent for names whose words begin with ASCII
/// characters: formatting the result again gives it back unchanged.
pub proof fn lemma_pascalize_idempotent(s: Seq<char>)
    requires
        words_start_ascii(s),
    ensures
        words_start_ascii(pascal_case(s)),
        pascal_case(pascal_case(s)) == pascal_case(s),
{
    lemma_pascal_case_shape(s);
    let t = pascal_case(s);
    assert forall|k: int| 0 <= k < t.len() && #[trigger] starts_word(t, k) implies is_ascii_char(
        t[k],
    ) by {
        if k > 0 {
            assert(alphanumeric(t[k - 1]));
        }
    }
    lemma_pascal_case_fixed(t);
}


/// The scan of the non-interactive input over `s`: the segments finished so
/// far, the segment being read, and whether the last character was a
/// backslash that escapes the next one. A backslash that is not escaped is
/// dropped and escapes the next character; a comma that is not escaped ends
/// the segment; every other character is kept.
pub open spec fn scan_values(s: Seq<char>) -> (Seq<Seq<char>>, Seq<char>, bool)
    decreases s.len(),
{
    if s.len() == 0 {
        (seq![], seq![], false)
    } else {
        let (done, current, escaped) = scan_values(s.drop_last());
        let c = s.last();
        if c == '\\' && !escaped {
            (done, current, true)
        } else if c == ',' && !escaped {
            (done.push(current), seq![], false)
        } else {
            (done, current.push(c), false)
        }
    }
}

/// The segments of `s`, split at its unescaped commas, with escapes removed.
pub open spec fn segments(s: Seq<char>) -> Seq<Seq<char>> {
    scan_values(s).0.push(scan_values(s).1)
}

/// The segments that are not blank, each trimmed, in order.
pub open spec fn kept_values(parts: Seq<Seq<char>>) -> Seq<Seq<char>>
    decreases parts.len(),
{
    if parts.len() == 0 {
        seq![]
    } else {
        let rest = kept_values(parts.drop_last());
        let t = trim(parts.last());
        if t.len() > 0 {
            rest.push(t)
        } else {
            rest
        }
    }
}

/// The values that `extract_values` finds in `s`.
pub open spec fn extracted_values(s: Seq<char>) -> Seq<Seq<char>> {
    kept_values(segments(s))
}

/// The character sequences of a list of strings.
pub open spec fn string_views(v: Seq<String>) -> Seq<Seq<char>> {
    v.map_values(|x: String| x@)
}

/// Appends `trim(current)` to `result` when it is not empty.
fn push_trimmed(result: &mut Vec<String>, current: &Vec<char>)
    ensures
        string_views(final(result)@) == (if trim(current@).len() > 0 {
            string_views(old(result)@).push(trim(current@))
        } else {
            string_views(old(result)@)
        }),
{
    let (a, b) = trim_bounds(current);
    if a < b {
        let t = string_of(current, a, b);
        result.push(t);
        assert(string_views(result@) == string_views(old(result)@).push(trim(current@)));
    }
}

/// Splits the input at commas, trims white space from the entries and
/// returns the entries that are not empty. A backslash escapes the next
/// character, so `\,` stands for a comma inside an entry.
pub fn extract_values(string: &str) -> (r: Vec<String>)
    ensures
        string_views(r@) == extracted_values(string@),
{
    let v = chars_of(string);
    let n = v.len();
    let mut result: Vec<String> = Vec::new();
    let mut current: Vec<char> = Vec::new();
    let mut escaped = false;
    let mut i: usize = 0;
    while i < n
        invariant
            i <= n == v.len(),
            v@ == string@,
            string_views(result@) == kept_values(scan_values(v@.take(i as int)).0),
            current@ == scan_values(v@.take(i as int)).1,
            escaped == scan_values(v@.take(i as int)).2,
        decreases n - i,
    {
        let c = v[i];
        proof {
            assert(v@.take(i + 1).drop_last() == v@.take(i as int));
        }
        if c == '\\' && !escaped {
            escaped = true;
        } else if c == ',' && !escaped {
            let ghost done = scan_values(v@.take(i as int)).0;
            push_trimmed(&mut result, &current);
            assert(done.push(current@).drop_last() == done);
            current = Vec::new();
        } else {
            current.push(c);
            escaped = false;
        }
        i = i + 1;
    }
    proof {
        assert(v@.take(n as int) == v@);
        let st = scan_values(v@);
        assert(st.0.push(st.1).drop_last() == st.0);
    }
    push_trimmed(&mut result, &current);
    result
}


proof fn lemma_kept_values_trimmed(parts: Seq<Seq<char>>)
    ensures
        forall|k: int|
            0 <= k < kept_values(parts).len() ==> (#[trigger] kept_values(parts)[k]).len() > 0
                && trim(kept_values(parts)[k]) == kept_values(parts)[k],
    decreases parts.len(),
{
    if parts.len() > 0 {
        let rest = kept_values(parts.drop_last());
        lemma_kept_values_trimmed(parts.drop_last());
        lemma_trim_idempotent(parts.last());
        let r = kept_values(parts);
        assert forall|k: int| 0 <= k < r.len() implies (#[trigger] r[k]).len() > 0 && trim(r[k])
            == r[k] by {
            if k < rest.len() {
                assert(r[k] == rest[k]);
            }
        }
    }
}

/// Every extracted value is non-empty and has no white space at either end.
pub proof fn lemma_extracted_values_trimmed(s: Seq<char>)
    ensures
        forall|k: int|
            0 <= k < extracted_values(s).len() ==> (#[trigger] extracted_values(s)[k]).len() > 0
                && trim(extracted_values(s)[k]) == extracted_values(s)[k],
{
    lemma_kept_values_trimmed(segments(s));
}

/// A value that the input syntax can carry without escapes: not blank, no
/// white space at either end, and no comma or backslash.
pub open spec fn plain_value(v: Seq<char>) -> bool {
    &&& v.len() > 0
    &&& trim(v) == v
    &&& forall|k: int| 0 <= k < v.len() ==> #[trigger] v[k] != ',' && v[k] != '\\'
}

proof fn lemma_scan_plain_suffix(p: Seq<char>, t: Seq<char>)
    requires
        !scan_values(p).2,
        forall|k: int| 0 <= k < t.len() ==> #[trigger] t[k] != ',' && t[k] != '\\',
    ensures
        scan_values(p + t) == (scan_values(p).0, scan_values(p).1 + t, false),
    decreases t.len(),
{
    if t.len() == 0 {
        assert(p + t == p);
        assert(scan_values(p).1 + t == scan_values(p).1);
    } else {
        let t0 = t.drop_last();
        assert forall|k: int| 0 <= k < t0.len() implies #[trigger] t0[k] != ',' && t0[k] != '\\' by {
            assert(t0[k] == t[k]);
        }
        lemma_scan_plain_suffix(p, t0);
        assert((p + t).drop_last() == p + t0);
        assert((p + t).last() == t.last());
        assert(scan_values(p).1 + t0 + seq![t.last()] == scan_values(p).1 + t);
    }
}

proof fn lemma_scan_join(vs: Seq<Seq<char>>)
    requires
        vs.len() > 0,
        forall|k: int| 0 <= k < vs.len() ==> plain_value(#[trigger] vs[k]),
    ensures
        scan_values(join_with(vs, seq![','])) == (vs.drop_last(), vs.last(), false),
    decreases vs.len(),
{
    let e: Seq<char> = seq![];
    if vs.len() == 1 {
        assert(plain_value(vs[0]));
        lemma_scan_plain_suffix(e, vs[0]);
        assert(e + vs[0] == vs[0]);
    } else {
        let front = vs.drop_last();
        assert forall|k: int| 0 <= k < front.len() implies plain_value(#[trigger] front[k]) by {
            assert(front[k] == vs[k]);
        }
        lemma_scan_join(front);
        let j = join_with(front, seq![',']);
        let jc = j + seq![','];
        assert(jc.drop_last() == j);
        assert(scan_values(jc) == (front.drop_last().push(front.last()), e, false));
        assert(front.drop_last().push(front.last()) == front);
        assert(plain_value(vs.last()));
        lemma_scan_plain_suffix(jc, vs.last());
        assert(e + vs.last() == vs.last());
    }
}

proof fn lemma_kept_plain(vs: Seq<Seq<char>>)
    requires
        forall|k: int| 0 <= k < vs.len() ==> plain_value(#[trigger] vs[k]),
    ensures
        kept_values(vs) == vs,
    decreases vs.len(),
{
    if vs.len() > 0 {
        let front = vs.drop_last();
        assert forall|k: int| 0 <= k < front.len() implies plain_value(#[trigger] front[k]) by {
            assert(front[k] == vs[k]);
        }
        lemma_kept_plain(front);
        assert(plain_value(vs.last()));
        assert(front.push(vs.last()) == vs);
    }
}

/// Joining plain values with commas and extracting them again gives the
/// values back, in order.
pub proof fn lemma_extract_joined_values(vs: Seq<Seq<char>>)
    requires
        forall|k: int| 0 <= k < vs.len() ==> plain_value(#[trigger] vs[k]),
    ensures
        extracted_values(join_with(vs, seq![','])) == vs,
{
    if vs.len() == 0 {
        lemma_extract_empty();
        assert(join_with(vs, seq![',']) == Seq::<char>::empty());
    } else {
        lemma_scan_join(vs);
        assert(vs.drop_last().push(vs.last()) == vs);
        lemma_kept_plain(vs);
    }
}


/// `v` as it is written inside one value of the input: each backslash and
/// each comma preceded by a backslash.
pub open spec fn escaped(v: Seq<char>) -> Seq<char>
    decreases v.len(),
{
    if v.len() == 0 {
        seq![]
    } else {
        let c = v.last();
        escaped(v.drop_last()) + (if c == '\\' || c == ',' {
            seq!['\\', c]
        } else {
            seq![c]
        })
    }
}

/// Each of `vs`, escaped.
pub open spec fn escaped_all(vs: Seq<Seq<char>>) -> Seq<Seq<char>> {
    Seq::new(vs.len(), |k: int| escaped(vs[k]))
}

/// The segment that value `k` gives in a join by `", "`: the value, after
/// the space of the separator for every value but the first.
pub open spec fn spaced_segment(vs: Seq<Seq<char>>, k: int) -> Seq<char> {
    if k == 0 {
        vs[0]
    } else {
        seq![' '] + vs[k]
    }
}

proof fn lemma_scan_escaped(p: Seq<char>, v: Seq<char>)
    requires
        !scan_values(p).2,
    ensures
        scan_values(p + escaped(v)) == (scan_values(p).0, scan_values(p).1 + v, false),
    decreases v.len(),
{
    let st = scan_values(p);
    if v.len() == 0 {
        assert(p + escaped(v) == p);
        assert(st.1 + v == st.1);
    } else {
        let v0 = v.drop_last();
        let c = v.last();
        lemma_scan_escaped(p, v0);
        let q = p + escaped(v0);
        let cur = st.1 + v0;
        assert(scan_values(q) == (st.0, cur, false));
        assert(v0.push(c) == v);
        assert(cur.push(c) == st.1 + v);
        if c == '\\' || c == ',' {
            let q2 = q + seq!['\\'];
            assert(escaped(v) == escaped(v0) + seq!['\\', c]);
            assert(q2.drop_last() == q);
            assert(q2.last() == '\\');
            assert(scan_values(q2) == (st.0, cur, true));
            assert(p + escaped(v) == q2 + seq![c]);
            assert((q2 + seq![c]).drop_last() == q2);
            assert((q2 + seq![c]).last() == c);
            assert(scan_values(q2 + seq![c]) == (st.0, cur.push(c), false));
        } else {
            assert(escaped(v) == escaped(v0) + seq![c]);
            assert(p + escaped(v) == q + seq![c]);
            assert((q + seq![c]).drop_last() == q);
            assert((q + seq![c]).last() == c);
            assert(scan_values(q + seq![c]) == (st.0, cur.push(c), false));
        }
    }
}

proof fn lemma_scan_escaped_join(vs: Seq<Seq<char>>)
    requires
        vs.len() > 0,
    ensures
        scan_values(join_with(escaped_all(vs), seq![',', ' '])) == (
            Seq::new((vs.len() - 1) as nat, |k: int| spaced_segment(vs, k)),
            spaced_segment(vs, vs.len() - 1),
            false,
        ),
    decreases vs.len(),
{
    let e: Seq<char> = seq![];
    let n = vs.len();
    if n == 1 {
        assert(join_with(escaped_all(vs), seq![',', ' ']) == escaped(vs[0]));
        lemma_scan_escaped(e, vs[0]);
        assert(e + escaped(vs[0]) == escaped(vs[0]));
        assert(e + vs[0] == vs[0]);
        assert(Seq::new(0nat, |k: int| spaced_segment(vs, k)) =~= Seq::<Seq<char>>::empty());
    } else {
        let front = vs.drop_last();
        lemma_scan_escaped_join(front);
        assert(escaped_all(vs).drop_last() =~= escaped_all(front));
        let j = join_with(escaped_all(front), seq![',', ' ']);
        assert(join_with(escaped_all(vs), seq![',', ' ']) == j + seq![',', ' '] + escaped(vs[n - 1]));
        let parts = Seq::new((n - 2) as nat, |k: int| spaced_segment(front, k));
        let last_part = spaced_segment(front, n - 2);
        let jc = j + seq![','];
        assert(jc.drop_last() == j);
        assert(jc.last() == ',');
        assert(scan_values(jc) == (parts.push(last_part), e, false));
        let js = jc + seq![' '];
        assert(js.drop_last() == jc);
        assert(js.last() == ' ');
        assert(e.push(' ') == seq![' ']);
        assert(scan_values(js) == (parts.push(last_part), seq![' '], false));
        assert(j + seq![',', ' '] == js);
        lemma_scan_escaped(js, vs[n - 1]);
        assert(parts.push(last_part) =~= Seq::new((n - 1) as nat, |k: int| spaced_segment(vs, k)));
        assert(seq![' '] + vs[n - 1] == spaced_segment(vs, n - 1));
    }
}

proof fn lemma_kept_exact(parts: Seq<Seq<char>>, vs: Seq<Seq<char>>)
    requires
        parts.len() == vs.len(),
        forall|k: int| 0 <= k < vs.len() ==> trim(#[trigger] parts[k]) == vs[k] && vs[k].len() > 0,
    ensures
        kept_values(parts) == vs,
    decreases parts.len(),
{
    if parts.len() > 0 {
        let pf = parts.drop_last();
        let vf = vs.drop_last();
        assert forall|k: int| 0 <= k < vf.len() implies trim(#[trigger] pf[k]) == vf[k] && vf[k].len()
            > 0 by {
            assert(pf[k] == parts[k]);
        }
        lemma_kept_exact(pf, vf);
        assert(trim(parts.last()) == vs.last());
        assert(vf.push(vs.last()) == vs);
    }
}

proof fn lemma_trim_spaced(v: Seq<char>)
    requires
        v.len() > 0,
        trim(v) == v,
    ensures
        trim(seq![' '] + v) == v,
{
    let s = seq![' '] + v;
    assert(s[0] == ' ');
    assert(is_white_space(' '));
    assert(s.drop_first() == v);
    assert(crate::text::trim_start(s) == crate::text::trim_start(v));
}

proof fn lemma_extract_empty()
    ensures
        extracted_values(seq![]) == Seq::<Seq<char>>::empty(),
{
    let e: Seq<Seq<char>> = seq![];
    let ec: Seq<char> = seq![];
    assert(segments(ec) == seq![ec]);
    assert(seq![ec].drop_last() == e);
    assert(crate::text::trim_start(ec) == ec);
    assert(crate::text::trim_end(ec) == ec);
    assert(seq![ec].last() == ec);
    assert(trim(ec).len() == 0);
    assert(kept_values(e) == e);
    assert(kept_values(seq![ec]) == kept_values(seq![ec].drop_last()));
}

/// Values with their backslashes and commas escaped, joined by `", "`, are
/// extracted back unchanged, in order, where each is non-empty and has no
/// white space at either end.
pub proof fn lemma_extract_escaped_values(vs: Seq<Seq<char>>)
    requires
        forall|k: int| 0 <= k < vs.len() ==> (#[trigger] vs[k]).len() > 0 && trim(vs[k]) == vs[k],
    ensures
        extracted_values(join_with(escaped_all(vs), seq![',', ' '])) == vs,
{
    if vs.len() == 0 {
        lemma_extract_empty();
        assert(join_with(escaped_all(vs), seq![',', ' ']) == Seq::<char>::empty());
    } else {
        let n = vs.len();
        lemma_scan_escaped_join(vs);
        let parts = Seq::new(n as nat, |k: int| spaced_segment(vs, k));
        assert(Seq::new((n - 1) as nat, |k: int| spaced_segment(vs, k)).push(spaced_segment(vs, n - 1))
            =~= parts);
        assert forall|k: int| 0 <= k < vs.len() implies trim(#[trigger] parts[k]) == vs[k] && vs[k].len()
            > 0 by {
            if k > 0 {
                lemma_trim_spaced(vs[k]);
            }
        }
        lemma_kept_exact(parts, vs);
    }
}

/// No character of `s` is a backslash.
pub open spec fn no_backslash(s: Seq<char>) -> bool {
    forall|k: int| 0 <= k < s.len() ==> #[trigger] s[k] != '\\'
}

proof fn lemma_scan_no_escape(t: Seq<char>)
    requires
        no_backslash(t),
    ensures
        !scan_values(t).2,
    decreases t.len(),
{
    if t.len() > 0 {
        let t0 = t.drop_last();
        assert(no_backslash(t0)) by {
            assert forall|k: int| 0 <= k < t0.len() implies #[trigger] t0[k] != '\\' by {
                assert(t0[k] == t[k]);
            }
        }
        lemma_scan_no_escape(t0);
        assert(t[t.len() - 1] != '\\');
    }
}

proof fn lemma_scan_after_segment(p: Seq<char>, t: Seq<char>)
    requires
        scan_values(p).1 == Seq::<char>::empty(),
        !scan_values(p).2,
        no_backslash(t),
    ensures
        scan_values(p + t) == (scan_values(p).0 + scan_values(t).0, scan_values(t).1, false),
    decreases t.len(),
{
    let d = scan_values(p).0;
    if t.len() == 0 {
        assert(p + t == p);
        assert(d + Seq::<Seq<char>>::empty() == d);
    } else {
        let t0 = t.drop_last();
        let c = t.last();
        assert(no_backslash(t0)) by {
            assert forall|k: int| 0 <= k < t0.len() implies #[trigger] t0[k] != '\\' by {
                assert(t0[k] == t[k]);
            }
        }
        lemma_scan_after_segment(p, t0);
        lemma_scan_no_escape(t0);
        assert(t[t.len() - 1] != '\\');
        assert((p + t).drop_last() == p + t0);
        assert((p + t).last() == c);
        let st0 = scan_values(t0);
        assert((d + st0.0).push(st0.1) == d + st0.0.push(st0.1));
    }
}

proof fn lemma_kept_concat(x: Seq<Seq<char>>, y: Seq<Seq<char>>)
    ensures
        kept_values(x + y) == kept_values(x) + kept_values(y),
    decreases y.len(),
{
    if y.len() == 0 {
        assert(x + y == x);
        assert(kept_values(y) == Seq::<Seq<char>>::empty());
        assert(kept_values(x) + kept_values(y) == kept_values(x));
    } else {
        let y0 = y.drop_last();
        lemma_kept_concat(x, y0);
        assert((x + y).drop_last() == x + y0);
        assert((x + y).last() == y.last());
        let t = trim(y.last());
        assert((kept_values(x) + kept_values(y0)).push(t) == kept_values(x) + kept_values(y0).push(t));
    }
}

/// Without backslashes, the values of two inputs joined by a comma are the
/// values of the first followed by those of the second.
pub proof fn lemma_extract_concat(a: Seq<char>, b: Seq<char>)
    requires
        no_backslash(a),
        no_backslash(b),
    ensures
        extracted_values(a + seq![','] + b) == extracted_values(a) + extracted_values(b),
{
    lemma_scan_no_escape(a);
    lemma_scan_no_escape(b);
    let e: Seq<char> = seq![];
    let sa = scan_values(a);
    let p = a + seq![','];
    assert(p.drop_last() == a);
    assert(p.last() == ',');
    assert(scan_values(p) == (sa.0.push(sa.1), e, false));
    lemma_scan_after_segment(p, b);
    let sb = scan_values(b);
    assert(segments(a + seq![','] + b) =~= segments(a) + segments(b));
    lemma_kept_concat(segments(a), segments(b));
}

/// A backslash that is not itself escaped is dropped and the character after
/// it is kept as it is, whatever that character is (a comma too), without
/// ending the segment.
pub proof fn lemma_escape_keeps_next(p: Seq<char>, c: char)
    requires
        !scan_values(p).2,
    ensures
        scan_values(p + seq!['\\', c]) == (scan_values(p).0, scan_values(p).1.push(c), false),
{
    let st = scan_values(p);
    let q = p + seq!['\\'];
    assert(q.drop_last() == p);
    assert(q.last() == '\\');
    assert(scan_values(q) == (st.0, st.1, true));
    assert((q + seq![c]).drop_last() == q);
    assert((q + seq![c]).last() == c);
    assert(p + seq!['\\', c] == q + seq![c]);
    assert(scan_values(q + seq![c]) == (st.0, st.1.push(c), false));
}

/// Escaping a character other than a comma or a backslash changes nothing:
/// in an input without backslashes, `\c` gives the same values as `c`.
pub proof fn lemma_escape_ordinary_char(a: Seq<char>, b: Seq<char>, c: char)
    requires
        no_backslash(a),
        no_backslash(b),
        c != ',',
        c != '\\',
    ensures
        extracted_values(a + seq!['\\', c] + b) == extracted_values(a + seq![c] + b),
{
    lemma_scan_no_escape(a);
    lemma_escape_keeps_next(a, c);
    let x = a + seq!['\\', c];
    let y = a + seq![c];
    assert(y.drop_last() == a);
    assert(y.last() == c);
    assert(scan_values(x) == scan_values(y));
    lemma_scan_same_suffix(x, y, b);
}

proof fn lemma_scan_same_suffix(x: Seq<char>, y: Seq<char>, b: Seq<char>)
    requires
        scan_values(x) == scan_values(y),
    ensures
        scan_values(x + b) == scan_values(y + b),
    decreases b.len(),
{
    if b.len() == 0 {
        assert(x + b == x);
        assert(y + b == y);
    } else {
        lemma_scan_same_suffix(x, y, b.drop_last());
        assert((x + b).drop_last() == x + b.drop_last());
        assert((y + b).drop_last() == y + b.drop_last());
        assert((x + b).last() == b.last());
        assert((y + b).last() == b.last());
    }
}

/// What the non-interactive mode reads: the number of comma-separated fields
/// it expects, a description of each, and example commands for the help text.
pub struct NonInteractiveInput<'a> {
    /// Number of expected input fields.
    pub fields: usize,
    /// Description of each field for the help message.
    pub descriptions: &'a [&'a str],
    /// Example commands to show in the help message.
    pub examples: &'a [&'a str],
}

/// The character sequences of a list of string slices.
pub open spec fn str_views(v: Seq<&str>) -> Seq<Seq<char>> {
    v.map_values(|x: &str| x@)
}

/// The help line for field `i` (numbered from one).
pub open spec fn field_line(i: int, description: Seq<char>) -> Seq<char> {
    "      "@ + decimal((i + 1) as nat) + ". "@ + description
}

/// The help line for one example command.
pub open spec fn example_line(example: Seq<char>) -> Seq<char> {
    "      $ "@ + example
}

/// The suggestion shown when the non-interactive input does not fit.
pub open spec fn suggestion_message(
    fields: nat,
    descriptions: Seq<Seq<char>>,
    examples: Seq<Seq<char>>,
) -> Seq<char> {
    "\n   Input is expected to have "@ + decimal(fields)
        + " field(s) concatenated using commas with each position mapping to:\n"@ + join_with(
        Seq::new(descriptions.len(), |i: int| field_line(i, descriptions[i])),
        "\n"@,
    ) + "\n\n   Here are some examples for your reference:\n"@ + join_with(
        Seq::new(examples.len(), |i: int| example_line(examples[i])),
        "\n"@,
    )
}

pub(crate) proof fn lemma_join_step(lines: Seq<Seq<char>>, sep: Seq<char>, i: int)
    requires
        0 <= i < lines.len(),
    ensures
        join_with(lines.take(i + 1), sep) == (if i == 0 {
            lines[0]
        } else {
            join_with(lines.take(i), sep) + sep + lines[i]
        }),
{
    assert(lines.take(i + 1).drop_last() == lines.take(i));
    assert(lines.take(i + 1).last() == lines[i]);
    if i == 0 {
        assert(lines.take(1)[0] == lines[0]);
    }
}

/// The failure of the non-interactive input: fewer fields than expected.
#[derive(Debug, PartialEq, Eq)]
pub struct FieldCountError {
    /// How many fields the input held.
    pub got: usize,
    /// How many fields were expected.
    pub expected: usize,
}

impl FieldCountError {
    /// The error text: "Got {got} field(s) while expecting {expected}."
    pub fn message(&self) -> (m: String)
        ensures
            m@ == "Got "@ + decimal(self.got as nat) + " field(s) while expecting "@ + decimal(
                self.expected as nat,
            ) + "."@,
    {
        let mut m = String::new();
        m.append("Got ");
        push_decimal(&mut m, self.got);
        m.append(" field(s) while expecting ");
        push_decimal(&mut m, self.expected);
        m.append(".");
        m
    }
}

impl<'a> NonInteractiveInput<'a> {
    /// Builds the complete suggestion message.
    pub fn build_suggestion_message(&self) -> (m: String)
        ensures
            m@ == suggestion_message(
                self.fields as nat,
                str_views(self.descriptions@),
                str_views(self.examples@),
            ),
    {
        let ghost descs = str_views(self.descriptions@);
        let ghost exs = str_views(self.examples@);
        let ghost dlines = Seq::new(descs.len(), |i: int| field_line(i, descs[i]));
        let ghost elines = Seq::new(exs.len(), |i: int| example_line(exs[i]));
        let mut m = String::new();
        m.append("\n   Input is expected to have ");
        push_decimal(&mut m, self.fields);
        m.append(" field(s) concatenated using commas with each position mapping to:\n");
        let ghost head = m@;
        let nd = self.descriptions.len();
        let mut i: usize = 0;
        while i < nd
            invariant
                i <= nd == self.descriptions@.len() == descs.len() == dlines.len(),
                descs == str_views(self.descriptions@),
                dlines == Seq::new(descs.len(), |i: int| field_line(i, descs[i])),
                m@ == head + join_with(dlines.take(i as int), "\n"@),
            decreases nd - i,
        {
            let ghost before = m@;
            if i > 0 {
                m.append("\n");
            }
            m.append("      ");
            push_decimal(&mut m, i + 1);
            m.append(". ");
            m.append(self.descriptions[i]);
            proof {
                lemma_join_step(dlines, "\n"@, i as int);
                assert(dlines[i as int] == field_line(i as int, descs[i as int]));
                if i == 0 {
                    assert(dlines.take(0) =~= Seq::<Seq<char>>::empty());
                    assert(before == head);
                }
            }
            i = i + 1;
        }
        assert(dlines.take(nd as int) == dlines);
        m.append("\n\n   Here are some examples for your reference:\n");
        let ghost mid = m@;
        let ne = self.examples.len();
        let mut j: usize = 0;
        while j < ne
            invariant
                j <= ne == self.examples@.len() == exs.len() == elines.len(),
                exs == str_views(self.examples@),
                elines == Seq::new(exs.len(), |i: int| example_line(exs[i])),
                m@ == mid + join_with(elines.take(j as int), "\n"@),
            decreases ne - j,
        {
            let ghost before = m@;
            if j > 0 {
                m.append("\n");
            }
            m.append("      $ ");
            m.append(self.examples[j]);
            proof {
                lemma_join_step(elines, "\n"@, j as int);
                assert(elines[j as int] == example_line(exs[j as int]));
                if j == 0 {
                    assert(elines.take(0) =~= Seq::<Seq<char>>::empty());
                    assert(before == mid);
                }
            }
            j = j + 1;
        }
        assert(elines.take(ne as int) == elines);
        m
    }

    /// Checks the number of values read in non-interactive mode and keeps the
    /// first `fields` of them.
    pub fn parse(&self, lines: Vec<String>) -> (r: Result<Vec<String>, FieldCountError>)
        ensures
            lines.len() >= self.fields <==> r is Ok,
            r matches Ok(v) ==> v@ == lines@.take(self.fields as int),
            r matches Err(e) ==> e.got == lines.len() && e.expected == self.fields,
    {
        if lines.len() < self.fields {
            return Err(FieldCountError { got: lines.len(), expected: self.fields });
        }
        let mut lines = lines;
        lines.truncate(self.fields);
        Ok(lines)
    }
}

/// Why the non-interactive mode found no input.
#[derive(Debug, PartialEq, Eq)]
pub enum InputError {
    /// Neither `$MINEWORK_ENVIN` nor stdin held a value.
    Missing,
}

impl InputError {
    /// The error text.
    pub fn message(&self) -> (m: &'static str)
        ensures
            m@ == "Non-interactive mode expects input either via the $MINEWORK_ENVIN environment variable or stdin with the former getting higher priority."@,
    {
        "Non-interactive mode expects input either via the $MINEWORK_ENVIN environment variable or stdin with the former getting higher priority."
    }
}

/// The values of `$MINEWORK_ENVIN` (`env`, `None` where it is not set), where
/// it holds at least one.
pub fn values_from_env(env: Option<&str>) -> (r: Option<Vec<String>>)
    ensures
        r is Some <==> (env matches Some(e) && extracted_values(e@).len() > 0),
        r matches Some(v) ==> env matches Some(e) && string_views(v@) == extracted_values(e@),
{
    match env {
        Some(e) => {
            let values = extract_values(e);
            if values.len() > 0 {
                Some(values)
            } else {
                None
            }
        },
        None => None,
    }
}

/// The values read from stdin: `stdin` is what was read, `None` where stdin
/// is a terminal and was not read. Fails where no value is found.
pub fn values_from_stdin(stdin: Option<&str>) -> (r: Result<Vec<String>, InputError>)
    ensures
        r is Ok <==> (stdin matches Some(s) && extracted_values(s@).len() > 0),
        r matches Ok(v) ==> stdin matches Some(s) && string_views(v@) == extracted_values(s@),
{
    match stdin {
        Some(s) => {
            let values = extract_values(s);
            if values.len() > 0 {
                Ok(values)
            } else {
                Err(InputError::Missing)
            }
        },
        None => Err(InputError::Missing),
    }
}

} // verus!
