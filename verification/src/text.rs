//! Character-level building blocks shared by the menu parser and the
//! terminal renderer: Unicode whitespace, ASCII case folding, trimming and
//! conversions between `String` and `Vec<char>`.

use vstd::prelude::*;
use vstd::std_specs::iter::IteratorSpec;

verus! {

/// Unicode `White_Space`: the characters that `char::is_whitespace`,
/// `str::trim` and the `\s` class of a pattern treat as blank.
pub open spec fn is_ws(c: char) -> bool {
    ||| ('\t' <= c && c <= '\r')
    ||| c == ' '
    ||| c == '\u{85}'
    ||| c == '\u{a0}'
    ||| c == '\u{1680}'
    ||| ('\u{2000}' <= c && c <= '\u{200a}')
    ||| c == '\u{2028}'
    ||| c == '\u{2029}'
    ||| c == '\u{202f}'
    ||| c == '\u{205f}'
    ||| c == '\u{3000}'
}

pub fn is_whitespace(c: char) -> (b: bool)
    ensures
        b == is_ws(c),
{
    ('\t' <= c && c <= '\r') || c == ' ' || c == '\u{85}' || c == '\u{a0}' || c == '\u{1680}'
        || ('\u{2000}' <= c && c <= '\u{200a}') || c == '\u{2028}' || c == '\u{2029}'
        || c == '\u{202f}' || c == '\u{205f}' || c == '\u{3000}'
}

/// ASCII lower-casing of one character; every other character is kept.
pub open spec fn lower_char(c: char) -> char {
    if 'A' <= c && c <= 'Z' {
        ((c as u32) + 32) as char
    } else {
        c
    }
}

pub open spec fn lower(s: Seq<char>) -> Seq<char> {
    s.map_values(|c: char| lower_char(c))
}

/// Equality up to ASCII case, as `str::eq_ignore_ascii_case` decides it.
pub open spec fn eq_ignore_case(a: Seq<char>, b: Seq<char>) -> bool {
    lower(a) == lower(b)
}

pub fn lower_char_exec(c: char) -> (r: char)
    ensures
        r == lower_char(c),
{
    if 'A' <= c && c <= 'Z' {
        let b: u8 = c as u8;
        assert(b == c as u32);
        (b + 32) as char
    } else {
        c
    }
}

pub fn lower_chars(s: &Vec<char>) -> (r: Vec<char>)
    ensures
        r@ == lower(s@),
{
    let mut r: Vec<char> = Vec::new();
    let mut i: usize = 0;
    while i < s.len()
        invariant
            i <= s.len(),
            r@ == lower(s@.take(i as int)),
        decreases s.len() - i,
    {
        let c = lower_char_exec(s[i]);
        r.push(c);
        i = i + 1;
        assert(s@.take(i as int) =~= s@.take(i - 1).push(s@[i - 1]));
        assert(lower(s@.take(i as int)) =~= lower(s@.take(i - 1)).push(lower_char(s@[i - 1])));
    }
    assert(s@.take(s.len() as int) =~= s@);
    r
}

pub fn eq_ignore_case_exec(a: &Vec<char>, b: &Vec<char>) -> (r: bool)
    ensures
        r == eq_ignore_case(a@, b@),
{
    if a.len() != b.len() {
        assert(lower(a@).len() != lower(b@).len());
        return false;
    }
    let mut i: usize = 0;
    while i < a.len()
        invariant
            a.len() == b.len(),
            i <= a.len(),
            forall|k: int| 0 <= k < i ==> lower_char(a@[k]) == lower_char(b@[k]),
        decreases a.len() - i,
    {
        if lower_char_exec(a[i]) != lower_char_exec(b[i]) {
            assert(lower(a@)[i as int] != lower(b@)[i as int]);
            return false;
        }
        i = i + 1;
    }
    assert(lower(a@) =~= lower(b@));
    true
}

/// The characters of `s`, in order.
pub fn chars_of(s: &str) -> (v: Vec<char>)
    ensures
        v@ == s@,
{
    broadcast use vstd::string::group_string_axioms;

    let mut v: Vec<char> = Vec::new();
    let mut it = s.chars();
    loop
        invariant
            v@ + it.remaining() == s@,
            it.decrease() is Some,
        ensures
            v@ == s@,
        decreases it.decrease()->0,
    {
        match it.next() {
            Some(c) => {
                v.push(c);
            },
            None => {
                break ;
            },
        }
    }
    v
}

/// Appends one character: a call of `String::push`.
#[verifier::external_body]
pub(crate) fn push_char(s: &mut String, c: char)
    ensures
        final(s)@ == old(s)@.push(c),
{
    s.push(c);
}

/// The string made of the characters of `v`, in order.
pub fn string_of(v: &Vec<char>) -> (s: String)
    ensures
        s@ == v@,
{
    let mut s = String::new();
    let mut i: usize = 0;
    while i < v.len()
        invariant
            i <= v.len(),
            s@ == v@.take(i as int),
        decreases v.len() - i,
    {
        push_char(&mut s, v[i]);
        i = i + 1;
        assert(v@.take(i as int) =~= v@.take(i - 1).push(v@[i - 1]));
    }
    assert(v@.take(v.len() as int) =~= v@);
    s
}

/// A copy of `v[lo..hi]`.
pub fn slice_chars(v: &Vec<char>, lo: usize, hi: usize) -> (r: Vec<char>)
    requires
        lo <= hi <= v.len(),
    ensures
        r@ == v@.subrange(lo as int, hi as int),
{
    let mut r: Vec<char> = Vec::new();
    let mut i = lo;
    while i < hi
        invariant
            lo <= i <= hi <= v.len(),
            r@ == v@.subrange(lo as int, i as int),
        decreases hi - i,
    {
        r.push(v[i]);
        i = i + 1;
        assert(v@.subrange(lo as int, i as int) =~= v@.subrange(lo as int, i - 1).push(v@[i - 1]));
    }
    r
}

/// Appends all of `b` to `a`.
pub fn extend_chars(a: &mut Vec<char>, b: &Vec<char>)
    ensures
        final(a)@ == old(a)@ + b@,
{
    let mut i: usize = 0;
    while i < b.len()
        invariant
            i <= b.len(),
            a@ == old(a)@ + b@.take(i as int),
        decreases b.len() - i,
    {
        a.push(b[i]);
        i = i + 1;
        assert(b@.take(i as int) =~= b@.take(i - 1).push(b@[i - 1]));
    }
    assert(b@.take(b.len() as int) =~= b@);
}

pub fn chars_equal(a: &Vec<char>, b: &Vec<char>) -> (r: bool)
    ensures
        r == (a@ == b@),
{
    if a.len() != b.len() {
        return false;
    }
    let mut i: usize = 0;
    while i < a.len()
        invariant
            a.len() == b.len(),
            i <= a.len(),
            forall|k: int| 0 <= k < i ==> a@[k] == b@[k],
        decreases a.len() - i,
    {
        if a[i] != b[i] {
            return false;
        }
        i = i + 1;
    }
    assert(a@ =~= b@);
    true
}

/// Drops the leading characters that satisfy `p`.
pub open spec fn trim_start_by(s: Seq<char>, p: spec_fn(char) -> bool) -> Seq<char>
    decreases s.len(),
{
    if s.len() > 0 && p(s[0]) {
        trim_start_by(s.drop_first(), p)
    } else {
        s
    }
}

/// Drops the trailing characters that satisfy `p`.
pub open spec fn trim_end_by(s: Seq<char>, p: spec_fn(char) -> bool) -> Seq<char>
    decreases s.len(),
{
    if s.len() > 0 && p(s.last()) {
        trim_end_by(s.drop_last(), p)
    } else {
        s
    }
}

/// Drops the characters satisfying `p` at both ends.
pub open spec fn trim_by(s: Seq<char>, p: spec_fn(char) -> bool) -> Seq<char> {
    trim_end_by(trim_start_by(s, p), p)
}

pub open spec fn ws_pred() -> spec_fn(char) -> bool {
    |c: char| is_ws(c)
}

pub open spec fn comma_pred() -> spec_fn(char) -> bool {
    |c: char| c == ','
}

/// `str::trim`: whitespace removed at both ends.
pub open spec fn trim_ws(s: Seq<char>) -> Seq<char> {
    trim_by(s, ws_pred())
}

pub proof fn lemma_trim_start_at(s: Seq<char>, p: spec_fn(char) -> bool, i: int)
    requires
        0 <= i <= s.len(),
        forall|k: int| 0 <= k < i ==> p(#[trigger] s[k]),
        i == s.len() || !p(s[i]),
    ensures
        trim_start_by(s, p) == s.skip(i),
    decreases i,
{
    if i == 0 {
        assert(s.skip(0) =~= s);
    } else {
        assert(p(s[0]));
        let t = s.drop_first();
        assert forall|k: int| 0 <= k < i - 1 implies p(#[trigger] t[k]) by {
            assert(t[k] == s[k + 1]);
        }
        lemma_trim_start_at(t, p, i - 1);
        assert(t.skip(i - 1) =~= s.skip(i));
    }
}

pub proof fn lemma_trim_end_at(s: Seq<char>, p: spec_fn(char) -> bool, j: int)
    requires
        0 <= j <= s.len(),
        forall|k: int| j <= k < s.len() ==> p(#[trigger] s[k]),
        j == 0 || !p(s[j - 1]),
    ensures
        trim_end_by(s, p) == s.take(j),
    decreases s.len() - j,
{
    if j == s.len() {
        assert(s.take(j) =~= s);
    } else {
        assert(p(s.last()));
        let t = s.drop_last();
        assert forall|k: int| j <= k < t.len() implies p(#[trigger] t[k]) by {
            assert(t[k] == s[k]);
        }
        lemma_trim_end_at(t, p, j);
        assert(t.take(j) =~= s.take(j));
    }
}

/// Which characters a trim removes.
pub enum TrimSet {
    Whitespace,
    Comma,
}

pub open spec fn trim_pred(set: TrimSet) -> spec_fn(char) -> bool {
    match set {
        TrimSet::Whitespace => ws_pred(),
        TrimSet::Comma => comma_pred(),
    }
}

fn in_trim_set(set: &TrimSet, c: char) -> (b: bool)
    ensures
        b == trim_pred(*set)(c),
{
    match set {
        TrimSet::Whitespace => is_whitespace(c),
        TrimSet::Comma => c == ',',
    }
}

/// `s` without the characters of `set` at either end.
pub fn trim_chars(s: &Vec<char>, set: TrimSet) -> (r: Vec<char>)
    ensures
        r@ == trim_by(s@, trim_pred(set)),
{
    let ghost p = trim_pred(set);
    let mut i: usize = 0;
    while i < s.len() && in_trim_set(&set, s[i])
        invariant
            i <= s.len(),
            p == trim_pred(set),
            forall|k: int| 0 <= k < i ==> p(#[trigger] s@[k]),
        decreases s.len() - i,
    {
        i = i + 1;
    }
    proof {
        lemma_trim_start_at(s@, p, i as int);
    }
    let mut j: usize = s.len();
    while j > i && in_trim_set(&set, s[j - 1])
        invariant
            i <= j <= s.len(),
            p == trim_pred(set),
            forall|k: int| j <= k < s.len() ==> p(#[trigger] s@[k]),
        decreases j,
    {
        j = j - 1;
    }
    let ghost t = s@.skip(i as int);
    proof {
        assert forall|k: int| j - i <= k < t.len() implies p(#[trigger] t[k]) by {
            assert(t[k] == s@[k + i]);
        }
        if j > i {
            assert(t[j - i - 1] == s@[j - 1]);
        }
        lemma_trim_end_at(t, p, j - i);
        assert(t.take(j - i) =~= s@.subrange(i as int, j as int));
    }
    slice_chars(s, i, j)
}

/// Each maximal run of whitespace replaced by one space: what replacing
/// every match of `\s+` with `" "` gives.
pub open spec fn collapse_ws(s: Seq<char>) -> Seq<char>
    decreases s.len(),
{
    if s.len() == 0 {
        s
    } else if is_ws(s[0]) {
        proof {
            lemma_trim_start_len(s, ws_pred());
        }
        seq![' '] + collapse_ws(trim_start_by(s, ws_pred()))
    } else {
        seq![s[0]] + collapse_ws(s.drop_first())
    }
}

pub proof fn lemma_trim_start_len(s: Seq<char>, p: spec_fn(char) -> bool)
    ensures
        trim_start_by(s, p).len() <= s.len(),
        s.len() > 0 && p(s[0]) ==> trim_start_by(s, p).len() < s.len(),
    decreases s.len(),
{
    if s.len() > 0 && p(s[0]) {
        lemma_trim_start_len(s.drop_first(), p);
    }
}

pub fn collapse_whitespace(s: &Vec<char>) -> (r: Vec<char>)
    ensures
        r@ == collapse_ws(s@),
{
    let mut r: Vec<char> = Vec::new();
    let mut i: usize = 0;
    assert(s@.skip(0) =~= s@);
    while i < s.len()
        invariant
            i <= s.len(),
            r@ + collapse_ws(s@.skip(i as int)) == collapse_ws(s@),
        decreases s.len() - i,
    {
        let ghost rest = s@.skip(i as int);
        if is_whitespace(s[i]) {
            r.push(' ');
            let mut k = i + 1;
            while k < s.len() && is_whitespace(s[k])
                invariant
                    i < k <= s.len(),
                    forall|m: int| i <= m < k ==> is_ws(#[trigger] s@[m]),
                decreases s.len() - k,
            {
                k = k + 1;
            }
            proof {
                assert forall|m: int| 0 <= m < k - i implies ws_pred()(#[trigger] rest[m]) by {
                    assert(rest[m] == s@[m + i]);
                }
                if k < s.len() {
                    assert(rest[k - i] == s@[k as int]);
                }
                lemma_trim_start_at(rest, ws_pred(), k - i);
                assert(rest.skip(k - i) =~= s@.skip(k as int));
                assert(rest[0] == s@[i as int]);
                assert(r@ + collapse_ws(s@.skip(k as int)) =~= r@.drop_last() + (seq![' '] + collapse_ws(trim_start_by(rest, ws_pred()))));
            }
            i = k;
        } else {
            r.push(s[i]);
            proof {
                assert(rest[0] == s@[i as int]);
                assert(rest.drop_first() =~= s@.skip(i + 1));
                assert(r@ + collapse_ws(s@.skip(i + 1)) =~= r@.drop_last() + (seq![s@[i as int]] + collapse_ws(rest.drop_first())));
            }
            i = i + 1;
        }
    }
    assert(s@.skip(s.len() as int) =~= Seq::<char>::empty());
    assert(r@ =~= r@ + collapse_ws(Seq::<char>::empty()));
    r
}

/// The first index at or after `i` that holds `c`, or `s.len()` if none does.
pub open spec fn find_char(s: Seq<char>, c: char, i: int) -> int
    decreases s.len() - i,
{
    if i >= s.len() {
        s.len() as int
    } else if s[i] == c {
        i
    } else {
        find_char(s, c, i + 1)
    }
}

pub proof fn lemma_find_char_bounds(s: Seq<char>, c: char, i: int)
    requires
        0 <= i,
    ensures
        i <= s.len() ==> i <= find_char(s, c, i) <= s.len(),
        find_char(s, c, i) < s.len() ==> s[find_char(s, c, i)] == c,
        forall|k: int| i <= k < find_char(s, c, i) ==> s[k] != c,
    decreases s.len() - i,
{
    if i < s.len() && s[i] != c {
        lemma_find_char_bounds(s, c, i + 1);
    }
}

pub fn find_char_exec(s: &Vec<char>, c: char, i: usize) -> (r: usize)
    requires
        i <= s.len(),
    ensures
        r == find_char(s@, c, i as int),
        i <= r <= s.len(),
{
    let mut k = i;
    while k < s.len() && s[k] != c
        invariant
            i <= k <= s.len(),
            find_char(s@, c, i as int) == find_char(s@, c, k as int),
        decreases s.len() - k,
    {
        k = k + 1;
    }
    k
}

/// The pieces of `s` between occurrences of `sep`, as `str::split` gives
/// them: `"a,,b"` has three pieces and the empty text has one.
pub open spec fn split_on(s: Seq<char>, sep: char) -> Seq<Seq<char>>
    decreases s.len(),
{
    let k = find_char(s, sep, 0);
    if k >= s.len() {
        seq![s]
    } else {
        proof {
            lemma_find_char_bounds(s, sep, 0);
        }
        seq![s.take(k)] + split_on(s.skip(k + 1), sep)
    }
}

pub open spec fn views_of(v: Seq<Vec<char>>) -> Seq<Seq<char>> {
    v.map_values(|x: Vec<char>| x@)
}

pub fn split_chars(s: &Vec<char>, sep: char) -> (r: Vec<Vec<char>>)
    ensures
        views_of(r@) == split_on(s@, sep),
{
    let mut r: Vec<Vec<char>> = Vec::new();
    let mut start: usize = 0;
    assert(s@.skip(0) =~= s@);
    loop
        invariant
            start <= s.len(),
            views_of(r@) + split_on(s@.skip(start as int), sep) == split_on(s@, sep),
        decreases s.len() - start,
    {
        let ghost rest = s@.skip(start as int);
        let k = find_char_exec(s, sep, start);
        proof {
            assert forall|m: int| start <= m <= s.len() implies find_char(rest, sep, m - start)
                + start == find_char(s@, sep, m) by {
                lemma_find_shift(s@, sep, start as int, m);
            }
        }
        let piece = slice_chars(s, start, k);
        if k >= s.len() {
            r.push(piece);
            proof {
                assert(rest.take(rest.len() as int) =~= rest);
                assert(views_of(r@) =~= views_of(r@.drop_last()).push(rest));
            }
            return r;
        }
        r.push(piece);
        proof {
            assert(rest.take(k - start) =~= s@.subrange(start as int, k as int));
            assert(rest.skip(k - start + 1) =~= s@.skip(k + 1));
            assert(views_of(r@) =~= views_of(r@.drop_last()).push(piece@));
            assert(views_of(r@) + split_on(s@.skip(k + 1), sep) =~= views_of(r@.drop_last()) + (
            seq![rest.take(k - start)] + split_on(rest.skip(k - start + 1), sep)));
        }
        start = k + 1;
    }
}

/// Searching a character from a position gives the same place in a text
/// and in any of its suffixes that still holds that position.
pub proof fn lemma_find_shift(s: Seq<char>, c: char, start: int, m: int)
    requires
        0 <= start <= m <= s.len(),
    ensures
        find_char(s.skip(start), c, m - start) + start == find_char(s, c, m),
    decreases s.len() - m,
{
    if m < s.len() {
        assert(s.skip(start)[m - start] == s[m]);
        lemma_find_shift(s, c, start, m + 1);
    }
}

pub open spec fn strings_view(v: Seq<String>) -> Seq<Seq<char>> {
    v.map_values(|x: String| x@)
}

/// The whitespace-free run that starts at `i` ends here: the first index at
/// or after `i` holding no whitespace, or `s.len()`.
pub open spec fn ws_run_end(s: Seq<char>, i: int) -> int
    decreases s.len() - i,
{
    if i < s.len() && is_ws(s[i]) {
        ws_run_end(s, i + 1)
    } else {
        i
    }
}

pub proof fn lemma_ws_run_end_bounds(s: Seq<char>, i: int)
    requires
        0 <= i <= s.len(),
    ensures
        i <= ws_run_end(s, i) <= s.len(),
        forall|k: int| i <= k < ws_run_end(s, i) ==> is_ws(#[trigger] s[k]),
    decreases s.len() - i,
{
    if i < s.len() && is_ws(s[i]) {
        lemma_ws_run_end_bounds(s, i + 1);
    }
}

pub fn ws_run_end_exec(s: &Vec<char>, i: usize) -> (r: usize)
    requires
        i <= s.len(),
    ensures
        r == ws_run_end(s@, i as int),
        i <= r <= s.len(),
{
    let mut k = i;
    while k < s.len() && is_whitespace(s[k])
        invariant
            i <= k <= s.len(),
            ws_run_end(s@, i as int) == ws_run_end(s@, k as int),
        decreases s.len() - k,
    {
        k = k + 1;
    }
    k
}

/// Where the run of whitespace that ends just before `k` begins, looking no
/// further back than `lo`.
pub open spec fn ws_run_start(s: Seq<char>, lo: int, k: int) -> int
    decreases k - lo,
{
    if k > lo && is_ws(s[k - 1]) {
        ws_run_start(s, lo, k - 1)
    } else {
        k
    }
}

pub fn ws_run_start_exec(s: &Vec<char>, lo: usize, k: usize) -> (r: usize)
    requires
        lo <= k <= s.len(),
    ensures
        r == ws_run_start(s@, lo as int, k as int),
        lo <= r <= k,
{
    let mut m = k;
    while m > lo && is_whitespace(s[m - 1])
        invariant
            lo <= m <= k,
            k <= s.len(),
            ws_run_start(s@, lo as int, k as int) == ws_run_start(s@, lo as int, m as int),
        decreases m,
    {
        m = m - 1;
    }
    m
}

/// The parts separated by `sep`, as `[..].join(sep)` gives them.
pub open spec fn join_with(parts: Seq<Seq<char>>, sep: Seq<char>) -> Seq<char>
    decreases parts.len(),
{
    if parts.len() == 0 {
        seq![]
    } else if parts.len() == 1 {
        parts[0]
    } else {
        join_with(parts.drop_last(), sep) + sep + parts.last()
    }
}

pub fn join_chars(parts: &Vec<Vec<char>>, sep: &Vec<char>) -> (r: Vec<char>)
    ensures
        r@ == join_with(views_of(parts@), sep@),
{
    let ghost ps = views_of(parts@);
    let mut r: Vec<char> = Vec::new();
    let mut k: usize = 0;
    assert(ps.take(0) =~= Seq::<Seq<char>>::empty());
    while k < parts.len()
        invariant
            k <= parts.len(),
            ps == views_of(parts@),
            r@ == join_with(ps.take(k as int), sep@),
        decreases parts.len() - k,
    {
        let ghost before = r@;
        if k > 0 {
            extend_chars(&mut r, sep);
        }
        extend_chars(&mut r, &parts[k]);
        proof {
            let t = ps.take(k + 1);
            assert(t.drop_last() =~= ps.take(k as int));
            assert(t.last() == parts@[k as int]@);
            if k == 0 {
                assert(r@ =~= t[0]);
            } else {
                assert(r@ =~= before + sep@ + t.last());
            }
        }
        k = k + 1;
    }
    assert(ps.take(parts.len() as int) =~= ps);
    r
}

/// `s` with every occurrence of `pat`, taken from the left without
/// overlaps, removed: `s.replace(pat, "")`.
pub open spec fn remove_all(s: Seq<char>, pat: Seq<char>) -> Seq<char>
    decreases s.len(),
{
    if pat.len() == 0 || s.len() < pat.len() {
        s
    } else if s.take(pat.len() as int) == pat {
        remove_all(s.skip(pat.len() as int), pat)
    } else {
        seq![s[0]] + remove_all(s.drop_first(), pat)
    }
}

fn starts_with_at(s: &Vec<char>, i: usize, pat: &Vec<char>) -> (b: bool)
    requires
        i <= s.len(),
        pat.len() <= s.len() - i,
    ensures
        b == (s@.skip(i as int).take(pat.len() as int) == pat@),
{
    let mut k: usize = 0;
    while k < pat.len()
        invariant
            k <= pat.len(),
            pat.len() <= s.len() - i,
            forall|m: int| 0 <= m < k ==> s@[i + m] == pat@[m],
        decreases pat.len() - k,
    {
        if s[i + k] != pat[k] {
            assert(s@.skip(i as int).take(pat.len() as int)[k as int] != pat@[k as int]);
            return false;
        }
        k = k + 1;
    }
    assert(s@.skip(i as int).take(pat.len() as int) =~= pat@);
    true
}

pub fn remove_all_chars(s: &Vec<char>, pat: &Vec<char>) -> (r: Vec<char>)
    ensures
        r@ == remove_all(s@, pat@),
{
    if pat.len() == 0 {
        return slice_chars(s, 0, s.len());
    }
    let mut r: Vec<char> = Vec::new();
    let mut i: usize = 0;
    assert(s@.skip(0) =~= s@);
    while i < s.len()
        invariant
            i <= s.len(),
            pat.len() > 0,
            r@ + remove_all(s@.skip(i as int), pat@) == remove_all(s@, pat@),
        decreases s.len() - i,
    {
        let ghost t = s@.skip(i as int);
        if s.len() - i < pat.len() {
            let rest = slice_chars(s, i, s.len());
            assert(rest@ =~= t);
            extend_chars(&mut r, &rest);
            assert(s@.skip(s.len() as int) =~= Seq::<char>::empty());
            assert(remove_all(s@.skip(s.len() as int), pat@) =~= Seq::<char>::empty());
            assert(r@ + remove_all(s@.skip(s.len() as int), pat@) =~= r@);
            i = s.len();
        } else if starts_with_at(s, i, pat) {
            assert(t.skip(pat.len() as int) =~= s@.skip(i + pat.len()));
            i = i + pat.len();
        } else {
            r.push(s[i]);
            proof {
                assert(t[0] == s@[i as int]);
                assert(t.drop_first() =~= s@.skip(i + 1));
                assert(r@ + remove_all(s@.skip(i + 1), pat@) =~= r@.drop_last() + (seq![t[0]]
                    + remove_all(t.drop_first(), pat@)));
            }
            i = i + 1;
        }
    }
    assert(s@.skip(s.len() as int) =~= Seq::<char>::empty());
    assert(r@ + remove_all(s@.skip(s.len() as int), pat@) =~= r@);
    r
}

/// `needle` occurs in `hay` at position `i`.
pub open spec fn occurs_at(hay: Seq<char>, needle: Seq<char>, i: int) -> bool {
    0 <= i && i + needle.len() <= hay.len() && hay.subrange(i, i + needle.len()) == needle
}

/// `str::contains` with a text pattern.
pub open spec fn contains_text(hay: Seq<char>, needle: Seq<char>) -> bool {
    exists|i: int| occurs_at(hay, needle, i)
}

pub fn contains_chars(hay: &Vec<char>, needle: &Vec<char>) -> (b: bool)
    ensures
        b == contains_text(hay@, needle@),
{
    if needle.len() > hay.len() {
        return false;
    }
    if needle.len() == 0 {
        assert(hay@.subrange(0, 0) =~= needle@);
        assert(occurs_at(hay@, needle@, 0));
        return true;
    }
    let mut i: usize = 0;
    while i <= hay.len() - needle.len()
        invariant
            0 < needle.len() <= hay.len(),
            i <= hay.len() - needle.len() + 1,
            forall|m: int| 0 <= m < i ==> !occurs_at(hay@, needle@, m),
        decreases hay.len() - needle.len() + 1 - i,
    {
        if starts_with_at(hay, i, needle) {
            assert(hay@.skip(i as int).take(needle.len() as int) =~= hay@.subrange(
                i as int,
                i + needle.len(),
            ));
            assert(occurs_at(hay@, needle@, i as int));
            return true;
        }
        assert(hay@.skip(i as int).take(needle.len() as int) =~= hay@.subrange(
            i as int,
            i + needle.len(),
        ));
        i = i + 1;
    }
    false
}

/// What `str::to_uppercase` returns: the Unicode upper case of a text.
pub uninterp spec fn upper(s: Seq<char>) -> Seq<char>;

/// `str::to_uppercase`: the text in Unicode upper case. The case tables are
/// left to the name.
#[verifier::external_body]
pub(crate) fn to_uppercase(s: &str) -> (r: String)
    ensures
        r@ == upper(s@),
{
    s.to_uppercase()
}

pub proof fn lemma_trim_start_suffix(s: Seq<char>, p: spec_fn(char) -> bool)
    ensures
        trim_start_by(s, p) == s.skip(s.len() - trim_start_by(s, p).len()),
        trim_start_by(s, p).len() <= s.len(),
        trim_start_by(s, p).len() > 0 ==> !p(trim_start_by(s, p)[0]),
    decreases s.len(),
{
    if s.len() > 0 && p(s[0]) {
        lemma_trim_start_suffix(s.drop_first(), p);
        let r = trim_start_by(s.drop_first(), p);
        assert(s.drop_first().skip(s.drop_first().len() - r.len()) =~= s.skip(s.len() - r.len()));
    } else {
        assert(s.skip(0) =~= s);
    }
}

pub proof fn lemma_trim_end_prefix(s: Seq<char>, p: spec_fn(char) -> bool)
    ensures
        trim_end_by(s, p) == s.take(trim_end_by(s, p).len() as int),
        trim_end_by(s, p).len() <= s.len(),
        trim_end_by(s, p).len() > 0 ==> !p(trim_end_by(s, p).last()),
    decreases s.len(),
{
    if s.len() > 0 && p(s.last()) {
        lemma_trim_end_prefix(s.drop_last(), p);
        let r = trim_end_by(s.drop_last(), p);
        assert(s.drop_last().take(r.len() as int) =~= s.take(r.len() as int));
    } else {
        assert(s.take(s.len() as int) =~= s);
    }
}

/// Whitespace occurs in `t` only as single spaces.
pub open spec fn single_spaced(t: Seq<char>) -> bool {
    forall|i: int|
        0 <= i < t.len() && is_ws(#[trigger] t[i]) ==> t[i] == ' ' && (i + 1 < t.len() ==> !is_ws(
            t[i + 1],
        ))
}

/// `t` is single-spaced and neither starts nor ends with whitespace.
pub open spec fn tidy(t: Seq<char>) -> bool {
    &&& single_spaced(t)
    &&& t.len() > 0 ==> !is_ws(t[0]) && !is_ws(t.last())
}

pub proof fn lemma_collapse_single_spaced(s: Seq<char>)
    ensures
        single_spaced(collapse_ws(s)),
        collapse_ws(s).len() > 0 && !is_ws(collapse_ws(s)[0]) ==> s.len() > 0 && !is_ws(s[0]),
    decreases s.len(),
{
    if s.len() == 0 {
    } else if is_ws(s[0]) {
        let t = trim_start_by(s, ws_pred());
        lemma_trim_start_len(s, ws_pred());
        lemma_trim_start_suffix(s, ws_pred());
        lemma_collapse_single_spaced(t);
        let r = collapse_ws(s);
        let c = collapse_ws(t);
        assert(r == seq![' '] + c);
        assert(c.len() > 0 ==> !is_ws(c[0]));
        assert forall|i: int| 0 <= i < r.len() && is_ws(#[trigger] r[i]) implies r[i] == ' ' && (i
            + 1 < r.len() ==> !is_ws(r[i + 1])) by {
            if i > 0 {
                assert(r[i] == c[i - 1]);
                if i + 1 < r.len() {
                    assert(r[i + 1] == c[i]);
                }
            } else if r.len() > 1 {
                assert(r[1] == c[0]);
            }
        }
    } else {
        lemma_collapse_single_spaced(s.drop_first());
        let r = collapse_ws(s);
        let c = collapse_ws(s.drop_first());
        assert(r == seq![s[0]] + c);
        assert forall|i: int| 0 <= i < r.len() && is_ws(#[trigger] r[i]) implies r[i] == ' ' && (i
            + 1 < r.len() ==> !is_ws(r[i + 1])) by {
            assert(i > 0);
            assert(r[i] == c[i - 1]);
            if i + 1 < r.len() {
                assert(r[i + 1] == c[i]);
            }
        }
    }
}

pub proof fn lemma_single_spaced_subrange(t: Seq<char>, a: int, b: int)
    requires
        0 <= a <= b <= t.len(),
        single_spaced(t),
    ensures
        single_spaced(t.subrange(a, b)),
{
    let u = t.subrange(a, b);
    assert forall|i: int| 0 <= i < u.len() && is_ws(#[trigger] u[i]) implies u[i] == ' ' && (i + 1
        < u.len() ==> !is_ws(u[i + 1])) by {
        assert(u[i] == t[a + i]);
        if i + 1 < u.len() {
            assert(u[i + 1] == t[a + i + 1]);
        }
    }
}

/// Trimming keeps a text single-spaced.
pub proof fn lemma_trim_single_spaced(t: Seq<char>, p: spec_fn(char) -> bool)
    requires
        single_spaced(t),
    ensures
        single_spaced(trim_by(t, p)),
{
    let a = trim_start_by(t, p);
    lemma_trim_start_suffix(t, p);
    lemma_single_spaced_subrange(t, t.len() - a.len(), t.len() as int);
    assert(t.skip(t.len() - a.len()) =~= t.subrange(t.len() - a.len(), t.len() as int));
    lemma_trim_end_prefix(a, p);
    let b = trim_end_by(a, p);
    lemma_single_spaced_subrange(a, 0, b.len() as int);
    assert(a.take(b.len() as int) =~= a.subrange(0, b.len() as int));
}

/// A single-spaced text trimmed of whitespace is tidy.
pub proof fn lemma_trim_ws_tidy(t: Seq<char>)
    requires
        single_spaced(t),
    ensures
        tidy(trim_ws(t)),
{
    lemma_trim_single_spaced(t, ws_pred());
    let a = trim_start_by(t, ws_pred());
    lemma_trim_start_suffix(t, ws_pred());
    lemma_trim_end_prefix(a, ws_pred());
    let b = trim_end_by(a, ws_pred());
    if b.len() > 0 {
        assert(b[0] == a[0]);
    }
}

/// Trimming whitespace twice is trimming it once.
pub proof fn lemma_trim_ws_idempotent(x: Seq<char>)
    ensures
        trim_ws(trim_ws(x)) == trim_ws(x),
{
    let a = trim_start_by(x, ws_pred());
    lemma_trim_start_suffix(x, ws_pred());
    lemma_trim_end_prefix(a, ws_pred());
    let t = trim_ws(x);
    if t.len() > 0 {
        assert(t[0] == a[0]);
        assert(trim_start_by(t, ws_pred()) == t);
        assert(trim_end_by(t, ws_pred()) == t);
    } else {
        assert(trim_start_by(t, ws_pred()) == t);
    }
}

/// A text that neither starts nor ends with a character of `p` is its own
/// trim.
pub proof fn lemma_trim_unchanged(t: Seq<char>, p: spec_fn(char) -> bool)
    requires
        t.len() == 0 || (!p(t[0]) && !p(t.last())),
    ensures
        trim_by(t, p) == t,
{
}

/// A single-spaced text has no run of whitespace to collapse.
pub proof fn lemma_collapse_unchanged(t: Seq<char>)
    requires
        single_spaced(t),
    ensures
        collapse_ws(t) == t,
    decreases t.len(),
{
    if t.len() > 0 {
        let rest = t.drop_first();
        assert forall|i: int| 0 <= i < rest.len() && is_ws(#[trigger] rest[i]) implies rest[i] == ' '
            && (i + 1 < rest.len() ==> !is_ws(rest[i + 1])) by {
            assert(rest[i] == t[i + 1]);
            if i + 1 < rest.len() {
                assert(rest[i + 1] == t[i + 2]);
            }
        }
        lemma_collapse_unchanged(rest);
        if is_ws(t[0]) {
            if rest.len() > 0 {
                assert(rest[0] == t[1]);
            }
            assert(trim_start_by(rest, ws_pred()) == rest);
            assert(trim_start_by(t, ws_pred()) == rest);
        }
        assert(t =~= seq![t[0]] + rest);
    }
}

proof fn lemma_lower_keeps_ws(c: char)
    ensures
        is_ws(lower_char(c)) == is_ws(c),
{
}

proof fn lemma_trim_start_lower(s: Seq<char>)
    ensures
        trim_start_by(lower(s), ws_pred()) == lower(trim_start_by(s, ws_pred())),
    decreases s.len(),
{
    if s.len() > 0 {
        lemma_lower_keeps_ws(s[0]);
        assert(lower(s)[0] == lower_char(s[0]));
        if is_ws(s[0]) {
            assert(lower(s).drop_first() =~= lower(s.drop_first()));
            lemma_trim_start_lower(s.drop_first());
        }
    } else {
        assert(lower(s) =~= s);
    }
}

proof fn lemma_trim_end_lower(s: Seq<char>)
    ensures
        trim_end_by(lower(s), ws_pred()) == lower(trim_end_by(s, ws_pred())),
    decreases s.len(),
{
    if s.len() > 0 {
        lemma_lower_keeps_ws(s.last());
        assert(lower(s).last() == lower_char(s.last()));
        if is_ws(s.last()) {
            assert(lower(s).drop_last() =~= lower(s.drop_last()));
            lemma_trim_end_lower(s.drop_last());
        }
    } else {
        assert(lower(s) =~= s);
    }
}

/// Trimming whitespace and ASCII lower-casing can be done in either order.
pub proof fn lemma_trim_lower_commute(s: Seq<char>)
    ensures
        trim_ws(lower(s)) == lower(trim_ws(s)),
{
    lemma_trim_start_lower(s);
    lemma_trim_end_lower(trim_start_by(s, ws_pred()));
}

} // verus!
