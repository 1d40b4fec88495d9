//! Terminal layout: visible length of styled text, word wrapping, and the
//! plain text of an HTML snippet.

use vstd::prelude::*;
use crate::style::{category_code, danger_code, dim_code, header_code, reset_code, styled};
use crate::text::{
    chars_of, extend_chars, slice_chars, split_chars, split_on, views_of, find_char, find_char_exec, lemma_find_char_bounds, string_of,
    trim_chars, trim_ws, TrimSet,
};

verus! {

#[derive(Debug)]
pub enum DisplayError {
    VisibleLength(String),
    Regex(String),
}

/// Characters that may stand between `ESC [` and the final `m` of a style
/// escape sequence.
pub open spec fn is_esc_param(c: char) -> bool {
    ('0' <= c && c <= '9') || c == ';'
}

pub open spec fn param_run_end(s: Seq<char>, i: int) -> int
    decreases s.len() - i,
{
    if i < s.len() && is_esc_param(s[i]) {
        param_run_end(s, i + 1)
    } else {
        i
    }
}

pub proof fn lemma_param_run_end(s: Seq<char>, i: int)
    requires
        0 <= i <= s.len(),
    ensures
        i <= param_run_end(s, i) <= s.len(),
        forall|k: int| i <= k < param_run_end(s, i) ==> is_esc_param(#[trigger] s[k]),
        param_run_end(s, i) == s.len() || !is_esc_param(s[param_run_end(s, i)]),
    decreases s.len() - i,
{
    if i < s.len() && is_esc_param(s[i]) {
        lemma_param_run_end(s, i + 1);
    }
}

/// The length of the style escape sequence `ESC [ params m` at the start of
/// `s`, or 0 if `s` does not start with one.
pub open spec fn esc_len(s: Seq<char>) -> int {
    if s.len() >= 2 && s[0] == '\x1b' && s[1] == '[' {
        let k = param_run_end(s, 2);
        if k < s.len() && s[k] == 'm' {
            k + 1
        } else {
            0
        }
    } else {
        0
    }
}

pub proof fn lemma_esc_len_bounds(s: Seq<char>)
    ensures
        esc_len(s) == 0 || 3 <= esc_len(s) <= s.len(),
{
    if s.len() >= 2 {
        lemma_param_run_end(s, 2);
    }
}

/// `s` without its style escape sequences, as replacing every match of
/// `\x1b\[[0-9;]*m` with nothing gives.
pub open spec fn strip_ansi(s: Seq<char>) -> Seq<char>
    decreases s.len(),
{
    if s.len() == 0 {
        s
    } else if esc_len(s) > 0 {
        proof {
            lemma_esc_len_bounds(s);
        }
        strip_ansi(s.skip(esc_len(s)))
    } else {
        seq![s[0]] + strip_ansi(s.drop_first())
    }
}

/// The number of characters a terminal shows for `s`.
pub open spec fn visible(s: Seq<char>) -> nat {
    strip_ansi(s).len()
}

fn param_run_end_exec(s: &Vec<char>, i: usize) -> (r: usize)
    requires
        i <= s.len(),
    ensures
        r == param_run_end(s@, i as int),
        i <= r <= s.len(),
{
    let mut k = i;
    while k < s.len() && (('0' <= s[k] && s[k] <= '9') || s[k] == ';')
        invariant
            i <= k <= s.len(),
            param_run_end(s@, i as int) == param_run_end(s@, k as int),
        decreases s.len() - k,
    {
        k = k + 1;
    }
    k
}

/// The length of the escape sequence at `s[i..]`.
fn esc_len_at(s: &Vec<char>, i: usize) -> (r: usize)
    requires
        i <= s.len(),
    ensures
        r == esc_len(s@.skip(i as int)),
{
    let ghost t = s@.skip(i as int);
    if i < s.len() && s.len() - i >= 2 && s[i] == '\x1b' && s[i + 1] == '[' {
        let k = param_run_end_exec(s, i + 2);
        proof {
            assert forall|m: int| i + 2 <= m <= s.len() implies param_run_end(t, m - i) + i
                == param_run_end(s@, m) by {
                lemma_param_shift(s@, i as int, m);
            }
        }
        if k < s.len() && s[k] == 'm' {
            k + 1 - i
        } else {
            0
        }
    } else {
        0
    }
}

proof fn lemma_param_shift(s: Seq<char>, start: int, m: int)
    requires
        0 <= start <= m <= s.len(),
    ensures
        param_run_end(s.skip(start), m - start) + start == param_run_end(s, m),
    decreases s.len() - m,
{
    if m < s.len() {
        assert(s.skip(start)[m - start] == s[m]);
        lemma_param_shift(s, start, m + 1);
    }
}

pub fn strip_ansi_chars(s: &Vec<char>) -> (r: Vec<char>)
    ensures
        r@ == strip_ansi(s@),
{
    let mut r: Vec<char> = Vec::new();
    let mut i: usize = 0;
    assert(s@.skip(0) =~= s@);
    while i < s.len()
        invariant
            i <= s.len(),
            r@ + strip_ansi(s@.skip(i as int)) == strip_ansi(s@),
        decreases s.len() - i,
    {
        let ghost t = s@.skip(i as int);
        let n = esc_len_at(s, i);
        proof {
            lemma_esc_len_bounds(t);
        }
        if n > 0 {
            assert(t.skip(n as int) =~= s@.skip(i + n));
            i = i + n;
        } else {
            r.push(s[i]);
            proof {
                assert(t[0] == s@[i as int]);
                assert(t.drop_first() =~= s@.skip(i + 1));
                assert(r@ + strip_ansi(s@.skip(i + 1)) =~= r@.drop_last() + (seq![t[0]]
                    + strip_ansi(t.drop_first())));
            }
            i = i + 1;
        }
    }
    assert(s@.skip(s.len() as int) =~= Seq::<char>::empty());
    assert(r@ + strip_ansi(s@.skip(i as int)) =~= r@);
    r
}

pub fn visible_len(s: &str) -> (r: Result<usize, DisplayError>)
    ensures
        r matches Ok(n) && n == visible(s@),
{
    let v = chars_of(s);
    let stripped = strip_ansi_chars(&v);
    Ok(stripped.len())
}

/// The length of the tag `<...>` at the start of `s` (at least one
/// character between the brackets), or 0 if `s` does not start with one.
pub open spec fn tag_len(s: Seq<char>) -> int {
    if s.len() >= 2 && s[0] == '<' && s[1] != '>' && find_char(s, '>', 1) < s.len() {
        find_char(s, '>', 1) + 1
    } else {
        0
    }
}

/// `s` without its tags, as replacing every match of `<[^>]+>` with nothing
/// gives.
pub open spec fn strip_tag_text(s: Seq<char>) -> Seq<char>
    decreases s.len(),
{
    if s.len() == 0 {
        s
    } else if tag_len(s) > 0 {
        proof {
            lemma_find_char_bounds(s, '>', 1);
        }
        strip_tag_text(s.skip(tag_len(s)))
    } else {
        seq![s[0]] + strip_tag_text(s.drop_first())
    }
}

/// What `html_escape::decode_html_entities` returns for a text.
pub uninterp spec fn decoded_entities(s: Seq<char>) -> Seq<char>;

/// `html_escape::decode_html_entities`: the text with its character
/// references (`&amp;`, `&#228;`, ...) replaced by the characters they
/// stand for. Its source returns the text unchanged when no `&` occurs in
/// it; what it does with references is left to the name.
#[verifier::external_body]
fn decode_entities(s: &str) -> (r: String)
    ensures
        r@ == decoded_entities(s@),
        !s@.contains('&') ==> r@ == s@,
{
    html_escape::decode_html_entities(s).into_owned()
}

fn tag_len_at(s: &Vec<char>, i: usize) -> (r: usize)
    requires
        i <= s.len(),
    ensures
        r == tag_len(s@.skip(i as int)),
{
    let ghost t = s@.skip(i as int);
    if i < s.len() && s.len() - i >= 2 && s[i] == '<' && s[i + 1] != '>' {
        let k = find_char_exec(s, '>', i + 1);
        proof {
            assert forall|m: int| i + 1 <= m <= s.len() implies find_char(t, '>', m - i) + i
                == find_char(s@, '>', m) by {
                crate::text::lemma_find_shift(s@, '>', i as int, m);
            }
        }
        if k < s.len() {
            k + 1 - i
        } else {
            0
        }
    } else {
        0
    }
}

fn strip_tag_chars(s: &Vec<char>) -> (r: Vec<char>)
    ensures
        r@ == strip_tag_text(s@),
{
    let mut r: Vec<char> = Vec::new();
    let mut i: usize = 0;
    assert(s@.skip(0) =~= s@);
    while i < s.len()
        invariant
            i <= s.len(),
            r@ + strip_tag_text(s@.skip(i as int)) == strip_tag_text(s@),
        decreases s.len() - i,
    {
        let ghost t = s@.skip(i as int);
        let n = tag_len_at(s, i);
        proof {
            lemma_find_char_bounds(t, '>', 1);
        }
        if n > 0 {
            assert(t.skip(n as int) =~= s@.skip(i + n));
            i = i + n;
        } else {
            r.push(s[i]);
            proof {
                assert(t[0] == s@[i as int]);
                assert(t.drop_first() =~= s@.skip(i + 1));
                assert(r@ + strip_tag_text(s@.skip(i + 1)) =~= r@.drop_last() + (seq![t[0]]
                    + strip_tag_text(t.drop_first())));
            }
            i = i + 1;
        }
    }
    assert(s@.skip(s.len() as int) =~= Seq::<char>::empty());
    assert(r@ + strip_tag_text(s@.skip(i as int)) =~= r@);
    r
}

/// The text of an HTML snippet: tags removed, character references
/// decoded, whitespace trimmed off the ends.
pub open spec fn spec_strip_tags(html: Seq<char>) -> Seq<char> {
    trim_ws(decoded_entities(strip_tag_text(html)))
}

pub fn strip_tags(html: &str) -> (r: Result<String, DisplayError>)
    ensures
        r matches Ok(t) && t@ == spec_strip_tags(html@),
{
    let v = chars_of(html);
    let stripped = string_of(&strip_tag_chars(&v));
    let decoded = decode_entities(stripped.as_str());
    let dv = chars_of(decoded.as_str());
    let trimmed = trim_chars(&dv, TrimSet::Whitespace);
    Ok(string_of(&trimmed))
}

pub open spec fn spaces(n: nat) -> Seq<char> {
    Seq::new(n, |i: int| ' ')
}

/// Where the greedy line filler stands after some words: the finished
/// lines, the line being filled and its visible width.
pub struct WrapState {
    pub lines: Seq<Seq<char>>,
    pub current: Seq<char>,
    pub current_vis: int,
}

/// Fills lines word by word: a word goes on the current line, after one
/// space, while the line stays within `avail` visible characters.
pub open spec fn wrap_state(words: Seq<Seq<char>>, avail: int) -> WrapState
    decreases words.len(),
{
    if words.len() == 0 {
        WrapState { lines: seq![], current: seq![], current_vis: 0 }
    } else {
        let st = wrap_state(words.drop_last(), avail);
        let w = words.last();
        let wl = visible(w) as int;
        if st.current.len() == 0 {
            WrapState { lines: st.lines, current: w, current_vis: wl }
        } else if st.current_vis + 1 + wl > avail {
            WrapState { lines: st.lines.push(st.current), current: w, current_vis: wl }
        } else {
            WrapState {
                lines: st.lines,
                current: st.current + seq![' '] + w,
                current_vis: st.current_vis + 1 + wl,
            }
        }
    }
}

/// The lines that the words of `text` (split at single spaces) fill.
pub open spec fn wrapped_lines(text: Seq<char>, avail: int) -> Seq<Seq<char>> {
    let st = wrap_state(split_on(text, ' '), avail);
    if st.current.len() > 0 {
        st.lines.push(st.current)
    } else {
        st.lines
    }
}

/// Every line after the first, each on a new line behind `indent`.
pub open spec fn rest_lines(lines: Seq<Seq<char>>, indent: Seq<char>) -> Seq<char>
    decreases lines.len(),
{
    if lines.len() <= 1 {
        seq![]
    } else {
        rest_lines(lines.drop_last(), indent) + seq!['\n'] + indent + lines.last()
    }
}

/// `prefix` followed by `text` wrapped to `width` columns, the lines after
/// the first indented by as many spaces as `prefix` shows characters. When
/// fewer than 20 columns are left beside the prefix, the text is not
/// wrapped.
pub open spec fn spec_wrap_line(prefix: Seq<char>, text: Seq<char>, width: int) -> Seq<char> {
    let pv = visible(prefix) as int;
    let avail = if width >= pv {
        width - pv
    } else {
        0
    };
    if avail < 20 {
        prefix + text
    } else {
        let ls = wrapped_lines(text, avail);
        let first = if ls.len() > 0 {
            ls[0]
        } else {
            seq![]
        };
        prefix + first + rest_lines(ls, spaces(pv as nat))
    }
}

fn spaces_exec(n: usize) -> (r: Vec<char>)
    ensures
        r@ == spaces(n as nat),
{
    let mut r: Vec<char> = Vec::new();
    while r.len() < n
        invariant
            r.len() <= n,
            forall|k: int| 0 <= k < r.len() ==> r@[k] == ' ',
        decreases n - r.len(),
    {
        r.push(' ');
    }
    assert(r@ =~= spaces(n as nat));
    r
}

pub proof fn lemma_strip_ansi_len(s: Seq<char>)
    ensures
        strip_ansi(s).len() <= s.len(),
    decreases s.len(),
{
    if s.len() > 0 {
        if esc_len(s) > 0 {
            lemma_esc_len_bounds(s);
            lemma_strip_ansi_len(s.skip(esc_len(s)));
        } else {
            lemma_strip_ansi_len(s.drop_first());
        }
    }
}

pub fn wrap_line(prefix: &str, text: &str, width: usize) -> (r: Result<String, DisplayError>)
    ensures
        r matches Ok(w) && w@ == spec_wrap_line(prefix@, text@, width as int),
{
    let pchars = chars_of(prefix);
    let pv = strip_ansi_chars(&pchars).len();
    let indent = spaces_exec(pv);
    let avail: usize = if width >= pv {
        width - pv
    } else {
        0
    };
    let tchars = chars_of(text);
    if avail < 20 {
        let mut out = pchars;
        extend_chars(&mut out, &tchars);
        return Ok(string_of(&out));
    }
    let words = split_chars(&tchars, ' ');
    let ghost ws = views_of(words@);
    let mut lines: Vec<Vec<char>> = Vec::new();
    let mut current: Vec<char> = Vec::new();
    let mut current_vis: usize = 0;
    let mut k: usize = 0;
    assert(ws.take(0) =~= Seq::<Seq<char>>::empty());
    assert(views_of(lines@) =~= Seq::<Seq<char>>::empty());
    while k < words.len()
        invariant
            k <= words.len(),
            ws == views_of(words@),
            ws == split_on(tchars@, ' '),
            wrap_state(ws.take(k as int), avail as int) == (WrapState {
                lines: views_of(lines@),
                current: current@,
                current_vis: current_vis as int,
            }),
        decreases words.len() - k,
    {
        let word = &words[k];
        let wlen = strip_ansi_chars(word).len();
        let ghost st = wrap_state(ws.take(k as int), avail as int);
        let ghost old_current = current@;
        proof {
            let t = ws.take(k + 1);
            assert(t.drop_last() =~= ws.take(k as int));
            assert(ws[k as int] == words@[k as int]@);
            assert(t.last() == word@);
            assert(wlen == visible(word@));
        }
        if current.len() == 0 {
            current = slice_chars(word, 0, word.len());
            assert(current@ =~= word@);
            current_vis = wlen;
        } else if current_vis > avail || wlen >= avail - current_vis {
            let ghost old_lines = lines@;
            lines.push(current);
            assert(views_of(lines@) =~= views_of(old_lines).push(lines@.last()@));
            current = slice_chars(word, 0, word.len());
            assert(current@ =~= word@);
            current_vis = wlen;
        } else {
            current.push(' ');
            extend_chars(&mut current, word);
            assert(current@ =~= old_current + seq![' '] + word@);
            current_vis = current_vis + 1 + wlen;
        }
        assert(wrap_state(ws.take(k + 1), avail as int) == (WrapState {
            lines: views_of(lines@),
            current: current@,
            current_vis: current_vis as int,
        }));
        k = k + 1;
    }
    assert(ws.take(words.len() as int) =~= ws);
    if current.len() > 0 {
        let ghost old_lines = lines@;
        lines.push(current);
        assert(views_of(lines@) =~= views_of(old_lines).push(lines@.last()@));
    }
    let ghost ls = views_of(lines@);
    assert(ls == wrapped_lines(text@, avail as int));
    let mut out = pchars;
    if lines.len() == 0 {
        assert(out@ =~= prefix@ + Seq::<char>::empty() + rest_lines(ls, indent@));
        return Ok(string_of(&out));
    }
    extend_chars(&mut out, &lines[0]);
    let mut m: usize = 1;
    assert(ls.take(1) =~= seq![ls[0]]);
    assert(out@ =~= prefix@ + ls[0] + rest_lines(ls.take(1), indent@));
    while m < lines.len()
        invariant
            1 <= m <= lines.len(),
            ls == views_of(lines@),
            out@ == prefix@ + ls[0] + rest_lines(ls.take(m as int), indent@),
        decreases lines.len() - m,
    {
        let ghost before = out@;
        out.push('\n');
        extend_chars(&mut out, &indent);
        extend_chars(&mut out, &lines[m]);
        proof {
            let t = ls.take(m + 1);
            assert(t.drop_last() =~= ls.take(m as int));
            assert(t.last() == lines@[m as int]@);
            assert(out@ =~= before + seq!['\n'] + indent@ + lines@[m as int]@);
        }
        m = m + 1;
    }
    assert(ls.take(m as int) =~= ls);
    Ok(string_of(&out))
}

pub open spec fn spec_display_message(e: DisplayError) -> Seq<char> {
    match e {
        DisplayError::VisibleLength(s) => "Failed to parse visible length: "@ + s@,
        DisplayError::Regex(s) => "Regex error: "@ + s@,
    }
}

impl DisplayError {
    /// The text the error is shown with.
    pub fn message(&self) -> (m: String)
        ensures
            m@ == spec_display_message(*self),
    {
        match self {
            DisplayError::VisibleLength(s) => {
                let mut m = "Failed to parse visible length: ".to_owned();
                m.append(s.as_str());
                m
            },
            DisplayError::Regex(s) => {
                let mut m = "Regex error: ".to_owned();
                m.append(s.as_str());
                m
            },
        }
    }
}

/// A character that can continue a style escape sequence begun before it.
pub open spec fn continues_escape(c: char) -> bool {
    c == '[' || is_esc_param(c) || c == 'm'
}

proof fn lemma_param_run_concat(x: Seq<char>, y: Seq<char>, i: int)
    requires
        0 <= i <= x.len(),
        y.len() == 0 || !is_esc_param(y[0]),
    ensures
        param_run_end(x + y, i) == param_run_end(x, i),
    decreases x.len() - i,
{
    if i < x.len() {
        assert((x + y)[i] == x[i]);
        lemma_param_run_concat(x, y, i + 1);
    } else if y.len() > 0 {
        assert((x + y)[i] == y[0]);
    }
}

/// Style escape sequences never reach across the end of `x` when `y`
/// starts with a character that cannot continue one.
pub proof fn lemma_strip_ansi_concat(x: Seq<char>, y: Seq<char>)
    requires
        y.len() == 0 || !continues_escape(y[0]),
    ensures
        strip_ansi(x + y) == strip_ansi(x) + strip_ansi(y),
    decreases x.len(),
{
    let s = x + y;
    if x.len() == 0 {
        assert(s =~= y);
        assert(strip_ansi(x) =~= Seq::<char>::empty());
        assert(strip_ansi(x) + strip_ansi(y) =~= strip_ansi(y));
    } else {
        if x.len() >= 2 {
            lemma_param_run_concat(x, y, 2);
            lemma_param_run_end(x, 2);
            assert(s[0] == x[0] && s[1] == x[1]);
            let k = param_run_end(x, 2);
            if k < x.len() {
                assert(s[k] == x[k]);
            } else if y.len() > 0 {
                assert(s[k] == y[0]);
            }
        } else if y.len() > 0 {
            assert(s[1] == y[0]);
        }
        assert(esc_len(s) == esc_len(x));
        lemma_esc_len_bounds(x);
        if esc_len(x) > 0 {
            let n = esc_len(x);
            assert(s.skip(n) =~= x.skip(n) + y);
            lemma_strip_ansi_concat(x.skip(n), y);
        } else {
            assert(s[0] == x[0]);
            assert(s.drop_first() =~= x.drop_first() + y);
            lemma_strip_ansi_concat(x.drop_first(), y);
            assert(strip_ansi(s) =~= seq![x[0]] + (strip_ansi(x.drop_first()) + strip_ansi(y)));
        }
    }
}

proof fn lemma_param_run_at(s: Seq<char>, i: int, j: int)
    requires
        0 <= i <= j < s.len(),
        forall|k: int| i <= k < j ==> is_esc_param(#[trigger] s[k]),
        !is_esc_param(s[j]),
    ensures
        param_run_end(s, i) == j,
    decreases j - i,
{
    if i < j {
        lemma_param_run_at(s, i + 1, j);
    }
}

/// An escape sequence in front of `y` shows nothing.
proof fn lemma_strip_escape(params: Seq<char>, y: Seq<char>)
    requires
        forall|k: int| 0 <= k < params.len() ==> is_esc_param(#[trigger] params[k]),
    ensures
        strip_ansi(seq!['\x1b', '['] + params + seq!['m'] + y) == strip_ansi(y),
{
    let e = seq!['\x1b', '['] + params + seq!['m'];
    let s = e + y;
    assert forall|k: int| 2 <= k < 2 + params.len() implies is_esc_param(#[trigger] s[k]) by {
        assert(s[k] == params[k - 2]);
    }
    assert(s[2 + params.len() as int] == 'm');
    lemma_param_run_at(s, 2, 2 + params.len() as int);
    assert(esc_len(s) == e.len());
    assert(s.skip(e.len() as int) =~= y);
}

/// Law: styling shows exactly the characters of the styled text, so
/// `visible_len` of a styled text is that of the text.
pub proof fn law_styling_is_invisible(t: Seq<char>)
    ensures
        strip_ansi(styled(danger_code(), t)) == strip_ansi(t),
        strip_ansi(styled(category_code(), t)) == strip_ansi(t),
        strip_ansi(styled(dim_code(), t)) == strip_ansi(t),
        strip_ansi(styled(header_code(), t)) == strip_ansi(t),
{
    let reset = reset_code();
    let tail = t + reset;
    lemma_strip_escape(seq!['0'], Seq::<char>::empty());
    assert(seq!['\x1b', '['] + seq!['0'] + seq!['m'] + Seq::<char>::empty() =~= reset);
    lemma_strip_ansi_concat(t, reset);
    assert(strip_ansi(tail) =~= strip_ansi(t));
    lemma_strip_escape(seq!['3', '1'], seq!['\x1b', '[', '1', 'm'] + tail);
    lemma_strip_escape(seq!['1'], tail);
    assert(seq!['\x1b', '['] + seq!['1'] + seq!['m'] + tail =~= seq!['\x1b', '[', '1', 'm'] + tail);
    assert(styled(danger_code(), t) =~= seq!['\x1b', '['] + seq!['3', '1'] + seq!['m'] + (seq![
        '\x1b',
        '[',
        '1',
        'm',
    ] + tail));
    lemma_strip_escape(seq!['3', '6'], tail);
    assert(styled(category_code(), t) =~= seq!['\x1b', '['] + seq!['3', '6'] + seq!['m'] + tail);
    lemma_strip_escape(seq!['2'], tail);
    assert(styled(dim_code(), t) =~= seq!['\x1b', '['] + seq!['2'] + seq!['m'] + tail);
    assert(styled(header_code(), t) =~= seq!['\x1b', '['] + seq!['1'] + seq!['m'] + tail);
}

/// A line fits when it shows at most `avail` characters; a line that does
/// not fit holds a single word.
pub open spec fn fits_or_single(line: Seq<char>, words: Seq<Seq<char>>, avail: int) -> bool {
    visible(line) <= avail || words.contains(line)
}

proof fn lemma_wrap_state(words: Seq<Seq<char>>, all: Seq<Seq<char>>, avail: int)
    requires
        0 <= avail,
        forall|k: int| 0 <= k < words.len() ==> all.contains(#[trigger] words[k]),
    ensures
        wrap_state(words, avail).current_vis == visible(wrap_state(words, avail).current),
        fits_or_single(wrap_state(words, avail).current, all, avail),
        forall|k: int|
            0 <= k < wrap_state(words, avail).lines.len() ==> fits_or_single(
                #[trigger] wrap_state(words, avail).lines[k],
                all,
                avail,
            ),
    decreases words.len(),
{
    if words.len() == 0 {
        assert(strip_ansi(Seq::<char>::empty()) =~= Seq::<char>::empty());
    } else {
        let prev = words.drop_last();
        assert forall|k: int| 0 <= k < prev.len() implies all.contains(#[trigger] prev[k]) by {
            assert(prev[k] == words[k]);
        }
        lemma_wrap_state(prev, all, avail);
        let st = wrap_state(prev, avail);
        let w = words.last();
        assert(all.contains(w));
        if st.current.len() != 0 && st.current_vis + 1 + visible(w) <= avail {
            let joined = st.current + seq![' '] + w;
            lemma_strip_ansi_concat(st.current, seq![' '] + w);
            assert(esc_len(seq![' '] + w) == 0);
            assert((seq![' '] + w).drop_first() =~= w);
            assert(joined =~= st.current + (seq![' '] + w));
        }
    }
}

/// Law: every line `wrap_line` fills shows at most as many characters as
/// are left beside the prefix, unless it holds one word that alone is
/// longer.
pub proof fn law_wrapped_lines_fit(text: Seq<char>, avail: int)
    requires
        0 <= avail,
    ensures
        forall|k: int|
            0 <= k < wrapped_lines(text, avail).len() ==> fits_or_single(
                #[trigger] wrapped_lines(text, avail)[k],
                split_on(text, ' '),
                avail,
            ),
{
    let words = split_on(text, ' ');
    assert forall|k: int| 0 <= k < words.len() implies words.contains(#[trigger] words[k]) by {}
    lemma_wrap_state(words, words, avail);
}

} // verus!
