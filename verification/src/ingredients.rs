//! The ingredient list of a meal: `Spaghetti (Rind, Ei), Pudding (Mi)` is
//! read as a sequence of tokens, each with the allergen codes in its
//! parentheses.

use vstd::prelude::*;
use crate::text::{
    chars_of, collapse_whitespace, comma_pred, collapse_ws, find_char, find_char_exec,
    lemma_find_char_bounds, slice_chars, split_chars, split_on,
    string_of, strings_view, trim_by, trim_chars, trim_ws, views_of, ws_run_start,
    ws_run_start_exec, TrimSet, eq_ignore_case, eq_ignore_case_exec, tidy, lemma_collapse_single_spaced,
    lemma_trim_single_spaced, lemma_trim_ws_tidy, lemma_collapse_unchanged, lemma_trim_unchanged,
};

verus! {

/// Errors of ingredient parsing. The grammar below is fixed, so no input
/// produces one; the type stays for callers that match on it.
#[derive(Debug)]
pub enum IngredientError {
    ParseError(String),
}

#[derive(Debug, Clone, PartialEq, Eq)]
pub struct IngredientToken {
    pub text: String,
    pub has_milk: bool,
    /// The allergen codes listed in the parentheses after the text.
    pub codes: Vec<String>,
}

pub struct TokenView {
    pub text: Seq<char>,
    pub has_milk: bool,
    pub codes: Seq<Seq<char>>,
}

impl View for IngredientToken {
    type V = TokenView;

    open spec fn view(&self) -> TokenView {
        TokenView { text: self.text@, has_milk: self.has_milk, codes: strings_view(self.codes@) }
    }
}

pub open spec fn token_views(ts: Seq<IngredientToken>) -> Seq<TokenView> {
    ts.map_values(|t: IngredientToken| t@)
}

/// The allergen code for milk.
pub open spec fn milk_code() -> Seq<char> {
    seq!['M', 'i']
}

pub open spec fn spec_contains_milk(codes: Seq<Seq<char>>) -> bool {
    codes.contains(milk_code())
}

pub fn contains_milk(codes: &[&str]) -> (b: bool)
    ensures
        b == spec_contains_milk(codes@.map_values(|c: &str| c@)),
{
    let ghost views = codes@.map_values(|c: &str| c@);
    let mut k: usize = 0;
    while k < codes.len()
        invariant
            k <= codes.len(),
            views == codes@.map_values(|c: &str| c@),
            forall|m: int| 0 <= m < k ==> views[m] != milk_code(),
        decreases codes.len() - k,
    {
        let v = chars_of(codes[k]);
        if v.len() == 2 && v[0] == 'M' && v[1] == 'i' {
            assert(views[k as int] =~= milk_code());
            return true;
        }
        assert(views[k as int] != milk_code());
        k = k + 1;
    }
    false
}

/// What `normalize_whitespace` makes of `s`: runs of whitespace become one
/// space, then whitespace, commas and whitespace again are trimmed off the
/// ends.
pub open spec fn spec_normalize(s: Seq<char>) -> Seq<char> {
    trim_ws(trim_by(trim_ws(collapse_ws(s)), comma_pred()))
}

pub fn normalize_chars(s: &Vec<char>) -> (r: Vec<char>)
    ensures
        r@ == spec_normalize(s@),
{
    let collapsed = collapse_whitespace(s);
    let a = trim_chars(&collapsed, TrimSet::Whitespace);
    let b = trim_chars(&a, TrimSet::Comma);
    trim_chars(&b, TrimSet::Whitespace)
}

pub fn normalize_whitespace(s: &str) -> (r: Result<String, IngredientError>)
    ensures
        r matches Ok(n) && n@ == spec_normalize(s@),
{
    let v = chars_of(s);
    let n = normalize_chars(&v);
    Ok(string_of(&n))
}

// The grammar of an ingredient list. At each position the reader takes the
// leftmost place where one of two forms starts, preferring the first:
//   * a coded item: text without line breaks, optional whitespace, then `(`
//     codes `)`; the text is as short as possible;
//   * a tail: the rest of the input, if it holds no line break.
// A coded item continues the reading after its `)`; a tail ends it.

pub open spec fn no_newline(s: Seq<char>, lo: int, hi: int) -> bool {
    forall|k: int| lo <= k < hi ==> s[k] != '\n'
}

/// Where the text of a coded item that starts at `i` ends.
pub open spec fn coded_text_end(s: Seq<char>, i: int) -> int {
    ws_run_start(s, i, find_char(s, '(', i))
}

pub open spec fn coded_at(s: Seq<char>, i: int) -> bool {
    let open = find_char(s, '(', i);
    &&& open < s.len()
    &&& find_char(s, ')', open + 1) < s.len()
    &&& no_newline(s, i, coded_text_end(s, i))
}

pub open spec fn tail_at(s: Seq<char>, i: int) -> bool {
    i < s.len() && no_newline(s, i, s.len() as int)
}

/// The leftmost position at or after `p` where an item starts, or `s.len()`.
pub open spec fn next_start(s: Seq<char>, p: int) -> int
    decreases s.len() - p,
{
    if p >= s.len() {
        s.len() as int
    } else if coded_at(s, p) || tail_at(s, p) {
        p
    } else {
        next_start(s, p + 1)
    }
}

pub proof fn lemma_next_start_bounds(s: Seq<char>, p: int)
    requires
        0 <= p <= s.len(),
    ensures
        p <= next_start(s, p) <= s.len(),
    decreases s.len() - p,
{
    if p < s.len() && !(coded_at(s, p) || tail_at(s, p)) {
        lemma_next_start_bounds(s, p + 1);
    }
}

/// One item of an ingredient list, before it is cleaned up.
pub enum Piece {
    Coded { text: Seq<char>, codes: Seq<char> },
    Tail { text: Seq<char> },
}

/// The items found from position `p` on.
pub open spec fn scan(s: Seq<char>, p: int) -> Seq<Piece>
    decreases s.len() - p,
{
    if p < 0 || p > s.len() {
        seq![]
    } else {
        let i = next_start(s, p);
        if i >= s.len() {
            seq![]
        } else if coded_at(s, i) {
            let open = find_char(s, '(', i);
            let close = find_char(s, ')', open + 1);
            proof {
                lemma_next_start_bounds(s, p);
                lemma_find_char_bounds(s, '(', i);
                lemma_find_char_bounds(s, ')', open + 1);
            }
            seq![Piece::Coded { text: s.subrange(i, coded_text_end(s, i)), codes: s.subrange(open + 1, close) }]
                + scan(s, close + 1)
        } else {
            seq![Piece::Tail { text: s.subrange(i, s.len() as int) }]
        }
    }
}

/// The allergen codes between parentheses: the comma-separated pieces,
/// trimmed, without the empty ones.
pub open spec fn clean_codes(pieces: Seq<Seq<char>>) -> Seq<Seq<char>>
    decreases pieces.len(),
{
    if pieces.len() == 0 {
        seq![]
    } else {
        let t = trim_ws(pieces.last());
        let last = if t.len() > 0 {
            seq![t]
        } else {
            seq![]
        };
        clean_codes(pieces.drop_last()) + last
    }
}

pub open spec fn codes_in(group: Seq<char>) -> Seq<Seq<char>> {
    clean_codes(split_on(group, ','))
}

/// The token an item gives, if its text is not blank.
pub open spec fn token_of(piece: Piece) -> Option<TokenView> {
    match piece {
        Piece::Coded { text, codes } => {
            let t = trim_ws(text);
            if t.len() > 0 {
                Some(
                    TokenView {
                        text: spec_normalize(t),
                        has_milk: spec_contains_milk(codes_in(codes)),
                        codes: codes_in(codes),
                    },
                )
            } else {
                None
            }
        },
        Piece::Tail { text } => {
            let t = trim_ws(text);
            if t.len() > 0 {
                Some(TokenView { text: spec_normalize(t), has_milk: false, codes: seq![] })
            } else {
                None
            }
        },
    }
}

pub open spec fn tokens_of(pieces: Seq<Piece>) -> Seq<TokenView>
    decreases pieces.len(),
{
    if pieces.len() == 0 {
        seq![]
    } else {
        let first = match token_of(pieces[0]) {
            Some(t) => seq![t],
            None => seq![],
        };
        first + tokens_of(pieces.drop_first())
    }
}

/// Where a parenthesised group, with the whitespace before it, starts at
/// `i`: its length, or 0 if none starts there.
pub open spec fn paren_group_len(s: Seq<char>, i: int) -> int {
    let k = crate::text::ws_run_end(s, i);
    if k < s.len() && s[k] == '(' && find_char(s, ')', k + 1) < s.len() {
        find_char(s, ')', k + 1) + 1 - i
    } else {
        0
    }
}

/// `s` from `i` on, without any parenthesised group or the whitespace
/// before one.
pub open spec fn strip_parens_from(s: Seq<char>, i: int) -> Seq<char>
    decreases s.len() - i,
{
    if i < 0 || i >= s.len() {
        seq![]
    } else if paren_group_len(s, i) > 0 {
        strip_parens_from(s, i + paren_group_len(s, i))
    } else {
        seq![s[i]] + strip_parens_from(s, i + 1)
    }
}

/// The tokens of an ingredient list. When the items give none but the list
/// is not blank, the whole list without its parenthesised groups becomes a
/// single token.
pub open spec fn spec_tokenize(raw: Seq<char>) -> Seq<TokenView> {
    let toks = tokens_of(scan(raw, 0));
    if toks.len() == 0 && trim_ws(raw).len() > 0 {
        seq![
            TokenView {
                text: spec_normalize(trim_ws(strip_parens_from(raw, 0))),
                has_milk: false,
                codes: seq![],
            },
        ]
    } else {
        toks
    }
}

fn no_newline_exec(s: &Vec<char>, lo: usize, hi: usize) -> (b: bool)
    requires
        lo <= hi <= s.len(),
    ensures
        b == no_newline(s@, lo as int, hi as int),
{
    let mut k = lo;
    while k < hi
        invariant
            lo <= k <= hi <= s.len(),
            no_newline(s@, lo as int, k as int),
        decreases hi - k,
    {
        if s[k] == '\n' {
            return false;
        }
        k = k + 1;
    }
    true
}

fn coded_at_exec(s: &Vec<char>, i: usize) -> (b: bool)
    requires
        i <= s.len(),
    ensures
        b == coded_at(s@, i as int),
{
    let open = find_char_exec(s, '(', i);
    if open >= s.len() {
        return false;
    }
    let close = find_char_exec(s, ')', open + 1);
    if close >= s.len() {
        return false;
    }
    let j = ws_run_start_exec(s, i, open);
    no_newline_exec(s, i, j)
}

fn tail_at_exec(s: &Vec<char>, i: usize) -> (b: bool)
    requires
        i <= s.len(),
    ensures
        b == tail_at(s@, i as int),
{
    i < s.len() && no_newline_exec(s, i, s.len())
}

fn next_start_exec(s: &Vec<char>, p: usize) -> (r: usize)
    requires
        p <= s.len(),
    ensures
        r == next_start(s@, p as int),
        p <= r <= s.len(),
{
    let mut k = p;
    while k < s.len() && !coded_at_exec(s, k) && !tail_at_exec(s, k)
        invariant
            p <= k <= s.len(),
            next_start(s@, p as int) == next_start(s@, k as int),
        decreases s.len() - k,
    {
        k = k + 1;
    }
    k
}

/// The cleaned allergen codes of the text between parentheses.
pub(crate) fn codes_of(group: &Vec<char>) -> (r: Vec<String>)
    ensures
        strings_view(r@) == codes_in(group@),
{
    let pieces = split_chars(group, ',');
    let mut r: Vec<String> = Vec::new();
    let mut k: usize = 0;
    while k < pieces.len()
        invariant
            k <= pieces.len(),
            views_of(pieces@) == split_on(group@, ','),
            strings_view(r@) == clean_codes(views_of(pieces@).take(k as int)),
        decreases pieces.len() - k,
    {
        let t = trim_chars(&pieces[k], TrimSet::Whitespace);
        let ghost before = r@;
        if t.len() > 0 {
            r.push(string_of(&t));
        }
        proof {
            let ps = views_of(pieces@).take(k + 1);
            assert(ps.drop_last() =~= views_of(pieces@).take(k as int));
            assert(ps.last() == pieces@[k as int]@);
            assert(strings_view(r@) =~= clean_codes(ps));
        }
        k = k + 1;
    }
    assert(views_of(pieces@).take(pieces.len() as int) =~= views_of(pieces@));
    r
}

fn coded_token(text: &Vec<char>, group: &Vec<char>) -> (t: IngredientToken)
    ensures
        t@ == (TokenView {
            text: spec_normalize(text@),
            has_milk: spec_contains_milk(codes_in(group@)),
            codes: codes_in(group@),
        }),
{
    let codes = codes_of(group);
    let mut refs: Vec<&str> = Vec::new();
    let mut k: usize = 0;
    while k < codes.len()
        invariant
            k <= codes.len(),
            refs@.map_values(|c: &str| c@) == strings_view(codes@).take(k as int),
        decreases codes.len() - k,
    {
        let c = codes[k].as_str();
        assert(c@ == strings_view(codes@)[k as int]);
        let ghost old_refs = refs@;
        refs.push(c);
        assert(refs@ == old_refs.push(c));
        assert(refs@.map_values(|c: &str| c@) =~= old_refs.map_values(|c: &str| c@).push(c@));
        k = k + 1;
        assert(strings_view(codes@).take(k as int) =~= strings_view(codes@).take(k - 1).push(c@));
    }
    assert(strings_view(codes@).take(codes.len() as int) =~= strings_view(codes@));
    let has_milk = contains_milk(refs.as_slice());
    let normalized = normalize_chars(text);
    IngredientToken { text: string_of(&normalized), has_milk, codes }
}

fn plain_token(text: &Vec<char>) -> (t: IngredientToken)
    ensures
        t@ == (TokenView { text: spec_normalize(text@), has_milk: false, codes: seq![] }),
{
    let normalized = normalize_chars(text);
    let codes: Vec<String> = Vec::new();
    let t = IngredientToken { text: string_of(&normalized), has_milk: false, codes };
    assert(t@.codes =~= Seq::<Seq<char>>::empty());
    t
}

fn strip_parens(s: &Vec<char>) -> (r: Vec<char>)
    ensures
        r@ == strip_parens_from(s@, 0),
{
    let mut r: Vec<char> = Vec::new();
    let mut i: usize = 0;
    while i < s.len()
        invariant
            i <= s.len(),
            r@ + strip_parens_from(s@, i as int) == strip_parens_from(s@, 0),
        decreases s.len() - i,
    {
        let k = crate::text::ws_run_end_exec(s, i);
        let mut skip_to: usize = 0;
        if k < s.len() && s[k] == '(' {
            let close = find_char_exec(s, ')', k + 1);
            if close < s.len() {
                skip_to = close + 1;
            }
        }
        if skip_to > 0 {
            assert(paren_group_len(s@, i as int) == skip_to - i);
            i = skip_to;
        } else {
            assert(paren_group_len(s@, i as int) == 0);
            r.push(s[i]);
            proof {
                assert(r@ + strip_parens_from(s@, i + 1) =~= r@.drop_last() + (seq![s@[i as int]]
                    + strip_parens_from(s@, i + 1)));
            }
            i = i + 1;
        }
    }
    assert(r@ + strip_parens_from(s@, i as int) =~= r@);
    r
}

pub fn tokenize_ingredients(raw: &str) -> (r: Result<Vec<IngredientToken>, IngredientError>)
    ensures
        r matches Ok(tokens) && token_views(tokens@) == spec_tokenize(raw@),
{
    let s = chars_of(raw);
    let mut tokens: Vec<IngredientToken> = Vec::new();
    let mut p: usize = 0;
    loop
        invariant_except_break
            p <= s.len(),
            token_views(tokens@) + tokens_of(scan(s@, p as int)) == tokens_of(scan(s@, 0)),
        ensures
            token_views(tokens@) == tokens_of(scan(s@, 0)),
        decreases s.len() - p,
    {
        let i = next_start_exec(&s, p);
        let ghost pieces = scan(s@, p as int);
        let ghost before = tokens@;
        if i >= s.len() {
            assert(pieces =~= Seq::<Piece>::empty());
            assert(token_views(tokens@) + tokens_of(pieces) =~= token_views(tokens@));
            break;
        }
        if coded_at_exec(&s, i) {
            let open = find_char_exec(&s, '(', i);
            let close = find_char_exec(&s, ')', open + 1);
            let j = ws_run_start_exec(&s, i, open);
            let group = slice_chars(&s, i, j);
            let text = trim_chars(&group, TrimSet::Whitespace);
            let ghost piece = Piece::Coded {
                text: s@.subrange(i as int, j as int),
                codes: s@.subrange(open + 1, close as int),
            };
            assert(pieces == seq![piece] + scan(s@, close + 1));
            assert(pieces.drop_first() =~= scan(s@, close + 1));
            if text.len() > 0 {
                let codes_src = slice_chars(&s, open + 1, close);
                let token = coded_token(&text, &codes_src);
                tokens.push(token);
                assert(token_views(tokens@) =~= token_views(before).push(token@));
            }
            assert(token_views(tokens@) + tokens_of(scan(s@, close + 1)) =~= token_views(before)
                + tokens_of(pieces));
            p = close + 1;
        } else {
            let group = slice_chars(&s, i, s.len());
            let text = trim_chars(&group, TrimSet::Whitespace);
            let ghost piece = Piece::Tail { text: s@.subrange(i as int, s.len() as int) };
            assert(pieces == seq![piece]);
            assert(pieces.drop_first() =~= Seq::<Piece>::empty());
            assert(tokens_of(pieces.drop_first()) =~= Seq::<TokenView>::empty());
            assert(pieces[0] == piece);
            if text.len() > 0 {
                let token = plain_token(&text);
                tokens.push(token);
                assert(token_views(tokens@) =~= token_views(before).push(token@));
            }
            assert(token_views(tokens@) =~= token_views(before) + tokens_of(pieces));
            break;
        }
    }
    if tokens.len() == 0 {
        let trimmed = trim_chars(&s, TrimSet::Whitespace);
        if trimmed.len() > 0 {
            let stripped = strip_parens(&s);
            let cleaned = trim_chars(&stripped, TrimSet::Whitespace);
            let token = plain_token(&cleaned);
            tokens.push(token);
            assert(token_views(tokens@) =~= seq![token@]);
        }
    }
    Ok(tokens)
}

/// Some code of `codes` equals some allergen, ignoring ASCII case.
pub open spec fn codes_match(codes: Seq<Seq<char>>, allergens: Seq<Seq<char>>) -> bool {
    exists|i: int, j: int|
        0 <= i < codes.len() && 0 <= j < allergens.len() && eq_ignore_case(
            #[trigger] codes[i],
            #[trigger] allergens[j],
        )
}

impl IngredientToken {
    /// Whether this ingredient carries one of the given allergen codes
    /// (compared ignoring ASCII case).
    pub fn has_any_code(&self, allergens: &[String]) -> (b: bool)
        ensures
            b == codes_match(self@.codes, strings_view(allergens@)),
    {
        let ghost cs = self@.codes;
        let ghost al = strings_view(allergens@);
        let mut i: usize = 0;
        while i < self.codes.len()
            invariant
                i <= self.codes.len(),
                cs == strings_view(self.codes@),
                al == strings_view(allergens@),
                forall|a: int, b: int|
                    0 <= a < i && 0 <= b < al.len() ==> !eq_ignore_case(
                        #[trigger] cs[a],
                        #[trigger] al[b],
                    ),
            decreases self.codes.len() - i,
        {
            let code = crate::text::chars_of(self.codes[i].as_str());
            let mut j: usize = 0;
            while j < allergens.len()
                invariant
                    i < self.codes.len(),
                    j <= allergens.len(),
                    cs == strings_view(self.codes@),
                    al == strings_view(allergens@),
                    code@ == cs[i as int],
                    forall|b: int| 0 <= b < j ==> !eq_ignore_case(cs[i as int], #[trigger] al[b]),
                decreases allergens.len() - j,
            {
                let a = crate::text::chars_of(allergens[j].as_str());
                assert(a@ == al[j as int]);
                if eq_ignore_case_exec(&code, &a) {
                    assert(eq_ignore_case(cs[i as int], al[j as int]));
                    return true;
                }
                j = j + 1;
            }
            i = i + 1;
        }
        false
    }
}

impl IngredientError {
    /// The text the error is shown with.
    pub fn message(&self) -> (m: String)
        ensures
            m@ == match self {
                IngredientError::ParseError(s) => "Regex error: "@ + s@,
            },
    {
        match self {
            IngredientError::ParseError(s) => {
                let mut m = "Regex error: ".to_owned();
                m.append(s.as_str());
                m
            },
        }
    }
}

/// Law: `normalize_whitespace` leaves no whitespace at either end, and
/// inside only single spaces.
pub proof fn law_normalized_text_is_tidy(s: Seq<char>)
    ensures
        tidy(spec_normalize(s)),
{
    let c = crate::text::collapse_ws(s);
    lemma_collapse_single_spaced(s);
    lemma_trim_single_spaced(c, crate::text::ws_pred());
    let a = trim_ws(c);
    lemma_trim_single_spaced(a, comma_pred());
    lemma_trim_ws_tidy(trim_by(a, comma_pred()));
}

/// Every token of `tokens_of(pieces)` has a normalized text, and a milk
/// flag only where its codes hold the milk code.
proof fn lemma_tokens_of(pieces: Seq<Piece>)
    ensures
        forall|k: int|
            0 <= k < tokens_of(pieces).len() ==> tidy(#[trigger] tokens_of(pieces)[k].text) && (
            tokens_of(pieces)[k].has_milk ==> tokens_of(pieces)[k].codes.contains(milk_code())),
    decreases pieces.len(),
{
    if pieces.len() > 0 {
        lemma_tokens_of(pieces.drop_first());
        let first = match token_of(pieces[0]) {
            Some(t) => seq![t],
            None => seq![],
        };
        let rest = tokens_of(pieces.drop_first());
        assert(tokens_of(pieces) == first + rest);
        match pieces[0] {
            Piece::Coded { text, codes } => {
                law_normalized_text_is_tidy(trim_ws(text));
            },
            Piece::Tail { text } => {
                law_normalized_text_is_tidy(trim_ws(text));
            },
        }
        assert forall|k: int| 0 <= k < tokens_of(pieces).len() implies tidy(
            #[trigger] tokens_of(pieces)[k].text,
        ) && (tokens_of(pieces)[k].has_milk ==> tokens_of(pieces)[k].codes.contains(milk_code())) by {
            if k >= first.len() {
                assert(tokens_of(pieces)[k] == rest[k - first.len()]);
            }
        }
    }
}

/// Law: every ingredient token's text is normalized (see
/// `law_normalized_text_is_tidy`), and a token is flagged as containing
/// milk only when its codes list the milk code.
pub proof fn law_tokens_are_tidy(raw: Seq<char>)
    ensures
        forall|k: int|
            0 <= k < spec_tokenize(raw).len() ==> tidy(#[trigger] spec_tokenize(raw)[k].text) && (
            spec_tokenize(raw)[k].has_milk ==> spec_tokenize(raw)[k].codes.contains(milk_code())),
{
    lemma_tokens_of(scan(raw, 0));
    law_normalized_text_is_tidy(trim_ws(strip_parens_from(raw, 0)));
}

/// Law: an ingredient list that is not blank gives at least one token.
pub proof fn law_nonblank_list_has_token(raw: Seq<char>)
    requires
        trim_ws(raw).len() > 0,
    ensures
        spec_tokenize(raw).len() > 0,
{
}

/// Law: a tidy text (see `law_normalized_text_is_tidy`) that neither
/// starts nor ends with a comma is left as it is by `normalize_whitespace`.
pub proof fn law_normalize_keeps_clean_text(t: Seq<char>)
    requires
        tidy(t),
        t.len() == 0 || (t[0] != ',' && t.last() != ','),
    ensures
        spec_normalize(t) == t,
{
    lemma_collapse_unchanged(t);
    lemma_trim_unchanged(t, crate::text::ws_pred());
    lemma_trim_unchanged(t, comma_pred());
}

/// The codes `clean_codes` keeps are trimmed and not blank.
proof fn lemma_clean_codes(pieces: Seq<Seq<char>>)
    ensures
        forall|k: int|
            0 <= k < clean_codes(pieces).len() ==> (#[trigger] clean_codes(pieces)[k]).len() > 0
                && trim_ws(clean_codes(pieces)[k]) == clean_codes(pieces)[k],
    decreases pieces.len(),
{
    if pieces.len() > 0 {
        lemma_clean_codes(pieces.drop_last());
        crate::text::lemma_trim_ws_idempotent(pieces.last());
        let prev = clean_codes(pieces.drop_last());
        assert forall|k: int| 0 <= k < clean_codes(pieces).len() implies (
        #[trigger] clean_codes(pieces)[k]).len() > 0 && trim_ws(clean_codes(pieces)[k])
            == clean_codes(pieces)[k] by {
            if k < prev.len() {
                assert(clean_codes(pieces)[k] == prev[k]);
            }
        }
    }
}

proof fn lemma_tokens_codes(pieces: Seq<Piece>)
    ensures
        forall|k: int, c: int|
            0 <= k < tokens_of(pieces).len() && 0 <= c < tokens_of(pieces)[k].codes.len() ==> (
            #[trigger] tokens_of(pieces)[k].codes[c]).len() > 0 && trim_ws(
                tokens_of(pieces)[k].codes[c],
            ) == tokens_of(pieces)[k].codes[c],
    decreases pieces.len(),
{
    if pieces.len() > 0 {
        lemma_tokens_codes(pieces.drop_first());
        let first = match token_of(pieces[0]) {
            Some(t) => seq![t],
            None => seq![],
        };
        let rest = tokens_of(pieces.drop_first());
        assert(tokens_of(pieces) == first + rest);
        match pieces[0] {
            Piece::Coded { text, codes } => {
                lemma_clean_codes(split_on(codes, ','));
            },
            Piece::Tail { text } => {},
        }
        assert forall|k: int, c: int|
            0 <= k < tokens_of(pieces).len() && 0 <= c < tokens_of(pieces)[k].codes.len() implies (
        #[trigger] tokens_of(pieces)[k].codes[c]).len() > 0 && trim_ws(
            tokens_of(pieces)[k].codes[c],
        ) == tokens_of(pieces)[k].codes[c] by {
            if k >= first.len() {
                assert(tokens_of(pieces)[k] == rest[k - first.len()]);
            }
        }
    }
}

/// Law: the allergen codes of every token are trimmed and not blank.
pub proof fn law_token_codes_are_clean(raw: Seq<char>)
    ensures
        forall|k: int, c: int|
            0 <= k < spec_tokenize(raw).len() && 0 <= c < spec_tokenize(raw)[k].codes.len() ==> (
            #[trigger] spec_tokenize(raw)[k].codes[c]).len() > 0 && trim_ws(
                spec_tokenize(raw)[k].codes[c],
            ) == spec_tokenize(raw)[k].codes[c],
{
    lemma_tokens_codes(scan(raw, 0));
}

} // verus!
