//! The menu as JSON for the Android app: either the meals, with allergen
//! and favorite flags, or an error, always as one JSON object.

use vstd::prelude::*;
use crate::ingredients::{codes_in, codes_match, codes_of, TokenView};
use crate::meal::{
    meal_views, menu_selector_error, page_meals, parse_menu, shown_meals, spec_has_any_allergen,
    spec_matches_favorites, spec_meal_error_message, spec_price_info, Meal, MealError, MealView,
};
use crate::text::{chars_of, extend_chars, join_chars, join_with, string_of, strings_view, views_of};

verus! {

#[derive(Debug)]
pub enum AndroidBridgeError {
    /// The menu could not be fetched; the text says why.
    Fetch(String),
    Parse(MealError),
    /// The response could not be encoded; the text is the encoder's.
    Encode(String),
}

pub open spec fn spec_bridge_error_message(e: AndroidBridgeError) -> Seq<char> {
    match e {
        AndroidBridgeError::Fetch(s) => "Failed to fetch menu: "@ + s@,
        AndroidBridgeError::Parse(m) => "Failed to parse menu: "@ + spec_meal_error_message(m),
        AndroidBridgeError::Encode(s) => "Failed to encode menu: "@ + s@,
    }
}

impl AndroidBridgeError {
    /// The text the error is shown with.
    pub fn message(&self) -> (m: String)
        ensures
            m@ == spec_bridge_error_message(*self),
    {
        match self {
            AndroidBridgeError::Fetch(s) => {
                let mut m = "Failed to fetch menu: ".to_owned();
                m.append(s.as_str());
                m
            },
            AndroidBridgeError::Parse(e) => {
                let mut m = "Failed to parse menu: ".to_owned();
                let inner = e.message();
                m.append(inner.as_str());
                m
            },
            AndroidBridgeError::Encode(s) => {
                let mut m = "Failed to encode menu: ".to_owned();
                m.append(s.as_str());
                m
            },
        }
    }
}

/// A hexadecimal digit in lower case.
pub open spec fn hex_digit(n: int) -> char {
    if n < 10 {
        (n + 48) as char
    } else {
        (n + 87) as char
    }
}

/// How a JSON string literal writes one character: `"` and `\` after a
/// backslash; backspace, form feed, line feed, carriage return and tab as
/// `\b`, `\f`, `\n`, `\r`, `\t`; the other characters below U+0020 as
/// `\u00` and two lower-case hexadecimal digits; every other character as
/// it is.
pub open spec fn json_escaped(c: char) -> Seq<char> {
    let n = c as int;
    if c == '"' {
        seq!['\\', '"']
    } else if c == '\\' {
        seq!['\\', '\\']
    } else if n == 8 {
        seq!['\\', 'b']
    } else if n == 12 {
        seq!['\\', 'f']
    } else if n == 10 {
        seq!['\\', 'n']
    } else if n == 13 {
        seq!['\\', 'r']
    } else if n == 9 {
        seq!['\\', 't']
    } else if n < 32 {
        seq!['\\', 'u', '0', '0', hex_digit(n / 16), hex_digit(n % 16)]
    } else {
        seq![c]
    }
}

pub open spec fn json_escaped_text(s: Seq<char>) -> Seq<char>
    decreases s.len(),
{
    if s.len() == 0 {
        seq![]
    } else {
        json_escaped_text(s.drop_last()) + json_escaped(s.last())
    }
}

/// The JSON string literal of a text: the escaped text between quotes.
pub open spec fn json_string_literal(s: Seq<char>) -> Seq<char> {
    seq!['"'] + json_escaped_text(s) + seq!['"']
}

#[verifier::external_type_specification]
#[verifier::external_body]
pub struct ExJsonError(serde_json::Error);

/// `serde_json::to_string` on a text: its JSON string literal. Writing a
/// string into the encoder's in-memory buffer does not fail.
#[verifier::external_body]
fn json_quote(s: &str) -> (r: Result<String, serde_json::Error>)
    ensures
        r is Ok,
        r matches Ok(q) ==> q@ == json_string_literal(s@),
{
    serde_json::to_string(s)
}

fn quoted(s: &str) -> (q: Vec<char>)
    ensures
        q@ == json_string_literal(s@),
{
    match json_quote(s) {
        Ok(q) => chars_of(q.as_str()),
        Err(_) => {
            assert(false);
            Vec::new()
        },
    }
}

pub open spec fn json_bool(b: bool) -> Seq<char> {
    if b {
        "true"@
    } else {
        "false"@
    }
}

fn json_bool_exec(b: bool) -> (r: Vec<char>)
    ensures
        r@ == json_bool(b),
{
    if b {
        chars_of("true")
    } else {
        chars_of("false")
    }
}

pub open spec fn item_json(t: TokenView, allergens: Seq<Seq<char>>) -> Seq<char> {
    "{\"text\":"@ + json_string_literal(t.text) + ",\"has_allergen\":"@ + json_bool(
        codes_match(t.codes, allergens),
    ) + "}"@
}

pub open spec fn meal_json(m: MealView, allergens: Seq<Seq<char>>, favorites: Seq<Seq<char>>) -> Seq<
    char,
> {
    "{\"name\":"@ + json_string_literal(m.name) + ",\"price\":"@ + json_string_literal(
        spec_price_info(m),
    ) + ",\"favorite\":"@ + json_bool(spec_matches_favorites(m, favorites))
        + ",\"has_allergen\":"@ + json_bool(spec_has_any_allergen(m, allergens)) + ",\"items\":["@
        + join_with(m.ingredients.map_values(|t: TokenView| item_json(t, allergens)), ","@) + "]}"@
}

/// The JSON object of a menu: `ok`, `date`, `lang` and the shown meals,
/// each with its name, price, favorite and allergen flags and its items.
pub open spec fn menu_json(
    meals: Seq<MealView>,
    date: Seq<char>,
    lang: Seq<char>,
    allergens: Seq<Seq<char>>,
    hide: bool,
    favorites: Seq<Seq<char>>,
) -> Seq<char> {
    "{\"ok\":true,\"date\":"@ + json_string_literal(date) + ",\"lang\":"@ + json_string_literal(lang)
        + ",\"meals\":["@ + join_with(
        shown_meals(meals, allergens, hide).map_values(
            |m: MealView| meal_json(m, allergens, favorites),
        ),
        ","@,
    ) + "]}"@
}

fn item_json_exec(t: &crate::ingredients::IngredientToken, allergens: &[String]) -> (j: Vec<char>)
    ensures
        j@ == item_json(t@, strings_view(allergens@)),
{
    let mut out = chars_of("{\"text\":");
    extend_chars(&mut out, &quoted(t.text.as_str()));
    extend_chars(&mut out, &chars_of(",\"has_allergen\":"));
    extend_chars(&mut out, &json_bool_exec(t.has_any_code(allergens)));
    extend_chars(&mut out, &chars_of("}"));
    out
}

fn meal_json_exec(m: &Meal, allergens: &[String], favorites: &[String]) -> (j: Vec<char>)
    ensures
        j@ == meal_json(m@, strings_view(allergens@), strings_view(favorites@)),
{
    let ghost al = strings_view(allergens@);
    let ghost want = m@.ingredients.map_values(|t: TokenView| item_json(t, al));
    let mut items: Vec<Vec<char>> = Vec::new();
    let mut k: usize = 0;
    while k < m.ingredients.len()
        invariant
            k <= m.ingredients.len(),
            al == strings_view(allergens@),
            want == m@.ingredients.map_values(|t: TokenView| item_json(t, al)),
            views_of(items@) == want.take(k as int),
        decreases m.ingredients.len() - k,
    {
        let j = item_json_exec(&m.ingredients[k], allergens);
        assert(m@.ingredients[k as int] == m.ingredients@[k as int]@);
        let ghost before = items@;
        items.push(j);
        assert(views_of(items@) =~= views_of(before).push(want[k as int]));
        assert(want.take(k + 1) =~= want.take(k as int).push(want[k as int]));
        k = k + 1;
    }
    assert(want.take(m.ingredients.len() as int) =~= want);
    let mut out = chars_of("{\"name\":");
    extend_chars(&mut out, &quoted(m.name.as_str()));
    extend_chars(&mut out, &chars_of(",\"price\":"));
    let price = m.price_info();
    extend_chars(&mut out, &quoted(price.as_str()));
    extend_chars(&mut out, &chars_of(",\"favorite\":"));
    extend_chars(&mut out, &json_bool_exec(m.matches_favorites(favorites)));
    extend_chars(&mut out, &chars_of(",\"has_allergen\":"));
    extend_chars(&mut out, &json_bool_exec(m.has_any_allergen(allergens)));
    extend_chars(&mut out, &chars_of(",\"items\":["));
    extend_chars(&mut out, &join_chars(&items, &chars_of(",")));
    extend_chars(&mut out, &chars_of("]}"));
    out
}

fn encode_meals(
    meals: &Vec<Meal>,
    date_str: &str,
    lang: &str,
    allergens: &[String],
    hide_allergens: bool,
    favorites: &[String],
) -> (j: String)
    ensures
        j@ == menu_json(
            meal_views(meals@),
            date_str@,
            lang@,
            strings_view(allergens@),
            hide_allergens,
            strings_view(favorites@),
        ),
{
    let ghost al = strings_view(allergens@);
    let ghost fv = strings_view(favorites@);
    let ghost mv = meal_views(meals@);
    let mut parts: Vec<Vec<char>> = Vec::new();
    let mut k: usize = 0;
    assert(mv.take(0) =~= Seq::<MealView>::empty());
    assert(views_of(parts@) =~= Seq::<Seq<char>>::empty());
    while k < meals.len()
        invariant
            k <= meals.len(),
            al == strings_view(allergens@),
            fv == strings_view(favorites@),
            mv == meal_views(meals@),
            views_of(parts@) == shown_meals(mv.take(k as int), al, hide_allergens).map_values(
                |m: MealView| meal_json(m, al, fv),
            ),
        decreases meals.len() - k,
    {
        let meal = &meals[k];
        let ghost prefix = mv.take(k + 1);
        assert(prefix.drop_last() =~= mv.take(k as int));
        assert(prefix.last() == meal@);
        if !hide_allergens || !meal.has_any_allergen(allergens) {
            let j = meal_json_exec(meal, allergens, favorites);
            let ghost before = parts@;
            parts.push(j);
            assert(views_of(parts@) =~= views_of(before).push(j@));
            assert(views_of(parts@) =~= shown_meals(prefix, al, hide_allergens).map_values(
                |m: MealView| meal_json(m, al, fv),
            ));
        }
        k = k + 1;
    }
    assert(mv.take(meals.len() as int) =~= mv);
    let mut out = chars_of("{\"ok\":true,\"date\":");
    extend_chars(&mut out, &quoted(date_str));
    extend_chars(&mut out, &chars_of(",\"lang\":"));
    extend_chars(&mut out, &quoted(lang));
    extend_chars(&mut out, &chars_of(",\"meals\":["));
    extend_chars(&mut out, &join_chars(&parts, &chars_of(",")));
    extend_chars(&mut out, &chars_of("]}"));
    string_of(&out)
}

/// The menu JSON of a menu page: `menu_json` of the page's meals, or a
/// `Parse` error exactly when the menu reader fails, which happens only
/// when one of its selectors does not compile.
pub fn menu_json_from_html(
    html: &str,
    date_str: &str,
    lang: &str,
    allergens: &[String],
    hide_allergens: bool,
    favorites: &[String],
) -> (r: Result<String, AndroidBridgeError>)
    ensures
        r is Err == menu_selector_error() is Some,
        r matches Err(e) ==> e is Parse && e->Parse_0 is Selector && menu_selector_error() == Some(
            e->Parse_0->Selector_0@,
        ),
        r matches Ok(j) ==> j@ == menu_json(
            page_meals(html@),
            date_str@,
            lang@,
            strings_view(allergens@),
            hide_allergens,
            strings_view(favorites@),
        ),
{
    let meals = match parse_menu(html) {
        Ok(m) => m,
        Err(e) => {
            return Err(AndroidBridgeError::Parse(e));
        },
    };
    Ok(encode_meals(&meals, date_str, lang, allergens, hide_allergens, favorites))
}

/// The JSON object of an error: `ok` false, the date, the language, the
/// message and no meals.
pub open spec fn error_object(date: Seq<char>, lang: Seq<char>, error: Seq<char>) -> Seq<char> {
    "{\"ok\":false,\"date\":"@ + json_string_literal(date) + ",\"lang\":"@ + json_string_literal(lang)
        + ",\"error\":"@ + json_string_literal(error) + ",\"meals\":[]}"@
}

fn error_json(date_str: &str, lang: &str, error: &str) -> (r: String)
    ensures
        r@ == error_object(date_str@, lang@, error@),
{
    let mut out = chars_of("{\"ok\":false,\"date\":");
    extend_chars(&mut out, &quoted(date_str));
    extend_chars(&mut out, &chars_of(",\"lang\":"));
    extend_chars(&mut out, &quoted(lang));
    extend_chars(&mut out, &chars_of(",\"error\":"));
    extend_chars(&mut out, &quoted(error));
    extend_chars(&mut out, &chars_of(",\"meals\":[]}"));
    string_of(&out)
}

/// The comma-separated values of `raw`, trimmed, without the blank ones.
pub fn split_csv(raw: &str) -> (r: Vec<String>)
    ensures
        strings_view(r@) == codes_in(raw@),
{
    codes_of(&chars_of(raw))
}

/// What the Android app is answered for a fetched page: the menu JSON of
/// its meals, or, when the menu reader fails, the error object with the
/// reader's message.
pub open spec fn page_answer(
    html: Seq<char>,
    date: Seq<char>,
    lang: Seq<char>,
    allergens: Seq<Seq<char>>,
    hide: bool,
    favorites: Seq<Seq<char>>,
) -> Seq<char> {
    match menu_selector_error() {
        Some(m) => error_object(
            date,
            lang,
            "Failed to parse menu: "@ + ("Failed to build HTML selector: "@ + m),
        ),
        None => menu_json(page_meals(html), date, lang, allergens, hide, favorites),
    }
}

/// What a menu request for the Android app answers once the page has been
/// fetched (`Ok` with its HTML) or not (`Err` with the fetch error's text):
/// the menu JSON of the page, or an error object.
pub fn menu_json_for_fetch(
    fetched: Result<String, String>,
    date_str: &str,
    lang: &str,
    allergens_csv: &str,
    hide_allergens: bool,
    favorites_csv: &str,
) -> (json: String)
    ensures
        fetched matches Err(msg) ==> json@ == error_object(date_str@, lang@, msg@),
        fetched matches Ok(html) ==> json@ == page_answer(
            html@,
            date_str@,
            lang@,
            codes_in(allergens_csv@),
            hide_allergens,
            codes_in(favorites_csv@),
        ),
{
    let allergens = split_csv(allergens_csv);
    let favorites = split_csv(favorites_csv);
    match fetched {
        Ok(html) => {
            match menu_json_from_html(
                html.as_str(),
                date_str,
                lang,
                allergens.as_slice(),
                hide_allergens,
                favorites.as_slice(),
            ) {
                Ok(json) => json,
                Err(error) => {
                    let msg = error.message();
                    error_json(date_str, lang, msg.as_str())
                },
            }
        },
        Err(msg) => error_json(date_str, lang, msg.as_str()),
    }
}

/// A JSON object's outer shape: it opens with `{` and closes with `}`.
pub open spec fn braced(s: Seq<char>) -> bool {
    s.len() >= 2 && s[0] == '{' && s.last() == '}'
}

proof fn lemma_braced(open: Seq<char>, middle: Seq<char>, close: Seq<char>)
    requires
        open.len() > 0,
        open[0] == '{',
        close.len() > 0,
        close.last() == '}',
    ensures
        braced(open + middle + close),
{
    let s = open + middle + close;
    assert(s[0] == open[0]);
    assert(s.last() == close.last());
}

/// Law: whatever the fetch and the page gave, the answer for the Android
/// app is one JSON object, a menu with `ok` true or an error with `ok`
/// false.
pub proof fn law_answer_is_one_object(
    meals: Seq<MealView>,
    date: Seq<char>,
    lang: Seq<char>,
    error: Seq<char>,
    allergens: Seq<Seq<char>>,
    hide: bool,
    favorites: Seq<Seq<char>>,
)
    ensures
        braced(menu_json(meals, date, lang, allergens, hide, favorites)),
        menu_json(meals, date, lang, allergens, hide, favorites).take(10) == "{\"ok\":true"@,
        braced(error_object(date, lang, error)),
        error_object(date, lang, error).take(11) == "{\"ok\":false"@,
{
    reveal_strlit("{\"ok\":true,\"date\":");
    reveal_strlit("{\"ok\":false,\"date\":");
    reveal_strlit("]}");
    reveal_strlit(",\"meals\":[]}");
    reveal_strlit("{\"ok\":true");
    reveal_strlit("{\"ok\":false");
    let m = menu_json(meals, date, lang, allergens, hide, favorites);
    let head = "{\"ok\":true,\"date\":"@;
    lemma_braced(head, m.subrange(head.len() as int, m.len() - 2), "]}"@);
    assert(m =~= head + m.subrange(head.len() as int, m.len() - 2) + "]}"@);
    assert(m.take(10) =~= "{\"ok\":true"@);
    let e = error_object(date, lang, error);
    let ehead = "{\"ok\":false,\"date\":"@;
    let etail = ",\"meals\":[]}"@;
    assert(e =~= ehead + e.subrange(ehead.len() as int, e.len() - etail.len()) + etail);
    lemma_braced(ehead, e.subrange(ehead.len() as int, e.len() - etail.len()), etail);
    assert(e.take(11) =~= "{\"ok\":false"@);
}

} // verus!
