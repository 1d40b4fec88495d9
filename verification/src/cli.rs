//! The terminal program's decisions: how command-line options change the
//! preferences, and how a day's menu is laid out.

use vstd::prelude::*;
use crate::display::{spaces, spec_wrap_line, wrap_line, DisplayError};
use crate::meal::{
    meal_views, portion_unit, pro_word, spec_has_any_allergen, spec_matches_favorites,
    spec_price_info, spec_render_items, Meal, MealView,
};
use crate::preferences::{spec_push_unique, Preferences, PreferencesView};
use crate::style::{
    category_code, dim_code, header_code, reset_code, style_category, style_dim, style_header,
    styled,
};
use crate::text::{
    chars_of, chars_equal, contains_text, extend_chars, join_chars, join_with, occurs_at,
    remove_all, split_on, string_of, strings_view, trim_ws, views_of,
};

verus! {

/// `values` after each comma-separated piece of `raw` has been added as
/// `push_unique` adds a value.
pub open spec fn spec_add_csv(values: Seq<Seq<char>>, pieces: Seq<Seq<char>>) -> Seq<Seq<char>>
    decreases pieces.len(),
{
    if pieces.len() == 0 {
        values
    } else {
        spec_push_unique(spec_add_csv(values, pieces.drop_last()), pieces.last())
    }
}

pub fn add_csv(values: &mut Vec<String>, raw: &str)
    ensures
        strings_view(final(values)@) == spec_add_csv(strings_view(old(values)@), split_on(raw@, ',')),
{
    let pieces = crate::text::split_chars(&chars_of(raw), ',');
    let ghost ps = views_of(pieces@);
    let ghost start = strings_view(values@);
    let mut k: usize = 0;
    assert(ps.take(0) =~= Seq::<Seq<char>>::empty());
    while k < pieces.len()
        invariant
            k <= pieces.len(),
            ps == views_of(pieces@),
            ps == split_on(raw@, ','),
            strings_view(values@) == spec_add_csv(start, ps.take(k as int)),
        decreases pieces.len() - k,
    {
        let piece = string_of(&pieces[k]);
        crate::preferences::push_unique(values, piece.as_str());
        proof {
            let t = ps.take(k + 1);
            assert(t.drop_last() =~= ps.take(k as int));
            assert(t.last() == pieces@[k as int]@);
        }
        k = k + 1;
    }
    assert(ps.take(pieces.len() as int) =~= ps);
}

/// A meal is hidden when allergen hiding is on and it carries one of the
/// allergen codes.
pub open spec fn spec_should_hide(m: MealView, p: PreferencesView) -> bool {
    p.hide_allergens && spec_has_any_allergen(m, p.allergens)
}

pub fn should_hide(meal: &Meal, preferences: &Preferences) -> (b: bool)
    ensures
        b == spec_should_hide(meal@, preferences@),
{
    preferences.hide_allergens && meal.has_any_allergen(preferences.allergens.as_slice())
}

pub open spec fn digit_char(d: nat) -> char {
    ((d + 48) as u32) as char
}

/// The decimal digits of `n`.
pub open spec fn decimal(n: nat) -> Seq<char>
    decreases n,
{
    if n < 10 {
        seq![digit_char(n)]
    } else {
        decimal(n / 10).push(digit_char(n % 10))
    }
}

fn digit_exec(d: usize) -> (c: char)
    requires
        d < 10,
    ensures
        c == digit_char(d as nat),
{
    let b: u8 = d as u8;
    (b + 48) as char
}

fn decimal_digits(n: usize) -> (v: Vec<char>)
    ensures
        v@ == decimal(n as nat),
    decreases n,
{
    if n < 10 {
        let mut v: Vec<char> = Vec::new();
        v.push(digit_exec(n));
        assert(v@ =~= seq![digit_char(n as nat)]);
        v
    } else {
        let mut v = decimal_digits(n / 10);
        v.push(digit_exec(n % 10));
        v
    }
}

/// Two decimal digits, with a leading zero below 10.
pub open spec fn two_digits(n: nat) -> Seq<char> {
    seq![digit_char(n / 10), digit_char(n % 10)]
}

pub open spec fn day_name(weekday: int, english: bool) -> Seq<char> {
    if english {
        if weekday == 0 {
            "Monday"@
        } else if weekday == 1 {
            "Tuesday"@
        } else if weekday == 2 {
            "Wednesday"@
        } else if weekday == 3 {
            "Thursday"@
        } else if weekday == 4 {
            "Friday"@
        } else if weekday == 5 {
            "Saturday"@
        } else {
            "Sunday"@
        }
    } else {
        if weekday == 0 {
            "Montag"@
        } else if weekday == 1 {
            "Dienstag"@
        } else if weekday == 2 {
            "Mittwoch"@
        } else if weekday == 3 {
            "Donnerstag"@
        } else if weekday == 4 {
            "Freitag"@
        } else if weekday == 5 {
            "Samstag"@
        } else {
            "Sonntag"@
        }
    }
}

/// The heading of a day: the weekday name, then `MM/DD` in English or
/// `DD.MM.` in German. `weekday` counts from Monday as 0.
pub open spec fn spec_weekday_label(weekday: int, month: nat, day: nat, lang: Seq<char>) -> Seq<char> {
    if lang == "en"@ {
        day_name(weekday, true) + seq![' '] + two_digits(month) + seq!['/'] + two_digits(day)
    } else {
        day_name(weekday, false) + seq![' '] + two_digits(day) + seq!['.'] + two_digits(month)
            + seq!['.']
    }
}

pub(crate) fn day_name_exec(weekday: usize, english: bool) -> (s: &'static str)
    requires
        weekday < 7,
    ensures
        s@ == day_name(weekday as int, english),
{
    if english {
        if weekday == 0 {
            "Monday"
        } else if weekday == 1 {
            "Tuesday"
        } else if weekday == 2 {
            "Wednesday"
        } else if weekday == 3 {
            "Thursday"
        } else if weekday == 4 {
            "Friday"
        } else if weekday == 5 {
            "Saturday"
        } else {
            "Sunday"
        }
    } else {
        if weekday == 0 {
            "Montag"
        } else if weekday == 1 {
            "Dienstag"
        } else if weekday == 2 {
            "Mittwoch"
        } else if weekday == 3 {
            "Donnerstag"
        } else if weekday == 4 {
            "Freitag"
        } else if weekday == 5 {
            "Samstag"
        } else {
            "Sonntag"
        }
    }
}

fn two_digits_exec(n: u32) -> (v: Vec<char>)
    requires
        n < 100,
    ensures
        v@ == two_digits(n as nat),
{
    let mut v: Vec<char> = Vec::new();
    v.push(digit_exec((n / 10) as usize));
    v.push(digit_exec((n % 10) as usize));
    assert(v@ =~= two_digits(n as nat));
    v
}

pub fn weekday_label(weekday: usize, month: u32, day: u32, lang: &str) -> (s: String)
    requires
        weekday < 7,
        1 <= month <= 12,
        1 <= day <= 31,
    ensures
        s@ == spec_weekday_label(weekday as int, month as nat, day as nat, lang@),
{
    let english = chars_equal(&chars_of(lang), &chars_of("en"));
    let mut out = chars_of(day_name_exec(weekday, english));
    out.push(' ');
    if english {
        extend_chars(&mut out, &two_digits_exec(month));
        out.push('/');
        extend_chars(&mut out, &two_digits_exec(day));
    } else {
        extend_chars(&mut out, &two_digits_exec(day));
        out.push('.');
        extend_chars(&mut out, &two_digits_exec(month));
        out.push('.');
    }
    string_of(&out)
}

/// The width of the name column.
pub open spec fn column_width() -> nat {
    16
}

pub open spec fn dots(n: nat) -> Seq<char> {
    Seq::new(n, |i: int| '.')
}

/// The name column: the name, marked with `* ` for a favorite, padded with
/// dots to the column width.
pub open spec fn name_column(m: MealView, favorite: bool) -> Seq<char> {
    let name = if favorite {
        "* "@ + m.name
    } else {
        m.name
    };
    let pad = if name.len() < column_width() {
        dots((column_width() - name.len()) as nat)
    } else {
        seq![]
    };
    name + pad
}

/// The two lines of a meal: the name column followed by the wrapped item
/// list, then the price under it, marked for a favorite.
pub open spec fn meal_lines(m: MealView, p: PreferencesView, width: int) -> Seq<Seq<char>> {
    let favorite = spec_matches_favorites(m, p.favorites);
    let prefix = "  "@ + styled(category_code(), name_column(m, favorite)) + " "@;
    let label = if favorite {
        " FAVORITE"@
    } else {
        seq![]
    };
    seq![
        spec_wrap_line(prefix, spec_render_items(m, p.allergens), width),
        "  "@ + spaces(column_width()) + " "@ + styled(dim_code(), spec_price_info(m)) + label,
    ]
}

fn repeat_char(c: char, n: usize) -> (v: Vec<char>)
    ensures
        v@ == Seq::new(n as nat, |i: int| c),
{
    let mut v: Vec<char> = Vec::new();
    while v.len() < n
        invariant
            v.len() <= n,
            forall|k: int| 0 <= k < v.len() ==> v@[k] == c,
        decreases n - v.len(),
    {
        v.push(c);
    }
    assert(v@ =~= Seq::new(n as nat, |i: int| c));
    v
}

pub fn push_meal_lines(
    lines: &mut Vec<String>,
    meal: &Meal,
    preferences: &Preferences,
    width: usize,
) -> (r: Result<(), DisplayError>)
    ensures
        r is Ok,
        strings_view(final(lines)@) == strings_view(old(lines)@) + meal_lines(
            meal@,
            preferences@,
            width as int,
        ),
{
    let favorite = meal.matches_favorites(preferences.favorites.as_slice());
    let mut name = if favorite {
        chars_of("* ")
    } else {
        Vec::new()
    };
    extend_chars(&mut name, &chars_of(meal.name.as_str()));
    let name_chars = name.len();
    if name_chars < 16 {
        extend_chars(&mut name, &repeat_char('.', 16 - name_chars));
    }
    proof {
        assert(name@ =~= name_column(meal@, favorite));
    }
    let items = meal.render_items_with_allergens(preferences.allergens.as_slice());
    let name_col = string_of(&name);
    let mut prefix = chars_of("  ");
    extend_chars(&mut prefix, &chars_of(style_category(name_col.as_str()).as_str()));
    extend_chars(&mut prefix, &chars_of(" "));
    let prefix = string_of(&prefix);
    let first = wrap_line(prefix.as_str(), items.as_str(), width)?;
    let ghost before = lines@;
    lines.push(first);
    let mut second = chars_of("  ");
    extend_chars(&mut second, &repeat_char(' ', 16));
    extend_chars(&mut second, &chars_of(" "));
    let price = style_dim(meal.price_info().as_str());
    extend_chars(&mut second, &chars_of(price.as_str()));
    if favorite {
        extend_chars(&mut second, &chars_of(" FAVORITE"));
    }
    proof {
        assert(Seq::new(16 as nat, |i: int| ' ') =~= spaces(column_width()));
    }
    lines.push(string_of(&second));
    proof {
        let want = meal_lines(meal@, preferences@, width as int);
        assert(strings_view(lines@) =~= strings_view(before) + want);
    }
    Ok(())
}

/// The meals that are not hidden, as line pairs, in order.
pub open spec fn section_body(meals: Seq<MealView>, p: PreferencesView, width: int) -> Seq<Seq<char>>
    decreases meals.len(),
{
    if meals.len() == 0 {
        seq![]
    } else {
        let rest = section_body(meals.drop_last(), p, width);
        if spec_should_hide(meals.last(), p) {
            rest
        } else {
            rest + meal_lines(meals.last(), p, width)
        }
    }
}

/// How many of the meals are hidden.
pub open spec fn hidden_count(meals: Seq<MealView>, p: PreferencesView) -> nat
    decreases meals.len(),
{
    if meals.len() == 0 {
        0
    } else {
        hidden_count(meals.drop_last(), p) + if spec_should_hide(meals.last(), p) {
            1nat
        } else {
            0nat
        }
    }
}

pub open spec fn no_meals_message(lang: Seq<char>) -> Seq<char> {
    if lang == "en"@ {
        "Mensa am Schloss: no meals for this date"@
    } else {
        "Mensa am Schloss: keine Gerichte fuer dieses Datum"@
    }
}

/// A day's section: a heading with the weekday, the lines of every meal
/// that is not hidden, a note when none is shown and a note of how many are
/// hidden, one per line.
pub open spec fn spec_render_output(
    meals: Seq<MealView>,
    weekday: Seq<char>,
    p: PreferencesView,
    width: int,
) -> Seq<char> {
    let header = styled(header_code(), "\u{1F37D}  Mensa am Schloss \u{2014} "@ + weekday);
    let hidden = hidden_count(meals, p);
    let shown = meals.len() - hidden;
    let empty_note = if shown == 0 {
        seq![styled(dim_code(), no_meals_message(p.language))]
    } else {
        seq![]
    };
    let hidden_note = if hidden > 0 {
        seq![styled(dim_code(), decimal(hidden) + " hidden by allergen filter"@)]
    } else {
        seq![]
    };
    join_with(seq![header] + section_body(meals, p, width) + empty_note + hidden_note, "\n"@)
}

pub proof fn lemma_hidden_count_bound(meals: Seq<MealView>, p: PreferencesView)
    ensures
        hidden_count(meals, p) <= meals.len(),
    decreases meals.len(),
{
    if meals.len() > 0 {
        lemma_hidden_count_bound(meals.drop_last(), p);
    }
}

/// The section of one day. `weekday_label` is its heading's text.
pub fn render_output(
    meals: &Vec<Meal>,
    weekday_label: &str,
    preferences: &Preferences,
    width: usize,
) -> (r: Result<String, DisplayError>)
    ensures
        r matches Ok(s) && s@ == spec_render_output(
            meal_views(meals@),
            weekday_label@,
            preferences@,
            width as int,
        ),
{
    let ghost mv = meal_views(meals@);
    let mut heading = "\u{1F37D}  Mensa am Schloss \u{2014} ".to_owned();
    heading.append(weekday_label);
    let mut lines: Vec<String> = Vec::new();
    lines.push(style_header(heading.as_str()));
    let ghost header = lines@[0]@;
    let mut hidden: usize = 0;
    let mut visible: usize = 0;
    let mut k: usize = 0;
    assert(mv.take(0) =~= Seq::<MealView>::empty());
    assert(strings_view(lines@) =~= seq![header]);
    while k < meals.len()
        invariant
            k <= meals.len(),
            mv == meal_views(meals@),
            hidden == hidden_count(mv.take(k as int), preferences@),
            hidden + visible == k,
            strings_view(lines@) == seq![header] + section_body(
                mv.take(k as int),
                preferences@,
                width as int,
            ),
        decreases meals.len() - k,
    {
        let meal = &meals[k];
        proof {
            let t = mv.take(k + 1);
            assert(t.drop_last() =~= mv.take(k as int));
            assert(t.last() == meal@);
        }
        if should_hide(meal, preferences) {
            hidden = hidden + 1;
        } else {
            visible = visible + 1;
            let ghost before = strings_view(lines@);
            let _ = push_meal_lines(&mut lines, meal, preferences, width);
            assert(strings_view(lines@) =~= seq![header] + section_body(
                mv.take(k + 1),
                preferences@,
                width as int,
            ));
        }
        k = k + 1;
    }
    assert(mv.take(meals.len() as int) =~= mv);
    let ghost body_lines = strings_view(lines@);
    if visible == 0 {
        let msg = if chars_equal(&chars_of(preferences.language.as_str()), &chars_of("en")) {
            "Mensa am Schloss: no meals for this date"
        } else {
            "Mensa am Schloss: keine Gerichte fuer dieses Datum"
        };
        lines.push(style_dim(msg));
    }
    let ghost with_empty = strings_view(lines@);
    if hidden > 0 {
        let mut note = decimal_digits(hidden);
        extend_chars(&mut note, &chars_of(" hidden by allergen filter"));
        let note = string_of(&note);
        lines.push(style_dim(note.as_str()));
    }
    let mut parts: Vec<Vec<char>> = Vec::new();
    let mut m: usize = 0;
    while m < lines.len()
        invariant
            m <= lines.len(),
            views_of(parts@) == strings_view(lines@).take(m as int),
        decreases lines.len() - m,
    {
        let ghost before = parts@;
        parts.push(chars_of(lines[m].as_str()));
        assert(views_of(parts@) =~= views_of(before).push(lines@[m as int]@));
        assert(strings_view(lines@).take(m + 1) =~= strings_view(lines@).take(m as int).push(
            lines@[m as int]@,
        ));
        m = m + 1;
    }
    assert(strings_view(lines@).take(lines.len() as int) =~= strings_view(lines@));
    proof {
        let hid = hidden_count(mv, preferences@);
        lemma_hidden_count_bound(mv, preferences@);
        let empty_note = if mv.len() - hid == 0 {
            seq![styled(dim_code(), no_meals_message(preferences@.language))]
        } else {
            seq![]
        };
        let hidden_note = if hid > 0 {
            seq![styled(dim_code(), decimal(hid) + " hidden by allergen filter"@)]
        } else {
            seq![]
        };
        assert(strings_view(lines@) =~= seq![header] + section_body(mv, preferences@, width as int)
            + empty_note + hidden_note);
    }
    Ok(string_of(&join_chars(&parts, &chars_of("\n"))))
}

/// One day, or Monday to Friday of its week.
#[derive(Clone, Copy, Debug, PartialEq, Eq, Structural)]
pub enum ViewMode {
    Day,
    Week,
}

/// What the caller still has to do after an option has been applied.
#[derive(Debug)]
pub enum ArgAction {
    Continue,
    /// Warn that the language is not supported; the preferences keep theirs.
    UnknownLanguage(String),
    /// Show the day this text names.
    SetDate(String),
    /// Show the day after the one chosen so far.
    Tomorrow,
    /// Print the usage text and stop.
    Help,
    /// Warn that the option is not known.
    UnknownArgument(String),
}

pub enum ArgActionView {
    Continue,
    UnknownLanguage(Seq<char>),
    SetDate(Seq<char>),
    Tomorrow,
    Help,
    UnknownArgument(Seq<char>),
}

impl View for ArgAction {
    type V = ArgActionView;

    open spec fn view(&self) -> ArgActionView {
        match self {
            ArgAction::Continue => ArgActionView::Continue,
            ArgAction::UnknownLanguage(l) => ArgActionView::UnknownLanguage(l@),
            ArgAction::SetDate(d) => ArgActionView::SetDate(d@),
            ArgAction::Tomorrow => ArgActionView::Tomorrow,
            ArgAction::Help => ArgActionView::Help,
            ArgAction::UnknownArgument(a) => ArgActionView::UnknownArgument(a@),
        }
    }
}

/// The options that read the next argument as their value.
pub open spec fn spec_takes_value(flag: Seq<char>) -> bool {
    flag == "--lang"@ || flag == "--date"@ || flag == "--allergen"@ || flag == "--allergens"@
        || flag == "--favorite"@
}

fn is_flag(flag: &str, name: &str) -> (b: bool)
    ensures
        b == (flag@ == name@),
{
    chars_equal(&chars_of(flag), &chars_of(name))
}

pub fn takes_value(flag: &str) -> (b: bool)
    ensures
        b == spec_takes_value(flag@),
{
    is_flag(flag, "--lang") || is_flag(flag, "--date") || is_flag(flag, "--allergen") || is_flag(
        flag,
        "--allergens",
    ) || is_flag(flag, "--favorite")
}

/// The preferences, the view and the caller's next step after the option
/// `flag` with its value (absent when the command line ends first).
pub open spec fn spec_apply_arg(
    p: PreferencesView,
    view: ViewMode,
    flag: Seq<char>,
    value: Option<Seq<char>>,
) -> (PreferencesView, ViewMode, ArgActionView) {
    if flag == "--lang"@ {
        match value {
            Some(l) => match crate::preferences::spec_clean_language(Some(l)) {
                Some(clean) => (PreferencesView { language: clean, ..p }, view, ArgActionView::Continue),
                None => (p, view, ArgActionView::UnknownLanguage(l)),
            },
            None => (p, view, ArgActionView::Continue),
        }
    } else if flag == "--date"@ {
        match value {
            Some(d) => (p, view, ArgActionView::SetDate(d)),
            None => (p, view, ArgActionView::Continue),
        }
    } else if flag == "--tomorrow"@ {
        (p, view, ArgActionView::Tomorrow)
    } else if flag == "--week"@ {
        (p, ViewMode::Week, ArgActionView::Continue)
    } else if flag == "--no-cache"@ {
        (PreferencesView { no_cache: true, ..p }, view, ArgActionView::Continue)
    } else if flag == "--hide-allergens"@ {
        (PreferencesView { hide_allergens: true, ..p }, view, ArgActionView::Continue)
    } else if flag == "--show-allergens"@ {
        (PreferencesView { hide_allergens: false, ..p }, view, ArgActionView::Continue)
    } else if flag == "--allergen"@ {
        match value {
            Some(c) => (
                PreferencesView { allergens: spec_push_unique(p.allergens, c), ..p },
                view,
                ArgActionView::Continue,
            ),
            None => (p, view, ArgActionView::Continue),
        }
    } else if flag == "--allergens"@ {
        match value {
            Some(cs) => (
                PreferencesView { allergens: spec_add_csv(seq![], split_on(cs, ',')), ..p },
                view,
                ArgActionView::Continue,
            ),
            None => (p, view, ArgActionView::Continue),
        }
    } else if flag == "--favorite"@ {
        match value {
            Some(f) => (
                PreferencesView { favorites: spec_push_unique(p.favorites, f), ..p },
                view,
                ArgActionView::Continue,
            ),
            None => (p, view, ArgActionView::Continue),
        }
    } else if flag == "--help"@ || flag == "-h"@ {
        (p, view, ArgActionView::Help)
    } else {
        (p, view, ArgActionView::UnknownArgument(flag))
    }
}

pub fn apply_arg(preferences: &mut Preferences, view: &mut ViewMode, flag: &str, value: Option<&str>) -> (action: ArgAction)
    ensures
        (final(preferences)@, *final(view), action@) == spec_apply_arg(
            old(preferences)@,
            *old(view),
            flag@,
            crate::preferences::opt_view(value),
        ),
{
    if is_flag(flag, "--lang") {
        if let Some(l) = value {
            if !preferences.set_language(l) {
                return ArgAction::UnknownLanguage(l.to_owned());
            }
        }
        ArgAction::Continue
    } else if is_flag(flag, "--date") {
        match value {
            Some(d) => ArgAction::SetDate(d.to_owned()),
            None => ArgAction::Continue,
        }
    } else if is_flag(flag, "--tomorrow") {
        ArgAction::Tomorrow
    } else if is_flag(flag, "--week") {
        *view = ViewMode::Week;
        ArgAction::Continue
    } else if is_flag(flag, "--no-cache") {
        preferences.no_cache = true;
        ArgAction::Continue
    } else if is_flag(flag, "--hide-allergens") {
        preferences.hide_allergens = true;
        ArgAction::Continue
    } else if is_flag(flag, "--show-allergens") {
        preferences.hide_allergens = false;
        ArgAction::Continue
    } else if is_flag(flag, "--allergen") {
        if let Some(c) = value {
            preferences.add_allergen(c);
        }
        ArgAction::Continue
    } else if is_flag(flag, "--allergens") {
        if let Some(cs) = value {
            preferences.allergens.clear();
            assert(strings_view(preferences.allergens@) =~= Seq::<Seq<char>>::empty());
            add_csv(&mut preferences.allergens, cs);
        }
        ArgAction::Continue
    } else if is_flag(flag, "--favorite") {
        if let Some(f) = value {
            preferences.add_favorite(f);
        }
        ArgAction::Continue
    } else if is_flag(flag, "--help") || is_flag(flag, "-h") {
        ArgAction::Help
    } else {
        ArgAction::UnknownArgument(flag.to_owned())
    }
}

/// Law: adding comma-separated values (`--allergens A,B`) keeps a list
/// clean: no duplicates ignoring ASCII case, no blank or untrimmed entry.
pub proof fn law_add_csv_keeps_clean(values: Seq<Seq<char>>, pieces: Seq<Seq<char>>)
    requires
        crate::preferences::clean_entries(values),
    ensures
        crate::preferences::clean_entries(spec_add_csv(values, pieces)),
    decreases pieces.len(),
{
    if pieces.len() > 0 {
        law_add_csv_keeps_clean(values, pieces.drop_last());
        crate::preferences::law_push_unique_keeps_clean(
            spec_add_csv(values, pieces.drop_last()),
            pieces.last(),
        );
    }
}

/// Law: the second line of a meal in the terminal layout shows, dimmed,
/// the meal's price with its unit: the bare price for a portion, otherwise
/// the price, a slash and the unit without the word `pro`, trimmed.
pub proof fn law_price_line_shows_price_and_unit(m: MealView, p: PreferencesView, width: int)
    ensures
        meal_lines(m, p, width).len() == 2,
        contains_text(meal_lines(m, p, width)[1], styled(dim_code(), spec_price_info(m))),
        m.unit == portion_unit() ==> contains_text(
            meal_lines(m, p, width)[1],
            dim_code() + m.price + reset_code(),
        ),
        m.unit != portion_unit() ==> contains_text(
            meal_lines(m, p, width)[1],
            dim_code() + m.price + seq!['/'] + trim_ws(remove_all(m.unit, pro_word())) + reset_code(),
        ),
{
    let line = meal_lines(m, p, width)[1];
    let head = "  "@ + spaces(column_width()) + " "@;
    let shown = styled(dim_code(), spec_price_info(m));
    let label = if spec_matches_favorites(m, p.favorites) {
        " FAVORITE"@
    } else {
        seq![]
    };
    assert(line == head + shown + label);
    assert(line.subrange(head.len() as int, (head.len() + shown.len()) as int) =~= shown);
    assert(occurs_at(line, shown, head.len() as int));
    if m.unit == portion_unit() {
        assert(shown =~= dim_code() + m.price + reset_code());
    } else {
        assert(shown =~= dim_code() + m.price + seq!['/'] + trim_ws(remove_all(m.unit, pro_word()))
            + reset_code());
    }
}

} // verus!

