//! What the menu window decides: which day and settings its toolbar
//! leaves it with, whether that fetches the menu again, and the heading it
//! shows for a day.

use vstd::prelude::*;
use chrono::NaiveDate;
use crate::calendar::{add_days, shifted_date, weekday, weekday_number};
use crate::cli::{day_name, day_name_exec};
use crate::preferences::{spec_clean_language, Preferences, PreferencesView};
use crate::text::{chars_equal, chars_of};

verus! {

/// The settings and the day a menu window shows.
pub struct WindowState {
    pub preferences: Preferences,
    /// The day as `(year, month, day)`.
    pub day: (i32, u32, u32),
}

pub struct WindowView {
    pub preferences: PreferencesView,
    pub day: (i32, u32, u32),
}

impl View for WindowState {
    type V = WindowView;

    open spec fn view(&self) -> WindowView {
        WindowView { preferences: self.preferences@, day: self.day }
    }
}

/// A button of the window's toolbar.
pub enum ToolbarEvent {
    /// A language button: `de` or `en`.
    Language(String),
    /// The day before.
    PreviousDay,
    /// Today, as the clock gives it.
    Today((i32, u32, u32)),
    /// The day after.
    NextDay,
    /// Fetch the menu again.
    Refresh,
    /// Switch bypassing the cache on or off.
    ToggleCache,
    /// Switch hiding meals with allergens on or off.
    ToggleHideAllergens,
}

/// The preferences after choosing a language: the language it names if it
/// is supported, the old one otherwise.
pub open spec fn language_chosen(p: PreferencesView, lang: Seq<char>) -> PreferencesView {
    PreferencesView {
        language: match spec_clean_language(Some(lang)) {
            Some(l) => l,
            None => p.language,
        },
        ..p
    }
}

/// The window after a toolbar button, and whether the menu is fetched
/// again: a language button that names another language than the shown
/// one switches to it and fetches; the day buttons move the day and fetch,
/// or give `None` and leave the window as it was when the day would leave
/// the calendar; refresh fetches; the two switches flip their setting and
/// fetch nothing.
pub open spec fn spec_toolbar_step(w: WindowView, e: ToolbarEvent) -> (WindowView, Option<bool>) {
    match e {
        ToolbarEvent::Language(l) => if l@ == w.preferences.language {
            (w, Some(false))
        } else {
            (WindowView { preferences: language_chosen(w.preferences, l@), ..w }, Some(true))
        },
        ToolbarEvent::PreviousDay => match shifted_date(w.day, -1) {
            Some(d) => (WindowView { day: d, ..w }, Some(true)),
            None => (w, None),
        },
        ToolbarEvent::Today(t) => (WindowView { day: t, ..w }, Some(true)),
        ToolbarEvent::NextDay => match shifted_date(w.day, 1) {
            Some(d) => (WindowView { day: d, ..w }, Some(true)),
            None => (w, None),
        },
        ToolbarEvent::Refresh => (w, Some(true)),
        ToolbarEvent::ToggleCache => (
            WindowView {
                preferences: PreferencesView { no_cache: !w.preferences.no_cache, ..w.preferences },
                ..w
            },
            Some(false),
        ),
        ToolbarEvent::ToggleHideAllergens => (
            WindowView {
                preferences: PreferencesView {
                    hide_allergens: !w.preferences.hide_allergens,
                    ..w.preferences
                },
                ..w
            },
            Some(false),
        ),
    }
}

/// Applies a toolbar button to the window; says whether to fetch the menu
/// again, or `None` when the day would leave the calendar.
pub fn toolbar_step(window: &mut WindowState, event: &ToolbarEvent) -> (r: Option<bool>)
    ensures
        (final(window)@, r) == spec_toolbar_step(old(window)@, *event),
{
    match event {
        ToolbarEvent::Language(l) => {
            if chars_equal(&chars_of(window.preferences.language.as_str()), &chars_of(l.as_str())) {
                Some(false)
            } else {
                window.preferences.set_language(l.as_str());
                Some(true)
            }
        },
        ToolbarEvent::PreviousDay => match add_days(window.day, -1) {
            Some(d) => {
                window.day = d;
                Some(true)
            },
            None => None,
        },
        ToolbarEvent::Today(t) => {
            window.day = *t;
            Some(true)
        },
        ToolbarEvent::NextDay => match add_days(window.day, 1) {
            Some(d) => {
                window.day = d;
                Some(true)
            },
            None => None,
        },
        ToolbarEvent::Refresh => Some(true),
        ToolbarEvent::ToggleCache => {
            window.preferences.no_cache = !window.preferences.no_cache;
            Some(false)
        },
        ToolbarEvent::ToggleHideAllergens => {
            window.preferences.hide_allergens = !window.preferences.hide_allergens;
            Some(false)
        },
    }
}

/// What `NaiveDate::format` writes for a date under a pattern, or `None`
/// when the triple is no date of the calendar.
pub uninterp spec fn formatted_date(date: (i32, u32, u32), pattern: Seq<char>) -> Option<Seq<char>>;

/// The two patterns of a window heading's date: `MM / DD / YYYY` in
/// English, `DD.MM.YYYY` otherwise.
pub open spec fn heading_pattern(english: bool) -> Seq<char> {
    if english {
        "%m / %d / %Y"@
    } else {
        "%d.%m.%Y"@
    }
}

/// `NaiveDate::from_ymd_opt`, then `NaiveDate::format` and `to_string`:
/// the date written under the pattern, there exactly when the triple is a
/// date, as for its weekday. Only the two heading patterns are taken,
/// which chrono writes without error; what it writes is left to the name.
#[verifier::external_body]
fn format_date(date: (i32, u32, u32), pattern: &str) -> (r: Option<String>)
    requires
        pattern@ == heading_pattern(true) || pattern@ == heading_pattern(false),
    ensures
        r is Some == formatted_date(date, pattern@) is Some,
        r is Some == weekday_number(date) is Some,
        r matches Some(t) ==> formatted_date(date, pattern@)->Some_0 == t@,
{
    NaiveDate::from_ymd_opt(date.0, date.1, date.2).map(|d| d.format(pattern).to_string())
}

/// The heading of the window for a day: the weekday's name, and the date
/// as `MM / DD / YYYY` in English or `DD.MM.YYYY` otherwise; `None` when
/// the triple is no date of the calendar.
pub fn window_heading(date: (i32, u32, u32), lang: &str) -> (r: Option<(String, String)>)
    ensures
        r is Some == weekday_number(date) is Some,
        r matches Some((name, text)) ==> name@ == day_name(
            weekday_number(date)->Some_0 as int,
            lang@ == "en"@,
        ) && text@ == formatted_date(date, heading_pattern(lang@ == "en"@))->Some_0,
{
    let english = chars_equal(&chars_of(lang), &chars_of("en"));
    let w = match weekday(date) {
        Some(w) => w,
        None => return None,
    };
    let pattern = if english {
        "%m / %d / %Y"
    } else {
        "%d.%m.%Y"
    };
    let text = match format_date(date, pattern) {
        Some(t) => t,
        None => return None,
    };
    Some((day_name_exec(w as usize, english).to_owned(), text))
}

} // verus!
