use mensa::preferences::Preferences;
use mensa::window::{toolbar_step, window_heading, ToolbarEvent, WindowState};

fn window(day: (i32, u32, u32)) -> WindowState {
    WindowState { preferences: Preferences::default(), day }
}

#[test]
fn language_buttons_fetch_only_when_the_language_changes() {
    let mut w = window((2026, 3, 18));
    assert_eq!(toolbar_step(&mut w, &ToolbarEvent::Language("de".to_owned())), Some(false));
    assert_eq!(w.preferences.language, "de");
    assert_eq!(toolbar_step(&mut w, &ToolbarEvent::Language("en".to_owned())), Some(true));
    assert_eq!(w.preferences.language, "en");
    assert_eq!(toolbar_step(&mut w, &ToolbarEvent::Language("fr".to_owned())), Some(true));
    assert_eq!(w.preferences.language, "en");
}

#[test]
fn day_buttons_move_the_day_and_fetch() {
    let mut w = window((2026, 3, 1));
    assert_eq!(toolbar_step(&mut w, &ToolbarEvent::PreviousDay), Some(true));
    assert_eq!(w.day, (2026, 2, 28));
    assert_eq!(toolbar_step(&mut w, &ToolbarEvent::NextDay), Some(true));
    assert_eq!(toolbar_step(&mut w, &ToolbarEvent::NextDay), Some(true));
    assert_eq!(w.day, (2026, 3, 2));
    assert_eq!(toolbar_step(&mut w, &ToolbarEvent::Today((2026, 5, 27))), Some(true));
    assert_eq!(w.day, (2026, 5, 27));
    let mut bad = window((2026, 2, 30));
    assert_eq!(toolbar_step(&mut bad, &ToolbarEvent::NextDay), None);
    assert_eq!(bad.day, (2026, 2, 30));
}

#[test]
fn switches_flip_without_fetching_and_refresh_fetches() {
    let mut w = window((2026, 3, 18));
    assert_eq!(toolbar_step(&mut w, &ToolbarEvent::ToggleCache), Some(false));
    assert!(w.preferences.no_cache);
    assert_eq!(toolbar_step(&mut w, &ToolbarEvent::ToggleHideAllergens), Some(false));
    assert!(w.preferences.hide_allergens);
    assert_eq!(toolbar_step(&mut w, &ToolbarEvent::ToggleCache), Some(false));
    assert!(!w.preferences.no_cache);
    assert_eq!(toolbar_step(&mut w, &ToolbarEvent::Refresh), Some(true));
    assert_eq!(w.day, (2026, 3, 18));
}

#[test]
fn window_heading_names_the_day_and_writes_the_date() {
    assert_eq!(
        window_heading((2026, 3, 18), "de"),
        Some(("Mittwoch".to_owned(), "18.03.2026".to_owned()))
    );
    assert_eq!(
        window_heading((2026, 3, 18), "en"),
        Some(("Wednesday".to_owned(), "03 / 18 / 2026".to_owned()))
    );
    assert_eq!(window_heading((2026, 2, 29), "de"), None);
}
