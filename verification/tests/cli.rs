use mensa::cli::{
    add_csv, apply_arg, push_meal_lines, render_output, should_hide, takes_value, weekday_label,
    ArgAction, ViewMode,
};
use mensa::ingredients::tokenize_ingredients;
use mensa::meal::Meal;
use mensa::preferences::Preferences;

fn meal(name: &str, items: &str) -> Meal {
    Meal {
        name: name.to_owned(),
        ingredients: tokenize_ingredients(items).unwrap(),
        price: "2,40 €".to_owned(),
        unit: "Portion".to_owned(),
    }
}

#[test]
fn add_csv_adds_each_new_value_once() {
    let mut values = vec!["Mi".to_owned()];
    add_csv(&mut values, " ei, MI,,Gl , ei");
    assert_eq!(values, ["Mi", "ei", "Gl"]);
}

#[test]
fn options_that_read_a_value() {
    for flag in ["--lang", "--date", "--allergen", "--allergens", "--favorite"] {
        assert!(takes_value(flag));
    }
    for flag in ["--week", "--tomorrow", "-h", "--lang=en"] {
        assert!(!takes_value(flag));
    }
}

#[test]
fn options_change_the_preferences() {
    let mut p = Preferences::default();
    let mut view = ViewMode::Day;
    assert!(matches!(apply_arg(&mut p, &mut view, "--lang", Some("en")), ArgAction::Continue));
    assert_eq!(p.language, "en");
    match apply_arg(&mut p, &mut view, "--lang", Some("fr")) {
        ArgAction::UnknownLanguage(l) => assert_eq!(l, "fr"),
        _ => panic!("expected an unknown language"),
    }
    assert_eq!(p.language, "en");
    assert!(matches!(apply_arg(&mut p, &mut view, "--week", None), ArgAction::Continue));
    assert_eq!(view, ViewMode::Week);
    apply_arg(&mut p, &mut view, "--no-cache", None);
    apply_arg(&mut p, &mut view, "--hide-allergens", None);
    assert!(p.no_cache && p.hide_allergens);
    apply_arg(&mut p, &mut view, "--show-allergens", None);
    assert!(!p.hide_allergens);
    apply_arg(&mut p, &mut view, "--allergen", Some("Ei"));
    assert_eq!(p.allergens, ["Mi", "Ei"]);
    apply_arg(&mut p, &mut view, "--allergens", Some("Gl, gl ,So"));
    assert_eq!(p.allergens, ["Gl", "So"]);
    apply_arg(&mut p, &mut view, "--favorite", Some("curry"));
    assert_eq!(p.favorites, ["curry"]);
    assert!(matches!(apply_arg(&mut p, &mut view, "--allergens", None), ArgAction::Continue));
    assert_eq!(p.allergens, ["Gl", "So"]);
}

#[test]
fn options_that_ask_the_caller_to_act() {
    let mut p = Preferences::default();
    let mut view = ViewMode::Day;
    match apply_arg(&mut p, &mut view, "--date", Some("2026-05-27")) {
        ArgAction::SetDate(d) => assert_eq!(d, "2026-05-27"),
        _ => panic!("expected a date"),
    }
    assert!(matches!(apply_arg(&mut p, &mut view, "--date", None), ArgAction::Continue));
    assert!(matches!(apply_arg(&mut p, &mut view, "--tomorrow", None), ArgAction::Tomorrow));
    assert!(matches!(apply_arg(&mut p, &mut view, "-h", None), ArgAction::Help));
    assert!(matches!(apply_arg(&mut p, &mut view, "--help", None), ArgAction::Help));
    match apply_arg(&mut p, &mut view, "--colour", None) {
        ArgAction::UnknownArgument(a) => assert_eq!(a, "--colour"),
        _ => panic!("expected an unknown argument"),
    }
    assert_eq!(view, ViewMode::Day);
}

#[test]
fn weekday_labels_in_both_languages() {
    assert_eq!(weekday_label(2, 3, 18, "de"), "Mittwoch 18.03.");
    assert_eq!(weekday_label(2, 3, 18, "en"), "Wednesday 03/18");
    assert_eq!(weekday_label(6, 12, 1, "en"), "Sunday 12/01");
    assert_eq!(weekday_label(0, 1, 5, "fr"), "Montag 05.01.");
}

#[test]
fn meals_with_allergens_are_hidden_only_when_asked() {
    let mut p = Preferences::default();
    let m = meal("Pasta", "Pudding (Mi)");
    assert!(!should_hide(&m, &p));
    p.hide_allergens = true;
    assert!(should_hide(&m, &p));
    assert!(!should_hide(&meal("Salat", "Gurke"), &p));
}

#[test]
fn a_meal_takes_two_lines() {
    let mut p = Preferences::default();
    p.favorites = vec!["pasta".to_owned()];
    let mut lines = vec!["first".to_owned()];
    push_meal_lines(&mut lines, &meal("Pasta", "Nudeln (Gl), Pudding (Mi)"), &p, 80).unwrap();
    assert_eq!(lines.len(), 3);
    assert_eq!(
        lines[1],
        "  \x1b[36m* Pasta.........\x1b[0m Nudeln, \x1b[31m\x1b[1mPUDDING\x1b[0m"
    );
    assert_eq!(lines[2], "                   \x1b[2m2,40 €\x1b[0m FAVORITE");
}

#[test]
fn a_day_lists_shown_meals_and_counts_hidden_ones() {
    let mut p = Preferences::default();
    p.hide_allergens = true;
    let meals = vec![meal("Pasta", "Pudding (Mi)"), meal("Salat", "Gurke")];
    let out = render_output(&meals, "Mittwoch 18.03.", &p, 80).unwrap();
    let lines: Vec<&str> = out.split('\n').collect();
    assert_eq!(lines.len(), 4);
    assert_eq!(lines[0], "\x1b[1m\u{1F37D}  Mensa am Schloss \u{2014} Mittwoch 18.03.\x1b[0m");
    assert_eq!(lines[1], "  \x1b[36mSalat...........\x1b[0m Gurke");
    assert_eq!(lines[3], "\x1b[2m1 hidden by allergen filter\x1b[0m");
}

#[test]
fn a_day_without_shown_meals_says_so() {
    let mut p = Preferences::default();
    p.language = "en".to_owned();
    let out = render_output(&vec![], "Monday 01/05", &p, 80).unwrap();
    assert_eq!(
        out,
        "\x1b[1m\u{1F37D}  Mensa am Schloss \u{2014} Monday 01/05\x1b[0m\n\x1b[2mMensa am Schloss: no meals for this date\x1b[0m"
    );
    p.language = "de".to_owned();
    p.hide_allergens = true;
    let meals: Vec<Meal> = (0..12).map(|_| meal("M", "Käse (Mi)")).collect();
    let out = render_output(&meals, "x", &p, 80).unwrap();
    assert!(out.ends_with(
        "\x1b[2mMensa am Schloss: keine Gerichte fuer dieses Datum\x1b[0m\n\x1b[2m12 hidden by allergen filter\x1b[0m"
    ));
}
