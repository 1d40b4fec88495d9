use mensa::preferences::{ConfigFile, Preferences};

#[test]
fn config_overrides_defaults_and_deduplicates_lists() {
    let prefs = Preferences::with_config(ConfigFile {
        language: Some("en".to_owned()),
        no_cache: Some(true),
        allergens: Some(vec!["Mi".to_owned(), "mi".to_owned(), "Ei".to_owned()]),
        hide_allergens: Some(true),
        favorites: Some(vec!["Curry".to_owned(), " curry ".to_owned()]),
    });

    assert_eq!(prefs.language, "en");
    assert!(prefs.no_cache);
    assert_eq!(prefs.allergens, ["Mi", "Ei"]);
    assert!(prefs.hide_allergens);
    assert_eq!(prefs.favorites, ["Curry"]);
}

#[test]
fn defaults_are_german_with_milk_flagged() {
    let p = Preferences::default();
    assert_eq!(p.language, "de");
    assert!(!p.no_cache);
    assert_eq!(p.allergens, ["Mi"]);
    assert!(!p.hide_allergens);
    assert!(p.favorites.is_empty());
}

#[test]
fn an_empty_config_keeps_the_defaults_and_an_unknown_language_is_ignored() {
    let p = Preferences::with_config(ConfigFile {
        language: Some("fr".to_owned()),
        no_cache: None,
        allergens: None,
        hide_allergens: None,
        favorites: Some(vec!["  ".to_owned()]),
    });
    assert_eq!(p.language, "de");
    assert_eq!(p.allergens, ["Mi"]);
    assert!(p.favorites.is_empty());
}

#[test]
fn set_language_accepts_only_supported_languages() {
    let mut p = Preferences::default();
    assert!(p.set_language(" en "));
    assert_eq!(p.language, "en");
    assert!(!p.set_language("EN"));
    assert_eq!(p.language, "en");
    assert!(p.set_language("de"));
    assert_eq!(p.language, "de");
}

#[test]
fn adding_keeps_lists_free_of_duplicates() {
    let mut p = Preferences::default();
    p.add_allergen(" mi ");
    p.add_allergen("Ei");
    p.add_allergen("Ei");
    p.add_allergen("  ");
    assert_eq!(p.allergens, ["Mi", "Ei"]);
    p.add_favorite(" Curry ");
    p.add_favorite("CURRY");
    assert_eq!(p.favorites, ["Curry"]);
}

#[test]
fn cleaning_a_cleaned_list_changes_nothing() {
    let config = |allergens: Vec<String>| ConfigFile {
        language: None,
        no_cache: None,
        allergens: Some(allergens),
        hide_allergens: None,
        favorites: None,
    };
    let raw = vec![" Ei ".to_owned(), "ei".to_owned(), "".to_owned(), "Mi".to_owned(), "EI".to_owned()];
    let once = Preferences::with_config(config(raw)).allergens;
    assert_eq!(once, ["Ei", "Mi"]);
    let twice = Preferences::with_config(config(once.clone())).allergens;
    assert_eq!(twice, once);
}
