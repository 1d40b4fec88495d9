use mensa::meal::parse_menu;

#[test]
fn parses_menu_rows_with_allergen_codes() {
    let html = r#"
    <table>
        <tr>
            <td class="speiseplan-table-menu-headline"><strong>Pasta</strong></td>
            <td class="speiseplan-table-menu-content">
                Spaghetti Bolognese (Rind, Ei, Weizen), Pudding (Mi)
            </td>
            <td><i class="price">2,40 €</i></td>
            <td><i class="customSelection">Portion</i></td>
        </tr>
    </table>
    "#;

    let meals = parse_menu(html).expect("fixture should parse");

    assert_eq!(meals.len(), 1);
    assert_eq!(meals[0].name, "Pasta");
    assert_eq!(meals[0].price_info(), "2,40 €");
    assert!(meals[0].has_any_allergen(&["Mi".to_owned()]));
    assert!(meals[0].matches_favorites(&["pudding".to_owned()]));
}

use mensa::display::DisplayError;
use mensa::ingredients::{tokenize_ingredients, IngredientError};
use mensa::meal::{keep_complete_rows, meals_from_rows, visible_meals, Cell, Meal, MealError, MenuRow};
use mensa::preferences::Preferences;

fn meal(name: &str, items: &str, price: &str, unit: &str) -> Meal {
    Meal {
        name: name.to_owned(),
        ingredients: tokenize_ingredients(items).unwrap(),
        price: price.to_owned(),
        unit: unit.to_owned(),
    }
}

fn cell(texts: &[&str], html: &str) -> Cell {
    Cell {
        texts: texts.iter().map(|t| (*t).to_owned()).collect(),
        html: html.to_owned(),
    }
}

#[test]
fn render_items_highlights_milk_in_upper_case() {
    let m = meal("Pasta", "Spaghetti (Ei), Pudding (Mi)", "2,40 €", "Portion");
    assert_eq!(m.render_items(), "Spaghetti, \x1b[31m\x1b[1mPUDDING\x1b[0m");
    assert_eq!(
        m.render_items_with_allergens(&["ei".to_owned()]),
        "\x1b[31m\x1b[1mSPAGHETTI\x1b[0m, Pudding"
    );
    assert_eq!(m.render_items_with_allergens(&[]), "Spaghetti, Pudding");
}

#[test]
fn render_items_uses_unicode_upper_case() {
    let m = meal("x", "Süße Soße (Mi)", "1", "Portion");
    assert_eq!(m.render_items(), "\x1b[31m\x1b[1mSÜSSE SOSSE\x1b[0m");
}

#[test]
fn price_info_shows_the_unit_unless_it_is_a_portion() {
    assert_eq!(meal("a", "b", "2,40 €", "Portion").price_info(), "2,40 €");
    assert_eq!(meal("a", "b", "1,10 €", "pro 100g").price_info(), "1,10 €/100g");
    assert_eq!(meal("a", "b", "3 €", "Stück").price_info(), "3 €/Stück");
    assert_eq!(meal("a", "b", "3 €", "proprotein").price_info(), "3 €/tein");
}

#[test]
fn favorites_match_name_or_ingredients_ignoring_case() {
    let m = meal("Vegan Curry", "Reis (Gl), Tofu (So)", "3", "Portion");
    assert!(m.matches_favorites(&["  CURRY ".to_owned()]));
    assert!(m.matches_favorites(&["x".to_owned(), "tofu".to_owned()]));
    assert!(m.matches_favorites(&["curry reis".to_owned()]));
    assert!(!m.matches_favorites(&[]));
    assert!(!m.matches_favorites(&["   ".to_owned()]));
    assert!(!m.matches_favorites(&["pizza".to_owned()]));
}

#[test]
fn allergens_are_found_in_any_ingredient() {
    let m = meal("a", "Reis (Gl), Tofu (So, Mi)", "3", "Portion");
    assert!(m.has_any_allergen(&["mi".to_owned()]));
    assert!(!m.has_any_allergen(&["Ei".to_owned()]));
    assert!(!m.has_any_allergen(&[]));
}

#[test]
fn rows_become_meals_from_their_cell_texts() {
    let row = MenuRow {
        name: cell(&["  Menü ", "1 "], "<strong>x</strong>"),
        content: cell(&["Pasta (Weizen),\n", " Pudding (Mi)"], ""),
        price: cell(&["   "], "<i class=\"price\">4,00&nbsp;&euro;</i>"),
        unit: cell(&[], "<i>Portion</i>"),
    };
    let meals = meals_from_rows(&vec![row]);
    assert_eq!(meals.len(), 1);
    assert_eq!(meals[0].name, "Menü 1");
    assert_eq!(meals[0].price, "4,00\u{a0}€");
    assert_eq!(meals[0].unit, "Portion");
    assert_eq!(meals[0].ingredients.len(), 2);
    assert!(meals[0].ingredients[1].has_milk);
}

#[test]
fn rows_missing_a_cell_are_skipped() {
    let html = r#"<table>
        <tr><td class="speiseplan-table-menu-headline"><strong>Ohne Preis</strong></td>
            <td class="speiseplan-table-menu-content">Suppe</td></tr>
        <tr><td class="speiseplan-table-menu-headline"><strong>Salat</strong></td>
            <td class="speiseplan-table-menu-content">Gurke (Mi)</td>
            <td><i class="price">1 €</i></td><td><i class="customSelection">pro 100g</i></td></tr>
    </table>"#;
    let meals = parse_menu(html).unwrap();
    assert_eq!(meals.len(), 1);
    assert_eq!(meals[0].name, "Salat");
    assert_eq!(meals[0].price_info(), "1 €/100g");
    assert!(parse_menu("").unwrap().is_empty());
}

#[test]
fn meal_error_messages() {
    assert_eq!(
        MealError::Selector("bad".to_owned()).message(),
        "Failed to build HTML selector: bad"
    );
    assert_eq!(
        MealError::Ingredient(IngredientError::ParseError("e".to_owned())).message(),
        "Failed to parse ingredients: Regex error: e"
    );
    assert_eq!(
        MealError::Display(DisplayError::Regex("r".to_owned())).message(),
        "Failed to display meal: Regex error: r"
    );
}

#[test]
fn visible_meals_drop_allergen_meals_only_when_hiding() {
    let meals = vec![
        meal("Pasta", "Pudding (Mi)", "1", "Portion"),
        meal("Salat", "Gurke", "1", "Portion"),
    ];
    let mut p = Preferences::default();
    assert_eq!(visible_meals(&meals, &p).len(), 2);
    p.hide_allergens = true;
    let shown = visible_meals(&meals, &p);
    assert_eq!(shown.len(), 1);
    assert_eq!(shown[0].name, "Salat");
}

#[test]
fn only_rows_with_all_four_cells_are_kept() {
    let full = || {
        vec![
            Some(cell(&["Name"], "<strong>Name</strong>")),
            Some(cell(&["Suppe"], "")),
            Some(cell(&["1 €"], "")),
            Some(cell(&["Portion"], "")),
        ]
    };
    let mut missing_price = full();
    missing_price[2] = None;
    let short = vec![Some(cell(&["a"], "")), Some(cell(&["b"], "")), Some(cell(&["c"], ""))];
    let mut second = full();
    second[0] = Some(cell(&["Zweites"], ""));
    let rows = keep_complete_rows(vec![full(), missing_price, short, second]);
    assert_eq!(rows.len(), 2);
    assert_eq!(rows[0].name.texts, ["Name"]);
    assert_eq!(rows[0].name.html, "<strong>Name</strong>");
    assert_eq!(rows[0].price.texts, ["1 €"]);
    assert_eq!(rows[0].unit.texts, ["Portion"]);
    assert_eq!(rows[1].name.texts, ["Zweites"]);
    assert_eq!(rows[1].content.texts, ["Suppe"]);
    assert!(keep_complete_rows(Vec::new()).is_empty());
}
