use mensa::android_bridge::{menu_json_for_fetch, menu_json_from_html, split_csv};
use serde_json::Value;

const TWO_MEALS: &str = r#"
    <table>
        <tr>
            <td class="speiseplan-table-menu-headline"><strong>Menü 1</strong></td>
            <td class="speiseplan-table-menu-content">Pasta (Weizen), Pudding (Mi)</td>
            <td><i class="price">4,00 €</i></td>
            <td><i class="customSelection">Portion</i></td>
        </tr>
        <tr>
            <td class="speiseplan-table-menu-headline"><strong>Vegan</strong></td>
            <td class="speiseplan-table-menu-content">Curry, Reis</td>
            <td><i class="price">3,50 €</i></td>
            <td><i class="customSelection">Portion</i></td>
        </tr>
    </table>
    "#;

#[test]
fn android_json_filters_allergens_and_marks_favorites() {
    let json = menu_json_from_html(
        TWO_MEALS,
        "2026-05-26",
        "de",
        &["Mi".to_owned()],
        true,
        &["curry".to_owned()],
    )
    .expect("fixture should encode");
    let value: Value = serde_json::from_str(&json).expect("json should parse");
    let meals = value["meals"].as_array().expect("meals should be an array");

    assert_eq!(meals.len(), 1);
    assert_eq!(meals[0]["name"], "Vegan");
    assert!(meals[0]["favorite"]
        .as_bool()
        .expect("favorite should be bool"));
}

#[test]
fn android_json_keeps_all_meals_and_flags_items_when_not_hiding() {
    let json = menu_json_from_html(TWO_MEALS, "2026-05-26", "en", &["mi".to_owned()], false, &[])
        .expect("fixture should encode");
    let expected = [
        r#"{"ok":true,"date":"2026-05-26","lang":"en","meals":["#,
        r#"{"name":"Menü 1","price":"4,00 €","favorite":false,"has_allergen":true,"items":["#,
        r#"{"text":"Pasta","has_allergen":false},{"text":"Pudding","has_allergen":true}]},"#,
        r#"{"name":"Vegan","price":"3,50 €","favorite":false,"has_allergen":false,"items":["#,
        r#"{"text":"Curry, Reis","has_allergen":false}]}]}"#,
    ]
    .join("");
    assert_eq!(json, expected);
}

#[test]
fn android_json_escapes_quotes_in_texts() {
    let html = r#"<table><tr>
        <td class="speiseplan-table-menu-headline"><strong>Chef's "Special"</strong></td>
        <td class="speiseplan-table-menu-content">Suppe</td>
        <td><i class="price">1,00 €</i></td>
        <td><i class="customSelection">Portion</i></td>
    </tr></table>"#;
    let json = menu_json_from_html(html, "d", "de", &[], false, &[]).expect("fixture should encode");
    assert!(json.contains(r#""name":"Chef's \"Special\"""#), "{json}");
    let value: Value = serde_json::from_str(&json).expect("json should parse");
    assert_eq!(value["meals"][0]["name"], "Chef's \"Special\"");
}

#[test]
fn fetch_failure_becomes_error_object() {
    let json = menu_json_for_fetch(
        Err("HTTP request failed: offline".to_owned()),
        "2026-05-26",
        "de",
        "Mi",
        false,
        "",
    );
    assert_eq!(
        json,
        r#"{"ok":false,"date":"2026-05-26","lang":"de","error":"HTTP request failed: offline","meals":[]}"#
    );
}

#[test]
fn fetched_page_is_encoded_with_csv_lists() {
    let json = menu_json_for_fetch(Ok(TWO_MEALS.to_owned()), "x", "de", " Mi , ,Ei", true, "reis,");
    let value: Value = serde_json::from_str(&json).expect("json should parse");
    assert_eq!(value["ok"], true);
    let meals = value["meals"].as_array().expect("meals should be an array");
    assert_eq!(meals.len(), 1);
    assert_eq!(meals[0]["favorite"], true);
}

#[test]
fn split_csv_trims_and_drops_blank_values() {
    assert_eq!(split_csv(" Mi, ,Ei ,"), ["Mi", "Ei"]);
    assert!(split_csv("").is_empty());
    assert_eq!(split_csv("a,a"), ["a", "a"]);
}

#[test]
fn error_texts_are_escaped_as_json_strings() {
    let json = menu_json_for_fetch(Err("a\u{1}b\"c\\d\te/".to_owned()), "d\n", "x\u{7f}", "", false, "");
    assert_eq!(
        json,
        "{\"ok\":false,\"date\":\"d\\n\",\"lang\":\"x\u{7f}\",\"error\":\"a\\u0001b\\\"c\\\\d\\te/\",\"meals\":[]}"
    );
    let value: Value = serde_json::from_str(&json).expect("json should parse");
    assert_eq!(value["error"], "a\u{1}b\"c\\d\te/");
}
