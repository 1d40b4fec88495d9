use mensa::ingredients::{
    contains_milk, normalize_whitespace, tokenize_ingredients, IngredientError, IngredientToken,
};

fn texts(tokens: &[IngredientToken]) -> Vec<&str> {
    tokens.iter().map(|t| t.text.as_str()).collect()
}

#[test]
fn contains_milk_looks_for_the_exact_code() {
    assert!(contains_milk(&["Ei", "Mi"]));
    assert!(!contains_milk(&["mi", "Milch"]));
    assert!(!contains_milk(&[]));
}

#[test]
fn normalize_whitespace_collapses_and_trims() {
    assert_eq!(normalize_whitespace("  a \n\t b  ").unwrap(), "a b");
    assert_eq!(normalize_whitespace(", Pudding ,").unwrap(), "Pudding");
    assert_eq!(normalize_whitespace("\u{a0}x\u{3000}y").unwrap(), "x y");
    assert_eq!(normalize_whitespace("").unwrap(), "");
    assert_eq!(normalize_whitespace(", ,a").unwrap(), ",a");
}

#[test]
fn tokens_carry_their_codes_and_milk_flag() {
    let tokens = tokenize_ingredients("Spaghetti Bolognese (Rind, Ei, Weizen), Pudding (Mi)").unwrap();
    assert_eq!(texts(&tokens), ["Spaghetti Bolognese", "Pudding"]);
    assert_eq!(tokens[0].codes, ["Rind", "Ei", "Weizen"]);
    assert!(!tokens[0].has_milk);
    assert_eq!(tokens[1].codes, ["Mi"]);
    assert!(tokens[1].has_milk);
}

#[test]
fn text_after_the_last_group_becomes_a_plain_token() {
    let tokens = tokenize_ingredients("Pasta (Weizen), Obst").unwrap();
    assert_eq!(texts(&tokens), ["Pasta", "Obst"]);
    assert!(tokens[1].codes.is_empty());
    assert!(!tokens[1].has_milk);
}

#[test]
fn a_list_without_groups_is_one_token() {
    let tokens = tokenize_ingredients("Curry, Reis").unwrap();
    assert_eq!(texts(&tokens), ["Curry, Reis"]);
}

#[test]
fn only_groups_fall_back_to_the_text_without_them() {
    let tokens = tokenize_ingredients("(Mi) (Ei)").unwrap();
    assert_eq!(tokens.len(), 1);
    assert_eq!(tokens[0].text, "");
    assert!(tokenize_ingredients("   ").unwrap().is_empty());
}

#[test]
fn every_token_text_is_tidy() {
    for raw in ["  a  b (c),  , d\te (f)", "x\n\ny (Mi)", ",,(a),b  c  "] {
        for t in tokenize_ingredients(raw).unwrap() {
            assert_eq!(t.text.trim(), t.text);
            assert!(!t.text.contains("  "));
            assert!(!t.text.contains('\n') && !t.text.contains('\t'));
        }
    }
}

#[test]
fn has_any_code_ignores_ascii_case() {
    let tokens = tokenize_ingredients("Pudding (Mi, Ei)").unwrap();
    assert!(tokens[0].has_any_code(&["mi".to_owned()]));
    assert!(tokens[0].has_any_code(&["EI".to_owned(), "x".to_owned()]));
    assert!(!tokens[0].has_any_code(&["Gl".to_owned()]));
    assert!(!tokens[0].has_any_code(&[]));
}

#[test]
fn ingredient_error_message() {
    assert_eq!(IngredientError::ParseError("x".to_owned()).message(), "Regex error: x");
}

#[test]
fn normalizing_a_clean_text_changes_nothing() {
    for t in ["", "a b", "Spaghetti Bolognese", "x, y"] {
        assert_eq!(normalize_whitespace(t).unwrap(), t);
        let once = normalize_whitespace(&format!("  {t}\n ")).unwrap();
        assert_eq!(normalize_whitespace(&once).unwrap(), once);
    }
}
