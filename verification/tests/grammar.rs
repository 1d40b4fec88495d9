//! The ingredient, whitespace, tag and escape grammars checked against the
//! same patterns run by the `regex` crate, on fixed and generated inputs.

use mensa::display::{strip_tags, visible_len};
use mensa::ingredients::{normalize_whitespace, tokenize_ingredients};
use regex::Regex;

fn normalize_by_pattern(s: &str) -> String {
    let re = Regex::new(r"\s+").unwrap();
    re.replace_all(s, " ").trim().trim_matches(',').trim().to_string()
}

fn tokenize_by_pattern(raw: &str) -> Vec<(String, bool, Vec<String>)> {
    let re = Regex::new(r"(.*?)\s*\(([^)]*)\)|(.+?)$").unwrap();
    let mut tokens = Vec::new();
    for cap in re.captures_iter(raw) {
        if let Some(text_match) = cap.get(1) {
            let text = text_match.as_str().trim();
            let codes_str = cap.get(2).map_or("", |m| m.as_str());
            let codes: Vec<String> = codes_str
                .split(',')
                .map(str::trim)
                .filter(|s| !s.is_empty())
                .map(str::to_owned)
                .collect();
            if !text.is_empty() {
                let milk = codes.iter().any(|c| c == "Mi");
                tokens.push((normalize_by_pattern(text), milk, codes));
            }
        } else if let Some(tail) = cap.get(3) {
            let text = tail.as_str().trim();
            if !text.is_empty() {
                tokens.push((normalize_by_pattern(text), false, Vec::new()));
            }
        }
    }
    if tokens.is_empty() && !raw.trim().is_empty() {
        let strip_parens = Regex::new(r"\s*\([^)]*\)").unwrap();
        let cleaned = strip_parens.replace_all(raw, "");
        tokens.push((normalize_by_pattern(cleaned.trim()), false, Vec::new()));
    }
    tokens
}

fn visible_len_by_pattern(s: &str) -> usize {
    let re = Regex::new(r"\x1b\[[0-9;]*m").unwrap();
    re.replace_all(s, "").chars().count()
}

fn strip_tags_by_pattern(html: &str) -> String {
    let re = Regex::new(r"<[^>]+>").unwrap();
    let text = re.replace_all(html, "");
    html_escape::decode_html_entities(&text).trim().to_string()
}

fn check(s: &str) {
    assert_eq!(normalize_whitespace(s).unwrap(), normalize_by_pattern(s), "normalize {s:?}");
    let ours: Vec<(String, bool, Vec<String>)> = tokenize_ingredients(s)
        .unwrap()
        .into_iter()
        .map(|t| (t.text, t.has_milk, t.codes))
        .collect();
    assert_eq!(ours, tokenize_by_pattern(s), "tokenize {s:?}");
    assert_eq!(visible_len(s).unwrap(), visible_len_by_pattern(s), "visible_len {s:?}");
    assert_eq!(strip_tags(s).unwrap(), strip_tags_by_pattern(s), "strip_tags {s:?}");
}

const FIXED: &[&str] = &[
    "",
    "   ",
    "Spaghetti Bolognese (Rind, Ei, Weizen), Pudding (Mi)",
    "Curry, Reis",
    "(Mi)",
    "  (Mi) (Ei) ",
    "Suppe (Sellerie",
    "Suppe ) (Mi)",
    "a (b (c) d) e",
    "Brot\n(Gl)",
    "Brot (Gl)\nKäse (Mi)",
    "x\ny (Mi)",
    "line one\nline two",
    "\u{a0}Tofu\u{3000}(So,\u{2003}Mi )",
    ", , Salat (Mi,, ) ,",
    "<b>Fett</b> &amp; <i>mager</i>",
    "<>x</>",
    "\x1b[31mrot\x1b[0m",
    "\x1b[31\x1b[1mx\x1b[m",
    "\x1b[;;m\x1b[",
    "Pasta (Weizen), Pudding (Mi), Obst",
    "A(B)C(D)",
    "A (mi, MI, Mi)",
];

#[test]
fn grammars_agree_with_patterns_on_fixed_inputs() {
    for s in FIXED {
        check(s);
    }
}

#[test]
fn grammars_agree_with_patterns_on_generated_inputs() {
    let alphabet: Vec<char> = vec![
        'a', 'B', ' ', ' ', '\n', '\t', '(', ')', ',', 'M', 'i', '<', '>', '&', ';', '\x1b', '[',
        'm', '1', '\u{a0}', 'ä',
    ];
    let mut state: u64 = 0x2545_f491_4f6c_dd1d;
    for _ in 0..4000 {
        state = state.wrapping_mul(6364136223846793005).wrapping_add(1442695040888963407);
        let len = (state >> 59) as usize;
        let mut s = String::new();
        for _ in 0..len {
            state = state.wrapping_mul(6364136223846793005).wrapping_add(1442695040888963407);
            s.push(alphabet[(state >> 33) as usize % alphabet.len()]);
        }
        check(&s);
    }
}
