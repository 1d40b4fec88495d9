use mensa::display::{strip_tags, visible_len, wrap_line, DisplayError};
use mensa::style::{style_category, style_danger, style_dim, style_header};

#[test]
fn styles_wrap_text_in_escape_sequences() {
    assert_eq!(style_danger("Mi"), "\x1b[31m\x1b[1mMi\x1b[0m");
    assert_eq!(style_category("Pasta"), "\x1b[36mPasta\x1b[0m");
    assert_eq!(style_dim("2,40 €"), "\x1b[2m2,40 €\x1b[0m");
    assert_eq!(style_header(""), "\x1b[1m\x1b[0m");
}

#[test]
fn styling_never_changes_visible_length() {
    for t in ["", "Pudding", "1m", "[0m", "\x1b[3", "ä ö ü", "\x1b[31mx"] {
        let n = visible_len(t).unwrap();
        assert_eq!(visible_len(&style_danger(t)).unwrap(), n);
        assert_eq!(visible_len(&style_category(t)).unwrap(), n);
        assert_eq!(visible_len(&style_dim(t)).unwrap(), n);
        assert_eq!(visible_len(&style_header(t)).unwrap(), n);
    }
}

#[test]
fn visible_len_counts_characters_outside_escape_sequences() {
    assert_eq!(visible_len("").unwrap(), 0);
    assert_eq!(visible_len("äöü").unwrap(), 3);
    assert_eq!(visible_len("\x1b[1;31mab\x1b[0m").unwrap(), 2);
    assert_eq!(visible_len("\x1b[12").unwrap(), 4);
}

#[test]
fn strip_tags_removes_markup_and_decodes_entities() {
    assert_eq!(strip_tags("  <i class=\"price\">2,40&nbsp;&euro;</i> ").unwrap(), "2,40\u{a0}€");
    assert_eq!(strip_tags("a <> b").unwrap(), "a <> b");
    assert_eq!(strip_tags("<b>Salz &amp; Pfeffer</b>").unwrap(), "Salz & Pfeffer");
    assert_eq!(strip_tags("   ").unwrap(), "");
}

#[test]
fn wrap_line_fills_lines_to_the_width() {
    let text = "aaaa bbbb cccc dddd eeee ffff gggg";
    let out = wrap_line("> ", text, 22).unwrap();
    assert_eq!(out, "> aaaa bbbb cccc dddd\n  eeee ffff gggg");
    for line in out.lines() {
        assert!(visible_len(line).unwrap() <= 22);
    }
}

#[test]
fn wrap_line_keeps_an_overlong_word_on_its_own_line() {
    let out = wrap_line("", "short averyveryverylongwordthatdoesnotfit end", 20).unwrap();
    assert_eq!(out, "short\naveryveryverylongwordthatdoesnotfit\nend");
}

#[test]
fn wrap_line_leaves_text_alone_when_too_little_room() {
    assert_eq!(wrap_line("prefix ", "a b c", 26).unwrap(), "prefix a b c");
    assert_eq!(wrap_line("prefix ", "a b c", 3).unwrap(), "prefix a b c");
}

#[test]
fn wrap_line_measures_styled_text_by_what_shows() {
    let red = style_danger("MILCH");
    let text = format!("{red} aaaaaaaaaaaa bbbbbbbbbb");
    let out = wrap_line("", &text, 20).unwrap();
    assert_eq!(out, format!("{red} aaaaaaaaaaaa\nbbbbbbbbbb"));
}

#[test]
fn wrap_line_of_empty_text_is_the_prefix() {
    assert_eq!(wrap_line("  x ", "", 40).unwrap(), "  x ");
}

#[test]
fn display_error_messages() {
    assert_eq!(
        DisplayError::VisibleLength("bad".to_owned()).message(),
        "Failed to parse visible length: bad"
    );
    assert_eq!(DisplayError::Regex("bad".to_owned()).message(), "Regex error: bad");
}
