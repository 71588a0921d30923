use tte::highlighting::{Context, HighlightRules, Type};
use tte::highlighting::Type::{Match as M, Normal as N, Number as D};
use tte::row::{raw_to_render_x, render_line, render_to_raw_x, Row};

fn chars(s: &str) -> Vec<char> {
    s.chars().collect()
}

fn rules() -> HighlightRules {
    HighlightRules {
        numbers: true,
        strings: true,
        max_char_len: 4,
        comment: Some('/'),
        comment_double: true,
        block_comment: Some((('/', '*'), ('*', '/'))),
    }
}

#[test]
fn tab_expands_to_next_stop() {
    let row = Row::new(chars("\tab\tc"), rules(), Context::Code);
    assert_eq!(row.rendered().iter().collect::<String>(), "        ab      c");
    assert_eq!(render_line(&chars("a\tb"), 4), chars("a   b"));
    assert_eq!(render_line(&chars("\t"), 1), chars(" "));
}

#[test]
fn render_x_maps_through_tabs() {
    let raw = chars("a\tb");
    assert_eq!(raw_to_render_x(&raw, 0, 8), 0);
    assert_eq!(raw_to_render_x(&raw, 1, 8), 1);
    assert_eq!(raw_to_render_x(&raw, 2, 8), 8);
    assert_eq!(raw_to_render_x(&raw, 3, 8), 9);
    assert_eq!(render_to_raw_x(&raw, 5, 8), 1);
    assert_eq!(render_to_raw_x(&raw, 8, 8), 2);
    assert_eq!(render_to_raw_x(&raw, 100, 8), 3);
}

#[test]
fn render_x_round_trip_for_several_tab_widths() {
    let raw = chars("\tx\t\tyz\t");
    for tab in 1..10usize {
        for i in 0..=raw.len() {
            let rx = raw_to_render_x(&raw, i, tab);
            assert_eq!(render_to_raw_x(&raw, rx, tab), i);
        }
    }
}

#[test]
fn insert_keeps_highlights_in_step() {
    let mut row = Row::new(chars("ab"), rules(), Context::Code);
    row.insert(1, '7');
    assert_eq!(row.chars(), &chars("a7b"));
    assert_eq!(row.highlights().len(), row.len());
    row.insert(100, '9');
    assert_eq!(row.chars(), &chars("a7b9"));
    row.delete(0);
    assert_eq!(row.chars(), &chars("7b9"));
    assert_eq!(row.highlights().len(), row.len());
    assert_eq!(row.highlights()[0], Type::Number);
}

#[test]
fn insert_then_delete_restores_row() {
    let mut row = Row::new(chars("x = 1; // c"), rules(), Context::Code);
    let raw = row.chars().clone();
    let hl = row.highlights().clone();
    let rendered = row.rendered().clone();
    row.insert(4, '"');
    assert_ne!(row.highlights(), &hl);
    row.delete(4);
    assert_eq!(row.chars(), &raw);
    assert_eq!(row.highlights(), &hl);
    assert_eq!(row.rendered(), &rendered);
}

#[test]
fn delete_at_end_is_no_op() {
    let mut row = Row::new(chars("abc"), rules(), Context::Code);
    row.delete(3);
    row.delete(99);
    assert_eq!(row.chars(), &chars("abc"));
}

#[test]
fn split_and_append() {
    let mut row = Row::new(chars("hello"), rules(), Context::Code);
    let right = row.split(2);
    assert_eq!(row.chars(), &chars("he"));
    assert_eq!(right.chars(), &chars("llo"));
    row.append(right);
    assert_eq!(row.chars(), &chars("hello"));
    let tail = row.split(50);
    assert!(tail.is_empty());
}

#[test]
fn split_carries_open_string() {
    let mut row = Row::new(chars("a\"bc"), rules(), Context::Code);
    let right = row.split(2);
    assert!(row.is_highlighted());
    assert!(right.start_context() == Context::InString);
    assert_eq!(right.highlights(), &vec![Type::String, Type::String]);
}

#[test]
fn render_window_clips() {
    let row = Row::new(chars("abcdef"), rules(), Context::Code);
    assert_eq!(row.render(1, 3), chars("bc"));
    assert_eq!(row.render(4, 100), chars("ef"));
    assert_eq!(row.render(10, 20), Vec::<char>::new());
    assert_eq!(row.render(3, 2), Vec::<char>::new());
}

#[test]
fn match_overlay_marks_occurrences_only_in_copy() {
    let row = Row::new(chars("lolol 1"), rules(), Context::Code);
    let marked = row.highlights_with_match(&chars("lo"));
    assert_eq!(marked, vec![M, M, M, M, N, N, D]);
    assert_eq!(row.highlights(), &vec![N, N, N, N, N, N, D]);
    assert_eq!(row.highlights_with_match(&Vec::new()), row.highlights().clone());
}

#[test]
fn row_x_methods_clamp() {
    let row = Row::new(chars("\tx"), rules(), Context::Code);
    assert_eq!(row.raw_to_render_x(1), 8);
    assert_eq!(row.raw_to_render_x(50), 9);
    assert_eq!(row.render_to_raw_x(3), 0);
}

#[test]
fn categories_per_rendered_column() {
    let row = Row::new(chars("\t1 lo"), rules(), Context::Code);
    let cats = row.render_highlights(&chars("lo"), 6, 100);
    assert_eq!(cats, vec![N, N, D, N, M, M]);
    assert!(row.render_highlights(&Vec::new(), 20, 30).is_empty());
}
