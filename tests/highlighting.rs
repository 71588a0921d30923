use tte::highlighting::{highlight, Context, HighlightRules, Type};
use tte::highlighting::Type::{Character as H, Comment as C, Normal as N, Number as D, String as S};
use tte::row::Row;

fn chars(s: &str) -> Vec<char> {
    s.chars().collect()
}

fn hash_rules() -> HighlightRules {
    HighlightRules {
        numbers: true,
        strings: true,
        max_char_len: 0,
        comment: Some('#'),
        comment_double: false,
        block_comment: None,
    }
}

fn slash_rules() -> HighlightRules {
    HighlightRules {
        numbers: true,
        strings: true,
        max_char_len: 4,
        comment: Some('/'),
        comment_double: true,
        block_comment: Some((('/', '*'), ('*', '/'))),
    }
}

#[test]
fn hash_comment_row_is_all_comment() {
    let row = Row::new(chars("# comment"), hash_rules(), Context::Code);
    assert_eq!(row.highlights().len(), 9);
    assert!(row.highlights().iter().all(|t| *t == Type::Comment));
}

#[test]
fn numbers_are_tagged() {
    let (hl, open) = highlight(&chars("x = 12.5;"), slash_rules(), Context::Code);
    assert_eq!(hl, vec![N, N, N, N, D, D, D, D, N]);
    assert_eq!(open, Context::Code);
}

#[test]
fn digits_after_underscore_or_other_letters() {
    let (hl, _) = highlight(&chars("_1"), slash_rules(), Context::Code);
    assert_eq!(hl, vec![N, D]);
    let (acc, _) = highlight(&chars("é1 x2"), slash_rules(), Context::Code);
    assert_eq!(acc, vec![N, N, N, N, N]);
}

#[test]
fn digits_after_letters_are_not_numbers() {
    let (hl, _) = highlight(&chars("x12"), slash_rules(), Context::Code);
    assert_eq!(hl, vec![Type::Normal, Type::Normal, Type::Normal]);
}

#[test]
fn single_dot_only_inside_number() {
    let (hl, _) = highlight(&chars("1.2.3"), slash_rules(), Context::Code);
    assert_eq!(hl, vec![D, D, D, N, D]);
}

#[test]
fn string_with_escape_and_close() {
    let (hl, open) = highlight(&chars("a\"b\\\"c\"d"), slash_rules(), Context::Code);
    assert_eq!(hl, vec![N, S, S, S, S, S, S, N]);
    assert_eq!(open, Context::Code);
}

#[test]
fn unterminated_string_carries_over() {
    let (hl, open) = highlight(&chars("s = \"ab"), slash_rules(), Context::Code);
    assert_eq!(hl[4], Type::String);
    assert_eq!(hl[6], Type::String);
    assert_eq!(open, Context::InString);
    let (next, still) = highlight(&chars("cd\" 5"), slash_rules(), Context::InString);
    assert_eq!(next, vec![S, S, S, N, D]);
    assert_eq!(still, Context::Code);
}

#[test]
fn comment_marker_inside_string_is_not_comment() {
    let (hl, _) = highlight(&chars("\"//\" // x"), slash_rules(), Context::Code);
    assert_eq!(hl, vec![S, S, S, S, N, C, C, C, C]);
}

#[test]
fn single_slash_is_not_a_comment() {
    let (hl, _) = highlight(&chars("a / b"), slash_rules(), Context::Code);
    assert!(hl.iter().all(|t| *t == Type::Normal));
}

#[test]
fn plain_rules_tag_nothing() {
    let rules = HighlightRules {
        numbers: false,
        strings: false,
        max_char_len: 0,
        comment: None,
        comment_double: false,
        block_comment: None,
    };
    let (hl, open) = highlight(&chars("\"12\" # x"), rules, Context::Code);
    assert!(hl.iter().all(|t| *t == Type::Normal));
    assert_eq!(open, Context::Code);
}

#[test]
fn colours_of_categories() {
    assert_eq!(Type::Number.to_rgb(), (220, 163, 163));
    assert_eq!(Type::Match.to_rgb(), (38, 139, 210));
    assert_eq!(Type::String.to_rgb(), (211, 54, 130));
    assert_eq!(Type::Character.to_rgb(), (108, 113, 196));
    assert_eq!(Type::Comment.to_rgb(), (133, 153, 0));
    assert_eq!(Type::Normal.to_rgb(), (255, 255, 255));
}

#[test]
fn empty_row_has_no_highlights() {
    let (hl, open) = highlight(&Vec::new(), slash_rules(), Context::Code);
    assert!(hl.is_empty());
    assert_eq!(open, Context::Code);
    let (_, carried) = highlight(&Vec::new(), slash_rules(), Context::InString);
    assert_eq!(carried, Context::InString);
}

#[test]
fn character_literals() {
    let (hl, _) = highlight(&chars("c = 'x';"), slash_rules(), Context::Code);
    assert_eq!(hl, vec![N, N, N, N, H, H, H, N]);
    let (esc, _) = highlight(&chars("'\\''"), slash_rules(), Context::Code);
    assert_eq!(esc, vec![H, H, H, H]);
    let (long, _) = highlight(&chars("'abcdef'"), slash_rules(), Context::Code);
    assert!(long.iter().all(|t| *t == Type::Normal));
}

#[test]
fn block_comment_spans_rows() {
    let (hl, open) = highlight(&chars("a /* b"), slash_rules(), Context::Code);
    assert_eq!(hl, vec![N, N, C, C, C, C]);
    assert_eq!(open, Context::InComment);
    let (next, closed) = highlight(&chars("c */ 1"), slash_rules(), open);
    assert_eq!(next, vec![C, C, C, C, N, D]);
    assert_eq!(closed, Context::Code);
    let (tight, still) = highlight(&chars("/*/"), slash_rules(), Context::Code);
    assert_eq!(tight, vec![C, C, C]);
    assert_eq!(still, Context::InComment);
}
