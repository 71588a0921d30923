use tte::document::{rules_for_name, Document};
use tte::editor::Position;
use tte::highlighting::Type;
use tte::search::SearchDirection;

fn chars(s: &str) -> Vec<char> {
    s.chars().collect()
}

fn lines(d: &Document) -> Vec<String> {
    (0..d.len()).map(|i| d.row(i).unwrap().chars().iter().collect()).collect()
}

fn doc(text: &str) -> Document {
    Document::open(&chars(text), None)
}

#[test]
fn open_then_save_is_unchanged() {
    for text in ["", "a", "a\nb", "a\nb\n", "\n\n", "x\t\"y\"\n# z"] {
        let d = Document::open(&chars(text), Some(chars("f.py")));
        assert!(!d.is_dirty());
        assert_eq!(d.contents(), chars(text));
        assert!(!d.is_dirty());
    }
}

#[test]
fn open_splits_lines() {
    let d = doc("hello\nworld\n");
    assert_eq!(lines(&d), vec!["hello", "world", ""]);
    let e = doc("");
    assert_eq!(lines(&e), vec![""]);
    assert!(!e.is_empty());
}

#[test]
fn delete_at_end_of_last_row_is_no_op() {
    let mut d = doc("abc");
    d.delete(Position { x: 3, y: 0 });
    assert_eq!(lines(&d), vec!["abc"]);
    assert!(!d.is_dirty());
    d.delete(Position { x: 0, y: 5 });
    assert_eq!(lines(&d), vec!["abc"]);
    assert!(!d.is_dirty());
}

#[test]
fn delete_merges_rows() {
    let mut d = doc("ab\ncd");
    d.delete(Position { x: 2, y: 0 });
    assert_eq!(lines(&d), vec!["abcd"]);
    assert!(d.is_dirty());
    d.delete(Position { x: 1, y: 0 });
    assert_eq!(lines(&d), vec!["acd"]);
}

#[test]
fn insert_newline_splits_row() {
    let mut d = doc("hello\nworld");
    d.insert(Position { x: 5, y: 0 }, '\n');
    assert_eq!(lines(&d), vec!["hello", "", "world"]);
    d.insert(Position { x: 2, y: 2 }, '\n');
    assert_eq!(lines(&d), vec!["hello", "", "wo", "rld"]);
    assert!(d.is_dirty());
}

#[test]
fn insert_clamps_row_and_column() {
    let mut d = doc("ab\ncd");
    d.insert(Position { x: 99, y: 99 }, 'x');
    assert_eq!(lines(&d), vec!["ab", "cdx"]);
}

#[test]
fn string_state_cascades_to_following_rows() {
    let mut d = Document::open(&chars("a\nb\nc"), Some(chars("m.rs")));
    d.insert(Position { x: 0, y: 0 }, '"');
    assert_eq!(d.row(1).unwrap().highlights(), &vec![Type::String]);
    assert_eq!(d.row(2).unwrap().highlights(), &vec![Type::String]);
    d.delete(Position { x: 0, y: 0 });
    assert_eq!(d.row(2).unwrap().highlights(), &vec![Type::Normal]);
}

#[test]
fn find_forward_then_past_last_match() {
    let d = doc("hello\nworld");
    let q = chars("lo");
    assert_eq!(d.find(&q, Position { x: 0, y: 0 }, SearchDirection::Forward), Some(Position { x: 3, y: 0 }));
    assert_eq!(d.find(&q, Position { x: 4, y: 0 }, SearchDirection::Forward), None);
}

#[test]
fn find_backward() {
    let d = doc("lo\nhello\nworld");
    let q = chars("lo");
    assert_eq!(d.find(&q, Position { x: 3, y: 1 }, SearchDirection::Backward), Some(Position { x: 0, y: 0 }));
    assert_eq!(d.find(&q, Position { x: 4, y: 1 }, SearchDirection::Backward), Some(Position { x: 3, y: 1 }));
    assert_eq!(d.find(&q, Position { x: 0, y: 0 }, SearchDirection::Backward), None);
    assert_eq!(d.find(&chars("or"), Position { x: 0, y: 9 }, SearchDirection::Backward), Some(Position { x: 1, y: 2 }));
}

#[test]
fn find_empty_query_is_none() {
    let d = doc("hello\nworld");
    for y in 0..3 {
        for x in 0..6 {
            assert_eq!(d.find(&Vec::new(), Position { x, y }, SearchDirection::Forward), None);
            assert_eq!(d.find(&Vec::new(), Position { x, y }, SearchDirection::Backward), None);
        }
    }
}

#[test]
fn file_type_from_extension() {
    assert_eq!(rules_for_name(&Some(chars("a.rs"))).comment, Some('/'));
    assert_eq!(rules_for_name(&Some(chars("run.sh"))).comment, Some('#'));
    assert_eq!(rules_for_name(&Some(chars("notes"))).comment, None);
    assert!(!rules_for_name(&None).numbers);
}

#[test]
fn naming_file_rehighlights() {
    let mut d = doc("# 1");
    assert_eq!(d.row(0).unwrap().highlights(), &vec![Type::Normal; 3]);
    d.set_file_name(chars("x.py"));
    assert_eq!(d.row(0).unwrap().highlights(), &vec![Type::Comment; 3]);
    assert_eq!(d.file_name(), &Some(chars("x.py")));
    assert!(!d.is_dirty());
}

#[test]
fn saving_clears_dirty() {
    let mut d = doc("a");
    d.insert(Position { x: 1, y: 0 }, 'b');
    assert!(d.is_dirty());
    d.mark_saved();
    assert!(!d.is_dirty());
    assert_eq!(d.contents(), chars("ab"));
}

#[test]
fn block_comment_cascades_and_closes() {
    let mut d = Document::open(&chars("x\ny\n*/ 2"), Some(chars("m.c")));
    d.insert(Position { x: 0, y: 0 }, '*');
    d.insert(Position { x: 0, y: 0 }, '/');
    assert_eq!(d.row(1).unwrap().highlights(), &vec![Type::Comment]);
    assert_eq!(d.row(2).unwrap().highlights(), &vec![Type::Comment, Type::Comment, Type::Normal, Type::Number]);
    assert!(d.row(0).unwrap().is_highlighted());
    assert!(!d.row(2).unwrap().is_highlighted());
}
