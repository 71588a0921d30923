use tte::document::Document;
use tte::editor::{compose_status, SearchKey, to_ctrl_byte, to_decimal, welcome_line, Action, Command, Direction, Editor, Position};
use tte::search::SearchDirection;
use tte::terminal::{Size, Terminal};
use tte::highlighting::Type;

fn chars(s: &str) -> Vec<char> {
    s.chars().collect()
}

fn editor(text: &str, width: u16, height: u16) -> Editor {
    Editor::with_document(Terminal::new(Size { width, height }), Document::open(&chars(text), None))
}

fn lines(e: &Editor) -> Vec<String> {
    let d = e.document();
    (0..d.len()).map(|i| d.row(i).unwrap().chars().iter().collect()).collect()
}

#[test]
fn enter_at_end_of_row() {
    let mut e = editor("hello\nworld", 80, 24);
    e.set_cursor_position(Position { x: 5, y: 0 });
    assert_eq!(e.cursor_position(), Position { x: 5, y: 0 });
    assert_eq!(e.process_command(Command::InsertNewline), Action::Redraw);
    assert_eq!(lines(&e), vec!["hello", "", "world"]);
    assert_eq!(e.cursor_position(), Position { x: 0, y: 1 });
}

#[test]
fn quit_with_unsaved_changes_needs_three() {
    let mut e = editor("abc", 80, 24);
    e.process_command(Command::InsertChar('x'));
    assert!(e.document().is_dirty());
    assert_eq!(e.process_command(Command::Quit), Action::QuitWarning(2));
    assert!(!e.should_quit());
    assert_eq!(e.quit_times(), 2);
    assert_eq!(e.process_command(Command::Quit), Action::QuitWarning(1));
    assert!(!e.should_quit());
    assert_eq!(e.quit_times(), 1);
    e.process_command(Command::Quit);
    assert!(e.should_quit());
}

#[test]
fn other_command_resets_quit_counter() {
    let mut e = editor("abc", 80, 24);
    e.process_command(Command::DeleteForward);
    e.process_command(Command::Quit);
    assert_eq!(e.quit_times(), 2);
    e.process_command(Command::Move(Direction::Right));
    assert_eq!(e.quit_times(), 3);
    assert!(!e.should_quit());
}

#[test]
fn quit_clean_document_at_once() {
    let mut e = Editor::default(Terminal::new(Size { width: 80, height: 24 }));
    assert_eq!(e.process_command(Command::Quit), Action::Redraw);
    assert!(e.should_quit());
}

#[test]
fn typing_and_backspace() {
    let mut e = editor("", 80, 24);
    for c in "ab".chars() {
        e.process_command(Command::InsertChar(c));
    }
    e.process_command(Command::InsertNewline);
    e.process_command(Command::InsertChar('c'));
    assert_eq!(lines(&e), vec!["ab", "c"]);
    assert_eq!(e.cursor_position(), Position { x: 1, y: 1 });
    e.process_command(Command::DeleteBackward);
    e.process_command(Command::DeleteBackward);
    assert_eq!(lines(&e), vec!["ab"]);
    assert_eq!(e.cursor_position(), Position { x: 2, y: 0 });
    e.set_cursor_position(Position { x: 0, y: 0 });
    e.process_command(Command::DeleteBackward);
    assert_eq!(lines(&e), vec!["ab"]);
}

#[test]
fn cursor_wraps_and_clamps() {
    let mut e = editor("abcd\nx\n", 80, 24);
    e.process_command(Command::Move(Direction::End));
    assert_eq!(e.cursor_position(), Position { x: 4, y: 0 });
    e.process_command(Command::Move(Direction::Down));
    assert_eq!(e.cursor_position(), Position { x: 1, y: 1 });
    e.process_command(Command::Move(Direction::Right));
    assert_eq!(e.cursor_position(), Position { x: 0, y: 2 });
    e.process_command(Command::Move(Direction::Down));
    assert_eq!(e.cursor_position(), Position { x: 0, y: 2 });
    e.process_command(Command::Move(Direction::Left));
    assert_eq!(e.cursor_position(), Position { x: 1, y: 1 });
    e.process_command(Command::Move(Direction::PageUp));
    assert_eq!(e.cursor_position(), Position { x: 1, y: 0 });
    e.process_command(Command::Move(Direction::Home));
    e.process_command(Command::Move(Direction::Left));
    assert_eq!(e.cursor_position(), Position { x: 0, y: 0 });
    e.process_command(Command::Move(Direction::PageDown));
    assert_eq!(e.cursor_position(), Position { x: 0, y: 2 });
}

#[test]
fn scrolling_follows_cursor() {
    let text = (0..10).map(|i| i.to_string()).collect::<Vec<_>>().join("\n");
    let mut e = editor(&text, 4, 5);
    for _ in 0..5 {
        e.process_command(Command::Move(Direction::Down));
    }
    assert_eq!(e.offset(), Position { x: 0, y: 3 });
    e.process_command(Command::Move(Direction::PageUp));
    assert_eq!(e.cursor_position(), Position { x: 0, y: 2 });
    assert_eq!(e.offset(), Position { x: 0, y: 2 });
    let mut w = editor("\tabcdef", 4, 5);
    w.process_command(Command::Move(Direction::End));
    assert_eq!(w.offset(), Position { x: 11, y: 0 });
}

#[test]
fn save_and_find_commands_ask_caller() {
    let mut e = editor("abc", 80, 24);
    assert_eq!(e.process_command(Command::Save), Action::Save);
    assert_eq!(e.process_command(Command::Find), Action::Find);
    assert_eq!(lines(&e), vec!["abc"]);
}

#[test]
fn search_moves_cursor() {
    let mut e = editor("hello\nworld", 80, 24);
    assert!(e.find_from_cursor(&chars("lo"), SearchDirection::Forward));
    assert_eq!(e.cursor_position(), Position { x: 3, y: 0 });
    e.process_command(Command::Move(Direction::Right));
    assert!(!e.find_from_cursor(&chars("lo"), SearchDirection::Forward));
    assert_eq!(e.cursor_position(), Position { x: 4, y: 0 });
    assert!(e.find_from_cursor(&chars("h"), SearchDirection::Backward));
    assert_eq!(e.cursor_position(), Position { x: 0, y: 0 });
}

#[test]
fn saved_document_is_clean() {
    let mut e = editor("a", 80, 24);
    e.process_command(Command::InsertChar('b'));
    e.document_saved();
    assert!(!e.document().is_dirty());
    e.process_command(Command::Quit);
    assert!(e.should_quit());
}

#[test]
fn welcome_message_is_centred_and_cut() {
    assert_eq!(welcome_line(&chars("hi"), 10), chars("~   hi"));
    assert_eq!(welcome_line(&chars("hello"), 3), chars("~he"));
    assert_eq!(welcome_line(&chars("ab"), 0), Vec::<char>::new());
}

#[test]
fn screen_rows() {
    let e = Editor::default(Terminal::new(Size { width: 12, height: 8 }));
    let rows = e.draw_rows(&chars("hi"));
    assert_eq!(rows.len(), 6);
    assert_eq!(rows[0], Vec::<char>::new());
    assert_eq!(rows[1], chars("~"));
    assert_eq!(rows[2], chars("~    hi"));
    let f = editor("abcdef\nxy", 3, 5);
    let rows = f.draw_rows(&chars("hi"));
    assert_eq!(rows, vec![chars("abc"), chars("xy"), chars("~")]);
}

#[test]
fn ctrl_byte() {
    assert_eq!(to_ctrl_byte('q'), 17);
    assert_eq!(to_ctrl_byte('a'), 1);
}

#[test]
fn terminal_size() {
    let t = Terminal::new(Size { width: 7, height: 3 });
    assert_eq!(*t.size(), Size { width: 7, height: 3 });
    let e = Editor::default(Terminal::new(Size { width: 7, height: 3 }));
    assert_eq!(*e.terminal().size(), Size { width: 7, height: 3 });
    assert_eq!(e.cursor_position(), Position { x: 0, y: 0 });
}

#[test]
fn search_session_steps() {
    let mut e = editor("lo lo\nlo", 80, 24);
    let q = chars("lo");
    assert!(e.search_step(&q, None));
    assert_eq!(e.cursor_position(), Position { x: 0, y: 0 });
    assert!(e.search_step(&q, Some(Direction::Right)));
    assert_eq!(e.cursor_position(), Position { x: 3, y: 0 });
    assert!(e.search_step(&q, Some(Direction::Down)));
    assert_eq!(e.cursor_position(), Position { x: 0, y: 1 });
    assert!(!e.search_step(&q, Some(Direction::Right)));
    assert_eq!(e.cursor_position(), Position { x: 0, y: 1 });
    assert!(e.search_step(&q, Some(Direction::Up)));
    assert_eq!(e.cursor_position(), Position { x: 3, y: 0 });
    assert!(!e.search_step(&Vec::new(), None));
}

#[test]
fn naming_file_keeps_text_and_state() {
    let mut e = editor("# x", 80, 24);
    e.process_command(Command::InsertChar('a'));
    e.set_file_name(chars("s.sh"));
    assert_eq!(lines(&e), vec!["a# x"]);
    assert!(e.document().is_dirty());
    assert_eq!(e.cursor_position(), Position { x: 1, y: 0 });
    assert_eq!(e.document().file_name(), &Some(chars("s.sh")));
}

#[test]
fn decimal_digits() {
    assert_eq!(to_decimal(0), chars("0"));
    assert_eq!(to_decimal(7), chars("7"));
    assert_eq!(to_decimal(1203), chars("1203"));
}

#[test]
fn status_line_layout() {
    let mut e = editor("a\nb", 30, 24);
    assert_eq!(e.status_line(), chars("[NO NAME] - 2 lines        1/2"));
    e.process_command(Command::InsertChar('x'));
    e.set_file_name(chars("a_rather_long_file_name.txt"));
    let line: String = e.status_line().iter().collect();
    assert_eq!(line, "a_rather_long_file_name.txt - ");
    let mut wide = editor("a", 60, 24);
    wide.process_command(Command::InsertChar('b'));
    wide.set_file_name(chars("a_rather_long_file_name.txt"));
    let full: String = wide.status_line().iter().collect();
    assert_eq!(full, "a_rather_long_file_name.txt - 1 lines (modified)         1/1");
    let small = editor("", 12, 24);
    assert_eq!(small.status_line(), chars("[NO NAME] - "));
}

#[test]
fn status_composition() {
    assert_eq!(compose_status(chars("ab"), &chars("cd"), 7), chars("ab   cd"));
    assert_eq!(compose_status(chars("ab"), &chars("cd"), 4), chars("abcd"));
    assert_eq!(compose_status(chars("ab"), &chars("cd"), 3), chars("abc"));
}

#[test]
fn dirty_flag_follows_commands() {
    let mut e = editor("hello\nworld", 80, 24);
    e.process_command(Command::Move(Direction::End));
    e.process_command(Command::Save);
    e.process_command(Command::Find);
    assert!(!e.document().is_dirty());
    e.set_cursor_position(Position { x: 5, y: 1 });
    e.process_command(Command::DeleteForward);
    assert!(!e.document().is_dirty());
    e.process_command(Command::InsertNewline);
    assert!(e.document().is_dirty());
    e.document_saved();
    e.process_command(Command::Move(Direction::Up));
    assert!(!e.document().is_dirty());
    e.process_command(Command::Quit);
    assert!(e.should_quit());
}

#[test]
fn drawn_categories_follow_raw_characters() {
    let doc = Document::open(&chars("# comment\n\t1"), Some(chars("x.py")));
    let e = Editor::with_document(Terminal::new(Size { width: 20, height: 5 }), doc);
    let cats = e.draw_highlights(&Vec::new());
    assert_eq!(cats.len(), 3);
    assert_eq!(cats[0], vec![Type::Comment; 9]);
    let mut second = vec![Type::Normal; 8];
    second.push(Type::Number);
    assert_eq!(cats[1], second);
    assert!(cats[2].is_empty());
    let marked = e.draw_highlights(&chars("com"));
    assert_eq!(marked[0][2], Type::Match);
    assert_eq!(marked[0][5], Type::Comment);
}

#[test]
fn cursor_on_screen() {
    let mut e = editor("\tab", 4, 5);
    e.process_command(Command::Move(Direction::End));
    assert_eq!(e.offset(), Position { x: 7, y: 0 });
    assert_eq!(e.screen_cursor(), Position { x: 3, y: 0 });
}

#[test]
fn search_session_keys() {
    let mut e = editor("abc\nxbc", 80, 24);
    e.set_cursor_position(Position { x: 1, y: 1 });
    let mut s = e.search_begin();
    assert!(!e.search_key(&mut s, SearchKey::Char('b')));
    assert_eq!(e.cursor_position(), Position { x: 1, y: 1 });
    assert!(!e.search_key(&mut s, SearchKey::Nav(Direction::Up)));
    assert_eq!(e.cursor_position(), Position { x: 1, y: 0 });
    assert!(!e.search_key(&mut s, SearchKey::Char('z')));
    assert_eq!(e.cursor_position(), Position { x: 1, y: 0 });
    assert!(!e.search_key(&mut s, SearchKey::Backspace));
    assert_eq!(s.query, chars("b"));
    assert!(e.search_key(&mut s, SearchKey::Escape));
    assert_eq!(e.cursor_position(), Position { x: 1, y: 1 });
    assert!(s.query.is_empty());
    let mut t = e.search_begin();
    e.search_key(&mut t, SearchKey::Char('a'));
    assert!(e.search_key(&mut t, SearchKey::Enter));
    assert_eq!(e.cursor_position(), Position { x: 1, y: 1 });
}
