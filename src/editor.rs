use vstd::prelude::*;
use crate::document::{Document, delete_changes, find_result, lines_after_delete, lines_after_insert, name_view};
use crate::row::{column_categories, render_x, window, MAX_ROW_LEN, TAB_STOP};
use crate::highlighting::Type;
use crate::search::SearchDirection;
use crate::terminal::{Size, Terminal};

verus! {

/// A column and a row index.
#[derive(Clone, Copy, PartialEq, Eq, Debug, Structural)]
pub struct Position {
    pub x: usize,
    pub y: usize,
}

/// How many Quit commands in a row close a document with unsaved changes.
pub const QUIT_TIMES: u8 = 3;

/// A cursor motion.
#[derive(Clone, Copy, PartialEq, Eq, Debug, Structural)]
pub enum Direction {
    Up,
    Down,
    Left,
    Right,
    PageUp,
    PageDown,
    Home,
    End,
}

/// An editing command.
#[derive(Clone, Copy, PartialEq, Eq, Debug, Structural)]
pub enum Command {
    InsertChar(char),
    InsertNewline,
    DeleteForward,
    DeleteBackward,
    Move(Direction),
    Save,
    Find,
    Quit,
}

/// What the caller has to do after a command.
#[derive(Clone, Copy, PartialEq, Eq, Debug, Structural)]
pub enum Action {
    /// Nothing beyond redrawing.
    Redraw,
    /// Write the document to its file.
    Save,
    /// Run a search session.
    Find,
    /// Warn that the document has unsaved changes; the count is the number
    /// of further Quit commands that close it.
    QuitWarning(u8),
}

/// Length of row `y`, or zero past the last row.
pub open spec fn line_len(ls: Seq<Seq<char>>, y: int) -> int {
    if 0 <= y < ls.len() {
        ls[y].len() as int
    } else {
        0
    }
}

pub open spec fn valid_cursor(ls: Seq<Seq<char>>, p: Position) -> bool {
    (p.y as int) < ls.len() && (p.x as int) <= ls[p.y as int].len()
}

/// The cursor after a motion in a document with lines `ls`, when a page
/// holds `page` rows. Left and Right wrap to the neighbouring rows; after the
/// motion the column is clamped to the row's length.
pub open spec fn moved(ls: Seq<Seq<char>>, p: Position, dir: Direction, page: int) -> Position {
    let n = ls.len() as int;
    let x = p.x as int;
    let y = p.y as int;
    let (nx, ny) = match dir {
        Direction::Up => (x, if y > 0 { y - 1 } else { 0 }),
        Direction::Down => (x, if y + 1 < n { y + 1 } else { y }),
        Direction::Left => if x > 0 {
            (x - 1, y)
        } else if y > 0 {
            (line_len(ls, y - 1), y - 1)
        } else {
            (x, y)
        },
        Direction::Right => if x < line_len(ls, y) {
            (x + 1, y)
        } else if y + 1 < n {
            (0, y + 1)
        } else {
            (x, y)
        },
        Direction::PageUp => (x, if y > page { y - page } else { 0 }),
        Direction::PageDown => (x, if y + page < n { y + page } else { n - 1 }),
        Direction::Home => (0, y),
        Direction::End => (line_len(ls, y), y),
    };
    Position {
        x: (if nx <= line_len(ls, ny) { nx } else { line_len(ls, ny) }) as usize,
        y: ny as usize,
    }
}

/// Rows of text the viewport shows for a terminal of `height` rows: two are
/// kept for the status and message lines, and at least one is shown.
pub open spec fn text_rows(height: u16) -> int {
    if height > 2 {
        height - 2
    } else {
        1
    }
}

/// The least change of `off` that brings `pos` into `[off, off + len)`.
pub open spec fn scrolled(off: int, pos: int, len: int) -> int {
    if pos < off {
        pos
    } else if pos >= off + len {
        pos - len + 1
    } else {
        off
    }
}

/// The quit counter and the quit decision after a Quit command.
pub open spec fn quit_step(dirty: bool, quit_times: u8) -> (bool, u8) {
    if dirty && quit_times > 1 {
        (false, (quit_times - 1) as u8)
    } else {
        (true, quit_times)
    }
}

/// With unsaved changes and a full counter, the first two Quit commands
/// leave the editor open and count down, and the third closes it.
pub proof fn lemma_quit_confirmation()
    ensures
        quit_step(true, QUIT_TIMES) == (false, 2u8),
        quit_step(true, 2) == (false, 1u8),
        quit_step(true, 1).0,
        forall|t: u8| quit_step(false, t).0,
{
}

/// The editor: a document, the cursor, the viewport's offset and the quit
/// state.
pub struct Editor {
    should_quit: bool,
    terminal: Terminal,
    cursor_position: Position,
    offset: Position,
    document: Document,
    quit_times: u8,
}

impl Editor {
    pub closed spec fn should_quit_view(&self) -> bool {
        self.should_quit
    }

    pub closed spec fn cursor_view(&self) -> Position {
        self.cursor_position
    }

    pub closed spec fn offset_view(&self) -> Position {
        self.offset
    }

    pub closed spec fn document_view(&self) -> Document {
        self.document
    }

    pub closed spec fn size_view(&self) -> Size {
        self.terminal.size_view()
    }

    pub closed spec fn quit_times_view(&self) -> u8 {
        self.quit_times
    }

    pub open spec fn wf(&self) -> bool {
        &&& self.document_view().wf()
        &&& valid_cursor(self.document_view().lines(), self.cursor_view())
    }

    /// An editor on a new empty document.
    pub fn default(terminal: Terminal) -> (r: Editor)
        ensures
            r.wf(),
            r.document_view().lines() == seq![Seq::<char>::empty()],
            r.document_view().file_name_view() == None::<Seq<char>>,
            !r.document_view().dirty_view(),
            r.cursor_view() == (Position { x: 0, y: 0 }),
            r.offset_view() == (Position { x: 0, y: 0 }),
            r.size_view() == terminal.size_view(),
            !r.should_quit_view(),
            r.quit_times_view() == QUIT_TIMES,
    {
        Editor::with_document(terminal, Document::new())
    }

    /// An editor on `document`, with the cursor at its start.
    pub fn with_document(terminal: Terminal, document: Document) -> (r: Editor)
        requires
            document.wf(),
        ensures
            r.wf(),
            r.document_view() == document,
            r.cursor_view() == (Position { x: 0, y: 0 }),
            r.offset_view() == (Position { x: 0, y: 0 }),
            r.size_view() == terminal.size_view(),
            !r.should_quit_view(),
            r.quit_times_view() == QUIT_TIMES,
    {
        proof {
            document.lemma_wf();
        }
        Editor {
            should_quit: false,
            terminal,
            cursor_position: Position { x: 0, y: 0 },
            offset: Position { x: 0, y: 0 },
            document,
            quit_times: QUIT_TIMES,
        }
    }

    pub fn should_quit(&self) -> (r: bool)
        ensures
            r == self.should_quit_view(),
    {
        self.should_quit
    }

    pub fn cursor_position(&self) -> (r: Position)
        ensures
            r == self.cursor_view(),
    {
        self.cursor_position
    }

    pub fn offset(&self) -> (r: Position)
        ensures
            r == self.offset_view(),
    {
        self.offset
    }

    pub fn document(&self) -> (r: &Document)
        ensures
            *r == self.document_view(),
    {
        &self.document
    }

    pub fn quit_times(&self) -> (r: u8)
        ensures
            r == self.quit_times_view(),
    {
        self.quit_times
    }

    pub fn terminal(&self) -> (r: &Terminal)
        ensures
            r.size_view() == self.size_view(),
    {
        &self.terminal
    }

    /// Moves the cursor.
    pub fn move_cursor(&mut self, dir: Direction)
        requires
            old(self).wf(),
        ensures
            final(self).wf(),
            final(self).cursor_view() == moved(
                old(self).document_view().lines(),
                old(self).cursor_view(),
                dir,
                text_rows(old(self).size_view().height),
            ),
            final(self).document_view() == old(self).document_view(),
            final(self).size_view() == old(self).size_view(),
            final(self).should_quit_view() == old(self).should_quit_view(),
            final(self).quit_times_view() == old(self).quit_times_view(),
            final(self).offset_view() == old(self).offset_view(),
    {
        let n = self.document.len();
        let page: usize = if self.terminal.size().height > 2 {
            (self.terminal.size().height - 2) as usize
        } else {
            1
        };
        let x = self.cursor_position.x;
        let y = self.cursor_position.y;
        let (nx, ny) = match dir {
            Direction::Up => (x, if y > 0 { y - 1 } else { 0 }),
            Direction::Down => (x, if y + 1 < n { y + 1 } else { y }),
            Direction::Left => if x > 0 {
                (x - 1, y)
            } else if y > 0 {
                (self.row_len(y - 1), y - 1)
            } else {
                (x, y)
            },
            Direction::Right => if x < self.row_len(y) {
                (x + 1, y)
            } else if y + 1 < n {
                (0, y + 1)
            } else {
                (x, y)
            },
            Direction::PageUp => (x, if y > page { y - page } else { 0 }),
            Direction::PageDown => (x, if page < n - y { y + page } else { n - 1 }),
            Direction::Home => (0, y),
            Direction::End => (self.row_len(y), y),
        };
        let len = self.row_len(ny);
        self.cursor_position = Position { x: if nx <= len { nx } else { len }, y: ny };
    }

    fn row_len(&self, y: usize) -> (r: usize)
        requires
            self.document_view().wf(),
        ensures
            r == line_len(self.document_view().lines(), y as int),
    {
        match self.document.row(y) {
            Some(row) => row.len(),
            None => 0,
        }
    }
}

/// Columns the viewport shows for a terminal of `width` columns, at least one.
pub open spec fn text_cols(width: u16) -> int {
    if width > 0 {
        width as int
    } else {
        1
    }
}

/// The viewport offset after scrolling the least amount that shows the
/// cursor, measured in rendered columns.
pub open spec fn viewport_offset(ls: Seq<Seq<char>>, p: Position, off: Position, size: Size) -> Position {
    Position {
        x: scrolled(off.x as int, render_x(ls[p.y as int], p.x as int, TAB_STOP as nat) as int, text_cols(size.width)) as usize,
        y: scrolled(off.y as int, p.y as int, text_rows(size.height)) as usize,
    }
}

/// The cursor's position after a command, when the command's edit fits.
pub open spec fn cursor_after(ls: Seq<Seq<char>>, p: Position, cmd: Command, page: int) -> Position {
    match cmd {
        Command::InsertChar(c) => if c == '\n' {
            Position { x: 0, y: (p.y + 1) as usize }
        } else {
            Position { x: (p.x + 1) as usize, y: p.y }
        },
        Command::InsertNewline => Position { x: 0, y: (p.y + 1) as usize },
        Command::DeleteBackward => if p.x == 0 && p.y == 0 {
            p
        } else {
            moved(ls, p, Direction::Left, page)
        },
        Command::Move(d) => moved(ls, p, d, page),
        _ => p,
    }
}

/// The lines after a command, when its edit fits.
pub open spec fn lines_after(ls: Seq<Seq<char>>, p: Position, cmd: Command, page: int) -> Seq<Seq<char>> {
    match cmd {
        Command::InsertChar(c) => lines_after_insert(ls, p, c),
        Command::InsertNewline => lines_after_insert(ls, p, '\n'),
        Command::DeleteForward => lines_after_delete(ls, p),
        Command::DeleteBackward => if p.x == 0 && p.y == 0 {
            ls
        } else {
            lines_after_delete(ls, moved(ls, p, Direction::Left, page))
        },
        _ => ls,
    }
}

/// The dirty flag after a command whose edit fits: inserts mark the document
/// changed, deletes do so when they change something, other commands keep
/// the flag.
pub open spec fn dirty_after(ls: Seq<Seq<char>>, p: Position, cmd: Command, page: int, dirty: bool) -> bool {
    match cmd {
        Command::InsertChar(_) => true,
        Command::InsertNewline => true,
        Command::DeleteForward => dirty || delete_changes(ls, p),
        Command::DeleteBackward => if p.x == 0 && p.y == 0 {
            dirty
        } else {
            dirty || delete_changes(ls, moved(ls, p, Direction::Left, page))
        },
        _ => dirty,
    }
}

/// Commands that leave the document as it is.
pub open spec fn keeps_document(cmd: Command) -> bool {
    match cmd {
        Command::Move(_) | Command::Save | Command::Find | Command::Quit => true,
        _ => false,
    }
}

/// Whether the command's edit fits the longest row that can be held: a
/// character insertion needs room in the row, a merge needs room for both
/// rows.
pub open spec fn edit_fits(ls: Seq<Seq<char>>, p: Position, cmd: Command, page: int) -> bool {
    match cmd {
        Command::InsertChar(c) => c == '\n' || ls[p.y as int].len() < MAX_ROW_LEN,
        Command::DeleteForward => merge_fits(ls, p),
        Command::DeleteBackward => p.x == 0 && p.y == 0 || merge_fits(ls, moved(ls, p, Direction::Left, page)),
        _ => true,
    }
}

pub open spec fn merge_fits(ls: Seq<Seq<char>>, p: Position) -> bool {
    (p.y as int) + 1 < ls.len() ==> ls[p.y as int].len() + ls[p.y + 1].len() <= MAX_ROW_LEN
}

impl Editor {
    /// Moves the viewport the least amount that shows the cursor.
    pub fn scroll(&mut self)
        requires
            old(self).wf(),
        ensures
            final(self).wf(),
            final(self).offset_view() == viewport_offset(
                old(self).document_view().lines(),
                old(self).cursor_view(),
                old(self).offset_view(),
                old(self).size_view(),
            ),
            final(self).cursor_view() == old(self).cursor_view(),
            final(self).document_view() == old(self).document_view(),
            final(self).size_view() == old(self).size_view(),
            final(self).should_quit_view() == old(self).should_quit_view(),
            final(self).quit_times_view() == old(self).quit_times_view(),
    {
        let y = self.cursor_position.y;
        let rx = match self.document.row(y) {
            Some(row) => row.raw_to_render_x(self.cursor_position.x),
            None => 0,
        };
        let height: usize = if self.terminal.size().height > 2 {
            (self.terminal.size().height - 2) as usize
        } else {
            1
        };
        let width: usize = if self.terminal.size().width > 0 {
            self.terminal.size().width as usize
        } else {
            1
        };
        let oy = self.offset.y;
        let ox = self.offset.x;
        let ny = if y < oy {
            y
        } else if y - oy >= height {
            y - height + 1
        } else {
            oy
        };
        let nx = if rx < ox {
            rx
        } else if rx - ox >= width {
            rx - width + 1
        } else {
            ox
        };
        self.offset = Position { x: nx, y: ny };
    }

    /// Applies one command. Editing commands whose row would grow past the
    /// longest row that can be held change nothing.
    pub fn process_command(&mut self, cmd: Command) -> (r: Action)
        requires
            old(self).wf(),
        ensures
            final(self).wf(),
            final(self).size_view() == old(self).size_view(),
            final(self).document_view().file_name_view() == old(self).document_view().file_name_view(),
            keeps_document(cmd) ==> final(self).document_view() == old(self).document_view(),
            ({
                let ls = old(self).document_view().lines();
                let p = old(self).cursor_view();
                let page = text_rows(old(self).size_view().height);
                edit_fits(ls, p, cmd, page) ==> final(self).document_view().dirty_view() == dirty_after(
                    ls,
                    p,
                    cmd,
                    page,
                    old(self).document_view().dirty_view(),
                )
            }),
            ({
                let ls = old(self).document_view().lines();
                let p = old(self).cursor_view();
                let page = text_rows(old(self).size_view().height);
                if cmd == Command::Quit {
                    let q = quit_step(old(self).document_view().dirty_view(), old(self).quit_times_view());
                    &&& final(self).should_quit_view() == (old(self).should_quit_view() || q.0)
                    &&& final(self).quit_times_view() == q.1
                    &&& r == if q.0 { Action::Redraw } else { Action::QuitWarning(q.1) }
                    &&& final(self).document_view() == old(self).document_view()
                    &&& final(self).cursor_view() == p
                } else {
                    &&& final(self).should_quit_view() == old(self).should_quit_view()
                    &&& final(self).quit_times_view() == QUIT_TIMES
                    &&& r == match cmd {
                        Command::Save => Action::Save,
                        Command::Find => Action::Find,
                        _ => Action::Redraw,
                    }
                    &&& edit_fits(ls, p, cmd, page) ==> {
                        &&& final(self).document_view().lines() == lines_after(ls, p, cmd, page)
                        &&& final(self).cursor_view() == cursor_after(ls, p, cmd, page)
                    }
                    &&& !edit_fits(ls, p, cmd, page) ==> final(self).document_view() == old(self).document_view()
                }
            }),
            final(self).offset_view() == viewport_offset(
                final(self).document_view().lines(),
                final(self).cursor_view(),
                old(self).offset_view(),
                old(self).size_view(),
            ),
    {
        let action = match cmd {
            Command::Quit => {
                if self.document.is_dirty() && self.quit_times > 1 {
                    self.quit_times = self.quit_times - 1;
                    Action::QuitWarning(self.quit_times)
                } else {
                    self.should_quit = true;
                    Action::Redraw
                }
            },
            Command::InsertChar(c) => {
                self.quit_times = QUIT_TIMES;
                if c == '\n' {
                    self.insert_newline();
                } else {
                    self.insert_char(c);
                }
                Action::Redraw
            },
            Command::InsertNewline => {
                self.quit_times = QUIT_TIMES;
                self.insert_newline();
                Action::Redraw
            },
            Command::DeleteForward => {
                self.quit_times = QUIT_TIMES;
                self.delete_forward();
                Action::Redraw
            },
            Command::DeleteBackward => {
                self.quit_times = QUIT_TIMES;
                if self.cursor_position.x > 0 || self.cursor_position.y > 0 {
                    self.move_cursor(Direction::Left);
                    self.delete_forward();
                }
                Action::Redraw
            },
            Command::Move(d) => {
                self.quit_times = QUIT_TIMES;
                self.move_cursor(d);
                Action::Redraw
            },
            Command::Save => {
                self.quit_times = QUIT_TIMES;
                Action::Save
            },
            Command::Find => {
                self.quit_times = QUIT_TIMES;
                Action::Find
            },
        };
        self.scroll();
        action
    }

    fn insert_char(&mut self, c: char)
        requires
            old(self).wf(),
            c != '\n',
        ensures
            final(self).wf(),
            final(self).size_view() == old(self).size_view(),
            final(self).should_quit_view() == old(self).should_quit_view(),
            final(self).quit_times_view() == old(self).quit_times_view(),
            final(self).offset_view() == old(self).offset_view(),
            ({
                let ls = old(self).document_view().lines();
                let p = old(self).cursor_view();
                if ls[p.y as int].len() < MAX_ROW_LEN {
                    &&& final(self).document_view().lines() == lines_after_insert(ls, p, c)
                    &&& final(self).cursor_view() == (Position { x: (p.x + 1) as usize, y: p.y })
                    &&& final(self).document_view().dirty_view()
                    &&& final(self).document_view().file_name_view() == old(self).document_view().file_name_view()
                } else {
                    final(self).document_view() == old(self).document_view()
                        && final(self).cursor_view() == p
                }
            }),
    {
        let p = self.cursor_position;
        let len = self.row_len(p.y);
        if len < MAX_ROW_LEN {
            let ghost ls = self.document.lines();
            self.document.insert(p, c);
            assert(self.document.lines()[p.y as int] == ls[p.y as int].insert(p.x as int, c));
            self.cursor_position = Position { x: p.x + 1, y: p.y };
        }
    }

    fn insert_newline(&mut self)
        requires
            old(self).wf(),
        ensures
            final(self).wf(),
            final(self).size_view() == old(self).size_view(),
            final(self).should_quit_view() == old(self).should_quit_view(),
            final(self).quit_times_view() == old(self).quit_times_view(),
            final(self).offset_view() == old(self).offset_view(),
            final(self).document_view().lines() == lines_after_insert(
                old(self).document_view().lines(),
                old(self).cursor_view(),
                '\n',
            ),
            final(self).cursor_view() == (Position { x: 0, y: (old(self).cursor_view().y + 1) as usize }),
            final(self).document_view().dirty_view(),
            final(self).document_view().file_name_view() == old(self).document_view().file_name_view(),
    {
        let p = self.cursor_position;
        let ghost ls = self.document.lines();
        self.document.insert(p, '\n');
        assert(self.document.lines()[p.y + 1] == ls[p.y as int].skip(p.x as int));
        assert(self.document.lines().len() == ls.len() + 1);
        let n = self.document.len();
        assert(p.y + 1 < n);
        self.cursor_position = Position { x: 0, y: p.y + 1 };
    }

    fn delete_forward(&mut self)
        requires
            old(self).wf(),
        ensures
            final(self).wf(),
            final(self).size_view() == old(self).size_view(),
            final(self).should_quit_view() == old(self).should_quit_view(),
            final(self).quit_times_view() == old(self).quit_times_view(),
            final(self).offset_view() == old(self).offset_view(),
            final(self).cursor_view() == old(self).cursor_view(),
            final(self).document_view().file_name_view() == old(self).document_view().file_name_view(),
            merge_fits(old(self).document_view().lines(), old(self).cursor_view())
                ==> final(self).document_view().dirty_view() == (old(self).document_view().dirty_view()
                || delete_changes(old(self).document_view().lines(), old(self).cursor_view())),
            merge_fits(old(self).document_view().lines(), old(self).cursor_view())
                ==> final(self).document_view().lines() == lines_after_delete(
                old(self).document_view().lines(),
                old(self).cursor_view(),
            ),
            !merge_fits(old(self).document_view().lines(), old(self).cursor_view())
                ==> final(self).document_view() == old(self).document_view(),
    {
        let p = self.cursor_position;
        let n = self.document.len();
        let fits = if p.y + 1 < n {
            let a = self.row_len(p.y);
            let b = self.row_len(p.y + 1);
            a <= MAX_ROW_LEN && b <= MAX_ROW_LEN - a
        } else {
            true
        };
        if fits {
            self.document.delete(p);
            assert(valid_cursor(self.document.lines(), p));
        }
    }
}

/// The welcome line for a terminal `width` columns wide: a tilde, then the
/// message centred, cut at the terminal's width.
pub open spec fn welcome_of(message: Seq<char>, width: int) -> Seq<char> {
    let padding = if width > message.len() { (width - message.len()) / 2 } else { 0 };
    let spaces = if padding > 1 { padding - 1 } else { 0 };
    let line = seq!['~'] + Seq::new(spaces as nat, |_i: int| ' ') + message;
    if line.len() > width {
        line.take(width)
    } else {
        line
    }
}

/// The welcome line for a terminal `width` columns wide.
pub fn welcome_line(message: &Vec<char>, width: usize) -> (r: Vec<char>)
    ensures
        r@ == welcome_of(message@, width as int),
{
    let padding = if width > message.len() {
        (width - message.len()) / 2
    } else {
        0
    };
    let spaces = if padding > 1 {
        padding - 1
    } else {
        0
    };
    let mut line: Vec<char> = Vec::new();
    line.push('~');
    let mut i: usize = 0;
    while i < spaces
        invariant
            i <= spaces,
            line@ == seq!['~'] + Seq::new(i as nat, |_i: int| ' '),
        decreases spaces - i,
    {
        line.push(' ');
        i = i + 1;
        assert(line@ =~= seq!['~'] + Seq::new(i as nat, |_i: int| ' '));
    }
    let ghost head = line@;
    let mut j: usize = 0;
    while j < message.len()
        invariant
            j <= message@.len(),
            line@ == head + message@.take(j as int),
        decreases message@.len() - j,
    {
        line.push(message[j]);
        j = j + 1;
        assert(line@ =~= head + message@.take(j as int));
    }
    assert(message@.take(message@.len() as int) =~= message@);
    if line.len() > width {
        line.truncate(width);
        assert(line@ =~= welcome_of(message@, width as int));
    }
    line
}

/// Maps a letter to the byte that the terminal sends for it with Ctrl held.
pub fn to_ctrl_byte(c: char) -> (r: u8)
    ensures
        r as u32 == (c as u32) % 32,
{
    let v = c as u32;
    (v % 32) as u8
}

impl Editor {
    /// Searches for `query` from the cursor in direction `dir`; on a match,
    /// moves the cursor there and scrolls to it.
    pub fn find_from_cursor(&mut self, query: &Vec<char>, dir: SearchDirection) -> (r: bool)
        requires
            old(self).wf(),
        ensures
            final(self).wf(),
            final(self).document_view() == old(self).document_view(),
            final(self).size_view() == old(self).size_view(),
            final(self).should_quit_view() == old(self).should_quit_view(),
            final(self).quit_times_view() == old(self).quit_times_view(),
            find_result(
                old(self).document_view().lines(),
                query@,
                old(self).cursor_view(),
                dir,
                if r {
                    Some(final(self).cursor_view())
                } else {
                    None
                },
            ),
            !r ==> final(self).cursor_view() == old(self).cursor_view() && final(self).offset_view()
                == old(self).offset_view(),
            r ==> final(self).offset_view() == viewport_offset(
                final(self).document_view().lines(),
                final(self).cursor_view(),
                old(self).offset_view(),
                old(self).size_view(),
            ),
    {
        match self.document.find(query, self.cursor_position, dir) {
            Some(p) => {
                self.cursor_position = p;
                self.scroll();
                true
            },
            None => false,
        }
    }

    /// Puts the cursor at `p`, clamped to the document, and scrolls to it.
    pub fn set_cursor_position(&mut self, p: Position)
        requires
            old(self).wf(),
        ensures
            final(self).wf(),
            final(self).document_view() == old(self).document_view(),
            final(self).size_view() == old(self).size_view(),
            final(self).should_quit_view() == old(self).should_quit_view(),
            final(self).quit_times_view() == old(self).quit_times_view(),
            ({
                let ls = old(self).document_view().lines();
                let y = if (p.y as int) < ls.len() { p.y as int } else { ls.len() - 1 };
                let x = if (p.x as int) <= ls[y].len() { p.x as int } else { ls[y].len() as int };
                final(self).cursor_view() == (Position { x: x as usize, y: y as usize })
            }),
    {
        let n = self.document.len();
        let y = if p.y < n {
            p.y
        } else {
            n - 1
        };
        let len = self.row_len(y);
        let x = if p.x <= len {
            p.x
        } else {
            len
        };
        self.cursor_position = Position { x, y };
        self.scroll();
    }

    /// Names the document's file, which also selects its highlighting rules.
    pub fn set_file_name(&mut self, name: Vec<char>)
        requires
            old(self).wf(),
        ensures
            final(self).wf(),
            final(self).document_view().lines() == old(self).document_view().lines(),
            final(self).document_view().file_name_view() == Some(name@),
            final(self).document_view().dirty_view() == old(self).document_view().dirty_view(),
            final(self).cursor_view() == old(self).cursor_view(),
    {
        self.document.set_file_name(name);
    }

    /// Records that the document was written to its file.
    pub fn document_saved(&mut self)
        requires
            old(self).wf(),
        ensures
            final(self).wf(),
            final(self).document_view().lines() == old(self).document_view().lines(),
            final(self).document_view().file_name_view() == old(
                self,
            ).document_view().file_name_view(),
            !final(self).document_view().dirty_view(),
            final(self).cursor_view() == old(self).cursor_view(),
    {
        self.document.mark_saved();
    }

    /// Line `k` of the viewport: the visible window of a row, a tilde past
    /// the document's end, and the welcome line a third of the way down when
    /// the document is new and empty.
    pub open spec fn screen_line(&self, welcome: Seq<char>, k: int) -> Seq<char> {
        let y = self.offset_view().y + k;
        let ls = self.document_view().lines();
        if y < ls.len() {
            window(
                self.document_view().rows_view()[y].render_view(),
                self.offset_view().x as int,
                self.offset_view().x + text_cols(self.size_view().width),
            )
        } else if self.document_view().file_name_view().is_none() && ls == seq![
            Seq::<char>::empty(),
        ] && k == text_rows(self.size_view().height) / 3 {
            welcome_of(welcome, text_cols(self.size_view().width))
        } else {
            seq!['~']
        }
    }

    /// Categories of line `k` of the viewport, with the Match overlay for
    /// `query`: those of the row's visible columns, none past the document.
    pub open spec fn screen_categories(&self, query: Seq<char>, k: int) -> Seq<Type> {
        let y = self.offset_view().y + k;
        if y < self.document_view().lines().len() {
            let row = self.document_view().rows_view()[y];
            column_categories(
                row.raw_view(),
                row.render_view(),
                row.highlight_view(),
                query,
                self.offset_view().x as int,
                self.offset_view().x + text_cols(self.size_view().width),
            )
        } else {
            Seq::empty()
        }
    }

    /// The categories of the viewport's lines, one per drawn character of a
    /// document row.
    pub fn draw_highlights(&self, query: &Vec<char>) -> (r: Vec<Vec<Type>>)
        requires
            self.wf(),
        ensures
            r@.len() == text_rows(self.size_view().height),
            forall|i: int| 0 <= i < r@.len() ==> #[trigger] r@[i]@ == self.screen_categories(query@, i),
    {
        let height: usize = if self.terminal.size().height > 2 {
            (self.terminal.size().height - 2) as usize
        } else {
            1
        };
        let width: usize = if self.terminal.size().width > 0 {
            self.terminal.size().width as usize
        } else {
            1
        };
        let end = if self.offset.x <= usize::MAX - width {
            self.offset.x + width
        } else {
            usize::MAX
        };
        let mut out: Vec<Vec<Type>> = Vec::new();
        let mut i: usize = 0;
        while i < height
            invariant
                self.wf(),
                height == text_rows(self.size_view().height),
                width == text_cols(self.size_view().width),
                end as int == if self.offset_view().x + width <= usize::MAX {
                    self.offset_view().x + width
                } else {
                    usize::MAX as int
                },
                i <= height,
                out@.len() == i,
                forall|k: int| 0 <= k < i ==> #[trigger] out@[k]@ == self.screen_categories(query@, k),
            decreases height - i,
        {
            let line = if self.offset.y < self.document.len() && i < self.document.len() - self.offset.y {
                match self.document.row(self.offset.y + i) {
                    Some(row) => {
                        let cats = row.render_highlights(query, self.offset.x, end);
                        assert(window(row.render_view(), self.offset.x as int, end as int).len()
                            == window(row.render_view(), self.offset.x as int, self.offset.x + width).len());
                        assert(cats@ =~= self.screen_categories(query@, i as int));
                        cats
                    },
                    None => Vec::new(),
                }
            } else {
                let v: Vec<Type> = Vec::new();
                assert(v@ =~= self.screen_categories(query@, i as int));
                v
            };
            out.push(line);
            i = i + 1;
        }
        out
    }

    /// Where the cursor stands on the screen: its rendered column and its
    /// row, less the viewport's offset, and at least zero.
    pub fn screen_cursor(&self) -> (r: Position)
        requires
            self.wf(),
        ensures
            ({
                let ls = self.document_view().lines();
                let p = self.cursor_view();
                let rx = render_x(ls[p.y as int], p.x as int, TAB_STOP as nat) as int;
                let off = self.offset_view();
                &&& r.x == (if rx > off.x { rx - off.x } else { 0 })
                &&& r.y == (if p.y > off.y { p.y - off.y } else { 0 })
            }),
    {
        let p = self.cursor_position;
        let rx = match self.document.row(p.y) {
            Some(row) => row.raw_to_render_x(p.x),
            None => 0,
        };
        let x = if rx > self.offset.x {
            rx - self.offset.x
        } else {
            0
        };
        let y = if p.y > self.offset.y {
            p.y - self.offset.y
        } else {
            0
        };
        Position { x, y }
    }

    /// The text lines of the viewport.
    pub fn draw_rows(&self, welcome: &Vec<char>) -> (r: Vec<Vec<char>>)
        requires
            self.wf(),
        ensures
            r@.len() == text_rows(self.size_view().height),
            forall|i: int| 0 <= i < r@.len() ==> #[trigger] r@[i]@ == self.screen_line(welcome@, i),
    {
        let height: usize = if self.terminal.size().height > 2 {
            (self.terminal.size().height - 2) as usize
        } else {
            1
        };
        let width: usize = if self.terminal.size().width > 0 {
            self.terminal.size().width as usize
        } else {
            1
        };
        let fresh = self.document.file_name().is_none() && self.document.len() == 1
            && self.row_len(0) == 0;
        proof {
            let ls = self.document.lines();
            if fresh {
                assert(ls[0] =~= Seq::<char>::empty());
                assert(ls =~= seq![Seq::<char>::empty()]);
            }
            if ls == seq![Seq::<char>::empty()] {
                assert(ls[0].len() == 0);
            }
        }
        let end = if self.offset.x <= usize::MAX - width {
            self.offset.x + width
        } else {
            usize::MAX
        };
        let mut out: Vec<Vec<char>> = Vec::new();
        let mut i: usize = 0;
        while i < height
            invariant
                self.wf(),
                height == text_rows(self.size_view().height),
                width == text_cols(self.size_view().width),
                end as int == if self.offset_view().x + width <= usize::MAX {
                    self.offset_view().x + width
                } else {
                    usize::MAX as int
                },
                fresh == (self.document_view().file_name_view().is_none()
                    && self.document_view().lines() == seq![Seq::<char>::empty()]),
                i <= height,
                out@.len() == i,
                forall|k: int| 0 <= k < i ==> #[trigger] out@[k]@ == self.screen_line(welcome@, k),
            decreases height - i,
        {
            let line = if self.offset.y < self.document.len() && i < self.document.len() - self.offset.y {
                match self.document.row(self.offset.y + i) {
                    Some(row) => {
                        row.render(self.offset.x, end)
                    },
                    None => Vec::new(),
                }
            } else if fresh && i == height / 3 {
                welcome_line(welcome, width)
            } else {
                let mut t: Vec<char> = Vec::new();
                t.push('~');
                assert(t@ =~= seq!['~']);
                t
            };
            assert(line@ == self.screen_line(welcome@, i as int));
            out.push(line);
            i = i + 1;
        }
        out
    }
}

/// Search direction after a navigation key during a search: Left and Up
/// search backward, anything else forward.
pub open spec fn search_dir(nav: Option<Direction>) -> SearchDirection {
    match nav {
        Some(Direction::Left) | Some(Direction::Up) => SearchDirection::Backward,
        _ => SearchDirection::Forward,
    }
}

/// Right and Down step past the current match before searching on.
pub open spec fn steps_past(nav: Option<Direction>) -> bool {
    match nav {
        Some(Direction::Right) | Some(Direction::Down) => true,
        _ => false,
    }
}

impl Editor {
    /// One step of a search session: after the navigation key `nav`, if any,
    /// searches for `query` and moves the cursor to the match found. When
    /// nothing is found the cursor stays where it was.
    pub fn search_step(&mut self, query: &Vec<char>, nav: Option<Direction>) -> (r: bool)
        requires
            old(self).wf(),
        ensures
            final(self).wf(),
            final(self).document_view() == old(self).document_view(),
            final(self).should_quit_view() == old(self).should_quit_view(),
            final(self).size_view() == old(self).size_view(),
            ({
                let ls = old(self).document_view().lines();
                let from = if steps_past(nav) {
                    moved(ls, old(self).cursor_view(), Direction::Right, text_rows(old(self).size_view().height))
                } else {
                    old(self).cursor_view()
                };
                find_result(
                    ls,
                    query@,
                    from,
                    search_dir(nav),
                    if r {
                        Some(final(self).cursor_view())
                    } else {
                        None
                    },
                )
            }),
            !r ==> final(self).cursor_view() == old(self).cursor_view(),
    {
        let start = self.cursor_position;
        let dir = match nav {
            Some(Direction::Left) | Some(Direction::Up) => SearchDirection::Backward,
            _ => SearchDirection::Forward,
        };
        let step = match nav {
            Some(Direction::Right) | Some(Direction::Down) => true,
            _ => false,
        };
        if step {
            self.move_cursor(Direction::Right);
        }
        let found = self.find_from_cursor(query, dir);
        if !found {
            self.set_cursor_position(start);
        }
        found
    }
}

pub open spec fn digit_char(d: nat) -> char {
    if d == 0 { '0' } else if d == 1 { '1' } else if d == 2 { '2' } else if d == 3 { '3' }
    else if d == 4 { '4' } else if d == 5 { '5' } else if d == 6 { '6' } else if d == 7 { '7' }
    else if d == 8 { '8' } else { '9' }
}

/// The decimal digits of `n`.
pub open spec fn decimal(n: nat) -> Seq<char>
    decreases n,
{
    if n < 10 {
        seq![digit_char(n)]
    } else {
        decimal(n / 10).push(digit_char(n % 10))
    }
}

/// Writes `n` in decimal.
pub fn to_decimal(n: usize) -> (r: Vec<char>)
    ensures
        r@ == decimal(n as nat),
    decreases n,
{
    let d = n % 10;
    let c = if d == 0 { '0' } else if d == 1 { '1' } else if d == 2 { '2' } else if d == 3 { '3' }
    else if d == 4 { '4' } else if d == 5 { '5' } else if d == 6 { '6' } else if d == 7 { '7' }
    else if d == 8 { '8' } else { '9' };
    if n < 10 {
        let mut v: Vec<char> = Vec::new();
        v.push(c);
        assert(v@ =~= decimal(n as nat));
        v
    } else {
        let mut v = to_decimal(n / 10);
        v.push(c);
        v
    }
}

/// Name shown for a document without a file name.
pub open spec fn no_name() -> Seq<char> {
    seq!['[', 'N', 'O', ' ', 'N', 'A', 'M', 'E', ']']
}

pub open spec fn lines_word() -> Seq<char> {
    seq![' ', 'l', 'i', 'n', 'e', 's']
}

pub open spec fn modified_word() -> Seq<char> {
    seq![' ', '(', 'm', 'o', 'd', 'i', 'f', 'i', 'e', 'd', ')']
}

/// Left part of the status line: the file name, the line count, and
/// whether the document changed.
pub open spec fn status_left(name: Option<Seq<char>>, lines: nat, dirty: bool) -> Seq<char> {
    let shown = match name {
        Some(n) => n,
        None => no_name(),
    };
    shown + seq![' ', '-', ' '] + decimal(lines) + lines_word() + if dirty {
        modified_word()
    } else {
        Seq::empty()
    }
}

/// The status line `width` columns wide: the left part, then the cursor's
/// line and the line count at the right edge, cut at the width.
pub open spec fn status_of(left: Seq<char>, right: Seq<char>, width: nat) -> Seq<char> {
    let full = if width > left.len() + right.len() {
        left + Seq::new((width - left.len() - right.len()) as nat, |_i: int| ' ') + right
    } else {
        left + right
    };
    if full.len() > width {
        full.take(width as int)
    } else {
        full
    }
}

fn append_chars(v: &mut Vec<char>, t: &Vec<char>)
    ensures
        final(v)@ == old(v)@ + t@,
{
    let ghost base = v@;
    let mut i: usize = 0;
    while i < t.len()
        invariant
            i <= t@.len(),
            v@ == base + t@.take(i as int),
        decreases t@.len() - i,
    {
        v.push(t[i]);
        i = i + 1;
        assert(v@ =~= base + t@.take(i as int));
    }
    assert(t@.take(t@.len() as int) =~= t@);
}

fn literal_chars(t: &[char]) -> (r: Vec<char>)
    ensures
        r@ == t@,
{
    let mut v: Vec<char> = Vec::new();
    let mut i: usize = 0;
    while i < t.len()
        invariant
            i <= t@.len(),
            v@ == t@.take(i as int),
        decreases t@.len() - i,
    {
        v.push(t[i]);
        i = i + 1;
        assert(v@ =~= t@.take(i as int));
    }
    assert(t@.take(t@.len() as int) =~= t@);
    v
}

/// Joins the two parts of the status line for a terminal `width` columns wide.
pub fn compose_status(left: Vec<char>, right: &Vec<char>, width: usize) -> (r: Vec<char>)
    ensures
        r@ == status_of(left@, right@, width as nat),
{
    let ghost lv = left@;
    let mut line = left;
    if left_fits(line.len(), right.len(), width) {
        let pad = width - line.len() - right.len();
        let mut k: usize = 0;
        while k < pad
            invariant
                k <= pad,
                line@ == lv + Seq::new(k as nat, |_i: int| ' '),
            decreases pad - k,
        {
            line.push(' ');
            k = k + 1;
            assert(line@ =~= lv + Seq::new(k as nat, |_i: int| ' '));
        }
    }
    append_chars(&mut line, right);
    if line.len() > width {
        line.truncate(width);
    }
    assert(line@ =~= status_of(lv, right@, width as nat));
    line
}

/// Left part of the status line.
fn left_status(name: &Option<Vec<char>>, n: usize, dirty: bool) -> (r: Vec<char>)
    ensures
        r@ == status_left(name_view(*name), n as nat, dirty),
{
    let mut left: Vec<char> = Vec::new();
    match name {
        Some(name) => {
            append_chars(&mut left, name);
        },
        None => {
            left = literal_chars(&['[', 'N', 'O', ' ', 'N', 'A', 'M', 'E', ']']);
            assert(left@ =~= no_name());
        },
    }
    let ghost shown = left@;
    append_chars(&mut left, &literal_chars(&[' ', '-', ' ']));
    append_chars(&mut left, &to_decimal(n));
    append_chars(&mut left, &literal_chars(&[' ', 'l', 'i', 'n', 'e', 's']));
    if dirty {
        append_chars(
            &mut left,
            &literal_chars(&[' ', '(', 'm', 'o', 'd', 'i', 'f', 'i', 'e', 'd', ')']),
        );
    }
    assert(left@ =~= status_left(name_view(*name), n as nat, dirty));
    left
}

impl Editor {
    /// The status line: file name, line count and changed flag on the left,
    /// the cursor's line and the line count on the right.
    pub fn status_line(&self) -> (r: Vec<char>)
        requires
            self.wf(),
        ensures
            r@ == status_of(
                status_left(
                    self.document_view().file_name_view(),
                    self.document_view().lines().len(),
                    self.document_view().dirty_view(),
                ),
                decimal((self.cursor_view().y + 1) as nat) + seq!['/'] + decimal(
                    self.document_view().lines().len(),
                ),
                self.size_view().width as nat,
            ),
    {
        proof {
            self.document.lemma_wf();
        }
        let n = self.document.len();
        let left = left_status(self.document.file_name(), n, self.document.is_dirty());
        let mut right = to_decimal(self.cursor_position.y + 1);
        right.push('/');
        append_chars(&mut right, &to_decimal(n));
        compose_status(left, &right, self.terminal.size().width as usize)
    }
}

fn left_fits(left: usize, right: usize, width: usize) -> (r: bool)
    ensures
        r == (width > left + right),
{
    left < width && right < width - left
}

/// A key during a search session.
#[derive(Clone, Copy, PartialEq, Eq, Debug, Structural)]
pub enum SearchKey {
    Char(char),
    Backspace,
    Enter,
    Escape,
    Nav(Direction),
    Other,
}

/// A running search: where the cursor was when it began, and the query typed
/// so far.
pub struct SearchSession {
    pub start: Position,
    pub query: Vec<char>,
}

/// The query after a key of a search session.
pub open spec fn query_after(q: Seq<char>, key: SearchKey) -> Seq<char> {
    match key {
        SearchKey::Char(c) => q.push(c),
        SearchKey::Backspace => if q.len() > 0 { q.drop_last() } else { q },
        SearchKey::Enter | SearchKey::Escape => Seq::empty(),
        _ => q,
    }
}

pub open spec fn key_nav(key: SearchKey) -> Option<Direction> {
    match key {
        SearchKey::Nav(d) => Some(d),
        _ => None,
    }
}

impl Editor {
    /// Starts a search session at the cursor.
    pub fn search_begin(&self) -> (r: SearchSession)
        ensures
            r.start == self.cursor_view(),
            r.query@.len() == 0,
    {
        SearchSession { start: self.cursor_position, query: Vec::new() }
    }

    /// Handles one key of a search session and says whether the session
    /// ended. Enter ends it where the cursor is; Escape ends it and puts the
    /// cursor back where the session began; an ended session's query is
    /// empty, so no match is marked any more. Any other key edits the query
    /// and searches again from the cursor, in the direction the key implies.
    pub fn search_key(&mut self, session: &mut SearchSession, key: SearchKey) -> (done: bool)
        requires
            old(self).wf(),
            valid_cursor(old(self).document_view().lines(), old(session).start),
        ensures
            final(self).wf(),
            final(self).document_view() == old(self).document_view(),
            final(self).should_quit_view() == old(self).should_quit_view(),
            final(session).start == old(session).start,
            final(session).query@ == query_after(old(session).query@, key),
            done == (key == SearchKey::Enter || key == SearchKey::Escape),
            key == SearchKey::Enter ==> final(self).cursor_view() == old(self).cursor_view(),
            key == SearchKey::Escape ==> final(self).cursor_view() == old(session).start,
            !done ==> ({
                let ls = old(self).document_view().lines();
                let nav = key_nav(key);
                let from = if steps_past(nav) {
                    moved(ls, old(self).cursor_view(), Direction::Right, text_rows(old(self).size_view().height))
                } else {
                    old(self).cursor_view()
                };
                let q = final(session).query@;
                find_result(ls, q, from, search_dir(nav), Some(final(self).cursor_view()))
                    || (final(self).cursor_view() == old(self).cursor_view() && find_result(
                    ls,
                    q,
                    from,
                    search_dir(nav),
                    None,
                ))
            }),
    {
        match key {
            SearchKey::Enter => {
                session.query = Vec::new();
                true
            },
            SearchKey::Escape => {
                session.query = Vec::new();
                self.set_cursor_position(session.start);
                true
            },
            _ => {
                let nav = match key {
                    SearchKey::Char(c) => {
                        session.query.push(c);
                        None
                    },
                    SearchKey::Backspace => {
                        session.query.pop();
                        None
                    },
                    SearchKey::Nav(d) => Some(d),
                    _ => None,
                };
                proof {
                    assert(session.query@ =~= query_after(old(session).query@, key));
                }
                self.search_step(&session.query, nav);
                false
            },
        }
    }
}

} // verus!
