use vstd::prelude::*;
use crate::editor::Position;
use crate::highlighting::{Context, HighlightRules};
use crate::row::{Row, MAX_ROW_LEN};
use crate::search::{first_occurrence_from, last_occurrence_before, occurs_at, SearchDirection};

verus! {

/// The lines of `t` when it is cut at every newline; a text without newline
/// is one line, and a final newline leaves an empty last line.
pub open spec fn lines_of(t: Seq<char>) -> Seq<Seq<char>>
    decreases t.len(),
{
    if t.len() == 0 {
        seq![Seq::empty()]
    } else {
        let p = lines_of(t.drop_last());
        if t.last() == '\n' {
            p.push(Seq::empty())
        } else {
            p.update(p.len() - 1, p.last().push(t.last()))
        }
    }
}

/// The lines joined with a newline between each two.
pub open spec fn join_lines(ls: Seq<Seq<char>>) -> Seq<char>
    decreases ls.len(),
{
    if ls.len() == 0 {
        Seq::empty()
    } else if ls.len() == 1 {
        ls[0]
    } else {
        join_lines(ls.drop_last()) + seq!['\n'] + ls.last()
    }
}

proof fn lemma_lines_of(t: Seq<char>)
    ensures
        lines_of(t).len() >= 1,
        forall|k: int| 0 <= k < lines_of(t).len() ==> #[trigger] lines_of(t)[k].len() <= t.len(),
        join_lines(lines_of(t)) == t,
    decreases t.len(),
{
    if t.len() == 0 {
        assert(join_lines(lines_of(t)) =~= t);
    } else {
        let p = lines_of(t.drop_last());
        lemma_lines_of(t.drop_last());
        if t.last() == '\n' {
            let q = p.push(Seq::<char>::empty());
            assert(q.drop_last() =~= p);
            assert(join_lines(q) =~= t);
        } else {
            let q = p.update(p.len() - 1, p.last().push(t.last()));
            assert(forall|k: int| 0 <= k < q.len() ==> #[trigger] q[k].len() <= t.len());
            if p.len() == 1 {
                assert(join_lines(q) =~= t);
            } else {
                assert(q.drop_last() =~= p.drop_last());
                let jp = join_lines(p.drop_last());
                assert(join_lines(p) == jp + seq!['\n'] + p.last());
                assert(join_lines(q) == jp + seq!['\n'] + p.last().push(t.last()));
                assert(t =~= t.drop_last().push(t.last()));
                assert(join_lines(q) =~= t);
            }
        }
    }
}

/// Loading a text and writing its rows back, joined by newlines, gives the
/// same text.
pub proof fn lemma_open_save_round_trip(t: Seq<char>)
    ensures
        join_lines(lines_of(t)) == t,
{
    lemma_lines_of(t);
}

/// The raw characters of each row.
pub open spec fn row_lines(rows: Seq<Row>) -> Seq<Seq<char>> {
    Seq::new(rows.len(), |k: int| rows[k].raw_view())
}

pub open spec fn ends_with(s: Seq<char>, suffix: Seq<char>) -> bool {
    s.len() >= suffix.len() && s.subrange(s.len() - suffix.len(), s.len() as int) == suffix
}

pub open spec fn plain_rules() -> HighlightRules {
    HighlightRules {
        numbers: false,
        strings: false,
        max_char_len: 0,
        comment: None,
        comment_double: false,
        block_comment: None,
    }
}

pub open spec fn slash_rules() -> HighlightRules {
    HighlightRules {
        numbers: true,
        strings: true,
        max_char_len: 4,
        comment: Some('/'),
        comment_double: true,
        block_comment: Some((('/', '*'), ('*', '/'))),
    }
}

pub open spec fn hash_rules() -> HighlightRules {
    HighlightRules {
        numbers: true,
        strings: true,
        max_char_len: 0,
        comment: Some('#'),
        comment_double: false,
        block_comment: None,
    }
}

/// Rule set chosen by a file name's extension.
pub open spec fn rules_for(name: Option<Seq<char>>) -> HighlightRules {
    match name {
        Some(n) => if ends_with(n, seq!['.', 'r', 's']) || ends_with(n, seq!['.', 'c'])
            || ends_with(n, seq!['.', 'h']) {
            slash_rules()
        } else if ends_with(n, seq!['.', 's', 'h']) || ends_with(n, seq!['.', 'p', 'y']) {
            hash_rules()
        } else {
            plain_rules()
        },
        None => plain_rules(),
    }
}

fn exec_ends_with(s: &Vec<char>, suffix: &[char]) -> (r: bool)
    ensures
        r == ends_with(s@, suffix@),
{
    if s.len() < suffix.len() {
        return false;
    }
    let off = s.len() - suffix.len();
    let mut i: usize = 0;
    while i < suffix.len()
        invariant
            off + suffix@.len() == s@.len(),
            s@.len() == s.len(),
            i <= suffix@.len(),
            forall|j: int| 0 <= j < i ==> s@[off + j] == suffix@[j],
        decreases suffix@.len() - i,
    {
        if s[off + i] != suffix[i] {
            assert(s@.subrange(off as int, s@.len() as int)[i as int] != suffix@[i as int]);
            return false;
        }
        i = i + 1;
    }
    assert(s@.subrange(off as int, s@.len() as int) =~= suffix@);
    true
}

fn plain() -> (r: HighlightRules)
    ensures
        r == plain_rules(),
{
    HighlightRules {
        numbers: false,
        strings: false,
        max_char_len: 0,
        comment: None,
        comment_double: false,
        block_comment: None,
    }
}

/// Rule set chosen by a file name's extension.
pub fn rules_for_name(name: &Option<Vec<char>>) -> (r: HighlightRules)
    ensures
        r == rules_for(
            match name {
                Some(n) => Some(n@),
                None => None,
            },
        ),
{
    match name {
        Some(n) => {
            if exec_ends_with(n, &['.', 'r', 's']) || exec_ends_with(n, &['.', 'c'])
                || exec_ends_with(n, &['.', 'h']) {
                HighlightRules {
                    numbers: true,
                    strings: true,
                    max_char_len: 4,
                    comment: Some('/'),
                    comment_double: true,
                    block_comment: Some((('/', '*'), ('*', '/'))),
                }
            } else if exec_ends_with(n, &['.', 's', 'h']) || exec_ends_with(n, &['.', 'p', 'y']) {
                HighlightRules {
                    numbers: true,
                    strings: true,
                    max_char_len: 0,
                    comment: Some('#'),
                    comment_double: false,
                    block_comment: None,
                }
            } else {
                plain()
            }
        },
        None => plain(),
    }
}

/// An open file: its rows, its name, and whether it changed since it was
/// loaded or saved.
pub struct Document {
    rows: Vec<Row>,
    file_name: Option<Vec<char>>,
    dirty: bool,
    rules: HighlightRules,
}

pub open spec fn name_view(n: Option<Vec<char>>) -> Option<Seq<char>> {
    match n {
        Some(v) => Some(v@),
        None => None,
    }
}

/// Rows that are each well formed, share the rule set, and carry the open
/// string state from each row to the next.
pub open spec fn rows_chained(rows: Seq<Row>, rules: HighlightRules) -> bool {
    &&& forall|k: int| 0 <= k < rows.len() ==> (#[trigger] rows[k]).wf() && rows[k].rules_view() == rules
    &&& rows.len() > 0 ==> rows[0].open_in_view() == Context::Code
    &&& forall|k: int| 0 < k < rows.len() ==> #[trigger] rows[k].open_in_view() == rows[k - 1].open_out_view()
}

impl Document {
    pub closed spec fn rows_view(&self) -> Seq<Row> {
        self.rows@
    }

    pub closed spec fn file_name_view(&self) -> Option<Seq<char>> {
        name_view(self.file_name)
    }

    pub closed spec fn dirty_view(&self) -> bool {
        self.dirty
    }

    pub closed spec fn rules_view(&self) -> HighlightRules {
        self.rules
    }

    /// The raw characters of each row.
    pub open spec fn lines(&self) -> Seq<Seq<char>> {
        row_lines(self.rows_view())
    }

    pub closed spec fn wf(&self) -> bool {
        &&& self.rows_view().len() >= 1
        &&& rows_chained(self.rows_view(), self.rules_view())
        &&& self.rules_view() == rules_for(self.file_name_view())
    }

    /// A new empty document without a name: one empty row.
    pub fn new() -> (r: Document)
        ensures
            r.wf(),
            r.lines() == seq![Seq::<char>::empty()],
            r.file_name_view() == None::<Seq<char>>,
            !r.dirty_view(),
    {
        let rules = rules_for_name(&None);
        let mut rows: Vec<Row> = Vec::new();
        rows.push(Row::new(Vec::new(), rules, Context::Code));
        let d = Document { rows, file_name: None, dirty: false, rules };
        assert(d.lines() =~= seq![Seq::<char>::empty()]);
        d
    }

    /// A document holding `text`, one row per line, with the rule set that
    /// the file name selects.
    pub fn open(text: &Vec<char>, file_name: Option<Vec<char>>) -> (r: Document)
        requires
            text@.len() <= MAX_ROW_LEN,
        ensures
            r.wf(),
            r.lines() == lines_of(text@),
            r.file_name_view() == name_view(file_name),
            !r.dirty_view(),
    {
        let rules = rules_for_name(&file_name);
        let mut rows: Vec<Row> = Vec::new();
        let mut cur: Vec<char> = Vec::new();
        let mut open = Context::Code;
        let mut i: usize = 0;
        while i < text.len()
            invariant
                i <= text@.len(),
                text@.len() <= MAX_ROW_LEN,
                cur@.len() <= i,
                rows_chained(rows@, rules),
                rows@.len() == 0 ==> open == Context::Code,
                rows@.len() > 0 ==> open == rows@.last().open_out_view(),
                row_lines(rows@).push(cur@) == lines_of(text@.take(i as int)),
            decreases text@.len() - i,
        {
            let c = text[i];
            proof {
                assert(text@.take(i + 1).drop_last() =~= text@.take(i as int));
            }
            if c == '\n' {
                let line = cur;
                cur = Vec::new();
                let row = Row::new(line, rules, open);
                open = row.end_context();
                let ghost old_rows = rows@;
                rows.push(row);
                assert(row_lines(rows@) =~= row_lines(old_rows).push(line@));
                assert(row_lines(rows@).push(cur@) =~= lines_of(text@.take(i + 1)));
            } else {
                cur.push(c);
                assert(row_lines(rows@).push(cur@) =~= lines_of(text@.take(i + 1)));
            }
            i = i + 1;
        }
        assert(text@.take(text@.len() as int) =~= text@);
        let row = Row::new(cur, rules, open);
        let ghost old_rows = rows@;
        rows.push(row);
        assert(row_lines(rows@) =~= row_lines(old_rows).push(cur@));
        Document { rows, file_name, dirty: false, rules }
    }

    /// A well formed document has at least one row; its rows are well formed,
    /// highlighted with the rule set that its file name selects, and each
    /// starts in the context that the row before it ends in.
    pub proof fn lemma_wf(&self)
        requires
            self.wf(),
        ensures
            self.rows_view().len() >= 1,
            self.rules_view() == rules_for(self.file_name_view()),
            rows_chained(self.rows_view(), self.rules_view()),
            self.lines().len() == self.rows_view().len(),
            forall|k: int| 0 <= k < self.rows_view().len() ==> (#[trigger] self.rows_view()[k]).wf(),
    {
    }

    /// Number of rows.
    pub fn len(&self) -> (r: usize)
        ensures
            r == self.rows_view().len(),
            self.wf() ==> r >= 1,
    {
        self.rows.len()
    }

    pub fn is_empty(&self) -> (r: bool)
        ensures
            r == (self.rows_view().len() == 0),
    {
        self.rows.len() == 0
    }

    pub fn is_dirty(&self) -> (r: bool)
        ensures
            r == self.dirty_view(),
    {
        self.dirty
    }

    pub fn file_name(&self) -> (r: &Option<Vec<char>>)
        ensures
            name_view(*r) == self.file_name_view(),
    {
        &self.file_name
    }

    /// The row at `index`, if there is one.
    pub fn row(&self, index: usize) -> (r: Option<&Row>)
        ensures
            index < self.rows_view().len() ==> r == Some(&self.rows_view()[index as int]),
            self.wf() && index < self.rows_view().len() ==> self.rows_view()[index as int].wf(),
            index >= self.rows_view().len() ==> r.is_none(),
    {
        if index < self.rows.len() {
            Some(&self.rows[index])
        } else {
            None
        }
    }

    /// The text to write to the file: the rows joined by newlines.
    pub fn contents(&self) -> (r: Vec<char>)
        requires
            self.wf(),
        ensures
            r@ == join_lines(self.lines()),
    {
        let ghost ls = self.lines();
        let mut out = self.rows[0].chars().clone();
        assert(out@ =~= self.rows@[0].raw_view());
        assert(ls.take(1) =~= seq![ls[0]]);
        let mut k: usize = 1;
        while k < self.rows.len()
            invariant
                1 <= k <= self.rows@.len(),
                ls == self.lines(),
                out@ == join_lines(ls.take(k as int)),
            decreases self.rows@.len() - k,
        {
            out.push('\n');
            let line = self.rows[k].chars();
            let mut i: usize = 0;
            let ghost base = out@;
            while i < line.len()
                invariant
                    i <= line@.len(),
                    out@ == base + line@.take(i as int),
                decreases line@.len() - i,
            {
                out.push(line[i]);
                i = i + 1;
                assert(out@ =~= base + line@.take(i as int));
            }
            assert(line@.take(line@.len() as int) =~= line@);
            assert(ls.take(k + 1).drop_last() =~= ls.take(k as int));
            k = k + 1;
        }
        assert(ls.take(ls.len() as int) =~= ls);
        out
    }

    /// Names the document's file, and highlights every row again with the
    /// rule set that the new name selects.
    pub fn set_file_name(&mut self, name: Vec<char>)
        requires
            old(self).wf(),
        ensures
            final(self).wf(),
            final(self).lines() == old(self).lines(),
            final(self).file_name_view() == Some(name@),
            final(self).dirty_view() == old(self).dirty_view(),
    {
        let ghost ls = self.lines();
        let named = Some(name);
        let rules = rules_for_name(&named);
        let mut rows: Vec<Row> = Vec::new();
        let mut open = Context::Code;
        let mut k: usize = 0;
        while k < self.rows.len()
            invariant
                ls == self.lines(),
                self.wf(),
                k <= self.rows@.len(),
                rows_chained(rows@, rules),
                row_lines(rows@) == ls.take(k as int),
                rows@.len() == 0 ==> open == Context::Code,
                rows@.len() > 0 ==> open == rows@.last().open_out_view(),
            decreases self.rows@.len() - k,
        {
            let raw = self.rows[k].chars().clone();
            assert(raw@ =~= ls[k as int]);
            let row = Row::new(raw, rules, open);
            open = row.end_context();
            let ghost before = rows@;
            assert(row_lines(before).len() == before.len());
            assert(ls.len() == self.rows@.len());
            assert(before.len() == k);
            rows.push(row);
            assert forall|j: int| 0 <= j < k + 1 implies #[trigger] row_lines(rows@)[j] == ls.take(
                k + 1,
            )[j] by {
                if j < k {
                    assert(row_lines(before)[j] == ls.take(k as int)[j]);
                }
            }
            assert(row_lines(rows@) =~= ls.take(k + 1));
            k = k + 1;
        }
        assert(ls.take(ls.len() as int) =~= ls);
        self.rows = rows;
        self.file_name = named;
        self.rules = rules;
    }

    /// Records that the contents were written to the file.
    pub fn mark_saved(&mut self)
        requires
            old(self).wf(),
        ensures
            final(self).wf(),
            final(self).lines() == old(self).lines(),
            final(self).file_name_view() == old(self).file_name_view(),
            !final(self).dirty_view(),
    {
        self.dirty = false;
    }

    /// Re-highlights rows from `start` on while the open string state that a
    /// row starts with differs from the one its predecessor ends with.
    fn rechain(&mut self, start: usize)
        requires
            1 <= start,
            old(self).rows@.len() >= 1,
            old(self).rules == rules_for(name_view(old(self).file_name)),
            forall|k: int|
                0 <= k < old(self).rows@.len() ==> (#[trigger] old(self).rows@[k]).wf()
                    && old(self).rows@[k].rules_view() == old(self).rules,
            old(self).rows@[0].open_in_view() == Context::Code,
            forall|k: int|
                0 < k < old(self).rows@.len() && k != start ==> #[trigger] old(
                    self,
                ).rows@[k].open_in_view() == old(self).rows@[k - 1].open_out_view(),
        ensures
            final(self).wf(),
            final(self).lines() == old(self).lines(),
            final(self).file_name == old(self).file_name,
            final(self).dirty == old(self).dirty,
            final(self).rules == old(self).rules,
    {
        let ghost ls = self.lines();
        let mut k = start;
        while k < self.rows.len() && self.rows[k].start_context() != self.rows[k
            - 1].end_context()
            invariant
                1 <= k,
                self.rows@.len() >= 1,
                self.rules == old(self).rules,
                self.file_name == old(self).file_name,
                self.dirty == old(self).dirty,
                self.rules == rules_for(name_view(self.file_name)),
                self.lines() == ls,
                forall|j: int|
                    0 <= j < self.rows@.len() ==> (#[trigger] self.rows@[j]).wf()
                        && self.rows@[j].rules_view() == self.rules,
                self.rows@[0].open_in_view() == Context::Code,
                forall|j: int|
                    0 < j < self.rows@.len() && j != k ==> #[trigger] self.rows@[j].open_in_view()
                        == self.rows@[j - 1].open_out_view(),
            decreases self.rows@.len() - k,
        {
            let prev = self.rows[k - 1].end_context();
            let ghost rs = self.rows@;
            let mut row = self.rows.remove(k);
            row.set_open_in(prev);
            self.rows.insert(k, row);
            assert(self.rows@ =~= rs.update(k as int, row));
            assert(self.lines() =~= ls);
            k = k + 1;
        }
    }
}

pub open spec fn clamp_y(ls: Seq<Seq<char>>, y: usize) -> int {
    if (y as int) < ls.len() {
        y as int
    } else {
        ls.len() - 1
    }
}

pub open spec fn clamp_x(l: Seq<char>, x: usize) -> int {
    if (x as int) <= l.len() {
        x as int
    } else {
        l.len() as int
    }
}

/// The lines after inserting `c` at `at`: a newline splits the row, any
/// other character goes into it; the row index is clamped to the last row
/// and the column to the row's length.
pub open spec fn lines_after_insert(ls: Seq<Seq<char>>, at: Position, c: char) -> Seq<Seq<char>> {
    let y = clamp_y(ls, at.y);
    let l = ls[y];
    let x = clamp_x(l, at.x);
    if c == '\n' {
        ls.take(y) + seq![l.take(x), l.skip(x)] + ls.skip(y + 1)
    } else {
        ls.update(y, l.insert(x, c))
    }
}

/// Whether deleting at `at` changes anything: a character under the cursor,
/// or a following row to merge at the end of a row.
pub open spec fn delete_changes(ls: Seq<Seq<char>>, at: Position) -> bool {
    (at.y as int) < ls.len() && ((at.x as int) < ls[at.y as int].len() || ((at.x as int)
        == ls[at.y as int].len() && (at.y as int) + 1 < ls.len()))
}

/// The lines after deleting at `at`.
pub open spec fn lines_after_delete(ls: Seq<Seq<char>>, at: Position) -> Seq<Seq<char>> {
    let y = at.y as int;
    if !delete_changes(ls, at) {
        ls
    } else if (at.x as int) < ls[y].len() {
        ls.update(y, ls[y].remove(at.x as int))
    } else {
        ls.take(y) + seq![ls[y] + ls[y + 1]] + ls.skip(y + 2)
    }
}

proof fn lemma_merged_rows(rs: Seq<Row>, y: int, row: Row, rules: HighlightRules)
    requires
        0 <= y,
        y + 1 < rs.len(),
        rows_chained(rs, rules),
        row.wf(),
        row.rules_view() == rules,
        row.open_in_view() == rs[y].open_in_view(),
        row.raw_view() == rs[y].raw_view() + rs[y + 1].raw_view(),
    ensures
        ({
            let merged = rs.take(y) + seq![row] + rs.skip(y + 2);
            &&& forall|k: int| 0 <= k < merged.len() ==> (#[trigger] merged[k]).wf()
                && merged[k].rules_view() == rules
            &&& merged[0].open_in_view() == Context::Code
            &&& forall|k: int| 0 < k < merged.len() && k != y + 1 ==> #[trigger] merged[k].open_in_view()
                == merged[k - 1].open_out_view()
            &&& row_lines(merged) == row_lines(rs).take(y) + seq![row.raw_view()] + row_lines(rs).skip(y + 2)
        }),
{
    let merged = rs.take(y) + seq![row] + rs.skip(y + 2);
    assert forall|k: int| 0 <= k < merged.len() implies (#[trigger] merged[k]).wf()
        && merged[k].rules_view() == rules by {
        if k > y {
            assert(merged[k] == rs[k + 1]);
        }
    }
    assert forall|k: int| 0 < k < merged.len() && k != y + 1 implies #[trigger] merged[k].open_in_view()
        == merged[k - 1].open_out_view() by {
        if k > y + 1 {
            assert(merged[k] == rs[k + 1]);
            assert(merged[k - 1] == rs[k]);
        }
    }
    assert(row_lines(merged) =~= row_lines(rs).take(y) + seq![row.raw_view()] + row_lines(rs).skip(y + 2));
}

impl Document {
    /// Inserts `c` at `at`; a newline splits the row there.
    pub fn insert(&mut self, at: Position, c: char)
        requires
            old(self).wf(),
            c != '\n' ==> old(self).lines()[clamp_y(old(self).lines(), at.y)].len()
                < MAX_ROW_LEN,
        ensures
            final(self).wf(),
            final(self).lines() == lines_after_insert(old(self).lines(), at, c),
            final(self).file_name_view() == old(self).file_name_view(),
            final(self).dirty_view(),
    {
        let y = if at.y < self.rows.len() {
            at.y
        } else {
            self.rows.len() - 1
        };
        if c == '\n' {
            self.split_row(y, at);
        } else {
            self.insert_in_row(y, at, c);
        }
    }

    fn split_row(&mut self, y: usize, at: Position)
        requires
            old(self).wf(),
            y == clamp_y(old(self).lines(), at.y),
        ensures
            final(self).wf(),
            final(self).lines() == lines_after_insert(old(self).lines(), at, '\n'),
            final(self).file_name_view() == old(self).file_name_view(),
            final(self).dirty_view(),
    {
        let ghost ls = self.lines();
        let ghost rs = self.rows@;
        let n = self.rows.len();
        assert(y < n);
        let mut row = self.rows.remove(y);
        assert(row.raw_view() == ls[y as int]);
        let rest = row.split(at.x);
        self.rows.insert(y, row);
        self.rows.insert(y + 1, rest);
        assert(self.rows@ =~= rs.take(y as int) + seq![row, rest] + rs.skip(y + 1));
        let m = self.rows.len();
        assert(y + 1 < m);
        assert(self.lines() =~= lines_after_insert(ls, at, '\n'));
        self.dirty = true;
        self.rechain(y + 2);
    }

    fn insert_in_row(&mut self, y: usize, at: Position, c: char)
        requires
            old(self).wf(),
            c != '\n',
            y == clamp_y(old(self).lines(), at.y),
            old(self).lines()[y as int].len() < MAX_ROW_LEN,
        ensures
            final(self).wf(),
            final(self).lines() == lines_after_insert(old(self).lines(), at, c),
            final(self).file_name_view() == old(self).file_name_view(),
            final(self).dirty_view(),
    {
        let ghost ls = self.lines();
        let ghost rs = self.rows@;
        let n = self.rows.len();
        assert(y < n);
        let mut row = self.rows.remove(y);
        assert(row.raw_view() == ls[y as int]);
        row.insert(at.x, c);
        self.rows.insert(y, row);
        assert(self.rows@ =~= rs.update(y as int, row));
        assert(self.lines() =~= lines_after_insert(ls, at, c));
        self.dirty = true;
        self.rechain(y + 1);
    }

    /// Deletes the character at `at`; at the end of a row, merges the next
    /// row into it. Out of range positions change nothing.
    pub fn delete(&mut self, at: Position)
        requires
            old(self).wf(),
            (at.y as int) + 1 < old(self).lines().len() ==> old(self).lines()[at.y as int].len()
                + old(self).lines()[at.y + 1].len() <= MAX_ROW_LEN,
        ensures
            final(self).wf(),
            final(self).lines() == lines_after_delete(old(self).lines(), at),
            final(self).file_name_view() == old(self).file_name_view(),
            final(self).dirty_view() == (old(self).dirty_view() || delete_changes(
                old(self).lines(),
                at,
            )),
    {
        if at.y >= self.rows.len() {
            return;
        }
        let y = at.y;
        let len = self.rows[y].len();
        if at.x < len {
            self.delete_in_row(at);
        } else if at.x == len && y + 1 < self.rows.len() {
            self.merge_next(at);
        }
    }

    fn delete_in_row(&mut self, at: Position)
        requires
            old(self).wf(),
            (at.y as int) < old(self).lines().len(),
            (at.x as int) < old(self).lines()[at.y as int].len(),
        ensures
            final(self).wf(),
            final(self).lines() == lines_after_delete(old(self).lines(), at),
            final(self).file_name_view() == old(self).file_name_view(),
            final(self).dirty_view(),
    {
        let ghost ls = self.lines();
        let ghost rs = self.rows@;
        let y = at.y;
        let n = self.rows.len();
        assert(y < n);
        let mut row = self.rows.remove(y);
        assert(row.raw_view() == ls[y as int]);
        row.delete(at.x);
        self.rows.insert(y, row);
        assert(self.rows@ =~= rs.update(y as int, row));
        assert(self.lines() =~= lines_after_delete(ls, at));
        self.dirty = true;
        self.rechain(y + 1);
    }

    fn merge_next(&mut self, at: Position)
        requires
            old(self).wf(),
            (at.y as int) + 1 < old(self).lines().len(),
            (at.x as int) == old(self).lines()[at.y as int].len(),
            old(self).lines()[at.y as int].len() + old(self).lines()[at.y + 1].len()
                <= MAX_ROW_LEN,
        ensures
            final(self).wf(),
            final(self).lines() == lines_after_delete(old(self).lines(), at),
            final(self).file_name_view() == old(self).file_name_view(),
            final(self).dirty_view(),
    {
        let ghost ls = self.lines();
        let ghost rs = self.rows@;
        let y = at.y;
        let n = self.rows.len();
        assert(y + 1 < n);
        let next = self.rows.remove(y + 1);
        let mut row = self.rows.remove(y);
        assert(row.raw_view() == ls[y as int]);
        assert(next.raw_view() == ls[y + 1]);
        row.append(next);
        self.rows.insert(y, row);
        let ghost merged = rs.take(y as int) + seq![row] + rs.skip(y + 2);
        assert(self.rows@ =~= merged);
        proof {
            lemma_merged_rows(rs, y as int, row, self.rules);
        }
        assert(self.lines() =~= lines_after_delete(ls, at));
        self.dirty = true;
        self.rechain(y + 1);
    }
}

/// A match of `q` at row `y`, column `x` that a search from `at` in
/// direction `dir` may return: forward, at or after `at`; backward, strictly
/// before it.
pub open spec fn is_candidate(
    ls: Seq<Seq<char>>,
    q: Seq<char>,
    at: Position,
    dir: SearchDirection,
    y: int,
    x: int,
) -> bool {
    &&& 0 <= y < ls.len()
    &&& occurs_at(ls[y], q, x)
    &&& match dir {
        SearchDirection::Forward => y > at.y || (y == at.y && x >= at.x),
        SearchDirection::Backward => y < at.y || (y == at.y && x < at.x),
    }
}

/// Row `y`, column `x` comes no later than row `y2`, column `x2`.
pub open spec fn pos_le(y: int, x: int, y2: int, x2: int) -> bool {
    y < y2 || (y == y2 && x <= x2)
}

/// What a search returns: nothing for an empty query; otherwise the nearest
/// candidate in the search direction, and nothing when there is none.
pub open spec fn find_result(
    ls: Seq<Seq<char>>,
    q: Seq<char>,
    at: Position,
    dir: SearchDirection,
    r: Option<Position>,
) -> bool {
    match r {
        Some(p) => q.len() > 0 && is_candidate(ls, q, at, dir, p.y as int, p.x as int) && forall|
            y: int,
            x: int,
        |
            #[trigger] is_candidate(ls, q, at, dir, y, x) ==> match dir {
                SearchDirection::Forward => pos_le(p.y as int, p.x as int, y, x),
                SearchDirection::Backward => pos_le(y, x, p.y as int, p.x as int),
            },
        None => q.len() == 0 || forall|y: int, x: int| !#[trigger] is_candidate(ls, q, at, dir, y, x),
    }
}

impl Document {
    /// The nearest match of `query` from `at` in direction `dir`, without
    /// wrapping around the document's start or end.
    pub fn find(&self, query: &Vec<char>, at: Position, dir: SearchDirection) -> (r: Option<
        Position,
    >)
        ensures
            find_result(self.lines(), query@, at, dir, r),
            query@.len() == 0 ==> r.is_none(),
    {
        if query.len() == 0 {
            return None;
        }
        let ghost ls = self.lines();
        match dir {
            SearchDirection::Forward => {
                let mut y = at.y;
                while y < self.rows.len()
                    invariant
                        ls == self.lines(),
                        dir == SearchDirection::Forward,
                        at.y <= y,
                        query@.len() > 0,
                        forall|yy: int, xx: int|
                            yy < y ==> !#[trigger] is_candidate(ls, query@, at, dir, yy, xx),
                    decreases self.rows@.len() - y,
                {
                    let from = if y == at.y {
                        at.x
                    } else {
                        0
                    };
                    let l = self.rows[y].chars();
                    assert(l@ == ls[y as int]);
                    match first_occurrence_from(l, query, from) {
                        Some(c) => {
                            assert(is_candidate(ls, query@, at, dir, y as int, c as int));
                            assert forall|yy: int, xx: int|
                                #[trigger] is_candidate(ls, query@, at, dir, yy, xx) implies pos_le(
                                y as int,
                                c as int,
                                yy,
                                xx,
                            ) by {
                                if yy == y && xx < c {
                                    assert(from <= xx);
                                }
                            }
                            return Some(Position { x: c, y });
                        },
                        None => {
                            assert forall|yy: int, xx: int|
                                yy < y + 1 implies !#[trigger] is_candidate(
                                ls,
                                query@,
                                at,
                                dir,
                                yy,
                                xx,
                            ) by {
                                if yy == y && is_candidate(ls, query@, at, dir, yy, xx) {
                                    assert(from <= xx);
                                }
                            }
                        },
                    }
                    y = y + 1;
                }
                None
            },
            SearchDirection::Backward => {
                let mut y = if at.y < self.rows.len() {
                    at.y + 1
                } else {
                    self.rows.len()
                };
                while y > 0
                    invariant
                        ls == self.lines(),
                        dir == SearchDirection::Backward,
                        y <= ls.len(),
                        y <= at.y + 1,
                        query@.len() > 0,
                        forall|yy: int, xx: int|
                            yy >= y ==> !#[trigger] is_candidate(ls, query@, at, dir, yy, xx),
                    decreases y,
                {
                    y = y - 1;
                    let l = self.rows[y].chars();
                    assert(l@ == ls[y as int]);
                    let before = if y == at.y {
                        at.x
                    } else {
                        l.len()
                    };
                    match last_occurrence_before(l, query, before) {
                        Some(c) => {
                            assert(is_candidate(ls, query@, at, dir, y as int, c as int));
                            assert forall|yy: int, xx: int|
                                #[trigger] is_candidate(ls, query@, at, dir, yy, xx) implies pos_le(
                                yy,
                                xx,
                                y as int,
                                c as int,
                            ) by {
                                if yy == y && xx > c {
                                    assert(xx < before);
                                }
                            }
                            return Some(Position { x: c, y });
                        },
                        None => {
                            assert forall|yy: int, xx: int|
                                yy >= y implies !#[trigger] is_candidate(
                                ls,
                                query@,
                                at,
                                dir,
                                yy,
                                xx,
                            ) by {
                                if yy == y && is_candidate(ls, query@, at, dir, yy, xx) {
                                    assert(xx < before);
                                }
                            }
                        },
                    }
                }
                None
            },
        }
    }
}

/// A search with an empty query finds nothing, from any position and in
/// either direction.
pub proof fn lemma_find_empty(
    ls: Seq<Seq<char>>,
    at: Position,
    dir: SearchDirection,
    r: Option<Position>,
)
    requires
        find_result(ls, Seq::empty(), at, dir, r),
    ensures
        r.is_none(),
{
}

} // verus!
