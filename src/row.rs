use vstd::prelude::*;
use crate::highlighting::{context_after, highlight, highlight_spec, Context, HighlightRules, Type};
use crate::search::{matches_at, occurs_at};

verus! {

/// Width of a tab stop when rows are rendered.
pub const TAB_STOP: usize = 8;

/// Longest row that can be rendered without the rendered width overflowing.
pub const MAX_ROW_LEN: usize = usize::MAX / 8;

pub open spec fn spaces(n: nat) -> Seq<char> {
    Seq::new(n, |_i: int| ' ')
}

/// The rendered form of `s`: each tab is replaced by the spaces up to the
/// next multiple of `tab`.
pub open spec fn render_of(s: Seq<char>, tab: nat) -> Seq<char>
    decreases s.len(),
{
    if s.len() == 0 {
        Seq::empty()
    } else {
        let prev = render_of(s.drop_last(), tab);
        if s.last() == '\t' {
            prev + spaces((tab - prev.len() % tab) as nat)
        } else {
            prev.push(s.last())
        }
    }
}

/// The columns `[start, end)` of `s`, clipped to its length.
pub open spec fn window(s: Seq<char>, start: int, end: int) -> Seq<char> {
    let e = if end <= s.len() {
        end
    } else {
        s.len() as int
    };
    if start < e {
        s.subrange(start, e)
    } else {
        Seq::empty()
    }
}

/// `hl` with the categories of `[i, i + n)` replaced by Match.
pub open spec fn mark_match(hl: Seq<Type>, i: int, n: int) -> Seq<Type> {
    Seq::new(hl.len(), |k: int| if i <= k < i + n { Type::Match } else { hl[k] })
}

/// `hl` with every occurrence of `q` in `l` from index `i` on, taken left to
/// right without overlap, marked as Match.
pub open spec fn match_overlay(hl: Seq<Type>, l: Seq<char>, q: Seq<char>, i: int) -> Seq<Type>
    decreases l.len() - i,
{
    if q.len() == 0 || i < 0 || i >= l.len() {
        hl
    } else if occurs_at(l, q, i) {
        match_overlay(mark_match(hl, i, q.len() as int), l, q, i + q.len())
    } else {
        match_overlay(hl, l, q, i + 1)
    }
}

/// Rendered column of raw index `i`.
pub open spec fn render_x(s: Seq<char>, i: int, tab: nat) -> nat {
    render_of(s.take(i), tab).len()
}

/// Raw index of rendered column `rx`, searching from raw index `j`: the first
/// raw index whose character covers `rx`, or the row's length.
pub open spec fn raw_x_from(s: Seq<char>, rx: nat, tab: nat, j: int) -> int
    decreases s.len() - j,
{
    if j < 0 || j >= s.len() {
        s.len() as int
    } else if rx < render_x(s, j + 1, tab) {
        j
    } else {
        raw_x_from(s, rx, tab, j + 1)
    }
}

pub open spec fn raw_x(s: Seq<char>, rx: nat, tab: nat) -> int {
    raw_x_from(s, rx, tab, 0)
}

proof fn lemma_render_step(s: Seq<char>, i: int, tab: nat)
    requires
        0 <= i < s.len(),
        tab >= 1,
    ensures
        s.take(i + 1).drop_last() == s.take(i),
        s.take(i + 1).last() == s[i],
        s[i] == '\t' ==> render_x(s, i + 1, tab) == render_x(s, i, tab) + (tab - render_x(
            s,
            i,
            tab,
        ) % tab),
        s[i] != '\t' ==> render_x(s, i + 1, tab) == render_x(s, i, tab) + 1,
        render_x(s, i, tab) < render_x(s, i + 1, tab) <= render_x(s, i, tab) + tab,
{
    assert(s.take(i + 1).drop_last() =~= s.take(i));
    let r = render_x(s, i, tab) as int;
    assert(0 <= r % (tab as int) < tab) by (nonlinear_arith)
        requires
            tab >= 1,
            r >= 0,
    ;
}

proof fn lemma_render_bound(s: Seq<char>, i: int, tab: nat)
    requires
        0 <= i <= s.len(),
        tab >= 1,
    ensures
        render_x(s, i, tab) <= i * tab,
    decreases i,
{
    if i == 0 {
        assert(s.take(0) =~= Seq::<char>::empty());
    } else {
        lemma_render_bound(s, i - 1, tab);
        lemma_render_step(s, i - 1, tab);
        assert((i - 1) * tab + tab == i * tab) by (nonlinear_arith);
    }
}

proof fn lemma_render_monotone(s: Seq<char>, i: int, j: int, tab: nat)
    requires
        0 <= i <= j <= s.len(),
        tab >= 1,
    ensures
        render_x(s, i, tab) <= render_x(s, j, tab),
        i < j ==> render_x(s, i, tab) < render_x(s, j, tab),
    decreases j - i,
{
    if i < j {
        lemma_render_monotone(s, i, j - 1, tab);
        lemma_render_step(s, j - 1, tab);
    }
}

proof fn lemma_raw_x_from(s: Seq<char>, i: int, j: int, tab: nat)
    requires
        0 <= j <= i <= s.len(),
        tab >= 1,
    ensures
        raw_x_from(s, render_x(s, i, tab), tab, j) == i,
    decreases i - j,
{
    if j < i {
        lemma_render_monotone(s, j + 1, i, tab);
        lemma_raw_x_from(s, i, j + 1, tab);
    } else if i < s.len() {
        lemma_render_step(s, i, tab);
    }
}

proof fn lemma_raw_x_from_inside(s: Seq<char>, rx: nat, tab: nat, j: int)
    requires
        0 <= j < s.len(),
        rx < render_x(s, s.len() as int, tab),
    ensures
        raw_x_from(s, rx, tab, j) < s.len(),
    decreases s.len() - j,
{
    if rx >= render_x(s, j + 1, tab) && j + 1 < s.len() {
        lemma_raw_x_from_inside(s, rx, tab, j + 1);
    }
}

/// The categories of the rendered columns `[start, end)` of a row, clipped
/// to its rendered width: each column takes the category, with the Match
/// overlay for `q`, of the raw character it belongs to.
pub open spec fn column_categories(
    raw: Seq<char>,
    rendered: Seq<char>,
    hl: Seq<Type>,
    q: Seq<char>,
    start: int,
    end: int,
) -> Seq<Type> {
    Seq::new(
        window(rendered, start, end).len(),
        |k: int| match_overlay(hl, raw, q, 0)[raw_x(raw, (start + k) as nat, TAB_STOP as nat)],
    )
}

/// A rendered column inside the rendered row belongs to a raw character.
pub proof fn lemma_raw_x_inside(s: Seq<char>, rx: nat, tab: nat)
    requires
        rx < render_of(s, tab).len(),
    ensures
        0 <= raw_x(s, rx, tab) < s.len(),
{
    assert(s.take(s.len() as int) =~= s);
    if s.len() == 0 {
        assert(render_of(s, tab).len() == 0);
    } else {
        lemma_raw_x_from_inside(s, rx, tab, 0);
        lemma_raw_x_from_nonneg(s, rx, tab, 0);
    }
}

proof fn lemma_raw_x_from_nonneg(s: Seq<char>, rx: nat, tab: nat, j: int)
    requires
        0 <= j <= s.len(),
    ensures
        raw_x_from(s, rx, tab, j) >= j,
    decreases s.len() - j,
{
    if j < s.len() && rx >= render_x(s, j + 1, tab) {
        lemma_raw_x_from_nonneg(s, rx, tab, j + 1);
    }
}

/// Translating a raw index to its rendered column and back gives the raw
/// index again, for every tab width of at least one.
pub proof fn lemma_render_x_round_trip(s: Seq<char>, i: int, tab: nat)
    requires
        0 <= i <= s.len(),
        tab >= 1,
    ensures
        raw_x(s, render_x(s, i, tab), tab) == i,
{
    lemma_raw_x_from(s, i, 0, tab);
}

proof fn lemma_mul_le(a: int, b: int, t: int)
    requires
        0 <= a <= b,
        t >= 0,
    ensures
        a * t <= b * t,
{
    assert(a * t <= b * t) by (nonlinear_arith)
        requires
            0 <= a <= b,
            t >= 0,
    ;
}

/// Renders `raw` with tab stops every `tab` columns.
pub fn render_line(raw: &Vec<char>, tab: usize) -> (r: Vec<char>)
    requires
        tab >= 1,
        raw@.len() * tab <= usize::MAX,
    ensures
        r@ == render_of(raw@, tab as nat),
        r@.len() <= usize::MAX,
{
    let mut out: Vec<char> = Vec::new();
    let mut i: usize = 0;
    while i < raw.len()
        invariant
            tab >= 1,
            raw@.len() * tab <= usize::MAX,
            i <= raw@.len(),
            out@ == render_of(raw@.take(i as int), tab as nat),
        decreases raw@.len() - i,
    {
        proof {
            lemma_render_step(raw@, i as int, tab as nat);
            lemma_render_bound(raw@, i as int + 1, tab as nat);
            lemma_mul_le(i as int + 1, raw@.len() as int, tab as int);
        }
        let c = raw[i];
        if c == '\t' {
            let n = tab - out.len() % tab;
            let ghost out0 = out@;
            let mut k: usize = 0;
            while k < n
                invariant
                    k <= n,
                    out@ == out0 + spaces(k as nat),
                decreases n - k,
            {
                out.push(' ');
                k = k + 1;
                assert(out@ =~= out0 + spaces(k as nat));
            }
        } else {
            out.push(c);
        }
        i = i + 1;
    }
    assert(raw@.take(raw@.len() as int) =~= raw@);
    proof {
        lemma_render_bound(raw@, raw@.len() as int, tab as nat);
    }
    out
}

/// Rendered column of raw index `idx`.
pub fn raw_to_render_x(raw: &Vec<char>, idx: usize, tab: usize) -> (r: usize)
    requires
        tab >= 1,
        idx <= raw@.len(),
        raw@.len() * tab <= usize::MAX,
    ensures
        r == render_x(raw@, idx as int, tab as nat),
{
    let mut rx: usize = 0;
    let mut i: usize = 0;
    while i < idx
        invariant
            tab >= 1,
            idx <= raw@.len(),
            raw@.len() * tab <= usize::MAX,
            i <= idx,
            rx == render_x(raw@, i as int, tab as nat),
        decreases idx - i,
    {
        proof {
            lemma_render_step(raw@, i as int, tab as nat);
            lemma_render_bound(raw@, i as int + 1, tab as nat);
            lemma_mul_le(i as int + 1, raw@.len() as int, tab as int);
        }
        if raw[i] == '\t' {
            rx = rx + (tab - rx % tab);
        } else {
            rx = rx + 1;
        }
        i = i + 1;
    }
    rx
}

/// Raw index of rendered column `rx`: the first raw index whose rendered
/// cell covers `rx`, or the row's length when `rx` lies past its end.
pub fn render_to_raw_x(raw: &Vec<char>, rx: usize, tab: usize) -> (r: usize)
    requires
        tab >= 1,
        raw@.len() * tab <= usize::MAX,
    ensures
        r == raw_x(raw@, rx as nat, tab as nat),
        r <= raw@.len(),
{
    let mut cur: usize = 0;
    let mut i: usize = 0;
    while i < raw.len()
        invariant
            tab >= 1,
            raw@.len() * tab <= usize::MAX,
            i <= raw@.len(),
            cur == render_x(raw@, i as int, tab as nat),
            raw_x_from(raw@, rx as nat, tab as nat, i as int) == raw_x(raw@, rx as nat, tab as nat),
        decreases raw@.len() - i,
    {
        proof {
            lemma_render_step(raw@, i as int, tab as nat);
            lemma_render_bound(raw@, i as int + 1, tab as nat);
            lemma_mul_le(i as int + 1, raw@.len() as int, tab as int);
        }
        if raw[i] == '\t' {
            cur = cur + (tab - cur % tab);
        } else {
            cur = cur + 1;
        }
        if rx < cur {
            return i;
        }
        i = i + 1;
    }
    i
}

} // verus!

verus! {

/// One line of a document: its raw characters, their rendered form and their
/// highlight categories.
pub struct Row {
    raw: Vec<char>,
    render: Vec<char>,
    highlights: Vec<Type>,
    rules: HighlightRules,
    open_in: Context,
    open_out: Context,
}

impl Row {
    pub closed spec fn raw_view(&self) -> Seq<char> {
        self.raw@
    }

    pub closed spec fn render_view(&self) -> Seq<char> {
        self.render@
    }

    pub closed spec fn highlight_view(&self) -> Seq<Type> {
        self.highlights@
    }

    pub closed spec fn rules_view(&self) -> HighlightRules {
        self.rules
    }

    /// The construct that was open when this row started.
    pub closed spec fn open_in_view(&self) -> Context {
        self.open_in
    }

    /// The construct still open when this row ends.
    pub closed spec fn open_out_view(&self) -> Context {
        self.open_out
    }

    pub open spec fn wf(&self) -> bool {
        &&& self.raw_view().len() <= MAX_ROW_LEN
        &&& self.render_view().len() <= usize::MAX
        &&& self.highlight_view().len() == self.raw_view().len()
        &&& self.derived_ok()
    }

    /// The rendered form, the highlights and the construct open at the end
    /// are those of the raw characters (see `lemma_derived`).
    pub closed spec fn derived_ok(&self) -> bool {
        &&& self.render@ == render_of(self.raw@, TAB_STOP as nat)
        &&& self.highlights@ == highlight_spec(self.raw@, self.rules, self.open_in)
        &&& self.open_out == context_after(self.raw@, self.rules, self.open_in)
    }

    /// A well formed row's rendered form, highlights and closing context
    /// follow from its raw characters, its rule set and its opening context.
    pub proof fn lemma_derived(&self)
        requires
            self.wf(),
        ensures
            self.render_view() == render_of(self.raw_view(), TAB_STOP as nat),
            self.highlight_view() == highlight_spec(
                self.raw_view(),
                self.rules_view(),
                self.open_in_view(),
            ),
            self.open_out_view() == context_after(
                self.raw_view(),
                self.rules_view(),
                self.open_in_view(),
            ),
    {
    }

    /// Builds a row from raw characters, highlighted with `rules` after a row
    /// whose end left `open_in` open.
    pub fn new(raw: Vec<char>, rules: HighlightRules, open_in: Context) -> (r: Row)
        requires
            raw@.len() <= MAX_ROW_LEN,
        ensures
            r.wf(),
            r.raw_view() == raw@,
            r.rules_view() == rules,
            r.open_in_view() == open_in,
    {
        let render = render_line(&raw, TAB_STOP);
        let (highlights, open_out) = highlight(&raw, rules, open_in);
        Row { raw, render, highlights, rules, open_in, open_out }
    }

    fn refresh(&mut self)
        requires
            old(self).raw@.len() <= MAX_ROW_LEN,
        ensures
            final(self).wf(),
            final(self).raw@ == old(self).raw@,
            final(self).rules == old(self).rules,
            final(self).open_in == old(self).open_in,
    {
        self.render = render_line(&self.raw, TAB_STOP);
        let (highlights, open_out) = highlight(&self.raw, self.rules, self.open_in);
        self.highlights = highlights;
        self.open_out = open_out;
    }

    /// Number of raw characters.
    pub fn len(&self) -> (r: usize)
        ensures
            r == self.raw_view().len(),
    {
        self.raw.len()
    }

    pub fn is_empty(&self) -> (r: bool)
        ensures
            r == (self.raw_view().len() == 0),
    {
        self.raw.len() == 0
    }

    pub fn chars(&self) -> (r: &Vec<char>)
        ensures
            r@ == self.raw_view(),
    {
        &self.raw
    }

    pub fn rendered(&self) -> (r: &Vec<char>)
        ensures
            r@ == self.render_view(),
    {
        &self.render
    }

    pub fn highlights(&self) -> (r: &Vec<Type>)
        ensures
            r@ == self.highlight_view(),
    {
        &self.highlights
    }

    /// Whether a string or block comment is still open at the end of this row.
    pub fn is_highlighted(&self) -> (r: bool)
        ensures
            r == (self.open_out_view() != Context::Code),
    {
        self.open_out != Context::Code
    }

    /// The construct still open at the end of this row.
    pub fn end_context(&self) -> (r: Context)
        ensures
            r == self.open_out_view(),
    {
        self.open_out
    }

    /// The construct that was open when this row started.
    pub fn start_context(&self) -> (r: Context)
        ensures
            r == self.open_in_view(),
    {
        self.open_in
    }

    /// Re-highlights the row after a row whose end left `open_in` open.
    pub fn set_open_in(&mut self, open_in: Context)
        requires
            old(self).wf(),
        ensures
            final(self).wf(),
            final(self).raw_view() == old(self).raw_view(),
            final(self).rules_view() == old(self).rules_view(),
            final(self).open_in_view() == open_in,
    {
        self.open_in = open_in;
        self.refresh();
    }

    /// Inserts `c` before raw index `at`, clamped to the row's length.
    pub fn insert(&mut self, at: usize, c: char)
        requires
            old(self).wf(),
            old(self).raw_view().len() < MAX_ROW_LEN,
        ensures
            final(self).wf(),
            final(self).raw_view() == old(self).raw_view().insert(
                if at <= old(self).raw_view().len() {
                    at as int
                } else {
                    old(self).raw_view().len() as int
                },
                c,
            ),
            final(self).highlight_view().len() == final(self).raw_view().len(),
            final(self).rules_view() == old(self).rules_view(),
            final(self).open_in_view() == old(self).open_in_view(),
    {
        let idx = if at <= self.raw.len() {
            at
        } else {
            self.raw.len()
        };
        self.raw.insert(idx, c);
        self.refresh();
    }

    /// Removes the character at raw index `at`; nothing happens when `at` is
    /// not below the row's length.
    pub fn delete(&mut self, at: usize)
        requires
            old(self).wf(),
        ensures
            final(self).wf(),
            final(self).raw_view() == if at < old(self).raw_view().len() {
                old(self).raw_view().remove(at as int)
            } else {
                old(self).raw_view()
            },
            final(self).highlight_view().len() == final(self).raw_view().len(),
            at >= old(self).raw_view().len() ==> *final(self) == *old(self),
            final(self).rules_view() == old(self).rules_view(),
            final(self).open_in_view() == old(self).open_in_view(),
    {
        if at < self.raw.len() {
            self.raw.remove(at);
            self.refresh();
        }
    }

    /// Splits the row at raw index `at`, clamped to its length: this row
    /// keeps the characters before it, the returned row holds the rest.
    pub fn split(&mut self, at: usize) -> (r: Row)
        requires
            old(self).wf(),
        ensures
            final(self).wf(),
            r.wf(),
            ({
                let k = if at <= old(self).raw_view().len() {
                    at as int
                } else {
                    old(self).raw_view().len() as int
                };
                &&& final(self).raw_view() == old(self).raw_view().take(k)
                &&& r.raw_view() == old(self).raw_view().skip(k)
            }),
            final(self).rules_view() == old(self).rules_view(),
            final(self).open_in_view() == old(self).open_in_view(),
            r.rules_view() == old(self).rules_view(),
            r.open_in_view() == final(self).open_out_view(),
    {
        let idx = if at <= self.raw.len() {
            at
        } else {
            self.raw.len()
        };
        let rest = self.raw.split_off(idx);
        self.refresh();
        proof {
            assert(self.raw@ =~= old(self).raw@.take(idx as int));
            assert(rest@ =~= old(self).raw@.skip(idx as int));
        }
        Row::new(rest, self.rules, self.open_out)
    }

    /// Appends the raw characters of `other` to this row.
    pub fn append(&mut self, other: Row)
        requires
            old(self).wf(),
            old(self).raw_view().len() + other.raw_view().len() <= MAX_ROW_LEN,
        ensures
            final(self).wf(),
            final(self).raw_view() == old(self).raw_view() + other.raw_view(),
            final(self).rules_view() == old(self).rules_view(),
            final(self).open_in_view() == old(self).open_in_view(),
    {
        let mut tail = other.raw;
        self.raw.append(&mut tail);
        self.refresh();
    }

    /// The rendered columns `[start, end)` of this row, clipped to its
    /// rendered width.
    pub fn render(&self, start: usize, end: usize) -> (r: Vec<char>)
        requires
            self.wf(),
        ensures
            r@ == window(self.render_view(), start as int, end as int),
    {
        let w = self.render.len();
        let e = if end <= w {
            end
        } else {
            w
        };
        let mut out: Vec<char> = Vec::new();
        let mut i: usize = start;
        while i < e
            invariant
                e <= w,
                w == self.render@.len(),
                start <= i,
                (start as int) < e ==> i <= e,
                start < e ==> out@ == self.render@.subrange(start as int, i as int),
                start >= e ==> out@.len() == 0,
            decreases e - i,
        {
            out.push(self.render[i]);
            i = i + 1;
            assert(out@ =~= self.render@.subrange(start as int, i as int));
        }
        proof {
            if start >= e {
                assert(out@ =~= Seq::<char>::empty());
            }
        }
        out
    }

    /// The row's highlights with each occurrence of `query` marked as Match,
    /// for display during a search; the row itself keeps its highlights.
    pub fn highlights_with_match(&self, query: &Vec<char>) -> (r: Vec<Type>)
        requires
            self.wf(),
        ensures
            r@ == match_overlay(self.highlight_view(), self.raw_view(), query@, 0),
            r@.len() == self.raw_view().len(),
    {
        let mut out = self.highlights.clone();
        assert(out@ =~= self.highlights@);
        if query.len() == 0 {
            return out;
        }
        let n = self.raw.len();
        let mut i: usize = 0;
        while i < n
            invariant
                n == self.raw@.len(),
                i <= n + query@.len(),
                query@.len() > 0,
                out@.len() == n,
                match_overlay(out@, self.raw@, query@, i as int) == match_overlay(
                    self.highlights@,
                    self.raw@,
                    query@,
                    0,
                ),
            decreases n + 1 - i,
        {
            if matches_at(&self.raw, query, i) {
                let ghost before = out@;
                let m = query.len();
                let mut k: usize = i;
                while k < i + m
                    invariant
                        i + m <= n,
                        i <= k <= i + m,
                        out@.len() == n,
                        forall|j: int| 0 <= j < n ==> #[trigger] out@[j] == if i <= j < k {
                            Type::Match
                        } else {
                            before[j]
                        },
                    decreases i + m - k,
                {
                    out.set(k, Type::Match);
                    k = k + 1;
                }
                assert(out@ =~= mark_match(before, i as int, m as int));
                i = i + m;
            } else {
                i = i + 1;
            }
        }
        out
    }

    /// The category of each rendered column in `[start, end)`, clipped to
    /// the rendered width: that of the raw character the column belongs to,
    /// with each occurrence of `query` marked as Match.
    pub fn render_highlights(&self, query: &Vec<char>, start: usize, end: usize) -> (r: Vec<Type>)
        requires
            self.wf(),
        ensures
            r@ == column_categories(
                self.raw_view(),
                self.render_view(),
                self.highlight_view(),
                query@,
                start as int,
                end as int,
            ),
    {
        let overlay = self.highlights_with_match(query);
        let w = self.render.len();
        let e = if end <= w {
            end
        } else {
            w
        };
        let mut out: Vec<Type> = Vec::new();
        let mut c: usize = start;
        while c < e
            invariant
                self.wf(),
                e <= w,
                w == self.render@.len(),
                start <= c,
                start < e ==> c <= e,
                start >= e ==> c == start,
                overlay@ == match_overlay(self.highlights@, self.raw@, query@, 0),
                overlay@.len() == self.raw@.len(),
                out@.len() == c - start,
                forall|k: int|
                    0 <= k < out@.len() ==> #[trigger] out@[k] == overlay@[raw_x(
                        self.raw@,
                        (start + k) as nat,
                        TAB_STOP as nat,
                    )],
            decreases e - c,
        {
            let ri = render_to_raw_x(&self.raw, c, TAB_STOP);
            proof {
                lemma_raw_x_inside(self.raw@, c as nat, TAB_STOP as nat);
            }
            out.push(overlay[ri]);
            c = c + 1;
        }
        proof {
            let win = window(self.render@, start as int, end as int);
            if start < e {
                assert(win.len() == e - start);
            } else {
                assert(win.len() == 0);
            }
            assert(out@ =~= column_categories(
                self.raw@,
                self.render@,
                self.highlights@,
                query@,
                start as int,
                end as int,
            ));
        }
        out
    }

    /// Rendered column of raw index `idx`, clamped to the row's length.
    pub fn raw_to_render_x(&self, idx: usize) -> (r: usize)
        requires
            self.wf(),
        ensures
            r == render_x(
                self.raw_view(),
                if idx <= self.raw_view().len() {
                    idx as int
                } else {
                    self.raw_view().len() as int
                },
                TAB_STOP as nat,
            ),
    {
        let i = if idx <= self.raw.len() {
            idx
        } else {
            self.raw.len()
        };
        raw_to_render_x(&self.raw, i, TAB_STOP)
    }

    /// Raw index of rendered column `rx`.
    pub fn render_to_raw_x(&self, rx: usize) -> (r: usize)
        requires
            self.wf(),
        ensures
            r == raw_x(self.raw_view(), rx as nat, TAB_STOP as nat),
            r <= self.raw_view().len(),
    {
        render_to_raw_x(&self.raw, rx, TAB_STOP)
    }
}

/// Inserting a character into a row and deleting it again at the same index
/// gives back the row's raw characters, its rendered form, its highlights and
/// the construct open at its end.
pub proof fn lemma_insert_delete_round_trip(a: Row, b: Row, c: Row, i: int, ch: char)
    requires
        a.wf(),
        b.wf(),
        c.wf(),
        0 <= i <= a.raw_view().len(),
        b.raw_view() == a.raw_view().insert(i, ch),
        c.raw_view() == b.raw_view().remove(i),
        b.rules_view() == a.rules_view() && c.rules_view() == a.rules_view(),
        b.open_in_view() == a.open_in_view() && c.open_in_view() == a.open_in_view(),
    ensures
        c.raw_view() == a.raw_view(),
        c.render_view() == a.render_view(),
        c.highlight_view() == a.highlight_view(),
        c.open_out_view() == a.open_out_view(),
{
    assert(a.raw_view().insert(i, ch).remove(i) =~= a.raw_view());
    a.lemma_derived();
    c.lemma_derived();
}

} // verus!
