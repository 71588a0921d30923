use vstd::prelude::*;

verus! {

/// Highlight category of one raw character.
#[derive(Clone, Copy, PartialEq, Eq, Debug, Structural)]
pub enum Type {
    Normal,
    Number,
    Match,
    String,
    Character,
    Comment,
}

impl Type {
    /// Display colour of the category, as red, green and blue.
    pub fn to_rgb(&self) -> (r: (u8, u8, u8))
        ensures
            r == type_rgb(*self),
    {
        match self {
            Type::Number => (220, 163, 163),
            Type::Match => (38, 139, 210),
            Type::String => (211, 54, 130),
            Type::Character => (108, 113, 196),
            Type::Comment => (133, 153, 0),
            Type::Normal => (255, 255, 255),
        }
    }
}

pub open spec fn type_rgb(t: Type) -> (u8, u8, u8) {
    match t {
        Type::Number => (220, 163, 163),
        Type::Match => (38, 139, 210),
        Type::String => (211, 54, 130),
        Type::Character => (108, 113, 196),
        Type::Comment => (133, 153, 0),
        Type::Normal => (255, 255, 255),
    }
}

/// Multi-line construct still open where a row ends.
#[derive(Clone, Copy, PartialEq, Eq, Debug, Structural)]
pub enum Context {
    Code,
    InString,
    InComment,
}

/// The rule set of a file type. A line comment takes priority over a block
/// comment that starts at the same character.
#[derive(Clone, Copy, Debug)]
pub struct HighlightRules {
    /// Tag numeric literals.
    pub numbers: bool,
    /// Tag double-quoted string literals, which may span rows.
    pub strings: bool,
    /// Most characters between the quotes of a character literal; zero
    /// means the file type has none.
    pub max_char_len: usize,
    /// Line comment marker character, if the file type has line comments.
    pub comment: Option<char>,
    /// Whether the marker must appear twice in a row (`//`) rather than once (`#`).
    pub comment_double: bool,
    /// Opening and closing markers of block comments, which may span rows.
    pub block_comment: Option<((char, char), (char, char))>,
}

/// Scanner state between two characters of a row.
#[derive(Clone, Copy, Debug)]
pub struct ScanState {
    pub ctx: Context,
    /// The next character is escaped inside a string.
    pub escaped: bool,
    /// The next character is the second one of a block comment's opening marker.
    pub opening: bool,
    /// The next character is the second one of a block comment's closing marker.
    pub closing: bool,
    /// The previous character was tagged Number.
    pub prev_number: bool,
    /// The current number already holds its one dot.
    pub dot_seen: bool,
    /// A digit here cannot start a number (see `blocks_number`).
    pub blocked: bool,
}

pub open spec fn is_digit(c: char) -> bool {
    '0' <= c && c <= '9'
}

/// Whether `c` has Unicode's Alphabetic property.
pub uninterp spec fn alphabetic(c: char) -> bool;

/// After a character tagged Normal, a digit cannot start a number: the
/// character is alphabetic, or a digit of a run that follows one.
pub open spec fn blocks_number(c: char) -> bool {
    alphabetic(c) || is_digit(c)
}

/// A line comment starts at index `i` of `s`.
pub open spec fn comment_at(s: Seq<char>, rules: HighlightRules, i: int) -> bool {
    0 <= i < s.len() && match rules.comment {
        Some(m) => s[i] == m && (!rules.comment_double || (i < s.len() - 1 && s[i + 1] == m)),
        None => false,
    }
}

/// The two-character marker `m` stands at index `i` of `s`.
pub open spec fn marker_at(s: Seq<char>, m: (char, char), i: int) -> bool {
    0 <= i && i + 1 < s.len() && s[i] == m.0 && s[i + 1] == m.1
}

pub open spec fn block_open_at(s: Seq<char>, rules: HighlightRules, i: int) -> bool {
    match rules.block_comment {
        Some(b) => marker_at(s, b.0, i),
        None => false,
    }
}

pub open spec fn block_close_at(s: Seq<char>, rules: HighlightRules, i: int) -> bool {
    match rules.block_comment {
        Some(b) => marker_at(s, b.1, i),
        None => false,
    }
}

/// Index of the first quote in `s[j..=last]`, or -1 if there is none.
pub open spec fn quote_from(s: Seq<char>, j: int, last: int) -> int
    decreases s.len() - j,
{
    if j < 0 || j > last || j >= s.len() {
        -1
    } else if s[j] == '\'' {
        j
    } else {
        quote_from(s, j + 1, last)
    }
}

/// Index of the quote that closes a character literal opened at `i`, or -1
/// if there is none within the rules' limit. A backslash right after the
/// opening quote escapes the character that follows it.
pub open spec fn char_end(s: Seq<char>, rules: HighlightRules, i: int) -> int {
    let first = if i + 1 < s.len() && s[i + 1] == '\\' {
        i + 3
    } else {
        i + 2
    };
    quote_from(s, first, i + 1 + rules.max_char_len)
}

pub open spec fn start_state(ctx: Context) -> ScanState {
    ScanState {
        ctx,
        escaped: false,
        opening: false,
        closing: false,
        prev_number: false,
        dot_seen: false,
        blocked: false,
    }
}

pub open spec fn plain_state(c: char) -> ScanState {
    ScanState { blocked: blocks_number(c), ..start_state(Context::Code) }
}

pub open spec fn number_state(dot_seen: bool) -> ScanState {
    ScanState { prev_number: true, dot_seen, blocked: true, ..start_state(Context::Code) }
}

/// Categories of `s[i..]` when scanning starts in state `st`, and the
/// construct still open at the end of the row.
#[verifier::opaque]
pub open spec fn scan(s: Seq<char>, rules: HighlightRules, i: int, st: ScanState) -> (Seq<
    Type,
>, Context)
    decreases s.len() - i,
{
    if i < 0 || i >= s.len() {
        (Seq::empty(), st.ctx)
    } else {
        let c = s[i];
        match st.ctx {
            Context::InString => {
                let next = if st.escaped {
                    ScanState { escaped: false, ..st }
                } else if c == '\\' {
                    ScanState { escaped: true, ..st }
                } else if c == '"' {
                    start_state(Context::Code)
                } else {
                    st
                };
                let rest = scan(s, rules, i + 1, next);
                (seq![Type::String] + rest.0, rest.1)
            },
            Context::InComment => {
                let next = if st.closing {
                    start_state(Context::Code)
                } else if st.opening {
                    ScanState { opening: false, ..st }
                } else if block_close_at(s, rules, i) {
                    ScanState { closing: true, ..st }
                } else {
                    st
                };
                let rest = scan(s, rules, i + 1, next);
                (seq![Type::Comment] + rest.0, rest.1)
            },
            Context::Code => {
                if comment_at(s, rules, i) {
                    (Seq::new((s.len() - i) as nat, |_k: int| Type::Comment), Context::Code)
                } else if block_open_at(s, rules, i) {
                    let rest = scan(
                        s,
                        rules,
                        i + 1,
                        ScanState { opening: true, ..start_state(Context::InComment) },
                    );
                    (seq![Type::Comment] + rest.0, rest.1)
                } else if rules.strings && c == '"' {
                    let rest = scan(s, rules, i + 1, start_state(Context::InString));
                    (seq![Type::String] + rest.0, rest.1)
                } else if rules.max_char_len > 0 && c == '\'' && i < char_end(s, rules, i) < s.len() {
                    let j = char_end(s, rules, i);
                    let rest = scan(s, rules, j + 1, start_state(Context::Code));
                    (Seq::new((j + 1 - i) as nat, |_k: int| Type::Character) + rest.0, rest.1)
                } else if rules.numbers && is_digit(c) && (st.prev_number || !st.blocked) {
                    let rest = scan(s, rules, i + 1, number_state(st.prev_number && st.dot_seen));
                    (seq![Type::Number] + rest.0, rest.1)
                } else if rules.numbers && c == '.' && st.prev_number && !st.dot_seen && i + 1
                    < s.len() && is_digit(s[i + 1]) {
                    let rest = scan(s, rules, i + 1, number_state(true));
                    (seq![Type::Number] + rest.0, rest.1)
                } else {
                    let rest = scan(s, rules, i + 1, plain_state(c));
                    (seq![Type::Normal] + rest.0, rest.1)
                }
            },
        }
    }
}

/// Categories of a whole row that starts in context `ctx`.
pub open spec fn highlight_spec(s: Seq<char>, rules: HighlightRules, ctx: Context) -> Seq<Type> {
    scan(s, rules, 0, start_state(ctx)).0
}

/// The construct still open at the end of the row.
pub open spec fn context_after(s: Seq<char>, rules: HighlightRules, ctx: Context) -> Context {
    scan(s, rules, 0, start_state(ctx)).1
}

fn exec_is_digit(c: char) -> (r: bool)
    ensures
        r == is_digit(c),
{
    '0' <= c && c <= '9'
}

/// Relies on char::is_alphabetic: whether the character has the Alphabetic
/// property, which depends on the character alone.
#[verifier::external_body]
fn char_is_alphabetic(c: char) -> (r: bool)
    ensures
        r == alphabetic(c),
{
    c.is_alphabetic()
}

fn exec_blocks_number(c: char) -> (r: bool)
    ensures
        r == blocks_number(c),
{
    char_is_alphabetic(c) || exec_is_digit(c)
}

fn exec_comment_at(s: &Vec<char>, rules: HighlightRules, i: usize) -> (r: bool)
    requires
        i < s@.len(),
    ensures
        r == comment_at(s@, rules, i as int),
{
    match rules.comment {
        Some(m) => s[i] == m && (!rules.comment_double || (i < s.len() - 1 && s[i + 1] == m)),
        None => false,
    }
}

fn exec_marker_at(s: &Vec<char>, m: (char, char), i: usize) -> (r: bool)
    ensures
        r == marker_at(s@, m, i as int),
{
    i < s.len() && i < s.len() - 1 && s[i] == m.0 && s[i + 1] == m.1
}

fn exec_char_end(s: &Vec<char>, rules: HighlightRules, i: usize) -> (r: Option<usize>)
    requires
        i < s@.len(),
    ensures
        match r {
            Some(j) => j as int == char_end(s@, rules, i as int) && i < j < s@.len(),
            None => char_end(s@, rules, i as int) == -1,
        },
{
    let n = s.len();
    let mut k: usize = if i + 1 < n && s[i + 1] == '\\' {
        3
    } else {
        2
    };
    let ghost last: int = i + 1 + rules.max_char_len;
    while k - 1 <= rules.max_char_len && k < n - i
        invariant
            n == s@.len(),
            i < n,
            k >= 2,
            last == i + 1 + rules.max_char_len,
            quote_from(s@, i + k, last) == char_end(s@, rules, i as int),
        decreases n - i - k,
    {
        if s[i + k] == '\'' {
            assert(s@[i + k] == '\'');
            assert(i + k <= last);
            assert(quote_from(s@, i + k, last) == i + k);
            return Some(i + k);
        }
        k = k + 1;
    }
    None
}

/// Highlights one row that starts in context `ctx`. Returns the categories,
/// one per raw character, and the construct still open at its end.
pub fn highlight(s: &Vec<char>, rules: HighlightRules, ctx: Context) -> (r: (Vec<Type>, Context))
    ensures
        r.0@ == highlight_spec(s@, rules, ctx),
        r.1 == context_after(s@, rules, ctx),
        r.0@.len() == s@.len(),
{
    let mut out: Vec<Type> = Vec::new();
    let mut st = ScanState {
        ctx,
        escaped: false,
        opening: false,
        closing: false,
        prev_number: false,
        dot_seen: false,
        blocked: false,
    };
    let n = s.len();
    let mut i: usize = 0;
    let ghost full = scan(s@, rules, 0, start_state(ctx));
    while i < n
        invariant
            n == s@.len(),
            i <= n,
            out@.len() == i,
            out@ + scan(s@, rules, i as int, st).0 == full.0,
            scan(s@, rules, i as int, st).1 == full.1,
        decreases n - i,
    {
        proof {
            reveal(scan);
        }
        let c = s[i];
        let ghost before = scan(s@, rules, i as int, st);
        let plain = ScanState {
            ctx: Context::Code,
            escaped: false,
            opening: false,
            closing: false,
            prev_number: false,
            dot_seen: false,
            blocked: false,
        };
        match st.ctx {
            Context::InString => {
                if st.escaped {
                    st.escaped = false;
                } else if c == '\\' {
                    st.escaped = true;
                } else if c == '"' {
                    st = plain;
                }
                out.push(Type::String);
                i = i + 1;
            },
            Context::InComment => {
                if st.closing {
                    st = plain;
                } else if st.opening {
                    st.opening = false;
                } else if match rules.block_comment {
                    Some(b) => exec_marker_at(s, b.1, i),
                    None => false,
                } {
                    st.closing = true;
                }
                out.push(Type::Comment);
                i = i + 1;
            },
            Context::Code => {
                let char_close = if rules.max_char_len > 0 && c == '\'' {
                    exec_char_end(s, rules, i)
                } else {
                    None
                };
                if exec_comment_at(s, rules, i) {
                    let ghost out0 = out@;
                    let mut k: usize = i;
                    while k < n
                        invariant
                            n == s@.len(),
                            i <= k <= n,
                            out@ == out0 + Seq::new((k - i) as nat, |_j: int| Type::Comment),
                        decreases n - k,
                    {
                        out.push(Type::Comment);
                        k = k + 1;
                        assert(out@ =~= out0 + Seq::new((k - i) as nat, |_j: int| Type::Comment));
                    }
                    assert(out@ =~= out0 + before.0);
                    i = n;
                    st = plain;
                } else if match rules.block_comment {
                    Some(b) => exec_marker_at(s, b.0, i),
                    None => false,
                } {
                    st = ScanState { ctx: Context::InComment, opening: true, ..plain };
                    out.push(Type::Comment);
                    i = i + 1;
                } else if rules.strings && c == '"' {
                    st = ScanState { ctx: Context::InString, ..plain };
                    out.push(Type::String);
                    i = i + 1;
                } else if rules.max_char_len > 0 && c == '\'' && char_close.is_some() {
                    let j = char_close.unwrap();
                    let ghost out0 = out@;
                    let mut k: usize = i;
                    while k <= j
                        invariant
                            j < n,
                            i <= k <= j + 1,
                            out@ == out0 + Seq::new((k - i) as nat, |_j: int| Type::Character),
                        decreases j + 1 - k,
                    {
                        out.push(Type::Character);
                        k = k + 1;
                        assert(out@ =~= out0 + Seq::new((k - i) as nat, |_j: int| Type::Character));
                    }
                    st = ScanState { blocked: false, ..plain };
                    i = j + 1;
                    assert(out@ + scan(s@, rules, i as int, st).0 =~= full.0);
                } else if rules.numbers && exec_is_digit(c) && (st.prev_number || !st.blocked) {
                    st = ScanState {
                        prev_number: true,
                        dot_seen: st.prev_number && st.dot_seen,
                        blocked: true,
                        ..plain
                    };
                    out.push(Type::Number);
                    i = i + 1;
                } else if rules.numbers && c == '.' && st.prev_number && !st.dot_seen && i < n - 1
                    && exec_is_digit(s[i + 1]) {
                    st = ScanState { prev_number: true, dot_seen: true, blocked: true, ..plain };
                    out.push(Type::Number);
                    i = i + 1;
                } else {
                    st = ScanState { blocked: exec_blocks_number(c), ..plain };
                    out.push(Type::Normal);
                    i = i + 1;
                }
            },
        }
        assert(out@ + scan(s@, rules, i as int, st).0 =~= full.0);
    }
    proof {
        reveal(scan);
    }
    assert(out@ =~= full.0);
    (out, st.ctx)
}

} // verus!
