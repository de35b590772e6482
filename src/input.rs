//! The single-line composer: editing keys, buffer shortcuts, and splicing in
//! a completion from the server.
use crate::messages::{CompletionData, CompletionView};
use crate::text::{chars_of, push_char, text_of};
use unicode_width::UnicodeWidthStr;
use vstd::prelude::*;

verus! {

/// Alt plus one of these characters jumps to the buffer at its position.
pub const SHORTCUT_CHARS: &'static str = "0123456789qwertyuiop";

/// A key press, as the terminal reports it.
#[derive(Clone, Copy, Debug, PartialEq, Eq, Structural)]
pub enum Key {
    Char(char),
    Alt(char),
    Ctrl(char),
    Left,
    Right,
    Up,
    Backspace,
    /// Any key the composer does not use.
    Other,
}

/// What the caller should do after a run of keys.
#[derive(Debug, PartialEq)]
pub enum Action {
    /// Send the composed text.
    Input,
    /// Ask for a completion at this cursor position of this text.
    Completion(usize, String),
    /// Move to the previous (-1) or next (1) buffer.
    BufChange(i8),
    /// Move to the buffer at this position.
    BufChangeAbs(usize),
    ScrollBack,
    Noop,
    Quit,
}

pub enum ActionView {
    Input,
    Completion(nat, Seq<char>),
    BufChange(i8),
    BufChangeAbs(nat),
    ScrollBack,
    Noop,
    Quit,
}

impl View for Action {
    type V = ActionView;

    open spec fn view(&self) -> ActionView {
        match self {
            Action::Input => ActionView::Input,
            Action::Completion(c, t) => ActionView::Completion(*c as nat, t@),
            Action::BufChange(d) => ActionView::BufChange(*d),
            Action::BufChangeAbs(i) => ActionView::BufChangeAbs(*i as nat),
            Action::ScrollBack => ActionView::ScrollBack,
            Action::Noop => ActionView::Noop,
            Action::Quit => ActionView::Quit,
        }
    }
}

/// The composer's text and its cursor, counted in characters.
pub struct EditView {
    pub data: Seq<char>,
    pub cursor: nat,
}

pub struct LineEdit {
    data: Vec<char>,
    cursor: usize,
}

impl View for LineEdit {
    type V = EditView;

    closed spec fn view(&self) -> EditView {
        EditView { data: self.data@, cursor: self.cursor as nat }
    }
}

/// The first position from `i` on where `c` occurs in `s`.
pub open spec fn char_index_from(s: Seq<char>, c: char, i: int) -> Option<nat>
    decreases s.len() - i,
{
    if i < 0 || i >= s.len() {
        None
    } else if s[i] == c {
        Some(i as nat)
    } else {
        char_index_from(s, c, i + 1)
    }
}

/// The text with each newline shown as a dot, as completion requests take it.
pub open spec fn dotted(d: Seq<char>) -> Seq<char> {
    Seq::new(d.len(), |i: int| if d[i] == '\n' { '.' } else { d[i] })
}

/// One key: the new state, and an action if the key ends the run.
pub open spec fn key_step(st: EditView, k: Key) -> (EditView, Option<ActionView>) {
    let d = st.data;
    let c = st.cursor;
    match k {
        Key::Char('\n') => (st, Some(ActionView::Input)),
        Key::Alt('\r') => (EditView { data: d.insert(c as int, '\n'), cursor: c + 1 }, None),
        Key::Char('\t') => (st, Some(ActionView::Completion(c, dotted(d)))),
        Key::Char(x) => (EditView { data: d.insert(c as int, x), cursor: c + 1 }, None),
        Key::Ctrl('c') => (st, Some(ActionView::Quit)),
        Key::Ctrl('u') => (EditView { data: Seq::empty(), cursor: 0 }, None),
        Key::Up => (st, Some(ActionView::ScrollBack)),
        Key::Left => (EditView {
            cursor: if c > 0 {
                (c - 1) as nat
            } else {
                0
            },
            ..st
        }, None),
        Key::Right => (EditView {
            cursor: if c + 1 <= d.len() {
                c + 1
            } else {
                d.len()
            },
            ..st
        }, None),
        Key::Ctrl('p') => (st, Some(ActionView::BufChange(-1i8))),
        Key::Ctrl('n') => (st, Some(ActionView::BufChange(1i8))),
        Key::Backspace => if c != 0 {
            (EditView { data: d.remove(c - 1), cursor: (c - 1) as nat }, None)
        } else {
            (st, None)
        },
        Key::Alt(x) => match char_index_from(SHORTCUT_CHARS@, x, 0) {
            Some(p) => (st, Some(ActionView::BufChangeAbs(p))),
            None => (st, None),
        },
        _ => (st, None),
    }
}

/// Keys from `i` on: the state after them, and the action of the first key
/// that ends the run (`Noop` if none does).
pub open spec fn keys_applied(st: EditView, keys: Seq<Key>, i: int) -> (EditView, ActionView)
    decreases keys.len() - i,
{
    if i < 0 || i >= keys.len() {
        (st, ActionView::Noop)
    } else {
        let (st2, a) = key_step(st, keys[i]);
        match a {
            Some(act) => (st2, act),
            None => keys_applied(st2, keys, i + 1),
        }
    }
}

/// The composer after a completion: the range from the smaller position to
/// one past `pos_end` (clamped to the text) becomes the first suggestion,
/// followed by a space if asked; the cursor ends after what was put in.
pub open spec fn completed(st: EditView, cv: CompletionView) -> EditView {
    if cv.list.len() == 0 {
        st
    } else {
        let n = st.data.len() as int;
        let lo = if cv.pos_start < cv.pos_end {
            cv.pos_start as int
        } else {
            cv.pos_end as int
        };
        let start = if lo < 0 {
            0
        } else if lo > n {
            n
        } else {
            lo
        };
        let e = cv.pos_end as int + 1;
        let end = if e > n {
            n
        } else if e < start {
            start
        } else {
            e
        };
        let word = cv.list[0];
        let space = if cv.add_space == 1 {
            seq![' ']
        } else {
            Seq::empty()
        };
        EditView {
            data: st.data.subrange(0, start) + word + space + st.data.subrange(end, n),
            cursor: (start + word.len() + space.len()) as nat,
        }
    }
}

fn shortcut_pos(x: char) -> (r: Option<usize>)
    ensures
        match r {
            Some(p) => char_index_from(SHORTCUT_CHARS@, x, 0) == Some(p as nat),
            None => char_index_from(SHORTCUT_CHARS@, x, 0) is None,
        },
{
    let cs = chars_of(SHORTCUT_CHARS);
    let mut i: usize = 0;
    while i < cs.len()
        invariant
            i <= cs.len(),
            cs@ == SHORTCUT_CHARS@,
            char_index_from(cs@, x, 0) == char_index_from(cs@, x, i as int),
        decreases cs.len() - i,
    {
        if cs[i] == x {
            return Some(i);
        }
        i = i + 1;
    }
    None
}

impl LineEdit {
    /// The cursor lies within the text.
    pub closed spec fn wf(&self) -> bool {
        self.cursor <= self.data@.len()
    }

    pub fn new() -> (r: LineEdit)
        ensures
            r.wf(),
            r@ == (EditView { data: Seq::empty(), cursor: 0 }),
    {
        LineEdit { data: Vec::new(), cursor: 0 }
    }

    /// A composer holding `data`, with the cursor at `cursor` (at most the end).
    pub fn with_text(data: Vec<char>, cursor: usize) -> (r: LineEdit)
        ensures
            r.wf(),
            r@ == (EditView {
                data: data@,
                cursor: if cursor <= data@.len() {
                    cursor as nat
                } else {
                    data@.len()
                },
            }),
    {
        let c = if cursor <= data.len() {
            cursor
        } else {
            data.len()
        };
        LineEdit { data, cursor: c }
    }

    pub fn get_string(&self) -> (r: String)
        ensures
            r@ == self@.data,
    {
        text_of(&self.data)
    }

    pub fn get_cursor(&self) -> (r: usize)
        ensures
            r == self@.cursor,
    {
        self.cursor
    }

    /// Empties the input.
    pub fn clear(&mut self)
        ensures
            final(self).wf(),
            final(self)@ == (EditView { data: Seq::empty(), cursor: 0 }),
    {
        self.data = Vec::new();
        self.cursor = 0;
    }

    fn dotted_text(&self) -> (r: String)
        ensures
            r@ == dotted(self@.data),
    {
        let mut out: Vec<char> = Vec::new();
        let mut i: usize = 0;
        while i < self.data.len()
            invariant
                i <= self.data@.len(),
                out@ =~= dotted(self.data@).subrange(0, i as int),
            decreases self.data.len() - i,
        {
            let c = self.data[i];
            if c == '\n' {
                out.push('.');
            } else {
                out.push(c);
            }
            i = i + 1;
        }
        assert(out@ =~= dotted(self.data@));
        text_of(&out)
    }

    /// Applies one key; an action when the key ends the run.
    fn key(&mut self, k: Key) -> (r: Option<Action>)
        requires
            old(self).wf(),
        ensures
            final(self).wf(),
            (final(self)@, match r {
                Some(a) => Some(a@),
                None => None,
            }) == key_step(old(self)@, k),
    {
        match k {
            Key::Char('\n') => Some(Action::Input),
            Key::Alt('\r') => {
                self.data.insert(self.cursor, '\n');
                if self.cursor < self.data.len() {
                    self.cursor = self.cursor + 1;
                }
                None
            },
            Key::Char('\t') => Some(Action::Completion(self.cursor, self.dotted_text())),
            Key::Char(x) => {
                self.data.insert(self.cursor, x);
                if self.cursor < self.data.len() {
                    self.cursor = self.cursor + 1;
                }
                None
            },
            Key::Ctrl('c') => Some(Action::Quit),
            Key::Ctrl('u') => {
                self.clear();
                None
            },
            Key::Up => Some(Action::ScrollBack),
            Key::Left => {
                if self.cursor > 0 {
                    self.cursor = self.cursor - 1;
                }
                None
            },
            Key::Right => {
                if self.cursor < self.data.len() {
                    self.cursor = self.cursor + 1;
                }
                None
            },
            Key::Ctrl('p') => Some(Action::BufChange(-1)),
            Key::Ctrl('n') => Some(Action::BufChange(1)),
            Key::Backspace => {
                if self.cursor != 0 {
                    self.cursor = self.cursor - 1;
                    self.data.remove(self.cursor);
                }
                None
            },
            Key::Alt(x) => match shortcut_pos(x) {
                Some(p) => Some(Action::BufChangeAbs(p)),
                None => None,
            },
            _ => None,
        }
    }

    /// Applies keys in order until one ends the run, and says what to do.
    pub fn handle_input(&mut self, keys: &Vec<Key>) -> (r: Action)
        requires
            old(self).wf(),
        ensures
            final(self).wf(),
            (final(self)@, r@) == keys_applied(old(self)@, keys@, 0),
    {
        let mut i: usize = 0;
        while i < keys.len()
            invariant
                i <= keys.len(),
                self.wf(),
                keys_applied(old(self)@, keys@, 0) == keys_applied(self@, keys@, i as int),
            decreases keys.len() - i,
        {
            match self.key(keys[i]) {
                Some(a) => {
                    return a;
                },
                None => {},
            }
            i = i + 1;
        }
        Action::Noop
    }

    /// Splices in the first suggestion of a completion reply.
    pub fn complete(&mut self, completion: CompletionData)
        requires
            old(self).wf(),
        ensures
            final(self).wf(),
            final(self)@ == completed(old(self)@, completion@),
    {
        if completion.list.len() == 0 {
            return;
        }
        let n = self.data.len();
        let lo: i32 = if completion.pos_start < completion.pos_end {
            completion.pos_start
        } else {
            completion.pos_end
        };
        let start: usize = if lo < 0 {
            0
        } else if lo as usize > n {
            n
        } else {
            lo as usize
        };
        let end: usize = if completion.pos_end < 0 {
            start
        } else {
            let e = completion.pos_end as usize + 1;
            if e > n {
                n
            } else if e < start {
                start
            } else {
                e
            }
        };
        let ghost cv = completion@;
        assert(cv.list[0] == completion.list@[0]@);
        let word = chars_of(completion.list[0].as_str());
        let mut out: Vec<char> = Vec::new();
        let mut i: usize = 0;
        while i < start
            invariant
                i <= start <= n,
                n == self.data@.len(),
                out@ =~= self.data@.subrange(0, i as int),
            decreases start - i,
        {
            out.push(self.data[i]);
            i = i + 1;
        }
        let mut j: usize = 0;
        while j < word.len()
            invariant
                j <= word@.len(),
                out@ =~= self.data@.subrange(0, start as int) + word@.subrange(0, j as int),
            decreases word.len() - j,
        {
            out.push(word[j]);
            j = j + 1;
        }
        assert(word@.subrange(0, j as int) =~= word@);
        let mut cursor = out.len();
        if completion.add_space == 1 {
            out.push(' ');
            cursor = out.len();
        }
        let ghost mid = out@;
        let mut k: usize = end;
        while k < n
            invariant
                end <= k <= n,
                n == self.data@.len(),
                out@ =~= mid + self.data@.subrange(end as int, k as int),
            decreases n - k,
        {
            out.push(self.data[k]);
            k = k + 1;
        }
        assert(out@ =~= completed(self@, cv).data);
        self.data = out;
        self.cursor = cursor;
    }
}

// ----- wrapping the composer for display -----

/// The lines that wrapping `s` at `width` columns gives.
pub uninterp spec fn wrapped_of(s: Seq<char>, width: nat) -> Seq<Seq<char>>;

/// The number of terminal columns `s` takes.
pub uninterp spec fn width_of(s: Seq<char>) -> nat;

/// Relies on textwrap::wrap_iter: the lines of `s` wrapped at `width`
/// columns, which depend on `s` and `width` alone.
#[verifier::external_body]
fn wrap_text(s: &str, width: usize) -> (r: Vec<String>)
    ensures
        r@.map_values(|l: String| l@) == wrapped_of(s@, width as nat),
{
    textwrap::wrap_iter(s, width).map(|l| l.into_owned()).collect()
}

/// Relies on unicode_width::UnicodeWidthStr::width: the columns `s` takes.
#[verifier::external_body]
fn text_width(s: &str) -> (r: usize)
    ensures
        r as nat == width_of(s@),
{
    UnicodeWidthStr::width(s)
}

/// Marks the cursor's place in the text while it is wrapped.
pub const CURSOR_MARK: char = '\u{9f}';

/// The text with the cursor mark put in at `c`.
pub open spec fn with_mark(d: Seq<char>, c: int) -> Seq<char> {
    d.subrange(0, c) + seq![CURSOR_MARK] + d.subrange(c, d.len() as int)
}

/// `l` without any `c`.
pub open spec fn without(l: Seq<char>, c: char) -> Seq<char>
    decreases l.len(),
{
    if l.len() == 0 {
        Seq::empty()
    } else if l.last() == c {
        without(l.drop_last(), c)
    } else {
        without(l.drop_last(), c).push(l.last())
    }
}

/// Lines from `i` on: until the cursor's column is found (a column of 0
/// counts as not found), a line holding the mark gives the column (the
/// width before the mark) and loses the mark, and a line without it moves
/// the cursor one row down.
pub open spec fn scan_from(ls: Seq<Seq<char>>, i: int, cx: nat, cy: nat, acc: Seq<Seq<char>>) -> (
    Seq<Seq<char>>,
    nat,
    nat,
)
    decreases ls.len() - i,
{
    if i < 0 || i >= ls.len() {
        (acc, cx, cy)
    } else if cx == 0 {
        match char_index_from(ls[i], CURSOR_MARK, 0) {
            Some(pos) => scan_from(
                ls,
                i + 1,
                width_of(ls[i].subrange(0, pos as int)),
                cy,
                acc.push(without(ls[i], CURSOR_MARK)),
            ),
            None => scan_from(ls, i + 1, cx, cy + 1, acc.push(ls[i])),
        }
    } else {
        scan_from(ls, i + 1, cx, cy, acc.push(ls[i]))
    }
}

/// Lines from `i` on joined after `acc`, a newline before each line that
/// follows non-empty text.
pub open spec fn joined_from(ls: Seq<Seq<char>>, i: int, acc: Seq<char>) -> Seq<char>
    decreases ls.len() - i,
{
    if i < 0 || i >= ls.len() {
        acc
    } else {
        joined_from(
            ls,
            i + 1,
            (if acc.len() > 0 {
                acc.push('\n')
            } else {
                acc
            }) + ls[i],
        )
    }
}

pub open spec fn clamp16(n: nat) -> u16 {
    if n > u16::MAX {
        u16::MAX
    } else {
        n as u16
    }
}

/// The cursor's column and row in wrapped lines holding the mark, and the
/// lines joined for display without it.
pub open spec fn placed(ls: Seq<Seq<char>>) -> ((u16, u16), Seq<char>) {
    let (outs, cx, cy) = scan_from(ls, 0, 0, 0, Seq::empty());
    ((clamp16(cx), clamp16(cy)), joined_from(outs, 0, Seq::empty()))
}

fn without_mark(l: &Vec<char>) -> (r: Vec<char>)
    ensures
        r@ == without(l@, CURSOR_MARK),
{
    let mut out: Vec<char> = Vec::new();
    let mut i: usize = 0;
    assert(l@.subrange(0, 0) =~= Seq::<char>::empty());
    while i < l.len()
        invariant
            i <= l@.len(),
            out@ == without(l@.subrange(0, i as int), CURSOR_MARK),
        decreases l.len() - i,
    {
        assert(l@.subrange(0, i + 1).drop_last() =~= l@.subrange(0, i as int));
        if l[i] != CURSOR_MARK {
            out.push(l[i]);
        }
        i = i + 1;
    }
    assert(l@.subrange(0, i as int) =~= l@);
    out
}

fn mark_index(l: &Vec<char>) -> (r: Option<usize>)
    ensures
        match r {
            Some(p) => char_index_from(l@, CURSOR_MARK, 0) == Some(p as nat) && p <= l@.len(),
            None => char_index_from(l@, CURSOR_MARK, 0) is None,
        },
{
    let mut i: usize = 0;
    while i < l.len()
        invariant
            i <= l@.len(),
            char_index_from(l@, CURSOR_MARK, 0) == char_index_from(l@, CURSOR_MARK, i as int),
        decreases l.len() - i,
    {
        if l[i] == CURSOR_MARK {
            return Some(i);
        }
        i = i + 1;
    }
    None
}

fn to_u16(n: usize) -> (r: u16)
    ensures
        r == clamp16(n as nat),
{
    if n > 65535 {
        65535
    } else {
        n as u16
    }
}

/// The lines a scan has already produced stay at the front of its result,
/// and it adds one line for each line left.
pub proof fn lemma_scan_prefix(ls: Seq<Seq<char>>, i: int, cx: nat, cy: nat, acc: Seq<Seq<char>>)
    requires
        0 <= i <= ls.len(),
    ensures
        scan_from(ls, i, cx, cy, acc).0.len() == acc.len() + ls.len() - i,
        scan_from(ls, i, cx, cy, acc).0.subrange(0, acc.len() as int) == acc,
    decreases ls.len() - i,
{
    if i < ls.len() {
        if cx == 0 {
            match char_index_from(ls[i], CURSOR_MARK, 0) {
                Some(pos) => {
                    let a = acc.push(without(ls[i], CURSOR_MARK));
                    lemma_scan_prefix(ls, i + 1, width_of(ls[i].subrange(0, pos as int)), cy, a);
                    assert(a.subrange(0, acc.len() as int) =~= acc);
                },
                None => {
                    lemma_scan_prefix(ls, i + 1, cx, cy + 1, acc.push(ls[i]));
                    assert(acc.push(ls[i]).subrange(0, acc.len() as int) =~= acc);
                },
            }
        } else {
            lemma_scan_prefix(ls, i + 1, cx, cy, acc.push(ls[i]));
            assert(acc.push(ls[i]).subrange(0, acc.len() as int) =~= acc);
        }
    } else {
        assert(acc.subrange(0, acc.len() as int) =~= acc);
    }
}

/// Finds the cursor in wrapped lines that hold the mark, as `placed` says.
pub fn place_cursor(lines: &Vec<String>) -> (r: ((u16, u16), String))
    ensures
        (r.0, r.1@) == placed(lines@.map_values(|l: String| l@)),
{
    let ghost ls = lines@.map_values(|l: String| l@);
    let ghost full = scan_from(ls, 0, 0, 0, Seq::empty()).0;
    let mut cx: usize = 0;
    let mut cy: usize = 0;
    let mut joined = String::new();
    let ghost outs: Seq<Seq<char>> = Seq::empty();
    let mut i: usize = 0;
    proof {
        lemma_scan_prefix(ls, 0, 0, 0, Seq::empty());
    }
    while i < lines.len()
        invariant
            i <= lines@.len(),
            cy <= i,
            ls == lines@.map_values(|l: String| l@),
            full == scan_from(ls, 0, 0, 0, Seq::empty()).0,
            full.len() == ls.len(),
            outs.len() == i,
            scan_from(ls, 0, 0, 0, Seq::empty()) == scan_from(ls, i as int, cx as nat, cy as nat, outs),
            joined_from(full, 0, Seq::empty()) == joined_from(full, i as int, joined@),
        decreases lines.len() - i,
    {
        assert(ls[i as int] == lines@[i as int]@);
        let cs = chars_of(lines[i].as_str());
        let line: Vec<char> = if cx == 0 {
            match mark_index(&cs) {
                Some(pos) => {
                    let before = text_of(&slice_chars(&cs, pos));
                    cx = text_width(before.as_str());
                    without_mark(&cs)
                },
                None => {
                    cy = cy + 1;
                    cs
                },
            }
        } else {
            cs
        };
        let ghost j0 = joined@;
        if !joined.as_str().is_empty() {
            push_char(&mut joined, '\n');
        }
        let mut k: usize = 0;
        let ghost base = joined@;
        assert(base == if j0.len() > 0 {
            j0.push('\n')
        } else {
            j0
        });
        while k < line.len()
            invariant
                k <= line@.len(),
                joined@ == base + line@.subrange(0, k as int),
            decreases line.len() - k,
        {
            push_char(&mut joined, line[k]);
            k = k + 1;
            assert(joined@ =~= base + line@.subrange(0, k as int));
        }
        assert(line@.subrange(0, k as int) =~= line@);
        proof {
            outs = outs.push(line@);
            lemma_scan_prefix(ls, i + 1, cx as nat, cy as nat, outs);
            assert(full.subrange(0, i + 1) == outs);
            assert(full[i as int] == full.subrange(0, i + 1)[i as int]);
        }
        i = i + 1;
    }
    ((to_u16(cx), to_u16(cy)), joined)
}

fn slice_chars(cs: &Vec<char>, n: usize) -> (r: Vec<char>)
    requires
        n <= cs@.len(),
    ensures
        r@ == cs@.subrange(0, n as int),
{
    let mut out: Vec<char> = Vec::new();
    let mut k: usize = 0;
    while k < n
        invariant
            k <= n <= cs@.len(),
            out@ == cs@.subrange(0, k as int),
        decreases n - k,
    {
        out.push(cs[k]);
        k = k + 1;
        assert(out@ =~= cs@.subrange(0, k as int));
    }
    out
}

impl LineEdit {
    /// The text wrapped to `width` columns for display, and the cursor's
    /// column and row in it.
    pub fn get_wrapped(&self, width: u16) -> (r: ((u16, u16), String))
        requires
            self.wf(),
        ensures
            (r.0, r.1@) == placed(
                wrapped_of(with_mark(self@.data, self@.cursor as int), width as nat),
            ),
    {
        let mut marked: Vec<char> = Vec::new();
        let mut i: usize = 0;
        while i < self.data.len()
            invariant
                i <= self.data@.len(),
                self.cursor <= self.data@.len(),
                marked@ == if i <= self.cursor {
                    self.data@.subrange(0, i as int)
                } else {
                    with_mark(self.data@, self.cursor as int).subrange(0, i + 1)
                },
            decreases self.data.len() - i,
        {
            if i == self.cursor {
                marked.push(CURSOR_MARK);
            }
            marked.push(self.data[i]);
            i = i + 1;
            assert(marked@ =~= if i <= self.cursor {
                self.data@.subrange(0, i as int)
            } else {
                with_mark(self.data@, self.cursor as int).subrange(0, i + 1)
            });
        }
        if self.cursor == self.data.len() {
            marked.push(CURSOR_MARK);
        }
        assert(marked@ =~= with_mark(self.data@, self.cursor as int));
        let text = text_of(&marked);
        let lines = wrap_text(text.as_str(), width as usize);
        place_cursor(&lines)
    }
}

} // verus!
