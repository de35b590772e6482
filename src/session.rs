//! The state machine of a connected session.
//!
//! `Wee` holds the client's model of the server (buffers, the cached lines of
//! the current buffer, hotlist counters, a pending completion) and the queue
//! of outbound commands. Every change comes from a method call: user actions
//! queue commands, and `handle_one` applies one decoded server message. The
//! caller owns the transport: it writes what `pop_outgoing` hands out and
//! passes each received message body to `handle_one`.
use crate::auth::{
    algo_of, auth_text, create_auth, is_hex, Algo, AlgoView, AuthError, CLIENT_NONCE_LEN,
    SUPPORTED_HASHES,
};
use vstd::utf8::encode_utf8;
use crate::colors::{strip_colors, stripped};
use crate::messages::{
    buffers_of, buffers_view, completions_of, decode_buffers, decode_handshake, decode_info,
    handshake_of, info_of, Info, decode_completion, decode_hotlist,
    decode_line_added, decode_lines, hotlists_of, line_added_of, lines_of, lines_view, Buffer,
    BufferView, CompletionData, CompletionView, Counts, Hotlist, HotlistView, LineData, LineView,
};
use crate::text::{push_char, same_text};
use crate::wire;
use vstd::prelude::*;

verus! {

/// How many lines a backlog or scrollback request asks for.
pub const BUFFER_CACHE_SIZE: usize = 100;

/// Protocol violations that end a session.
#[derive(Clone, Copy, Debug, PartialEq, Eq, Structural)]
pub enum ProtocolError {
    /// A frame announced compression.
    CompressionNotImplemented,
    /// The connection closed while the password was being checked.
    AuthFailed,
    /// The server answered the handshake with another message.
    UnexpectedReply,
}

impl ProtocolError {
    pub fn message(&self) -> (r: &'static str)
        ensures
            *self == ProtocolError::CompressionNotImplemented ==> r@
                == "compression not implemented"@,
            *self == ProtocolError::AuthFailed ==> r@
                == "Connection unexpectedly closed. Check password."@,
            *self == ProtocolError::UnexpectedReply ==> r@ == "expected handshake response"@,
    {
        match self {
            ProtocolError::CompressionNotImplemented => "compression not implemented",
            ProtocolError::AuthFailed => "Connection unexpectedly closed. Check password.",
            ProtocolError::UnexpectedReply => "expected handshake response",
        }
    }
}

/// Why a session step failed. Every such failure ends the session.
#[derive(Clone, Copy, Debug, PartialEq, Eq, Structural)]
pub enum Error {
    Codec(wire::Error),
    Protocol(ProtocolError),
    Auth(AuthError),
}

/// The session as mathematics sees it.
pub struct WeeView {
    pub current: Seq<char>,
    pub bufs: Seq<BufferView>,
    pub lines: Seq<LineView>,
    pub queue: Seq<Seq<char>>,
    pub completion: Option<CompletionView>,
    pub is_scrolling: bool,
}

/// A connected session's state.
pub struct Wee {
    /// The `full_name` of the active buffer; empty when none was chosen.
    current_buffer: String,
    bufs: Vec<Buffer>,
    /// Cached lines of the current buffer, oldest first.
    buf_lines: Vec<LineData>,
    /// Outbound commands in send order; the empty string asks to quit.
    send_queue: Vec<String>,
    completion: Option<CompletionData>,
    /// Whether the cache holds older lines paged in by scrolling back.
    pub is_scrolling: bool,
}

impl View for Wee {
    type V = WeeView;

    closed spec fn view(&self) -> WeeView {
        WeeView {
            current: self.current_buffer@,
            bufs: buffers_view(self.bufs@),
            lines: lines_view(self.buf_lines@),
            queue: self.send_queue@.map_values(|t: String| t@),
            completion: match self.completion {
                Some(c) => Some(c@),
                None => None,
            },
            is_scrolling: self.is_scrolling,
        }
    }
}

// ----- commands -----

/// A client command: `(id) command` and a newline.
pub open spec fn request(id: Seq<char>, command: Seq<char>) -> Seq<char> {
    "("@ + id + ") "@ + command + "\n"@
}

pub open spec fn buffers_request() -> Seq<char> {
    request("gui_buffers"@, "hdata buffer:gui_buffers(*)"@)
}

pub open spec fn hotlist_request() -> Seq<char> {
    request("gui_hotlist"@, "hdata hotlist:gui_hotlist(*)"@)
}

/// The last lines of the buffer at `ptr`.
pub open spec fn backlog_request(ptr: Seq<char>) -> Seq<char> {
    request("backlog_lines"@, "hdata buffer:0x"@ + ptr + "/own_lines/last_line(-100)/data"@)
}

/// The lines before the line at `ptr`.
pub open spec fn scrollback_request(ptr: Seq<char>) -> Seq<char> {
    request("scrollback_lines"@, "hdata line:0x"@ + ptr + "(-100)/data"@)
}

/// Marks the buffer at `ptr` as read.
pub open spec fn mark_read(ptr: Seq<char>) -> Seq<char> {
    "input 0x"@ + ptr + " /buffer set hotlist -1\n"@
}

/// What goes on the wire for a queued command: the empty string means quit.
pub open spec fn wire_text(c: Seq<char>) -> Seq<char> {
    if c.len() == 0 {
        "(quit) quit\n"@
    } else {
        c
    }
}

// ----- finding buffers -----

/// The first index from `i` on whose text is `t`.
pub open spec fn first_index_from(ts: Seq<Seq<char>>, t: Seq<char>, i: int) -> Option<int>
    decreases ts.len() - i,
{
    if i < 0 || i >= ts.len() {
        None
    } else if ts[i] == t {
        Some(i)
    } else {
        first_index_from(ts, t, i + 1)
    }
}

pub open spec fn first_index(ts: Seq<Seq<char>>, t: Seq<char>) -> Option<int> {
    first_index_from(ts, t, 0)
}

pub open spec fn names_of(bufs: Seq<BufferView>) -> Seq<Seq<char>> {
    bufs.map_values(|b: BufferView| b.full_name)
}

pub open spec fn ptrs_of(bufs: Seq<BufferView>) -> Seq<Seq<char>> {
    bufs.map_values(|b: BufferView| b.ptr_buffer)
}

/// The index of the current buffer: the first whose name is `current`.
pub open spec fn current_index(v: WeeView) -> Option<int> {
    first_index(names_of(v.bufs), v.current)
}

pub proof fn lemma_first_index(ts: Seq<Seq<char>>, t: Seq<char>, i: int)
    requires
        0 <= i,
    ensures
        match first_index_from(ts, t, i) {
            Some(j) => i <= j < ts.len() && ts[j] == t && forall|m: int| i <= m < j ==> ts[m] != t,
            None => forall|m: int| i <= m < ts.len() ==> ts[m] != t,
        },
    decreases ts.len() - i,
{
    if i < ts.len() && ts[i] != t {
        lemma_first_index(ts, t, i + 1);
    }
}

fn find_name(bufs: &Vec<Buffer>, name: &str) -> (r: Option<usize>)
    ensures
        match r {
            Some(j) => first_index(names_of(buffers_view(bufs@)), name@) == Some(j as int),
            None => first_index(names_of(buffers_view(bufs@)), name@) is None,
        },
{
    let ghost ns = names_of(buffers_view(bufs@));
    let mut i: usize = 0;
    while i < bufs.len()
        invariant
            i <= bufs.len(),
            ns == names_of(buffers_view(bufs@)),
            first_index(ns, name@) == first_index_from(ns, name@, i as int),
        decreases bufs.len() - i,
    {
        assert(ns[i as int] == bufs@[i as int].full_name@);
        if same_text(bufs[i].full_name.as_str(), name) {
            return Some(i);
        }
        i = i + 1;
    }
    None
}

fn find_ptr(bufs: &Vec<Buffer>, ptr: &str) -> (r: Option<usize>)
    ensures
        match r {
            Some(j) => first_index(ptrs_of(buffers_view(bufs@)), ptr@) == Some(j as int),
            None => first_index(ptrs_of(buffers_view(bufs@)), ptr@) is None,
        },
{
    let ghost ps = ptrs_of(buffers_view(bufs@));
    let mut i: usize = 0;
    while i < bufs.len()
        invariant
            i <= bufs.len(),
            ps == ptrs_of(buffers_view(bufs@)),
            first_index(ps, ptr@) == first_index_from(ps, ptr@, i as int),
        decreases bufs.len() - i,
    {
        assert(ps[i as int] == bufs@[i as int].ptr_buffer@);
        if same_text(bufs[i].ptr_buffer.as_str(), ptr) {
            return Some(i);
        }
        i = i + 1;
    }
    None
}

/// The text of the client command `(id) command`.
pub fn request_text(id: &str, command: &str) -> (r: String)
    ensures
        r@ == request(id@, command@),
{
    let mut msg = String::from_str("(");
    msg.append(id);
    msg.append(") ");
    msg.append(command);
    msg.append("\n");
    msg
}

fn concat(a: &str, b: &str, c: &str) -> (r: String)
    ensures
        r@ == a@ + b@ + c@,
{
    let mut t = String::from_str(a);
    t.append(b);
    t.append(c);
    t
}

// ----- state changes, as mathematics -----

pub open spec fn queued(v: WeeView, c: Seq<char>) -> WeeView {
    WeeView { queue: v.queue.push(c), ..v }
}

/// Makes `name` current, and asks for its backlog if the buffer is known.
pub open spec fn switched(v: WeeView, name: Seq<char>) -> WeeView {
    let v1 = WeeView { current: name, ..v };
    match current_index(v1) {
        Some(i) => queued(v1, backlog_request(v1.bufs[i].ptr_buffer)),
        None => v1,
    }
}

/// The index of the cached line `k` places before the last one (the first
/// line when there are fewer).
pub open spec fn scroll_index(n: int, k: int) -> int {
    if n >= 1 + k {
        n - 1 - k
    } else {
        0
    }
}

/// Pages further back from a cached line: by its pointer when it has one,
/// otherwise (also when nothing is cached) by asking for the current
/// buffer's backlog again.
pub open spec fn scrolled(v: WeeView, k: int) -> WeeView {
    if v.lines.len() == 0 {
        switched(v, v.current)
    } else {
        match v.lines[scroll_index(v.lines.len() as int, k)].ptr_line {
            Some(p) => queued(v, scrollback_request(p)),
            None => switched(v, v.current),
        }
    }
}

impl Wee {
    /// An empty session model.
    pub fn new() -> (r: Wee)
        ensures
            r@ == (WeeView {
                current: Seq::empty(),
                bufs: Seq::empty(),
                lines: Seq::empty(),
                queue: Seq::empty(),
                completion: None,
                is_scrolling: false,
            }),
    {
        let r = Wee {
            current_buffer: String::new(),
            bufs: Vec::new(),
            buf_lines: Vec::new(),
            send_queue: Vec::new(),
            completion: None,
            is_scrolling: false,
        };
        assert(r@.bufs =~= Seq::empty());
        assert(r@.lines =~= Seq::empty());
        assert(r@.queue =~= Seq::empty());
        r
    }

    pub fn get_buffers(&self) -> (r: &Vec<Buffer>)
        ensures
            buffers_view(r@) == self@.bufs,
    {
        &self.bufs
    }

    /// Whether the cache holds older lines paged in by scrolling back.
    pub fn is_scrolling(&self) -> (r: bool)
        ensures
            r == self@.is_scrolling,
    {
        self.is_scrolling
    }

    /// The cached lines of the current buffer, oldest first.
    pub fn get_lines(&self) -> (r: &Vec<LineData>)
        ensures
            lines_view(r@) == self@.lines,
    {
        &self.buf_lines
    }

    /// The `full_name` of the current buffer (empty when unset).
    pub fn get_current_name(&self) -> (r: &String)
        ensures
            r@ == self@.current,
    {
        &self.current_buffer
    }

    /// The commands waiting to be sent, oldest first.
    pub fn get_queue(&self) -> (r: &Vec<String>)
        ensures
            r@.map_values(|t: String| t@) == self@.queue,
    {
        &self.send_queue
    }

    pub fn get_current_buffer(&self) -> (r: Option<&Buffer>)
        ensures
            match r {
                Some(b) => (current_index(self@) matches Some(i) && 0 <= i < self@.bufs.len()
                    && self@.bufs[i] == b@),
                None => current_index(self@) is None,
            },
    {
        match find_name(&self.bufs, self.current_buffer.as_str()) {
            Some(i) => {
                proof {
                    lemma_first_index(names_of(self@.bufs), self@.current, 0);
                }
                Some(&self.bufs[i])
            },
            None => None,
        }
    }

    /// Takes the pending completion, leaving none.
    pub fn consume_completion(&mut self) -> (r: Option<CompletionData>)
        ensures
            match r {
                Some(c) => old(self)@.completion == Some(c@),
                None => old(self)@.completion is None,
            },
            final(self)@ == (WeeView { completion: None, ..old(self)@ }),
    {
        let r = self.completion.take();
        r
    }

    /// Queues `(id) command`.
    pub fn send(&mut self, id: &str, command: &str)
        ensures
            final(self)@ == queued(old(self)@, request(id@, command@)),
    {
        let msg = request_text(id, command);
        let ghost before = self@;
        self.send_queue.push(msg);
        assert(self@.queue =~= before.queue.push(request(id@, command@)));
    }

    /// Asks for the full buffer list.
    pub fn buffers(&mut self)
        ensures
            final(self)@ == queued(old(self)@, buffers_request()),
    {
        self.send("gui_buffers", "hdata buffer:gui_buffers(*)");
    }

    /// Asks for the hotlist.
    pub fn hotlist(&mut self)
        ensures
            final(self)@ == queued(old(self)@, hotlist_request()),
    {
        self.send("gui_hotlist", "hdata hotlist:gui_hotlist(*)");
    }

    /// Asks to end the session: the queue hands out `(quit) quit` for it.
    pub fn close(&mut self)
        ensures
            final(self)@ == queued(old(self)@, Seq::empty()),
    {
        let ghost before = self@;
        self.send_queue.push(String::new());
        assert(self@.queue =~= before.queue.push(Seq::empty()));
    }

    /// Makes `full_name` the current buffer and, if it is known, asks for
    /// its backlog.
    pub fn switch_current_buffer(&mut self, full_name: &str)
        ensures
            final(self)@ == switched(old(self)@, full_name@),
    {
        self.current_buffer = String::from_str(full_name);
        match find_name(&self.bufs, full_name) {
            Some(i) => {
                proof {
                    lemma_first_index(names_of(self@.bufs), self@.current, 0);
                }
                let cmd = concat(
                    "hdata buffer:0x",
                    self.bufs[i].ptr_buffer.as_str(),
                    "/own_lines/last_line(-100)/data",
                );
                self.send("backlog_lines", cmd.as_str());
            },
            None => {},
        }
    }

    /// Asks for the lines before the cached line `scroll` places before the
    /// last one.
    pub fn scroll_back(&mut self, scroll: usize)
        ensures
            final(self)@ == scrolled(old(self)@, scroll as int),
    {
        let n = self.buf_lines.len();
        if n == 0 {
            let name = self.current_buffer.clone();
            self.switch_current_buffer(name.as_str());
            return;
        }
        let idx = if scroll < n {
            n - 1 - scroll
        } else {
            0
        };
        assert(self@.lines[idx as int] == self.buf_lines@[idx as int]@);
        match &self.buf_lines[idx].ptr_line {
            Some(p) => {
                let cmd = concat("hdata line:0x", p.as_str(), "(-100)/data");
                self.send("scrollback_lines", cmd.as_str());
            },
            None => {
                let name = self.current_buffer.clone();
                self.switch_current_buffer(name.as_str());
            },
        }
    }

    /// Takes the oldest queued command, as it goes on the wire.
    pub fn pop_outgoing(&mut self) -> (r: Option<String>)
        ensures
            old(self)@.queue.len() == 0 ==> r is None && final(self)@ == old(self)@,
            old(self)@.queue.len() > 0 ==> (r matches Some(t) && t@ == wire_text(
                old(self)@.queue[0],
            )) && final(self)@ == (WeeView { queue: old(self)@.queue.drop_first(), ..old(self)@ }),
    {
        if self.send_queue.len() == 0 {
            return None;
        }
        let ghost before = self@;
        let c = self.send_queue.remove(0);
        assert(self@.queue =~= before.queue.drop_first());
        assert(c@ == before.queue[0]);
        if c.as_str().is_empty() {
            Some(String::from_str("(quit) quit\n"))
        } else {
            Some(c)
        }
    }
}

/// A line with the formatting codes taken out of its prefix and message.
pub open spec fn stripped_line(l: LineView) -> LineView {
    LineView {
        prefix: match l.prefix {
            Some(p) => Some(stripped(p)),
            None => None,
        },
        message: stripped(l.message),
        ..l
    }
}

/// Lines sent newest first, stripped, oldest first.
pub open spec fn oldest_first(rows: Seq<LineView>) -> Seq<LineView> {
    Seq::new(rows.len(), |i: int| stripped_line(rows[rows.len() - 1 - i]))
}

/// A backlog (`scrolling` false) or scrollback reply replaces the cache; a
/// non-empty backlog also marks its buffer read and asks for the hotlist.
pub open spec fn loaded(v: WeeView, rows: Seq<LineView>, scrolling: bool) -> WeeView {
    WeeView {
        lines: oldest_first(rows),
        is_scrolling: scrolling,
        queue: if !scrolling && rows.len() > 0 {
            v.queue.push(mark_read(rows[0].buffer)).push(hotlist_request())
        } else {
            v.queue
        },
        ..v
    }
}

/// The counts of the last hotlist entry for `ptr`, or zeros.
pub open spec fn hot_counts(hs: Seq<HotlistView>, ptr: Seq<char>) -> Counts
    decreases hs.len(),
{
    if hs.len() == 0 {
        (0, 0, 0, 0)
    } else if hs.last().buffer == ptr {
        hs.last().count
    } else {
        hot_counts(hs.drop_last(), ptr)
    }
}

/// The buffers with their counters taken from the hotlist; a counter goes to
/// the first buffer with the entry's pointer, and all others are zero.
pub open spec fn hotlisted(bufs: Seq<BufferView>, hs: Seq<HotlistView>) -> Seq<BufferView> {
    Seq::new(
        bufs.len(),
        |i: int|
            BufferView {
                hotlist: if first_index(ptrs_of(bufs), bufs[i].ptr_buffer) == Some(i) {
                    hot_counts(hs, bufs[i].ptr_buffer)
                } else {
                    (0, 0, 0, 0)
                },
                ..bufs[i]
            },
    )
}

/// A hotlist reply: new counters, and `core.weechat` made current if none is.
pub open spec fn hotlist_applied(v: WeeView, hs: Seq<HotlistView>) -> WeeView {
    let v1 = WeeView { bufs: hotlisted(v.bufs, hs), ..v };
    if v.current.len() == 0 {
        switched(v1, "core.weechat"@)
    } else {
        v1
    }
}

pub open spec fn bump(c: i32) -> i32 {
    if c < i32::MAX {
        (c + 1) as i32
    } else {
        c
    }
}

/// The counters with the one for `level` raised (0 low, 1 message,
/// 2 private, 3 highlight; other levels change nothing).
pub open spec fn bumped(h: Counts, level: i8) -> Counts {
    if level == 0 {
        (bump(h.0), h.1, h.2, h.3)
    } else if level == 1 {
        (h.0, bump(h.1), h.2, h.3)
    } else if level == 2 {
        (h.0, h.1, bump(h.2), h.3)
    } else if level == 3 {
        (h.0, h.1, h.2, bump(h.3))
    } else {
        h
    }
}

/// The cache with `l` added last, keeping at most `BUFFER_CACHE_SIZE` lines.
pub open spec fn appended(lines: Seq<LineView>, l: LineView) -> Seq<LineView> {
    if lines.len() >= BUFFER_CACHE_SIZE {
        lines.drop_first().push(l)
    } else {
        lines.push(l)
    }
}

/// A new line: cached if it belongs to the current buffer and the view is
/// not scrolled back, otherwise counted in its buffer's hotlist.
pub open spec fn line_added(v: WeeView, l: LineView) -> WeeView {
    match first_index(ptrs_of(v.bufs), l.buffer) {
        None => v,
        Some(i) => if v.bufs[i].full_name == v.current && !v.is_scrolling {
            WeeView { lines: appended(v.lines, stripped_line(l)), ..v }
        } else {
            WeeView {
                bufs: v.bufs.update(
                    i,
                    BufferView { hotlist: bumped(v.bufs[i].hotlist, l.notify_level), ..v.bufs[i] },
                ),
                ..v
            }
        },
    }
}

pub open spec fn is_buffer_event(id: Seq<char>) -> bool {
    id == "_buffer_opened"@ || id == "_buffer_closing"@ || id == "_buffer_renamed"@ || id
        == "_buffer_title_changed"@
}

/// The session after one message body `b`, or the error that ends it.
pub open spec fn handled(v: WeeView, b: Seq<u8>) -> Result<WeeView, Error> {
    match wire::peeked(b) {
        Err(e) => Err(Error::Codec(e)),
        Ok(None) => Ok(v),
        Ok(Some(id)) => if id == "gui_buffers"@ {
            match buffers_of(b) {
                Err(e) => Err(Error::Codec(e)),
                Ok((_, bs)) => Ok(WeeView { bufs: bs, ..v }),
            }
        } else if id == "gui_hotlist"@ {
            match hotlists_of(b) {
                Err(e) => Err(Error::Codec(e)),
                Ok((_, hs)) => Ok(hotlist_applied(v, hs)),
            }
        } else if id == "backlog_lines"@ || id == "scrollback_lines"@ {
            match lines_of(b) {
                Err(e) => Err(Error::Codec(e)),
                Ok((_, ls)) => Ok(loaded(v, ls, id == "scrollback_lines"@)),
            }
        } else if is_buffer_event(id) {
            Ok(queued(queued(v, buffers_request()), hotlist_request()))
        } else if id == "_buffer_line_added"@ {
            match line_added_of(b) {
                Err(e) => Err(Error::Codec(e)),
                Ok((_, l)) => Ok(line_added(v, l)),
            }
        } else if id == "completion"@ {
            match completions_of(b) {
                Err(e) => Err(Error::Codec(e)),
                Ok((_, cs)) => Ok(
                    if cs.len() > 0 {
                        WeeView { completion: Some(cs[0]), ..v }
                    } else {
                        v
                    },
                ),
            }
        } else {
            Ok(v)
        },
    }
}

fn strip_line(l: LineData) -> (r: LineData)
    ensures
        r@ == stripped_line(l@),
{
    let LineData { ptr_line, buffer, date, displayed, highlight, prefix, message, notify_level } =
        l;
    let prefix = match prefix {
        Some(p) => Some(strip_colors(p)),
        None => None,
    };
    LineData {
        ptr_line,
        buffer,
        date,
        displayed,
        highlight,
        prefix,
        message: strip_colors(message),
        notify_level,
    }
}

fn bump_count(c: i32) -> (r: i32)
    ensures
        r == bump(c),
{
    if c < i32::MAX {
        c + 1
    } else {
        c
    }
}

fn bump_counts(h: Counts, level: i8) -> (r: Counts)
    ensures
        r == bumped(h, level),
{
    if level == 0 {
        (bump_count(h.0), h.1, h.2, h.3)
    } else if level == 1 {
        (h.0, bump_count(h.1), h.2, h.3)
    } else if level == 2 {
        (h.0, h.1, bump_count(h.2), h.3)
    } else if level == 3 {
        (h.0, h.1, h.2, bump_count(h.3))
    } else {
        h
    }
}

impl Wee {
    /// A buffer list reply: the list is replaced wholesale.
    pub fn apply_buffers(&mut self, bs: Vec<Buffer>)
        ensures
            final(self)@ == (WeeView { bufs: buffers_view(bs@), ..old(self)@ }),
    {
        self.bufs = bs;
    }

    /// A hotlist reply.
    pub fn apply_hotlist(&mut self, hs: &Vec<Hotlist>)
        ensures
            final(self)@ == hotlist_applied(old(self)@, hs@.map_values(|h: Hotlist| h@)),
    {
        let ghost v0 = self@;
        let ghost b0 = self@.bufs;
        let ghost ps = ptrs_of(b0);
        let ghost hv = hs@.map_values(|h: Hotlist| h@);
        let n = self.bufs.len();
        let mut i: usize = 0;
        while i < n
            invariant
                n == self.bufs.len(),
                b0.len() == n,
                i <= n,
                self@ == (WeeView { bufs: self@.bufs, ..v0 }),
                forall|j: int|
                    0 <= j < i ==> #[trigger] self@.bufs[j] == (BufferView {
                        hotlist: (0, 0, 0, 0),
                        ..b0[j]
                    }),
                forall|j: int| i <= j < n ==> #[trigger] self@.bufs[j] == b0[j],
            decreases n - i,
        {
            let ghost before = self@.bufs;
            self.bufs[i].hotlist = (0, 0, 0, 0);
            assert forall|m: int| 0 <= m < n implies #[trigger] self@.bufs[m] == (if m == i {
                BufferView { hotlist: (0, 0, 0, 0), ..b0[m] }
            } else {
                before[m]
            }) by {
                assert(self@.bufs[m] == self.bufs@[m]@);
            }
            i = i + 1;
        }
        let mut k: usize = 0;
        while k < hs.len()
            invariant
                n == self.bufs.len(),
                b0.len() == n,
                k <= hs.len(),
                ps == ptrs_of(b0),
                hv == hs@.map_values(|h: Hotlist| h@),
                self@ == (WeeView { bufs: self@.bufs, ..v0 }),
                forall|j: int|
                    0 <= j < n ==> #[trigger] self@.bufs[j] == (BufferView {
                        hotlist: if first_index(ps, ps[j]) == Some(j) {
                            hot_counts(hv.subrange(0, k as int), ps[j])
                        } else {
                            (0, 0, 0, 0)
                        },
                        ..b0[j]
                    }),
            decreases hs.len() - k,
        {
            let ghost hb = hs@[k as int].buffer@;
            assert(hv[k as int] == hs@[k as int]@);
            assert(hv.subrange(0, k + 1).drop_last() =~= hv.subrange(0, k as int));
            assert(ptrs_of(self@.bufs) =~= ps) by {
                assert forall|j: int| 0 <= j < n implies ptrs_of(self@.bufs)[j] == ps[j] by {
                    assert(self@.bufs[j].ptr_buffer == b0[j].ptr_buffer);
                }
            }
            proof {
                lemma_first_index(ps, hb, 0);
            }
            match find_ptr(&self.bufs, hs[k].buffer.as_str()) {
                Some(j) => {
                    let c = hs[k].count;
                    let ghost before = self@.bufs;
                    self.bufs[j].hotlist = c;
                    assert forall|m: int| 0 <= m < n implies #[trigger] self@.bufs[m] == (
                    BufferView {
                        hotlist: if first_index(ps, ps[m]) == Some(m) {
                            hot_counts(hv.subrange(0, k + 1), ps[m])
                        } else {
                            (0, 0, 0, 0)
                        },
                        ..b0[m]
                    }) by {
                        assert(self@.bufs[m] == self.bufs@[m]@);
                        if m != j {
                            assert(self@.bufs[m] == before[m]);
                        }
                    }
                },
                None => {
                    assert forall|m: int| 0 <= m < n implies #[trigger] self@.bufs[m] == (
                    BufferView {
                        hotlist: if first_index(ps, ps[m]) == Some(m) {
                            hot_counts(hv.subrange(0, k + 1), ps[m])
                        } else {
                            (0, 0, 0, 0)
                        },
                        ..b0[m]
                    }) by {}
                },
            }
            k = k + 1;
        }
        assert(self@.bufs =~= hotlisted(b0, hv)) by {
            assert(hv.subrange(0, hs@.len() as int) =~= hv);
        }
        if self.current_buffer.as_str().is_empty() {
            self.switch_current_buffer("core.weechat");
        }
    }

    /// A backlog (`scrolling` false) or scrollback reply, rows newest first.
    pub fn apply_lines(&mut self, rows: Vec<LineData>, scrolling: bool)
        ensures
            final(self)@ == loaded(old(self)@, lines_view(rows@), scrolling),
    {
        let ghost rv = lines_view(rows@);
        let n = rows.len();
        self.is_scrolling = scrolling;
        if !scrolling && n > 0 {
            let cmd = concat("input 0x", rows[0].buffer.as_str(), " /buffer set hotlist -1\n");
            let ghost before = self@;
            self.send_queue.push(cmd);
            assert(self@.queue =~= before.queue.push(mark_read(rv[0].buffer)));
            self.hotlist();
        }
        let ghost v1 = self@;
        let mut rest = rows;
        let mut out: Vec<LineData> = Vec::new();
        while rest.len() > 0
            invariant
                rest.len() + out.len() == n,
                n == rv.len(),
                lines_view(rest@) == rv.subrange(0, rest.len() as int),
                forall|i: int|
                    0 <= i < out.len() ==> #[trigger] out@[i]@ == stripped_line(rv[n - 1 - i]),
            decreases rest.len(),
        {
            let ghost r = rest@;
            match rest.pop() {
                Some(l) => {
                    assert(l@ == rv[rest.len() as int]) by {
                        assert(lines_view(r)[r.len() - 1] == r[r.len() - 1]@);
                    }
                    assert(lines_view(rest@) =~= rv.subrange(0, rest.len() as int)) by {
                        assert forall|i: int| 0 <= i < rest.len() implies lines_view(rest@)[i]
                            == rv[i] by {
                            assert(lines_view(r)[i] == r[i]@);
                        }
                    }
                    out.push(strip_line(l));
                },
                None => {},
            }
        }
        self.buf_lines = out;
        assert(self@.lines =~= oldest_first(rv));
        assert(self@ == loaded(old(self)@, rv, scrolling));
    }

    /// A `_buffer_line_added` event.
    pub fn apply_line_added(&mut self, line: LineData)
        ensures
            final(self)@ == line_added(old(self)@, line@),
    {
        let ghost v0 = self@;
        match find_ptr(&self.bufs, line.buffer.as_str()) {
            None => {},
            Some(i) => {
                proof {
                    lemma_first_index(ptrs_of(v0.bufs), line@.buffer, 0);
                }
                assert(v0.bufs[i as int] == self.bufs@[i as int]@);
                if same_text(self.bufs[i].full_name.as_str(), self.current_buffer.as_str())
                    && !self.is_scrolling {
                    if self.buf_lines.len() >= BUFFER_CACHE_SIZE {
                        self.buf_lines.remove(0);
                    }
                    self.buf_lines.push(strip_line(line));
                    assert(self@.lines =~= appended(v0.lines, stripped_line(line@)));
                } else {
                    let h = bump_counts(self.bufs[i].hotlist, line.notify_level);
                    self.bufs[i].hotlist = h;
                    assert(self@.bufs =~= v0.bufs.update(
                        i as int,
                        BufferView { hotlist: h, ..v0.bufs[i as int] },
                    ));
                }
            },
        }
    }

    /// Applies one message body (the bytes after the length and compression
    /// flag). Unknown ids change nothing; a known id whose payload does not
    /// decode to its shape is an error.
    pub fn handle_one(&mut self, body: &[u8]) -> (r: Result<(), Error>)
        ensures
            match r {
                Ok(()) => handled(old(self)@, body@) == Ok::<WeeView, Error>(final(self)@),
                Err(e) => handled(old(self)@, body@) == Err::<WeeView, Error>(e),
            },
    {
        let id = match wire::peek_str(body) {
            Err(e) => {
                return Err(Error::Codec(e));
            },
            Ok(None) => {
                return Ok(());
            },
            Ok(Some(id)) => id,
        };
        let id = id.as_str();
        if same_text(id, "gui_buffers") {
            match decode_buffers(body) {
                Err(e) => Err(Error::Codec(e)),
                Ok(resp) => {
                    self.apply_buffers(resp.hda);
                    Ok(())
                },
            }
        } else if same_text(id, "gui_hotlist") {
            match decode_hotlist(body) {
                Err(e) => Err(Error::Codec(e)),
                Ok(resp) => {
                    self.apply_hotlist(&resp.hda);
                    Ok(())
                },
            }
        } else if same_text(id, "backlog_lines") || same_text(id, "scrollback_lines") {
            let scrolling = same_text(id, "scrollback_lines");
            match decode_lines(body) {
                Err(e) => Err(Error::Codec(e)),
                Ok(resp) => {
                    self.apply_lines(resp.hda, scrolling);
                    Ok(())
                },
            }
        } else if same_text(id, "_buffer_opened") || same_text(id, "_buffer_closing") || same_text(
            id,
            "_buffer_renamed",
        ) || same_text(id, "_buffer_title_changed") {
            self.buffers();
            self.hotlist();
            Ok(())
        } else if same_text(id, "_buffer_line_added") {
            match decode_line_added(body) {
                Err(e) => Err(Error::Codec(e)),
                Ok(ev) => {
                    let (line,) = ev.hda;
                    self.apply_line_added(line);
                    Ok(())
                },
            }
        } else if same_text(id, "completion") {
            match decode_completion(body) {
                Err(e) => Err(Error::Codec(e)),
                Ok(resp) => {
                    let mut cs = resp.hda;
                    if cs.len() > 0 {
                        let ghost cv = cs@.map_values(|c: CompletionData| c@);
                        let c = cs.remove(0);
                        assert(cv[0] == c@);
                        self.completion = Some(c);
                    }
                    Ok(())
                },
            }
        } else {
            Ok(())
        }
    }
}

// ----- framing and the connection preamble -----

/// The length of a frame's body, given the frame's length field and its
/// compression flag. Compression is refused.
pub fn body_len(len: u32, compression: u8) -> (r: Result<usize, Error>)
    ensures
        compression != 0 ==> r == Err::<usize, Error>(
            Error::Protocol(ProtocolError::CompressionNotImplemented),
        ),
        compression == 0 && len < 5 ==> r == Err::<usize, Error>(
            Error::Codec(wire::Error::BadLength),
        ),
        compression == 0 && len >= 5 ==> r == Ok::<usize, Error>((len - 5) as usize),
{
    if compression != 0 {
        Err(Error::Protocol(ProtocolError::CompressionNotImplemented))
    } else if len < 5 {
        Err(Error::Codec(wire::Error::BadLength))
    } else {
        Ok((len - 5) as usize)
    }
}

/// The first command of a session: offers the supported password hashes.
pub open spec fn handshake_command() -> Seq<char> {
    request("handshake"@, "handshake compression=off,password_hash_algo="@ + SUPPORTED_HASHES@)
}

pub fn handshake_request() -> (r: String)
    ensures
        r@ == handshake_command(),
{
    let mut command = String::from_str("handshake compression=off,password_hash_algo=");
    command.append(SUPPORTED_HASHES);
    request_text("handshake", command.as_str())
}

/// Authentication, then the version probe that tells whether it worked.
pub open spec fn init_commands(auth: Seq<char>) -> Seq<char> {
    "init "@ + auth + "\n"@ + request("version_check"@, "info version"@)
}

/// What to send once the handshake reply `reply` (a message body) is in:
/// the `init` command with fresh credentials and the version probe.
pub fn auth_commands(reply: &[u8], password: &str) -> (r: Result<String, Error>)
    ensures
        match r {
            Ok(t) => match handshake_of(reply@) {
                Ok((id, h)) => id == "handshake"@ && match algo_of(h) {
                    Some(a) => exists|cn: Seq<u8>|
                        cn.len() == CLIENT_NONCE_LEN && (#[trigger] auth_text(
                            a,
                            password@,
                            cn,
                        ) matches Some(x) && t@ == init_commands(x)),
                    None => false,
                },
                Err(_) => false,
            },
            Err(e) => match handshake_of(reply@) {
                Err(d) => e == Error::Codec(d),
                Ok((id, h)) => if id != "handshake"@ {
                    e == Error::Protocol(ProtocolError::UnexpectedReply)
                } else if algo_of(h) is None {
                    e == Error::Auth(AuthError::UnsupportedAlgorithm)
                } else {
                    (e == Error::Auth(AuthError::BadNonce) && (algo_of(h) matches Some(
                        AlgoView::Sha { nonce, .. },
                    ) && !is_hex(encode_utf8(nonce)))) || (e == Error::Auth(AuthError::Crypto)
                        && (algo_of(h) matches Some(AlgoView::Sha { .. })))
                },
            },
        },
        handshake_of(reply@) matches Ok((id, h)) && id == "handshake"@ && algo_of(h) == Some(
            AlgoView::Plain,
        ) ==> r is Ok,
{
    let res = match decode_handshake(reply) {
        Err(e) => {
            return Err(Error::Codec(e));
        },
        Ok(res) => res,
    };
    if !same_text(res.id.as_str(), "handshake") {
        return Err(Error::Protocol(ProtocolError::UnexpectedReply));
    }
    let algo = match Algo::from_handshake(&res.htb) {
        Err(e) => {
            return Err(Error::Auth(e));
        },
        Ok(a) => a,
    };
    let auth = match create_auth(&algo, password) {
        Err(e) => {
            return Err(Error::Auth(e));
        },
        Ok(t) => t,
    };
    let mut t = String::from_str("init ");
    t.append(auth.as_str());
    t.append("\n");
    let probe = request_text("version_check", "info version");
    t.append(probe.as_str());
    Ok(t)
}

/// Reads the reply to the version probe; `None` when the connection closed
/// before a frame came, which means the password was refused.
pub fn version_reply(body: Option<&[u8]>) -> (r: Result<Info, Error>)
    ensures
        body is None ==> r == Err::<Info, Error>(Error::Protocol(ProtocolError::AuthFailed)),
        body matches Some(b) ==> match info_of(b@) {
            Ok((id, k, v)) => r matches Ok(i) && i.id@ == id && i.inf.0@ == k && wire::opt_text(
                i.inf.1,
            ) == v,
            Err(wire::Error::UnexpectedEof) => r == Err::<Info, Error>(
                Error::Protocol(ProtocolError::AuthFailed),
            ),
            Err(e) => r == Err::<Info, Error>(Error::Codec(e)),
        },
{
    match body {
        None => Err(Error::Protocol(ProtocolError::AuthFailed)),
        Some(b) => match decode_info(b) {
            Ok(i) => Ok(i),
            Err(wire::Error::UnexpectedEof) => Err(Error::Protocol(ProtocolError::AuthFailed)),
            Err(e) => Err(Error::Codec(e)),
        },
    }
}

// ----- laws -----

/// One of the four hotlist counters: 0 low, 1 message, 2 private, 3 highlight.
pub open spec fn slot(h: Counts, k: int) -> i32 {
    if k == 0 {
        h.0
    } else if k == 1 {
        h.1
    } else if k == 2 {
        h.2
    } else {
        h.3
    }
}

/// The queue as it goes on the wire.
pub open spec fn on_wire(q: Seq<Seq<char>>) -> Seq<Seq<char>> {
    q.map_values(|c: Seq<char>| wire_text(c))
}

/// With distinct buffer pointers, a buffer list followed by a hotlist of one
/// entry for buffer `b` leaves `b` with the entry's counters, every other
/// buffer with zeros, and the buffers otherwise as listed.
pub proof fn lemma_single_hotlist(v: WeeView, bs: Seq<BufferView>, h: HotlistView, b: int)
    requires
        0 <= b < bs.len(),
        bs[b].ptr_buffer == h.buffer,
        forall|i: int, j: int|
            0 <= i < bs.len() && 0 <= j < bs.len() && i != j ==> bs[i].ptr_buffer
                != bs[j].ptr_buffer,
    ensures
        ({
            let w = hotlist_applied(WeeView { bufs: bs, ..v }, seq![h]);
            &&& w.bufs.len() == bs.len()
            &&& forall|i: int|
                0 <= i < bs.len() ==> #[trigger] w.bufs[i] == (BufferView {
                    hotlist: if i == b {
                        h.count
                    } else {
                        (0, 0, 0, 0)
                    },
                    ..bs[i]
                })
        }),
{
    let ps = ptrs_of(bs);
    let v1 = WeeView { bufs: bs, ..v };
    let w = hotlist_applied(v1, seq![h]);
    assert(w.bufs == hotlisted(bs, seq![h]));
    assert forall|i: int| 0 <= i < bs.len() implies #[trigger] w.bufs[i] == (BufferView {
        hotlist: if i == b {
            h.count
        } else {
            (0, 0, 0, 0)
        },
        ..bs[i]
    }) by {
        lemma_first_index(ps, ps[i], 0);
        assert(ps[i] == bs[i].ptr_buffer);
        let j = first_index(ps, ps[i])->0;
        assert(ps[j] == bs[j].ptr_buffer);
        assert(first_index(ps, ps[i]) == Some(i));
        assert(seq![h].drop_last() =~= Seq::<HotlistView>::empty());
        assert(hot_counts(Seq::<HotlistView>::empty(), ps[i]) == (0i32, 0i32, 0i32, 0i32));
        assert(ps[b] == h.buffer);
        assert(hotlisted(bs, seq![h])[i] == (BufferView {
            hotlist: if first_index(ps, bs[i].ptr_buffer) == Some(i) {
                hot_counts(seq![h], bs[i].ptr_buffer)
            } else {
                (0, 0, 0, 0)
            },
            ..bs[i]
        }));
    }
}

/// Switching to `x` and then loading a backlog of rows sent newest first
/// leaves the cache holding them oldest first, stripped, and not scrolled; if
/// any came, the read marker for their buffer and a hotlist request follow
/// in the queue.
pub proof fn lemma_backlog_after_switch(v: WeeView, x: Seq<char>, rows: Seq<LineView>)
    ensures
        ({
            let s = switched(v, x);
            let w = loaded(s, rows, false);
            &&& w.current == x
            &&& !w.is_scrolling
            &&& w.lines.len() == rows.len()
            &&& forall|i: int|
                0 <= i < rows.len() ==> #[trigger] w.lines[i] == stripped_line(
                    rows[rows.len() - 1 - i],
                )
            &&& rows.len() > 0 ==> w.queue == s.queue + seq![
                mark_read(rows[0].buffer),
                hotlist_request(),
            ]
            &&& rows.len() == 0 ==> w.queue == s.queue
        }),
{
    let s = switched(v, x);
    if rows.len() > 0 {
        assert(s.queue.push(mark_read(rows[0].buffer)).push(hotlist_request()) =~= s.queue
            + seq![mark_read(rows[0].buffer), hotlist_request()]);
    }
}

/// A line for the current buffer, while not scrolled back, is appended to
/// the cache; a line for another known buffer leaves the cache alone and
/// raises exactly the counter its notify level names (levels 0 to 3, while
/// below the maximum).
pub proof fn lemma_line_added(v: WeeView, l: LineView)
    ensures
        ({
            let w = line_added(v, l);
            match first_index(ptrs_of(v.bufs), l.buffer) {
                None => w == v,
                Some(i) => if v.bufs[i].full_name == v.current && !v.is_scrolling {
                    &&& w.lines.len() > 0
                    &&& w.lines.last() == stripped_line(l)
                    &&& w.bufs == v.bufs
                } else {
                    &&& w.lines == v.lines
                    &&& w.bufs.len() == v.bufs.len()
                    &&& forall|j: int| 0 <= j < v.bufs.len() && j != i ==> w.bufs[j] == v.bufs[j]
                    &&& forall|k: int|
                        0 <= k < 4 ==> #[trigger] slot(w.bufs[i].hotlist, k) as int == if k
                            == l.notify_level && slot(v.bufs[i].hotlist, k) < i32::MAX {
                            slot(v.bufs[i].hotlist, k) as int + 1
                        } else {
                            slot(v.bufs[i].hotlist, k) as int
                        }
                },
            }
        }),
{
    lemma_first_index(ptrs_of(v.bufs), l.buffer, 0);
}

/// Scrolling back from a cached line that has a pointer asks for the lines
/// before it; the reply then marks the view scrolled and queues nothing.
pub proof fn lemma_scroll_back(v: WeeView, k: int, rows: Seq<LineView>)
    requires
        v.lines.len() > 0,
        v.lines[scroll_index(v.lines.len() as int, k)].ptr_line is Some,
    ensures
        ({
            let s = scrolled(v, k);
            &&& s.queue == v.queue.push(
                scrollback_request(v.lines[scroll_index(v.lines.len() as int, k)].ptr_line->0),
            )
            &&& loaded(s, rows, true).is_scrolling
            &&& loaded(s, rows, true).queue == s.queue
        }),
{
}

/// Scrolling back with nothing cached, or from a cached line without a
/// pointer, asks for the current buffer's backlog again.
pub proof fn lemma_scroll_back_reloads(v: WeeView, k: int)
    requires
        v.lines.len() == 0 || v.lines[scroll_index(v.lines.len() as int, k)].ptr_line is None,
    ensures
        scrolled(v, k) == switched(v, v.current),
        current_index(v) matches Some(i) ==> scrolled(v, k).queue == v.queue.push(
            backlog_request(v.bufs[i].ptr_buffer),
        ) && scrolled(v, k).lines == v.lines,
{
    assert(WeeView { current: v.current, ..v } == v);
}

/// After `close`, draining the queue writes everything queued before it and
/// then `(quit) quit`.
pub proof fn lemma_close(v: WeeView)
    ensures
        on_wire(queued(v, Seq::empty()).queue) == on_wire(v.queue).push("(quit) quit\n"@),
{
    assert(on_wire(queued(v, Seq::empty()).queue) =~= on_wire(v.queue).push("(quit) quit\n"@));
}

// ----- user actions -----

/// The decimal digits of `n`.
pub open spec fn decimal(n: nat) -> Seq<char>
    decreases n,
{
    if n < 10 {
        seq![digit(n)]
    } else {
        decimal(n / 10).push(digit(n % 10))
    }
}

pub open spec fn digit(n: nat) -> char {
    seq!['0', '1', '2', '3', '4', '5', '6', '7', '8', '9'][n as int]
}

fn digit_char(n: usize) -> (r: char)
    requires
        n < 10,
    ensures
        r == digit(n as nat),
{
    if n == 0 {
        '0'
    } else if n == 1 {
        '1'
    } else if n == 2 {
        '2'
    } else if n == 3 {
        '3'
    } else if n == 4 {
        '4'
    } else if n == 5 {
        '5'
    } else if n == 6 {
        '6'
    } else if n == 7 {
        '7'
    } else if n == 8 {
        '8'
    } else {
        '9'
    }
}

/// `n` written in decimal.
pub fn decimal_text(n: usize) -> (r: String)
    ensures
        r@ == decimal(n as nat),
    decreases n,
{
    if n < 10 {
        let mut t = String::new();
        push_char(&mut t, digit_char(n));
        assert(t@ =~= decimal(n as nat));
        t
    } else {
        let mut t = decimal_text(n / 10);
        push_char(&mut t, digit_char(n % 10));
        t
    }
}

/// The pieces of `t` between newlines, from index `i`; the current piece began at `start`.
pub open spec fn lines_from(t: Seq<char>, i: int, start: int) -> Seq<Seq<char>>
    decreases t.len() - i,
{
    if i >= t.len() {
        if start < t.len() {
            seq![t.subrange(start, t.len() as int)]
        } else {
            Seq::empty()
        }
    } else if t[i] == '\n' {
        seq![t.subrange(start, i)] + lines_from(t, i + 1, i + 1)
    } else {
        lines_from(t, i + 1, start)
    }
}

/// The lines of `t`: split at newlines, with no empty last line.
pub open spec fn text_lines(t: Seq<char>) -> Seq<Seq<char>> {
    lines_from(t, 0, 0)
}

/// Sends each line of `text` to the buffer at `ptr`.
pub open spec fn input_requests(ptr: Seq<char>, lines: Seq<Seq<char>>) -> Seq<Seq<char>> {
    lines.map_values(|l: Seq<char>| request(""@, "input 0x"@ + ptr + " "@ + l))
}

/// The buffer `delta` places from the current one (-1 previous, 1 next).
pub open spec fn neighbour_index(v: WeeView, delta: i8) -> Option<int> {
    match current_index(v) {
        None => None,
        Some(c) => if delta > 0 {
            if c + 1 < v.bufs.len() {
                Some(c + 1)
            } else {
                None
            }
        } else if c > 0 {
            Some(c - 1)
        } else {
            None
        },
    }
}

/// The first buffer with private messages or highlights waiting.
pub open spec fn first_hot_from(bufs: Seq<BufferView>, i: int) -> Option<int>
    decreases bufs.len() - i,
{
    if i < 0 || i >= bufs.len() {
        None
    } else if bufs[i].hotlist.2 > 0 || bufs[i].hotlist.3 > 0 {
        Some(i)
    } else {
        first_hot_from(bufs, i + 1)
    }
}

impl Wee {
    /// The index of the buffer `delta` places from the current one, if any.
    pub fn neighbour(&self, delta: i8) -> (r: Option<usize>)
        ensures
            match r {
                Some(i) => neighbour_index(self@, delta) == Some(i as int),
                None => neighbour_index(self@, delta) is None,
            },
    {
        match find_name(&self.bufs, self.current_buffer.as_str()) {
            None => None,
            Some(c) => {
                proof {
                    lemma_first_index(names_of(self@.bufs), self@.current, 0);
                }
                assert(names_of(self@.bufs).len() == self.bufs@.len());
                assert(c < self.bufs.len());
                if delta > 0 {
                    if c + 1 < self.bufs.len() {
                        Some(c + 1)
                    } else {
                        None
                    }
                } else if c > 0 {
                    Some(c - 1)
                } else {
                    None
                }
            },
        }
    }

    /// The index of the first buffer with private messages or highlights.
    pub fn first_hot(&self) -> (r: Option<usize>)
        ensures
            match r {
                Some(i) => first_hot_from(self@.bufs, 0) == Some(i as int),
                None => first_hot_from(self@.bufs, 0) is None,
            },
    {
        let ghost bv = self@.bufs;
        let mut i: usize = 0;
        while i < self.bufs.len()
            invariant
                i <= self.bufs@.len(),
                bv == self@.bufs,
                first_hot_from(bv, 0) == first_hot_from(bv, i as int),
            decreases self.bufs.len() - i,
        {
            assert(bv[i as int] == self.bufs@[i as int]@);
            if self.bufs[i].hotlist.2 > 0 || self.bufs[i].hotlist.3 > 0 {
                return Some(i);
            }
            i = i + 1;
        }
        None
    }

    /// Sends the composed text to the current buffer, one `input` command
    /// per line; without a current buffer nothing is sent.
    pub fn send_input(&mut self, text: &str) -> (sent: bool)
        ensures
            sent == current_index(old(self)@) is Some,
            match current_index(old(self)@) {
                None => final(self)@ == old(self)@,
                Some(c) => final(self)@ == (WeeView {
                    queue: old(self)@.queue + input_requests(
                        old(self)@.bufs[c].ptr_buffer,
                        text_lines(text@),
                    ),
                    ..old(self)@
                }),
            },
    {
        let c = match find_name(&self.bufs, self.current_buffer.as_str()) {
            None => {
                return false;
            },
            Some(c) => c,
        };
        proof {
            lemma_first_index(names_of(self@.bufs), self@.current, 0);
        }
        assert(self@.bufs[c as int] == self.bufs@[c as int]@);
        let ptr = self.bufs[c].ptr_buffer.clone();
        let ghost v0 = self@;
        let ghost pv = ptr@;
        let cs = crate::text::chars_of(text);
        let mut start: usize = 0;
        let mut i: usize = 0;
        assert(v0.queue + input_requests(pv, text_lines(text@)) =~= self@.queue + input_requests(
            pv,
            lines_from(cs@, 0, 0),
        ));
        while i < cs.len()
            invariant
                start <= i <= cs.len(),
                cs@ == text@,
                ptr@ == pv,
                self@ == (WeeView { queue: self@.queue, ..v0 }),
                v0.queue + input_requests(pv, text_lines(text@)) == self@.queue + input_requests(
                    pv,
                    lines_from(cs@, i as int, start as int),
                ),
            decreases cs.len() - i,
        {
            if cs[i] == '\n' {
                let ghost l = cs@.subrange(start as int, i as int);
                let line = crate::text::text_of(&slice_vec(&cs, start, i));
                let cmd = concat("input 0x", ptr.as_str(), " ");
                let mut cmd = cmd;
                cmd.append(line.as_str());
                let ghost before = self@.queue;
                assert(cmd@ == "input 0x"@ + pv + " "@ + l);
                assert(lines_from(cs@, i as int, start as int) == seq![l] + lines_from(
                    cs@,
                    i + 1,
                    i + 1,
                ));
                self.send("", cmd.as_str());
                assert(self@.queue == before.push(request(""@, "input 0x"@ + pv + " "@ + l)));
                assert(input_requests(pv, seq![l] + lines_from(cs@, i + 1, i + 1)) =~= seq![
                    request(""@, "input 0x"@ + pv + " "@ + l),
                ] + input_requests(pv, lines_from(cs@, i + 1, i + 1)));
                assert(before + input_requests(pv, lines_from(cs@, i as int, start as int))
                    =~= self@.queue + input_requests(pv, lines_from(cs@, i + 1, i + 1)));
                start = i + 1;
            }
            i = i + 1;
        }
        if start < cs.len() {
            let ghost l = cs@.subrange(start as int, cs@.len() as int);
            let line = crate::text::text_of(&slice_vec(&cs, start, cs.len()));
            let mut cmd = concat("input 0x", ptr.as_str(), " ");
            cmd.append(line.as_str());
            let ghost before = self@.queue;
            self.send("", cmd.as_str());
            assert(before + input_requests(pv, lines_from(cs@, i as int, start as int))
                =~= self@.queue);
        } else {
            assert(self@.queue + input_requests(pv, lines_from(cs@, i as int, start as int))
                =~= self@.queue);
        }
        true
    }

    /// Asks for a completion of `data` at `pos` in the current buffer;
    /// without a current buffer nothing is sent.
    pub fn request_completion(&mut self, pos: usize, data: &str) -> (sent: bool)
        ensures
            sent == current_index(old(self)@) is Some,
            match current_index(old(self)@) {
                None => final(self)@ == old(self)@,
                Some(c) => final(self)@ == queued(
                    old(self)@,
                    request(
                        "completion"@,
                        "completion 0x"@ + old(self)@.bufs[c].ptr_buffer + " "@ + decimal(
                            pos as nat,
                        ) + " "@ + data@,
                    ),
                ),
            },
    {
        let c = match find_name(&self.bufs, self.current_buffer.as_str()) {
            None => {
                return false;
            },
            Some(c) => c,
        };
        proof {
            lemma_first_index(names_of(self@.bufs), self@.current, 0);
        }
        assert(self@.bufs[c as int] == self.bufs@[c as int]@);
        let mut cmd = concat("completion 0x", self.bufs[c].ptr_buffer.as_str(), " ");
        let n = decimal_text(pos);
        cmd.append(n.as_str());
        cmd.append(" ");
        cmd.append(data);
        self.send("completion", cmd.as_str());
        true
    }
}

fn slice_vec(cs: &Vec<char>, a: usize, b: usize) -> (r: Vec<char>)
    requires
        a <= b <= cs@.len(),
    ensures
        r@ == cs@.subrange(a as int, b as int),
{
    let mut out: Vec<char> = Vec::new();
    let mut k: usize = a;
    while k < b
        invariant
            a <= k <= b,
            b <= cs@.len(),
            out@ == cs@.subrange(a as int, k as int),
        decreases b - k,
    {
        out.push(cs[k]);
        k = k + 1;
        assert(out@ =~= cs@.subrange(a as int, k as int));
    }
    out
}

} // verus!
