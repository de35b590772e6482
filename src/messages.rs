//! The records that relay messages carry, and how decoded values map onto them.
//!
//! A record is read from one hdata row (or, for the handshake, one hashtable):
//! a field is the first column of its name; text fields take strings,
//! pointers, long integers and times; integer fields take `chr` and `int`
//! values that fit the field. A missing optional field is absent; anything
//! else that does not fit makes the whole message a shape mismatch.
use crate::text::same_text;
use crate::wire::{
    from_bytes, opt_text, pairs_view, row_view, rows_view, spec_message, values_view, Error,
    FrameView, Value, WireValue,
};
use vstd::prelude::*;

verus! {

// ----- reading fields -----

/// The value of the first column named `name` from index `i` on.
pub open spec fn lookup_from(row: Seq<(Seq<char>, Value)>, name: Seq<char>, i: int) -> Option<
    Value,
>
    decreases row.len() - i,
{
    if i < 0 || i >= row.len() {
        None
    } else if row[i].0 == name {
        Some(row[i].1)
    } else {
        lookup_from(row, name, i + 1)
    }
}

pub open spec fn lookup(row: Seq<(Seq<char>, Value)>, name: Seq<char>) -> Option<Value> {
    lookup_from(row, name, 0)
}

/// The text a value holds, if it holds one.
pub open spec fn as_text(v: Value) -> Option<Seq<char>> {
    match v {
        Value::Str(Some(t)) => Some(t),
        Value::Ptr(Some(t)) => Some(t),
        Value::Lon(t) => Some(t),
        Value::Tim(t) => Some(t),
        _ => None,
    }
}

/// The integer a value holds, if it holds one.
pub open spec fn as_int(v: Value) -> Option<int> {
    match v {
        Value::Chr(c) => Some(c as int),
        Value::Int(i) => Some(i as int),
        _ => None,
    }
}

/// A required text field.
pub open spec fn text_field(row: Seq<(Seq<char>, Value)>, name: Seq<char>) -> Option<Seq<char>> {
    match lookup(row, name) {
        Some(v) => as_text(v),
        None => None,
    }
}

/// An optional text field: `Some(None)` when absent or null, `None` when it does not fit.
pub open spec fn opt_text_field(row: Seq<(Seq<char>, Value)>, name: Seq<char>) -> Option<
    Option<Seq<char>>,
> {
    match lookup(row, name) {
        None => Some(None),
        Some(Value::Str(x)) => Some(x),
        Some(Value::Ptr(x)) => Some(x),
        Some(Value::Lon(t)) => Some(Some(t)),
        Some(Value::Tim(t)) => Some(Some(t)),
        Some(_) => None,
    }
}

/// A required integer field that must lie in `lo..=hi`.
pub open spec fn int_field(row: Seq<(Seq<char>, Value)>, name: Seq<char>, lo: int, hi: int) -> Option<
    int,
> {
    match lookup(row, name) {
        Some(v) => match as_int(v) {
            Some(x) => if lo <= x <= hi {
                Some(x)
            } else {
                None
            },
            None => None,
        },
        None => None,
    }
}

fn find_field<'a>(row: &'a Vec<(String, WireValue)>, name: &str) -> (r: Option<&'a WireValue>)
    ensures
        match r {
            Some(v) => lookup(row_view(row@), name@) == Some(v@),
            None => lookup(row_view(row@), name@) is None,
        },
{
    let ghost rv = row_view(row@);
    let mut i: usize = 0;
    while i < row.len()
        invariant
            i <= row.len(),
            rv == row_view(row@),
            lookup(rv, name@) == lookup_from(rv, name@, i as int),
        decreases row.len() - i,
    {
        assert(rv[i as int] == (row@[i as int].0@, row@[i as int].1@));
        if same_text(row[i].0.as_str(), name) {
            return Some(&row[i].1);
        }
        i = i + 1;
    }
    None
}

fn text_value(v: &WireValue) -> (r: Option<String>)
    ensures
        opt_text(r) == as_text(v@),
{
    match v {
        WireValue::Str(Some(t)) => Some(t.clone()),
        WireValue::Ptr(Some(t)) => Some(t.clone()),
        WireValue::Lon(t) => Some(t.clone()),
        WireValue::Tim(t) => Some(t.clone()),
        _ => None,
    }
}

fn int_value(v: &WireValue) -> (r: Option<i32>)
    ensures
        match r {
            Some(x) => as_int(v@) == Some(x as int),
            None => as_int(v@) is None,
        },
{
    match v {
        WireValue::Chr(c) => Some(*c as i32),
        WireValue::Int(i) => Some(*i),
        _ => None,
    }
}

fn get_text(row: &Vec<(String, WireValue)>, name: &str) -> (r: Option<String>)
    ensures
        opt_text(r) == text_field(row_view(row@), name@),
{
    match find_field(row, name) {
        Some(v) => text_value(v),
        None => None,
    }
}

fn get_opt_text(row: &Vec<(String, WireValue)>, name: &str) -> (r: Option<Option<String>>)
    ensures
        match r {
            Some(x) => opt_text_field(row_view(row@), name@) == Some(opt_text(x)),
            None => opt_text_field(row_view(row@), name@) is None,
        },
{
    match find_field(row, name) {
        None => Some(None),
        Some(WireValue::Str(x)) => Some(x.clone()),
        Some(WireValue::Ptr(x)) => Some(x.clone()),
        Some(WireValue::Lon(t)) => Some(Some(t.clone())),
        Some(WireValue::Tim(t)) => Some(Some(t.clone())),
        Some(_) => None,
    }
}

fn get_int(row: &Vec<(String, WireValue)>, name: &str, lo: i32, hi: i32) -> (r: Option<i32>)
    ensures
        match r {
            Some(x) => int_field(row_view(row@), name@, lo as int, hi as int) == Some(x as int),
            None => int_field(row_view(row@), name@, lo as int, hi as int) is None,
        },
{
    match find_field(row, name) {
        None => None,
        Some(v) => match int_value(v) {
            None => None,
            Some(x) => if lo <= x && x <= hi {
                Some(x)
            } else {
                None
            },
        },
    }
}

// ----- buffers -----

/// The per-buffer unread counters: low, message, private, highlight.
pub type Counts = (i32, i32, i32, i32);

pub fn default_hotlist() -> (r: Counts)
    ensures
        r == (0i32, 0i32, 0i32, 0i32),
{
    (0, 0, 0, 0)
}

/// A buffer of the server, with the hotlist counters this client keeps for it.
#[derive(Debug, PartialEq)]
pub struct Buffer {
    pub ptr_buffer: String,
    pub number: i32,
    pub short_name: Option<String>,
    pub full_name: String,
    pub title: Option<String>,
    pub hotlist: Counts,
}

pub struct BufferView {
    pub ptr_buffer: Seq<char>,
    pub number: i32,
    pub short_name: Option<Seq<char>>,
    pub full_name: Seq<char>,
    pub title: Option<Seq<char>>,
    pub hotlist: Counts,
}

impl View for Buffer {
    type V = BufferView;

    open spec fn view(&self) -> BufferView {
        BufferView {
            ptr_buffer: self.ptr_buffer@,
            number: self.number,
            short_name: opt_text(self.short_name),
            full_name: self.full_name@,
            title: opt_text(self.title),
            hotlist: self.hotlist,
        }
    }
}

pub open spec fn buffers_view(v: Seq<Buffer>) -> Seq<BufferView> {
    v.map_values(|b: Buffer| b@)
}

/// The buffer a `gui_buffers` row describes; its counters start at zero.
pub open spec fn buffer_of(row: Seq<(Seq<char>, Value)>) -> Option<BufferView> {
    let p = text_field(row, "ptr_buffer"@);
    let n = int_field(row, "number"@, i32::MIN as int, i32::MAX as int);
    let sn = opt_text_field(row, "short_name"@);
    let f = text_field(row, "full_name"@);
    let t = opt_text_field(row, "title"@);
    if p is Some && n is Some && sn is Some && f is Some && t is Some {
        Some(
            BufferView {
                ptr_buffer: p->0,
                number: n->0 as i32,
                short_name: sn->0,
                full_name: f->0,
                title: t->0,
                hotlist: (0, 0, 0, 0),
            },
        )
    } else {
        None
    }
}

impl Buffer {
    pub fn from_row(row: &Vec<(String, WireValue)>) -> (r: Option<Buffer>)
        ensures
            match r {
                Some(b) => buffer_of(row_view(row@)) == Some(b@),
                None => buffer_of(row_view(row@)) is None,
            },
    {
        let p = match get_text(row, "ptr_buffer") {
            None => {
                return None;
            },
            Some(p) => p,
        };
        let n = match get_int(row, "number", i32::MIN, i32::MAX) {
            None => {
                return None;
            },
            Some(n) => n,
        };
        let sn = match get_opt_text(row, "short_name") {
            None => {
                return None;
            },
            Some(x) => x,
        };
        let f = match get_text(row, "full_name") {
            None => {
                return None;
            },
            Some(f) => f,
        };
        let t = match get_opt_text(row, "title") {
            None => {
                return None;
            },
            Some(x) => x,
        };
        Some(
            Buffer {
                ptr_buffer: p,
                number: n,
                short_name: sn,
                full_name: f,
                title: t,
                hotlist: default_hotlist(),
            },
        )
    }
}

// ----- hotlist, lines, completion -----

/// A server-side hotlist entry.
#[derive(Debug, PartialEq)]
pub struct Hotlist {
    pub priority: i32,
    pub buffer: String,
    /// Counts per urgency, least to most.
    pub count: Counts,
}

pub struct HotlistView {
    pub priority: i32,
    pub buffer: Seq<char>,
    pub count: Counts,
}

impl View for Hotlist {
    type V = HotlistView;

    open spec fn view(&self) -> HotlistView {
        HotlistView { priority: self.priority, buffer: self.buffer@, count: self.count }
    }
}

/// Four integers in an array.
pub open spec fn counts_of(v: Option<Value>) -> Option<Counts> {
    match v {
        Some(Value::Arr(xs)) => if xs.len() == 4 && as_int(xs[0]) is Some && as_int(xs[1]) is Some
            && as_int(xs[2]) is Some && as_int(xs[3]) is Some {
            Some(
                (
                    as_int(xs[0])->0 as i32,
                    as_int(xs[1])->0 as i32,
                    as_int(xs[2])->0 as i32,
                    as_int(xs[3])->0 as i32,
                ),
            )
        } else {
            None
        },
        _ => None,
    }
}

pub open spec fn hotlist_of(row: Seq<(Seq<char>, Value)>) -> Option<HotlistView> {
    let p = int_field(row, "priority"@, i32::MIN as int, i32::MAX as int);
    let b = text_field(row, "buffer"@);
    let c = counts_of(lookup(row, "count"@));
    if p is Some && b is Some && c is Some {
        Some(HotlistView { priority: p->0 as i32, buffer: b->0, count: c->0 })
    } else {
        None
    }
}

fn get_counts(row: &Vec<(String, WireValue)>, name: &str) -> (r: Option<Counts>)
    ensures
        r == counts_of(lookup(row_view(row@), name@)),
{
    match find_field(row, name) {
        Some(WireValue::Arr(xs)) => {
            if xs.len() != 4 {
                return None;
            }
            let a = match int_value(&xs[0]) {
                None => {
                    return None;
                },
                Some(x) => x,
            };
            let b = match int_value(&xs[1]) {
                None => {
                    return None;
                },
                Some(x) => x,
            };
            let c = match int_value(&xs[2]) {
                None => {
                    return None;
                },
                Some(x) => x,
            };
            let d = match int_value(&xs[3]) {
                None => {
                    return None;
                },
                Some(x) => x,
            };
            Some((a, b, c, d))
        },
        _ => None,
    }
}

impl Hotlist {
    pub fn from_row(row: &Vec<(String, WireValue)>) -> (r: Option<Hotlist>)
        ensures
            match r {
                Some(h) => hotlist_of(row_view(row@)) == Some(h@),
                None => hotlist_of(row_view(row@)) is None,
            },
    {
        let p = match get_int(row, "priority", i32::MIN, i32::MAX) {
            None => {
                return None;
            },
            Some(p) => p,
        };
        let b = match get_text(row, "buffer") {
            None => {
                return None;
            },
            Some(b) => b,
        };
        let c = match get_counts(row, "count") {
            None => {
                return None;
            },
            Some(c) => c,
        };
        Some(Hotlist { priority: p, buffer: b, count: c })
    }
}

/// A line of a buffer.
#[derive(Debug, PartialEq)]
pub struct LineData {
    pub ptr_line: Option<String>,
    /// The pointer of the buffer the line belongs to.
    pub buffer: String,
    /// Seconds since the epoch, as decimal text.
    pub date: String,
    pub displayed: u8,
    pub highlight: u8,
    pub prefix: Option<String>,
    pub message: String,
    /// -1 disabled, 0 low, 1 message, 2 private, 3 highlight.
    pub notify_level: i8,
}

pub struct LineView {
    pub ptr_line: Option<Seq<char>>,
    pub buffer: Seq<char>,
    pub date: Seq<char>,
    pub displayed: u8,
    pub highlight: u8,
    pub prefix: Option<Seq<char>>,
    pub message: Seq<char>,
    pub notify_level: i8,
}

impl View for LineData {
    type V = LineView;

    open spec fn view(&self) -> LineView {
        LineView {
            ptr_line: opt_text(self.ptr_line),
            buffer: self.buffer@,
            date: self.date@,
            displayed: self.displayed,
            highlight: self.highlight,
            prefix: opt_text(self.prefix),
            message: self.message@,
            notify_level: self.notify_level,
        }
    }
}

pub open spec fn lines_view(v: Seq<LineData>) -> Seq<LineView> {
    v.map_values(|l: LineData| l@)
}

pub open spec fn line_of(row: Seq<(Seq<char>, Value)>) -> Option<LineView> {
    let pl = opt_text_field(row, "ptr_line"@);
    let b = text_field(row, "buffer"@);
    let d = text_field(row, "date"@);
    let disp = int_field(row, "displayed"@, 0, 255);
    let hl = int_field(row, "highlight"@, 0, 255);
    let pre = opt_text_field(row, "prefix"@);
    let m = text_field(row, "message"@);
    let nl = int_field(row, "notify_level"@, -128, 127);
    if pl is Some && b is Some && d is Some && disp is Some && hl is Some && pre is Some && m is Some
        && nl is Some {
        Some(
            LineView {
                ptr_line: pl->0,
                buffer: b->0,
                date: d->0,
                displayed: disp->0 as u8,
                highlight: hl->0 as u8,
                prefix: pre->0,
                message: m->0,
                notify_level: nl->0 as i8,
            },
        )
    } else {
        None
    }
}

impl LineData {
    pub fn from_row(row: &Vec<(String, WireValue)>) -> (r: Option<LineData>)
        ensures
            match r {
                Some(l) => line_of(row_view(row@)) == Some(l@),
                None => line_of(row_view(row@)) is None,
            },
    {
        let pl = match get_opt_text(row, "ptr_line") {
            None => {
                return None;
            },
            Some(x) => x,
        };
        let b = match get_text(row, "buffer") {
            None => {
                return None;
            },
            Some(x) => x,
        };
        let d = match get_text(row, "date") {
            None => {
                return None;
            },
            Some(x) => x,
        };
        let disp = match get_int(row, "displayed", 0, 255) {
            None => {
                return None;
            },
            Some(x) => x,
        };
        let hl = match get_int(row, "highlight", 0, 255) {
            None => {
                return None;
            },
            Some(x) => x,
        };
        let pre = match get_opt_text(row, "prefix") {
            None => {
                return None;
            },
            Some(x) => x,
        };
        let m = match get_text(row, "message") {
            None => {
                return None;
            },
            Some(x) => x,
        };
        let nl = match get_int(row, "notify_level", -128, 127) {
            None => {
                return None;
            },
            Some(x) => x,
        };
        Some(
            LineData {
                ptr_line: pl,
                buffer: b,
                date: d,
                displayed: disp as u8,
                highlight: hl as u8,
                prefix: pre,
                message: m,
                notify_level: nl as i8,
            },
        )
    }
}

/// The reply to a completion request.
#[derive(Debug, PartialEq)]
pub struct CompletionData {
    pub context: String,
    pub base_word: String,
    pub pos_start: i32,
    pub pos_end: i32,
    pub add_space: u8,
    pub list: Vec<String>,
}

pub struct CompletionView {
    pub context: Seq<char>,
    pub base_word: Seq<char>,
    pub pos_start: i32,
    pub pos_end: i32,
    pub add_space: u8,
    pub list: Seq<Seq<char>>,
}

impl View for CompletionData {
    type V = CompletionView;

    open spec fn view(&self) -> CompletionView {
        CompletionView {
            context: self.context@,
            base_word: self.base_word@,
            pos_start: self.pos_start,
            pos_end: self.pos_end,
            add_space: self.add_space,
            list: self.list@.map_values(|t: String| t@),
        }
    }
}

/// An array of texts.
pub open spec fn texts_of(v: Option<Value>) -> Option<Seq<Seq<char>>> {
    match v {
        Some(Value::Arr(xs)) => if forall|i: int| 0 <= i < xs.len() ==> as_text(xs[i]) is Some {
            Some(Seq::new(xs.len(), |i: int| as_text(xs[i])->0))
        } else {
            None
        },
        _ => None,
    }
}

fn get_texts(row: &Vec<(String, WireValue)>, name: &str) -> (r: Option<Vec<String>>)
    ensures
        match r {
            Some(ts) => texts_of(lookup(row_view(row@), name@)) == Some(
                ts@.map_values(|t: String| t@),
            ),
            None => texts_of(lookup(row_view(row@), name@)) is None,
        },
{
    match find_field(row, name) {
        Some(WireValue::Arr(xs)) => {
            let ghost xv = values_view(xs@);
            assert(xv =~= (WireValue::Arr(*xs))@->Arr_0);
            let mut out: Vec<String> = Vec::new();
            let mut i: usize = 0;
            while i < xs.len()
                invariant
                    i <= xs.len(),
                    xv == values_view(xs@),
                    lookup(row_view(row@), name@) == Some(Value::Arr(xv)),
                    out@.len() == i,
                    forall|j: int| 0 <= j < i ==> as_text(#[trigger] xv[j]) == Some(out@[j]@),
                decreases xs.len() - i,
            {
                assert(xv[i as int] == xs@[i as int]@);
                match text_value(&xs[i]) {
                    None => {
                        return None;
                    },
                    Some(t) => {
                        out.push(t);
                    },
                }
                i = i + 1;
            }
            assert(Seq::new(xv.len(), |j: int| as_text(xv[j])->0) =~= out@.map_values(
                |t: String| t@,
            ));
            Some(out)
        },
        _ => None,
    }
}

pub open spec fn completion_of(row: Seq<(Seq<char>, Value)>) -> Option<CompletionView> {
    let c = text_field(row, "context"@);
    let w = text_field(row, "base_word"@);
    let ps = int_field(row, "pos_start"@, i32::MIN as int, i32::MAX as int);
    let pe = int_field(row, "pos_end"@, i32::MIN as int, i32::MAX as int);
    let sp = int_field(row, "add_space"@, 0, 255);
    let l = texts_of(lookup(row, "list"@));
    if c is Some && w is Some && ps is Some && pe is Some && sp is Some && l is Some {
        Some(
            CompletionView {
                context: c->0,
                base_word: w->0,
                pos_start: ps->0 as i32,
                pos_end: pe->0 as i32,
                add_space: sp->0 as u8,
                list: l->0,
            },
        )
    } else {
        None
    }
}

impl CompletionData {
    pub fn from_row(row: &Vec<(String, WireValue)>) -> (r: Option<CompletionData>)
        ensures
            match r {
                Some(c) => completion_of(row_view(row@)) == Some(c@),
                None => completion_of(row_view(row@)) is None,
            },
    {
        let c = match get_text(row, "context") {
            None => {
                return None;
            },
            Some(x) => x,
        };
        let w = match get_text(row, "base_word") {
            None => {
                return None;
            },
            Some(x) => x,
        };
        let ps = match get_int(row, "pos_start", i32::MIN, i32::MAX) {
            None => {
                return None;
            },
            Some(x) => x,
        };
        let pe = match get_int(row, "pos_end", i32::MIN, i32::MAX) {
            None => {
                return None;
            },
            Some(x) => x,
        };
        let sp = match get_int(row, "add_space", 0, 255) {
            None => {
                return None;
            },
            Some(x) => x,
        };
        let l = match get_texts(row, "list") {
            None => {
                return None;
            },
            Some(x) => x,
        };
        Some(
            CompletionData {
                context: c,
                base_word: w,
                pos_start: ps,
                pos_end: pe,
                add_space: sp as u8,
                list: l,
            },
        )
    }
}

// ----- whole messages -----

/// The id and the rows of a message that holds exactly one hdata.
pub open spec fn hda_rows(b: Seq<u8>) -> Result<(Seq<char>, Seq<Seq<(Seq<char>, Value)>>), Error> {
    match spec_message(b, 1) {
        Err(e) => Err(e),
        Ok(f) => if f.id is Some && f.values.len() == 1 && f.values[0] is Hda {
            Ok((f.id->0, f.values[0]->Hda_0))
        } else {
            Err(Error::ShapeMismatch)
        },
    }
}

fn hda_message(b: &[u8]) -> (r: Result<(String, Vec<Vec<(String, WireValue)>>), Error>)
    ensures
        match r {
            Ok((id, rows)) => hda_rows(b@) == Ok::<
                (Seq<char>, Seq<Seq<(Seq<char>, Value)>>),
                Error,
            >((id@, rows_view(rows@))),
            Err(e) => hda_rows(b@) == Err::<(Seq<char>, Seq<Seq<(Seq<char>, Value)>>), Error>(e),
        },
{
    let frame = match from_bytes(b, 1) {
        Err(e) => {
            return Err(e);
        },
        Ok(f) => f,
    };
    let ghost fv = frame@;
    let mut values = frame.values;
    if values.len() != 1 {
        return Err(Error::ShapeMismatch);
    }
    let id = match frame.id {
        None => {
            return Err(Error::ShapeMismatch);
        },
        Some(id) => id,
    };
    let ghost v0 = values@[0];
    assert(fv.values[0] == v0@);
    match values.pop() {
        Some(WireValue::Hda(rows)) => {
            assert(v0@->Hda_0 =~= rows_view(rows@)) by {
                assert forall|k: int| 0 <= k < rows@.len() implies v0@->Hda_0[k] =~= rows_view(
                    rows@,
                )[k] by {}
            }
            Ok((id, rows))
        },
        _ => Err(Error::ShapeMismatch),
    }
}

/// Reply to `hdata buffer:gui_buffers(*)`.
#[derive(Debug, PartialEq)]
pub struct BuffersResponse {
    pub id: String,
    pub hda: Vec<Buffer>,
}

/// A message holding one hdata of records.
#[derive(Debug, PartialEq)]
pub struct Hdata<T> {
    pub id: String,
    pub hda: Vec<T>,
}

/// The address of a line.
#[derive(Debug, PartialEq)]
pub struct LineAddr {
    pub line: String,
}

/// The `_buffer_line_added` event: exactly one line.
#[derive(Debug, PartialEq)]
pub struct LineAddedEvent {
    pub id: String,
    pub hda: (LineData,),
}

/// Reply to a completion request.
#[derive(Debug, PartialEq)]
pub struct CompletionResponse {
    pub id: String,
    pub hda: Vec<CompletionData>,
}

pub open spec fn buffers_of(b: Seq<u8>) -> Result<(Seq<char>, Seq<BufferView>), Error> {
    match hda_rows(b) {
        Err(e) => Err(e),
        Ok((id, rows)) => if forall|i: int| 0 <= i < rows.len() ==> buffer_of(rows[i]) is Some {
            Ok((id, Seq::new(rows.len(), |i: int| buffer_of(rows[i])->0)))
        } else {
            Err(Error::ShapeMismatch)
        },
    }
}

pub open spec fn hotlists_of(b: Seq<u8>) -> Result<(Seq<char>, Seq<HotlistView>), Error> {
    match hda_rows(b) {
        Err(e) => Err(e),
        Ok((id, rows)) => if forall|i: int| 0 <= i < rows.len() ==> hotlist_of(rows[i]) is Some {
            Ok((id, Seq::new(rows.len(), |i: int| hotlist_of(rows[i])->0)))
        } else {
            Err(Error::ShapeMismatch)
        },
    }
}

pub open spec fn lines_of(b: Seq<u8>) -> Result<(Seq<char>, Seq<LineView>), Error> {
    match hda_rows(b) {
        Err(e) => Err(e),
        Ok((id, rows)) => if forall|i: int| 0 <= i < rows.len() ==> line_of(rows[i]) is Some {
            Ok((id, Seq::new(rows.len(), |i: int| line_of(rows[i])->0)))
        } else {
            Err(Error::ShapeMismatch)
        },
    }
}

pub open spec fn completions_of(b: Seq<u8>) -> Result<(Seq<char>, Seq<CompletionView>), Error> {
    match hda_rows(b) {
        Err(e) => Err(e),
        Ok((id, rows)) => if forall|i: int| 0 <= i < rows.len() ==> completion_of(rows[i]) is Some {
            Ok((id, Seq::new(rows.len(), |i: int| completion_of(rows[i])->0)))
        } else {
            Err(Error::ShapeMismatch)
        },
    }
}

/// A `_buffer_line_added` event: a lines message of exactly one line.
pub open spec fn line_added_of(b: Seq<u8>) -> Result<(Seq<char>, LineView), Error> {
    match lines_of(b) {
        Err(e) => Err(e),
        Ok((id, ls)) => if ls.len() == 1 {
            Ok((id, ls[0]))
        } else {
            Err(Error::ShapeMismatch)
        },
    }
}

/// Decodes a `gui_buffers` reply.
pub fn decode_buffers(b: &[u8]) -> (r: Result<BuffersResponse, Error>)
    ensures
        match r {
            Ok(x) => buffers_of(b@) == Ok::<(Seq<char>, Seq<BufferView>), Error>(
                (x.id@, buffers_view(x.hda@)),
            ),
            Err(e) => buffers_of(b@) == Err::<(Seq<char>, Seq<BufferView>), Error>(e),
        },
{
    let (id, rows) = match hda_message(b) {
        Err(e) => {
            return Err(e);
        },
        Ok(x) => x,
    };
    let ghost rv = rows_view(rows@);
    let mut out: Vec<Buffer> = Vec::new();
    let mut i: usize = 0;
    while i < rows.len()
        invariant
            i <= rows.len(),
            rv == rows_view(rows@),
            hda_rows(b@) == Ok::<(Seq<char>, Seq<Seq<(Seq<char>, Value)>>), Error>((id@, rv)),
            out@.len() == i,
            forall|j: int| 0 <= j < i ==> buffer_of(#[trigger] rv[j]) == Some(out@[j]@),
        decreases rows.len() - i,
    {
        assert(rv[i as int] == row_view(rows@[i as int]@));
        match Buffer::from_row(&rows[i]) {
            None => {
                return Err(Error::ShapeMismatch);
            },
            Some(x) => {
                out.push(x);
            },
        }
        i = i + 1;
    }
    assert(Seq::new(rv.len(), |j: int| buffer_of(rv[j])->0) =~= buffers_view(out@));
    Ok(BuffersResponse { id, hda: out })
}

/// Decodes a `gui_hotlist` reply.
pub fn decode_hotlist(b: &[u8]) -> (r: Result<Hdata<Hotlist>, Error>)
    ensures
        match r {
            Ok(x) => hotlists_of(b@) == Ok::<(Seq<char>, Seq<HotlistView>), Error>(
                (x.id@, x.hda@.map_values(|h: Hotlist| h@)),
            ),
            Err(e) => hotlists_of(b@) == Err::<(Seq<char>, Seq<HotlistView>), Error>(e),
        },
{
    let (id, rows) = match hda_message(b) {
        Err(e) => {
            return Err(e);
        },
        Ok(x) => x,
    };
    let ghost rv = rows_view(rows@);
    let mut out: Vec<Hotlist> = Vec::new();
    let mut i: usize = 0;
    while i < rows.len()
        invariant
            i <= rows.len(),
            rv == rows_view(rows@),
            hda_rows(b@) == Ok::<(Seq<char>, Seq<Seq<(Seq<char>, Value)>>), Error>((id@, rv)),
            out@.len() == i,
            forall|j: int| 0 <= j < i ==> hotlist_of(#[trigger] rv[j]) == Some(out@[j]@),
        decreases rows.len() - i,
    {
        assert(rv[i as int] == row_view(rows@[i as int]@));
        match Hotlist::from_row(&rows[i]) {
            None => {
                return Err(Error::ShapeMismatch);
            },
            Some(x) => {
                out.push(x);
            },
        }
        i = i + 1;
    }
    assert(Seq::new(rv.len(), |j: int| hotlist_of(rv[j])->0) =~= out@.map_values(
        |h: Hotlist| h@,
    ));
    Ok(Hdata { id, hda: out })
}

/// Decodes a `backlog_lines` or `scrollback_lines` reply.
pub fn decode_lines(b: &[u8]) -> (r: Result<Hdata<LineData>, Error>)
    ensures
        match r {
            Ok(x) => lines_of(b@) == Ok::<(Seq<char>, Seq<LineView>), Error>(
                (x.id@, lines_view(x.hda@)),
            ),
            Err(e) => lines_of(b@) == Err::<(Seq<char>, Seq<LineView>), Error>(e),
        },
{
    let (id, rows) = match hda_message(b) {
        Err(e) => {
            return Err(e);
        },
        Ok(x) => x,
    };
    let ghost rv = rows_view(rows@);
    let mut out: Vec<LineData> = Vec::new();
    let mut i: usize = 0;
    while i < rows.len()
        invariant
            i <= rows.len(),
            rv == rows_view(rows@),
            hda_rows(b@) == Ok::<(Seq<char>, Seq<Seq<(Seq<char>, Value)>>), Error>((id@, rv)),
            out@.len() == i,
            forall|j: int| 0 <= j < i ==> line_of(#[trigger] rv[j]) == Some(out@[j]@),
        decreases rows.len() - i,
    {
        assert(rv[i as int] == row_view(rows@[i as int]@));
        match LineData::from_row(&rows[i]) {
            None => {
                return Err(Error::ShapeMismatch);
            },
            Some(x) => {
                out.push(x);
            },
        }
        i = i + 1;
    }
    assert(Seq::new(rv.len(), |j: int| line_of(rv[j])->0) =~= lines_view(out@));
    Ok(Hdata { id, hda: out })
}

/// Decodes a `_buffer_line_added` event.
pub fn decode_line_added(b: &[u8]) -> (r: Result<LineAddedEvent, Error>)
    ensures
        match r {
            Ok(x) => line_added_of(b@) == Ok::<(Seq<char>, LineView), Error>((x.id@, x.hda.0@)),
            Err(e) => line_added_of(b@) == Err::<(Seq<char>, LineView), Error>(e),
        },
{
    let h = match decode_lines(b) {
        Err(e) => {
            return Err(e);
        },
        Ok(h) => h,
    };
    let Hdata { id, hda } = h;
    let mut lines = hda;
    if lines.len() != 1 {
        return Err(Error::ShapeMismatch);
    }
    let ghost lv = lines_view(lines@);
    match lines.pop() {
        Some(l) => {
            assert(lv[0] == l@);
            Ok(LineAddedEvent { id, hda: (l,) })
        },
        None => Err(Error::ShapeMismatch),
    }
}

/// Decodes a `completion` reply.
pub fn decode_completion(b: &[u8]) -> (r: Result<CompletionResponse, Error>)
    ensures
        match r {
            Ok(x) => completions_of(b@) == Ok::<(Seq<char>, Seq<CompletionView>), Error>(
                (x.id@, x.hda@.map_values(|c: CompletionData| c@)),
            ),
            Err(e) => completions_of(b@) == Err::<(Seq<char>, Seq<CompletionView>), Error>(e),
        },
{
    let (id, rows) = match hda_message(b) {
        Err(e) => {
            return Err(e);
        },
        Ok(x) => x,
    };
    let ghost rv = rows_view(rows@);
    let mut out: Vec<CompletionData> = Vec::new();
    let mut i: usize = 0;
    while i < rows.len()
        invariant
            i <= rows.len(),
            rv == rows_view(rows@),
            hda_rows(b@) == Ok::<(Seq<char>, Seq<Seq<(Seq<char>, Value)>>), Error>((id@, rv)),
            out@.len() == i,
            forall|j: int| 0 <= j < i ==> completion_of(#[trigger] rv[j]) == Some(out@[j]@),
        decreases rows.len() - i,
    {
        assert(rv[i as int] == row_view(rows@[i as int]@));
        match CompletionData::from_row(&rows[i]) {
            None => {
                return Err(Error::ShapeMismatch);
            },
            Some(x) => {
                out.push(x);
            },
        }
        i = i + 1;
    }
    assert(Seq::new(rv.len(), |j: int| completion_of(rv[j])->0) =~= out@.map_values(
        |c: CompletionData| c@,
    ));
    Ok(CompletionResponse { id, hda: out })
}

// ----- handshake and info -----

/// What the server offers in reply to `handshake`.
#[derive(Debug, PartialEq)]
pub struct Handshake {
    pub password_hash_algo: String,
    pub password_hash_iterations: String,
    pub totp: String,
    pub nonce: String,
    pub compression: String,
}

pub struct HandshakeView {
    pub password_hash_algo: Seq<char>,
    pub password_hash_iterations: Seq<char>,
    pub totp: Seq<char>,
    pub nonce: Seq<char>,
    pub compression: Seq<char>,
}

impl View for Handshake {
    type V = HandshakeView;

    open spec fn view(&self) -> HandshakeView {
        HandshakeView {
            password_hash_algo: self.password_hash_algo@,
            password_hash_iterations: self.password_hash_iterations@,
            totp: self.totp@,
            nonce: self.nonce@,
            compression: self.compression@,
        }
    }
}

#[derive(Debug, PartialEq)]
pub struct HandshakeResponse {
    pub id: String,
    pub htb: Handshake,
}

/// Reply to `info version`.
#[derive(Debug, PartialEq)]
pub struct Info {
    pub id: String,
    pub inf: (String, Option<String>),
}

/// The value of the first hashtable entry whose key is the string `name`.
pub open spec fn entry_from(ps: Seq<(Value, Value)>, name: Seq<char>, i: int) -> Option<Value>
    decreases ps.len() - i,
{
    if i < 0 || i >= ps.len() {
        None
    } else if ps[i].0 == Value::Str(Some(name)) {
        Some(ps[i].1)
    } else {
        entry_from(ps, name, i + 1)
    }
}

pub open spec fn entry_text(ps: Seq<(Value, Value)>, name: Seq<char>) -> Option<Seq<char>> {
    match entry_from(ps, name, 0) {
        Some(v) => as_text(v),
        None => None,
    }
}

pub open spec fn handshake_fields(ps: Seq<(Value, Value)>) -> Option<HandshakeView> {
    let a = entry_text(ps, "password_hash_algo"@);
    let it = entry_text(ps, "password_hash_iterations"@);
    let t = entry_text(ps, "totp"@);
    let n = entry_text(ps, "nonce"@);
    let c = entry_text(ps, "compression"@);
    if a is Some && it is Some && t is Some && n is Some && c is Some {
        Some(
            HandshakeView {
                password_hash_algo: a->0,
                password_hash_iterations: it->0,
                totp: t->0,
                nonce: n->0,
                compression: c->0,
            },
        )
    } else {
        None
    }
}

/// A handshake reply: one hashtable holding the five fields as texts.
pub open spec fn handshake_of(b: Seq<u8>) -> Result<(Seq<char>, HandshakeView), Error> {
    match spec_message(b, 1) {
        Err(e) => Err(e),
        Ok(f) => if f.id is Some && f.values.len() == 1 && f.values[0] is Htb
            && handshake_fields(f.values[0]->Htb_0) is Some {
            Ok((f.id->0, handshake_fields(f.values[0]->Htb_0)->0))
        } else {
            Err(Error::ShapeMismatch)
        },
    }
}

/// A version reply: one info pair with a key.
pub open spec fn info_of(b: Seq<u8>) -> Result<(Seq<char>, Seq<char>, Option<Seq<char>>), Error> {
    match spec_message(b, 1) {
        Err(e) => Err(e),
        Ok(f) => if f.id is Some && f.values.len() == 1 && f.values[0] is Inf
            && f.values[0]->Inf_0 is Some {
            Ok((f.id->0, f.values[0]->Inf_0->0, f.values[0]->Inf_1))
        } else {
            Err(Error::ShapeMismatch)
        },
    }
}

fn find_entry<'a>(ps: &'a Vec<(WireValue, WireValue)>, name: &str) -> (r: Option<&'a WireValue>)
    ensures
        match r {
            Some(v) => entry_from(pairs_view(ps@), name@, 0) == Some(v@),
            None => entry_from(pairs_view(ps@), name@, 0) is None,
        },
{
    let ghost pv = pairs_view(ps@);
    let mut i: usize = 0;
    while i < ps.len()
        invariant
            i <= ps.len(),
            pv == pairs_view(ps@),
            entry_from(pv, name@, 0) == entry_from(pv, name@, i as int),
        decreases ps.len() - i,
    {
        assert(pv[i as int] == (ps@[i as int].0@, ps@[i as int].1@));
        match &ps[i].0 {
            WireValue::Str(Some(k)) => {
                if same_text(k.as_str(), name) {
                    return Some(&ps[i].1);
                }
            },
            _ => {},
        }
        i = i + 1;
    }
    None
}

fn entry_value(ps: &Vec<(WireValue, WireValue)>, name: &str) -> (r: Option<String>)
    ensures
        opt_text(r) == entry_text(pairs_view(ps@), name@),
{
    match find_entry(ps, name) {
        Some(v) => text_value(v),
        None => None,
    }
}

/// Decodes the reply to `handshake`.
pub fn decode_handshake(b: &[u8]) -> (r: Result<HandshakeResponse, Error>)
    ensures
        match r {
            Ok(x) => handshake_of(b@) == Ok::<(Seq<char>, HandshakeView), Error>((x.id@, x.htb@)),
            Err(e) => handshake_of(b@) == Err::<(Seq<char>, HandshakeView), Error>(e),
        },
{
    let frame = match from_bytes(b, 1) {
        Err(e) => {
            return Err(e);
        },
        Ok(f) => f,
    };
    let ghost fv = frame@;
    if frame.values.len() != 1 {
        return Err(Error::ShapeMismatch);
    }
    let id = match frame.id {
        None => {
            return Err(Error::ShapeMismatch);
        },
        Some(id) => id,
    };
    assert(fv.values[0] == frame.values@[0]@);
    match &frame.values[0] {
        WireValue::Htb(ps) => {
            let ghost pv = pairs_view(ps@);
            assert(fv.values[0]->Htb_0 =~= pv);
            let a = match entry_value(ps, "password_hash_algo") {
                None => {
                    return Err(Error::ShapeMismatch);
                },
                Some(x) => x,
            };
            let it = match entry_value(ps, "password_hash_iterations") {
                None => {
                    return Err(Error::ShapeMismatch);
                },
                Some(x) => x,
            };
            let t = match entry_value(ps, "totp") {
                None => {
                    return Err(Error::ShapeMismatch);
                },
                Some(x) => x,
            };
            let n = match entry_value(ps, "nonce") {
                None => {
                    return Err(Error::ShapeMismatch);
                },
                Some(x) => x,
            };
            let c = match entry_value(ps, "compression") {
                None => {
                    return Err(Error::ShapeMismatch);
                },
                Some(x) => x,
            };
            Ok(
                HandshakeResponse {
                    id,
                    htb: Handshake {
                        password_hash_algo: a,
                        password_hash_iterations: it,
                        totp: t,
                        nonce: n,
                        compression: c,
                    },
                },
            )
        },
        _ => Err(Error::ShapeMismatch),
    }
}

/// Decodes the reply to `info version`.
pub fn decode_info(b: &[u8]) -> (r: Result<Info, Error>)
    ensures
        match r {
            Ok(x) => info_of(b@) == Ok::<(Seq<char>, Seq<char>, Option<Seq<char>>), Error>(
                (x.id@, x.inf.0@, opt_text(x.inf.1)),
            ),
            Err(e) => info_of(b@) == Err::<(Seq<char>, Seq<char>, Option<Seq<char>>), Error>(e),
        },
{
    let frame = match from_bytes(b, 1) {
        Err(e) => {
            return Err(e);
        },
        Ok(f) => f,
    };
    let ghost fv = frame@;
    let mut values = frame.values;
    if values.len() != 1 {
        return Err(Error::ShapeMismatch);
    }
    let id = match frame.id {
        None => {
            return Err(Error::ShapeMismatch);
        },
        Some(id) => id,
    };
    assert(fv.values[0] == values@[0]@);
    match values.pop() {
        Some(WireValue::Inf(Some(k), v)) => Ok(Info { id, inf: (k, v) }),
        _ => Err(Error::ShapeMismatch),
    }
}

} // verus!
