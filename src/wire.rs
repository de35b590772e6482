//! Decoder for the relay protocol's self-describing binary format.
//!
//! The format is given twice: once as spec functions over the byte sequence
//! (`spec_*`), once as the executable decoder `DeMessage`, whose readers are
//! proved to return exactly what the spec functions describe.
use vstd::prelude::*;
use vstd::utf8::{decode_utf8, valid_utf8};

verus! {

/// Why a byte sequence could not be decoded.
#[derive(Clone, Copy, Debug, PartialEq, Eq, Structural)]
pub enum Error {
    /// The input ends before a fixed-size field does.
    UnexpectedEof,
    /// A three-byte type tag (or a schema entry) names no known type.
    BadTag,
    /// Text that is not well-formed UTF-8.
    BadUtf8,
    /// A declared length runs past the end of the input.
    BadLength,
    /// Bytes are left over after the whole message was read.
    Trailing,
    /// The decoded values do not have the shape that the message id calls for.
    ShapeMismatch,
    /// A known type that this decoder does not read (infolists).
    NotImplemented,
}

/// The three-letter type tags of the wire format.
#[derive(Clone, Copy, Debug, PartialEq, Eq, Structural)]
pub enum Tag {
    Chr,
    Int,
    Lon,
    Str,
    Buf,
    Ptr,
    Tim,
    Arr,
    Htb,
    Hda,
    Inf,
    Inl,
}

/// The tag spelled by three ASCII bytes, if any.
pub open spec fn tag_of(a: u8, b: u8, c: u8) -> Option<Tag> {
    if a == 99u8 && b == 104u8 && c == 114u8 {
        Some(Tag::Chr)
    } else if a == 105u8 && b == 110u8 && c == 116u8 {
        Some(Tag::Int)
    } else if a == 108u8 && b == 111u8 && c == 110u8 {
        Some(Tag::Lon)
    } else if a == 115u8 && b == 116u8 && c == 114u8 {
        Some(Tag::Str)
    } else if a == 98u8 && b == 117u8 && c == 102u8 {
        Some(Tag::Buf)
    } else if a == 112u8 && b == 116u8 && c == 114u8 {
        Some(Tag::Ptr)
    } else if a == 116u8 && b == 105u8 && c == 109u8 {
        Some(Tag::Tim)
    } else if a == 97u8 && b == 114u8 && c == 114u8 {
        Some(Tag::Arr)
    } else if a == 104u8 && b == 116u8 && c == 98u8 {
        Some(Tag::Htb)
    } else if a == 104u8 && b == 100u8 && c == 97u8 {
        Some(Tag::Hda)
    } else if a == 105u8 && b == 110u8 && c == 102u8 {
        Some(Tag::Inf)
    } else if a == 105u8 && b == 110u8 && c == 108u8 {
        Some(Tag::Inl)
    } else {
        None
    }
}

pub fn tag_from(a: u8, b: u8, c: u8) -> (r: Option<Tag>)
    ensures
        r == tag_of(a, b, c),
{
    if a == 99u8 && b == 104u8 && c == 114u8 {
        Some(Tag::Chr)
    } else if a == 105u8 && b == 110u8 && c == 116u8 {
        Some(Tag::Int)
    } else if a == 108u8 && b == 111u8 && c == 110u8 {
        Some(Tag::Lon)
    } else if a == 115u8 && b == 116u8 && c == 114u8 {
        Some(Tag::Str)
    } else if a == 98u8 && b == 117u8 && c == 102u8 {
        Some(Tag::Buf)
    } else if a == 112u8 && b == 116u8 && c == 114u8 {
        Some(Tag::Ptr)
    } else if a == 116u8 && b == 105u8 && c == 109u8 {
        Some(Tag::Tim)
    } else if a == 97u8 && b == 114u8 && c == 114u8 {
        Some(Tag::Arr)
    } else if a == 104u8 && b == 116u8 && c == 98u8 {
        Some(Tag::Htb)
    } else if a == 104u8 && b == 100u8 && c == 97u8 {
        Some(Tag::Hda)
    } else if a == 105u8 && b == 110u8 && c == 102u8 {
        Some(Tag::Inf)
    } else if a == 105u8 && b == 110u8 && c == 108u8 {
        Some(Tag::Inl)
    } else {
        None
    }
}

/// A decoded value, as mathematics sees it.
pub enum Value {
    Chr(i8),
    Int(i32),
    Lon(Seq<char>),
    Tim(Seq<char>),
    Ptr(Option<Seq<char>>),
    Str(Option<Seq<char>>),
    Buf(Option<Seq<u8>>),
    Arr(Seq<Value>),
    Htb(Seq<(Value, Value)>),
    /// Rows of (column name, value) pairs, pointer columns first.
    Hda(Seq<Seq<(Seq<char>, Value)>>),
    Inf(Option<Seq<char>>, Option<Seq<char>>),
}

/// A decoded value.
#[derive(Debug, PartialEq)]
pub enum WireValue {
    Chr(i8),
    Int(i32),
    /// A long integer, kept as its decimal text.
    Lon(String),
    /// A time, kept as its decimal text of seconds.
    Tim(String),
    /// A pointer as hex text; `None` for the null pointer.
    Ptr(Option<String>),
    Str(Option<String>),
    Buf(Option<Vec<u8>>),
    Arr(Vec<WireValue>),
    Htb(Vec<(WireValue, WireValue)>),
    Hda(Vec<Vec<(String, WireValue)>>),
    Inf(Option<String>, Option<String>),
}

pub open spec fn opt_text(o: Option<String>) -> Option<Seq<char>> {
    match o {
        Some(t) => Some(t@),
        None => None,
    }
}

pub open spec fn opt_bytes(o: Option<Vec<u8>>) -> Option<Seq<u8>> {
    match o {
        Some(b) => Some(b@),
        None => None,
    }
}

pub open spec fn value_view(v: &WireValue) -> Value
    decreases v,
{
    match v {
        WireValue::Chr(c) => Value::Chr(*c),
        WireValue::Int(i) => Value::Int(*i),
        WireValue::Lon(t) => Value::Lon(t@),
        WireValue::Tim(t) => Value::Tim(t@),
        WireValue::Ptr(p) => Value::Ptr(opt_text(*p)),
        WireValue::Str(t) => Value::Str(opt_text(*t)),
        WireValue::Buf(b) => Value::Buf(opt_bytes(*b)),
        WireValue::Arr(xs) => Value::Arr(
            Seq::new(
                xs.len() as nat,
                |i: int|
                    if 0 <= i < xs.len() {
                        value_view(&xs[i])
                    } else {
                        Value::Chr(0)
                    },
            ),
        ),
        WireValue::Htb(ps) => Value::Htb(
            Seq::new(
                ps.len() as nat,
                |i: int|
                    if 0 <= i < ps.len() {
                        (value_view(&ps[i].0), value_view(&ps[i].1))
                    } else {
                        (Value::Chr(0), Value::Chr(0))
                    },
            ),
        ),
        WireValue::Hda(rows) => Value::Hda(
            Seq::new(
                rows.len() as nat,
                |i: int|
                    if 0 <= i < rows.len() {
                        Seq::new(
                            rows[i].len() as nat,
                            |j: int|
                                if 0 <= j < rows[i].len() {
                                    (rows[i][j].0@, value_view(&rows[i][j].1))
                                } else {
                                    (Seq::empty(), Value::Chr(0))
                                },
                        )
                    } else {
                        Seq::empty()
                    },
            ),
        ),
        WireValue::Inf(k, v) => Value::Inf(opt_text(*k), opt_text(*v)),
    }
}

impl View for WireValue {
    type V = Value;

    open spec fn view(&self) -> Value {
        value_view(self)
    }
}

pub open spec fn values_view(xs: Seq<WireValue>) -> Seq<Value> {
    xs.map_values(|x: WireValue| x@)
}

pub open spec fn pairs_view(ps: Seq<(WireValue, WireValue)>) -> Seq<(Value, Value)> {
    ps.map_values(|p: (WireValue, WireValue)| (p.0@, p.1@))
}

pub open spec fn row_view(r: Seq<(String, WireValue)>) -> Seq<(Seq<char>, Value)> {
    r.map_values(|c: (String, WireValue)| (c.0@, c.1@))
}

pub open spec fn rows_view(rs: Seq<Vec<(String, WireValue)>>) -> Seq<Seq<(Seq<char>, Value)>> {
    rs.map_values(|r: Vec<(String, WireValue)>| row_view(r@))
}

// ----- the format, byte by byte -----

/// The big-endian unsigned integer in the four bytes at `p`.
pub open spec fn be32(s: Seq<u8>, p: int) -> int {
    s[p] as int * 16777216 + s[p + 1] as int * 65536 + s[p + 2] as int * 256 + s[p + 3] as int
}

/// The two's complement reading of a 32-bit unsigned value.
pub open spec fn signed32(u: int) -> int {
    if u < 0x80000000 {
        u
    } else {
        u - 0x100000000
    }
}

/// The two's complement reading of a byte.
pub open spec fn signed8(b: u8) -> int {
    if b < 128 {
        b as int
    } else {
        b - 256
    }
}

pub open spec fn spec_u32(s: Seq<u8>, p: int) -> Result<(int, int), Error> {
    if p + 4 > s.len() {
        Err(Error::UnexpectedEof)
    } else {
        Ok((be32(s, p), p + 4))
    }
}

pub open spec fn spec_tag(s: Seq<u8>, p: int) -> Result<(Tag, int), Error> {
    if p + 3 > s.len() {
        Err(Error::UnexpectedEof)
    } else {
        match tag_of(s[p], s[p + 1], s[p + 2]) {
            Some(t) => Ok((t, p + 3)),
            None => Err(Error::BadTag),
        }
    }
}

/// A byte string with a four-byte length; the length 0xFFFFFFFF stands for null.
pub open spec fn spec_buf(s: Seq<u8>, p: int) -> Result<(Option<Seq<u8>>, int), Error> {
    if p + 4 > s.len() {
        Err(Error::UnexpectedEof)
    } else if be32(s, p) == 0xFFFFFFFF {
        Ok((None, p + 4))
    } else if p + 4 + be32(s, p) > s.len() {
        Err(Error::BadLength)
    } else {
        Ok((Some(s.subrange(p + 4, p + 4 + be32(s, p))), p + 4 + be32(s, p)))
    }
}

/// Text framed as by `spec_buf`.
pub open spec fn spec_str(s: Seq<u8>, p: int) -> Result<(Option<Seq<char>>, int), Error> {
    match spec_buf(s, p) {
        Err(e) => Err(e),
        Ok((None, q)) => Ok((None, q)),
        Ok((Some(b), q)) => if valid_utf8(b) {
            Ok((Some(decode_utf8(b)), q))
        } else {
            Err(Error::BadUtf8)
        },
    }
}

/// A byte string with a one-byte length.
pub open spec fn spec_short(s: Seq<u8>, p: int) -> Result<(Seq<u8>, int), Error> {
    if p + 1 > s.len() {
        Err(Error::UnexpectedEof)
    } else if p + 1 + s[p] > s.len() {
        Err(Error::BadLength)
    } else {
        Ok((s.subrange(p + 1, p + 1 + s[p]), p + 1 + s[p]))
    }
}

/// Text framed as by `spec_short` (long integers and times).
pub open spec fn spec_text(s: Seq<u8>, p: int) -> Result<(Seq<char>, int), Error> {
    match spec_short(s, p) {
        Err(e) => Err(e),
        Ok((b, q)) => if valid_utf8(b) {
            Ok((decode_utf8(b), q))
        } else {
            Err(Error::BadUtf8)
        },
    }
}

/// A pointer: framed as by `spec_short`; the single digit `0` stands for null.
pub open spec fn spec_ptr(s: Seq<u8>, p: int) -> Result<(Option<Seq<char>>, int), Error> {
    match spec_short(s, p) {
        Err(e) => Err(e),
        Ok((b, q)) => if b == seq![48u8] {
            Ok((None, q))
        } else if valid_utf8(b) {
            Ok((Some(decode_utf8(b)), q))
        } else {
            Err(Error::BadUtf8)
        },
    }
}


// ----- hdata schemas -----

/// Splits `b` at each `sep` from index `i` on; the current piece began at `start`.
pub open spec fn split_from(b: Seq<u8>, sep: u8, i: int, start: int) -> Seq<Seq<u8>>
    decreases b.len() - i,
{
    if i >= b.len() {
        seq![b.subrange(start, b.len() as int)]
    } else if b[i] == sep {
        seq![b.subrange(start, i)] + split_from(b, sep, i + 1, i + 1)
    } else {
        split_from(b, sep, i + 1, start)
    }
}

/// The pieces of `b` between the separators; none at all for empty `b`.
pub open spec fn split(b: Seq<u8>, sep: u8) -> Seq<Seq<u8>> {
    if b.len() == 0 {
        Seq::empty()
    } else {
        split_from(b, sep, 0, 0)
    }
}

/// The pointer-column names of an h-path: `ptr_` before each component.
pub open spec fn ptr_names_from(
    pieces: Seq<Seq<u8>>,
    i: int,
    acc: Seq<Seq<char>>,
) -> Result<Seq<Seq<char>>, Error>
    decreases pieces.len() - i,
{
    if i >= pieces.len() {
        Ok(acc)
    } else if !valid_utf8(pieces[i]) {
        Err(Error::BadUtf8)
    } else {
        ptr_names_from(pieces, i + 1, acc.push("ptr_"@ + decode_utf8(pieces[i])))
    }
}

/// One `name:typ` entry of a keys header.
pub open spec fn column_of(e: Seq<u8>) -> Result<(Seq<char>, Tag), Error> {
    if e.len() < 4 || e[e.len() - 4] != 58u8 {
        Err(Error::BadTag)
    } else {
        match tag_of(e[e.len() - 3], e[e.len() - 2], e[e.len() - 1]) {
            None => Err(Error::BadTag),
            Some(t) => if valid_utf8(e.subrange(0, e.len() - 4)) {
                Ok((decode_utf8(e.subrange(0, e.len() - 4)), t))
            } else {
                Err(Error::BadUtf8)
            },
        }
    }
}

pub open spec fn columns_from(
    pieces: Seq<Seq<u8>>,
    i: int,
    acc: Seq<(Seq<char>, Tag)>,
) -> Result<Seq<(Seq<char>, Tag)>, Error>
    decreases pieces.len() - i,
{
    if i >= pieces.len() {
        Ok(acc)
    } else {
        match column_of(pieces[i]) {
            Err(e) => Err(e),
            Ok(c) => columns_from(pieces, i + 1, acc.push(c)),
        }
    }
}

/// The pointer columns of one hdata row: untagged pointers, one per name.
pub open spec fn spec_ptrs_from(
    s: Seq<u8>,
    p: int,
    names: Seq<Seq<char>>,
    i: int,
    acc: Seq<(Seq<char>, Value)>,
) -> Result<(Seq<(Seq<char>, Value)>, int), Error>
    decreases names.len() - i,
{
    if i >= names.len() {
        Ok((acc, p))
    } else {
        match spec_ptr(s, p) {
            Err(e) => Err(e),
            Ok((v, q)) => spec_ptrs_from(s, q, names, i + 1, acc.push((names[i], Value::Ptr(v)))),
        }
    }
}

// ----- values -----

/// The value of type `t` whose encoding starts at `p`, and where it ends.
pub open spec fn spec_value(s: Seq<u8>, p: int, t: Tag) -> Result<(Value, int), Error>
    decreases s.len() - p, 0int, 1int,
{
    if p < 0 || p > s.len() {
        Err(Error::UnexpectedEof)
    } else {
        match t {
            Tag::Chr => if p + 1 > s.len() {
                Err(Error::UnexpectedEof)
            } else {
                Ok((Value::Chr(signed8(s[p]) as i8), p + 1))
            },
            Tag::Int => if p + 4 > s.len() {
                Err(Error::UnexpectedEof)
            } else {
                Ok((Value::Int(signed32(be32(s, p)) as i32), p + 4))
            },
            Tag::Lon => match spec_text(s, p) {
                Err(e) => Err(e),
                Ok((x, q)) => Ok((Value::Lon(x), q)),
            },
            Tag::Tim => match spec_text(s, p) {
                Err(e) => Err(e),
                Ok((x, q)) => Ok((Value::Tim(x), q)),
            },
            Tag::Ptr => match spec_ptr(s, p) {
                Err(e) => Err(e),
                Ok((x, q)) => Ok((Value::Ptr(x), q)),
            },
            Tag::Str => match spec_str(s, p) {
                Err(e) => Err(e),
                Ok((x, q)) => Ok((Value::Str(x), q)),
            },
            Tag::Buf => match spec_buf(s, p) {
                Err(e) => Err(e),
                Ok((x, q)) => Ok((Value::Buf(x), q)),
            },
            Tag::Inf => match spec_str(s, p) {
                Err(e) => Err(e),
                Ok((k, q)) => match spec_str(s, q) {
                    Err(e) => Err(e),
                    Ok((v, r)) => Ok((Value::Inf(k, v), r)),
                },
            },
            Tag::Inl => Err(Error::NotImplemented),
            Tag::Arr => match spec_tag(s, p) {
                Err(e) => Err(e),
                Ok((et, q)) => match spec_u32(s, q) {
                    Err(e) => Err(e),
                    Ok((n, r)) => match spec_items(s, r, et, n, Seq::empty()) {
                        Err(e) => Err(e),
                        Ok((xs, z)) => Ok((Value::Arr(xs), z)),
                    },
                },
            },
            Tag::Htb => match spec_tag(s, p) {
                Err(e) => Err(e),
                Ok((kt, q)) => match spec_tag(s, q) {
                    Err(e) => Err(e),
                    Ok((vt, q2)) => match spec_u32(s, q2) {
                        Err(e) => Err(e),
                        Ok((n, r)) => match spec_pairs(s, r, kt, vt, n, Seq::empty()) {
                            Err(e) => Err(e),
                            Ok((ps, z)) => Ok((Value::Htb(ps), z)),
                        },
                    },
                },
            },
            Tag::Hda => spec_hda(s, p),
        }
    }
}

/// `n` more values of type `t` from `p` on, after those in `acc`.
pub open spec fn spec_items(s: Seq<u8>, p: int, t: Tag, n: int, acc: Seq<Value>) -> Result<
    (Seq<Value>, int),
    Error,
>
    decreases s.len() - p, 1int, n,
{
    if n <= 0 {
        Ok((acc, p))
    } else if p < 0 || p > s.len() {
        Err(Error::UnexpectedEof)
    } else {
        match spec_value(s, p, t) {
            Err(e) => Err(e),
            Ok((v, q)) => if q < p || q > s.len() {
                Err(Error::BadLength)
            } else {
                spec_items(s, q, t, n - 1, acc.push(v))
            },
        }
    }
}

/// `n` more key/value pairs from `p` on, after those in `acc`.
pub open spec fn spec_pairs(
    s: Seq<u8>,
    p: int,
    kt: Tag,
    vt: Tag,
    n: int,
    acc: Seq<(Value, Value)>,
) -> Result<(Seq<(Value, Value)>, int), Error>
    decreases s.len() - p, 1int, n,
{
    if n <= 0 {
        Ok((acc, p))
    } else if p < 0 || p > s.len() {
        Err(Error::UnexpectedEof)
    } else {
        match spec_value(s, p, kt) {
            Err(e) => Err(e),
            Ok((k, q)) => if q < p || q > s.len() {
                Err(Error::BadLength)
            } else {
                match spec_value(s, q, vt) {
                    Err(e) => Err(e),
                    Ok((v, r)) => if r < q || r > s.len() {
                        Err(Error::BadLength)
                    } else {
                        spec_pairs(s, r, kt, vt, n - 1, acc.push((k, v)))
                    },
                }
            },
        }
    }
}

/// The declared columns of one hdata row from column `i` on: untagged values.
pub open spec fn spec_cols_from(
    s: Seq<u8>,
    p: int,
    cols: Seq<(Seq<char>, Tag)>,
    i: int,
    acc: Seq<(Seq<char>, Value)>,
) -> Result<(Seq<(Seq<char>, Value)>, int), Error>
    decreases s.len() - p, 1int, cols.len() - i,
{
    if i >= cols.len() {
        Ok((acc, p))
    } else if p < 0 || p > s.len() {
        Err(Error::UnexpectedEof)
    } else {
        match spec_value(s, p, cols[i].1) {
            Err(e) => Err(e),
            Ok((v, q)) => if q < p || q > s.len() {
                Err(Error::BadLength)
            } else {
                spec_cols_from(s, q, cols, i + 1, acc.push((cols[i].0, v)))
            },
        }
    }
}

/// One hdata row at `p`: its pointer columns, then its declared columns.
pub open spec fn spec_row(
    s: Seq<u8>,
    p: int,
    names: Seq<Seq<char>>,
    cols: Seq<(Seq<char>, Tag)>,
) -> Result<(Seq<(Seq<char>, Value)>, int), Error>
    decreases s.len() - p, 1int, cols.len() + 1,
{
    if p < 0 || p > s.len() {
        Err(Error::UnexpectedEof)
    } else {
        match spec_ptrs_from(s, p, names, 0, Seq::empty()) {
            Err(e) => Err(e),
            Ok((ptrs, q)) => if q < p || q > s.len() {
                Err(Error::BadLength)
            } else {
                spec_cols_from(s, q, cols, 0, ptrs)
            },
        }
    }
}

/// `n` more hdata rows from `p` on, after those in `acc`.
pub open spec fn spec_rows(
    s: Seq<u8>,
    p: int,
    names: Seq<Seq<char>>,
    cols: Seq<(Seq<char>, Tag)>,
    n: int,
    acc: Seq<Seq<(Seq<char>, Value)>>,
) -> Result<(Seq<Seq<(Seq<char>, Value)>>, int), Error>
    decreases s.len() - p, 2int, n,
{
    if n <= 0 {
        Ok((acc, p))
    } else if p < 0 || p > s.len() {
        Err(Error::UnexpectedEof)
    } else {
        match spec_row(s, p, names, cols) {
            Err(e) => Err(e),
            Ok((row, r)) => if r < p || r > s.len() {
                Err(Error::BadLength)
            } else {
                spec_rows(s, r, names, cols, n - 1, acc.push(row))
            },
        }
    }
}

/// An hdata value: h-path, keys header, count, rows.
pub open spec fn spec_hda(s: Seq<u8>, p: int) -> Result<(Value, int), Error>
    decreases s.len() - p, 0int, 0int,
{
    match spec_buf(s, p) {
        Err(e) => Err(e),
        Ok((hpath, q)) => match ptr_names_from(
            split(
                match hpath {
                    Some(b) => b,
                    None => Seq::empty(),
                },
                47u8,
            ),
            0,
            Seq::empty(),
        ) {
            Err(e) => Err(e),
            Ok(names) => match spec_buf(s, q) {
                Err(e) => Err(e),
                Ok((keys, q2)) => match columns_from(
                    split(
                        match keys {
                            Some(b) => b,
                            None => Seq::empty(),
                        },
                        44u8,
                    ),
                    0,
                    Seq::empty(),
                ) {
                    Err(e) => Err(e),
                    Ok(cols) => match spec_u32(s, q2) {
                        Err(e) => Err(e),
                        Ok((n, r)) => if r <= p {
                            Err(Error::BadLength)
                        } else {
                            match spec_rows(s, r, names, cols, n, Seq::empty()) {
                                Err(e) => Err(e),
                                Ok((rows, z)) => Ok((Value::Hda(rows), z)),
                            }
                        },
                    },
                },
            },
        },
    }
}

// ----- messages -----

/// A decoded message: its id and its values, in order.
pub struct FrameView {
    pub id: Option<Seq<char>>,
    pub values: Seq<Value>,
}

/// `n` more tagged values from `p` on, after those in `acc`.
pub open spec fn spec_fields(s: Seq<u8>, p: int, n: int, acc: Seq<Value>) -> Result<
    (Seq<Value>, int),
    Error,
>
    decreases n,
{
    if n <= 0 {
        Ok((acc, p))
    } else {
        match spec_tag(s, p) {
            Err(e) => Err(e),
            Ok((t, q)) => match spec_value(s, q, t) {
                Err(e) => Err(e),
                Ok((v, r)) => spec_fields(s, r, n - 1, acc.push(v)),
            },
        }
    }
}

/// A whole message of `n` values: the id, the values, and nothing after them.
pub open spec fn spec_message(s: Seq<u8>, n: int) -> Result<FrameView, Error> {
    match spec_str(s, 0) {
        Err(e) => Err(e),
        Ok((id, p)) => match spec_fields(s, p, n, Seq::empty()) {
            Err(e) => Err(e),
            Ok((values, q)) => if q != s.len() {
                Err(Error::Trailing)
            } else {
                Ok(FrameView { id, values })
            },
        },
    }
}

// ----- the decoder -----

pub open spec fn bytes_view(v: Seq<Vec<u8>>) -> Seq<Seq<u8>> {
    v.map_values(|b: Vec<u8>| b@)
}

pub open spec fn texts_view(v: Seq<String>) -> Seq<Seq<char>> {
    v.map_values(|t: String| t@)
}

pub open spec fn columns_view(v: Seq<(String, Tag)>) -> Seq<(Seq<char>, Tag)> {
    v.map_values(|c: (String, Tag)| (c.0@, c.1))
}

/// A result and the position that follows it.
pub open spec fn value_at(r: Result<WireValue, Error>, pos: int) -> Result<(Value, int), Error> {
    match r {
        Ok(v) => Ok((v@, pos)),
        Err(e) => Err(e),
    }
}

pub open spec fn text_at(r: Result<Option<String>, Error>, pos: int) -> Result<
    (Option<Seq<char>>, int),
    Error,
> {
    match r {
        Ok(t) => Ok((opt_text(t), pos)),
        Err(e) => Err(e),
    }
}

/// Relies on std::str::from_utf8: it accepts exactly the well-formed UTF-8
/// byte strings, whose characters are then copied into a `String`.
#[verifier::external_body]
fn utf8_text(b: &[u8]) -> (r: Option<String>)
    ensures
        r is Some <==> valid_utf8(b@),
        r matches Some(t) ==> t@ == decode_utf8(b@),
{
    match std::str::from_utf8(b) {
        Ok(t) => Some(t.to_string()),
        Err(_) => None,
    }
}

fn byte_to_i8(b: u8) -> (r: i8)
    ensures
        r as int == signed8(b),
{
    if b < 128 {
        b as i8
    } else {
        ((b as i16) - 256) as i8
    }
}

fn u32_to_i32(u: u32) -> (r: i32)
    ensures
        r as int == signed32(u as int),
{
    if u < 0x80000000 {
        u as i32
    } else {
        ((u as i64) - 0x100000000) as i32
    }
}

/// Splits `b` at each `sep`, as `split` describes.
fn split_bytes(b: &[u8], sep: u8) -> (r: Vec<Vec<u8>>)
    ensures
        bytes_view(r@) == split(b@, sep),
{
    let mut out: Vec<Vec<u8>> = Vec::new();
    if b.len() == 0 {
        assert(bytes_view(out@) =~= Seq::empty());
        return out;
    }
    let mut start: usize = 0;
    let mut i: usize = 0;
    assert(bytes_view(out@) =~= Seq::empty());
    assert(split(b@, sep) =~= bytes_view(out@) + split_from(b@, sep, 0, 0));
    while i < b.len()
        invariant
            start <= i <= b.len(),
            split(b@, sep) == bytes_view(out@) + split_from(b@, sep, i as int, start as int),
        decreases b.len() - i,
    {
        if b[i] == sep {
            let piece = vstd::slice::slice_to_vec(&b[start..i]);
            let ghost before = bytes_view(out@);
            out.push(piece);
            assert(bytes_view(out@) =~= before.push(piece@));
            assert(before + split_from(b@, sep, i as int, start as int) =~= bytes_view(out@)
                + split_from(b@, sep, i + 1, i + 1));
            start = i + 1;
        }
        i = i + 1;
    }
    let piece = vstd::slice::slice_to_vec(&b[start..b.len()]);
    let ghost before = bytes_view(out@);
    out.push(piece);
    assert(bytes_view(out@) =~= before.push(piece@));
    assert(before + split_from(b@, sep, i as int, start as int) =~= bytes_view(out@));
    out
}

/// The pointer-column names of the h-path pieces.
fn ptr_names(pieces: &Vec<Vec<u8>>) -> (r: Result<Vec<String>, Error>)
    ensures
        match r {
            Ok(ns) => ptr_names_from(bytes_view(pieces@), 0, Seq::empty()) == Ok::<
                Seq<Seq<char>>,
                Error,
            >(texts_view(ns@)),
            Err(e) => ptr_names_from(bytes_view(pieces@), 0, Seq::empty()) == Err::<
                Seq<Seq<char>>,
                Error,
            >(e),
        },
{
    let mut names: Vec<String> = Vec::new();
    let mut i: usize = 0;
    assert(texts_view(names@) =~= Seq::empty());
    while i < pieces.len()
        invariant
            i <= pieces.len(),
            ptr_names_from(bytes_view(pieces@), 0, Seq::empty()) == ptr_names_from(
                bytes_view(pieces@),
                i as int,
                texts_view(names@),
            ),
        decreases pieces.len() - i,
    {
        match utf8_text(pieces[i].as_slice()) {
            None => {
                return Err(Error::BadUtf8);
            },
            Some(t) => {
                let mut name = String::from_str("ptr_");
                name.append(t.as_str());
                let ghost before = texts_view(names@);
                names.push(name);
                assert(texts_view(names@) =~= before.push("ptr_"@ + decode_utf8(pieces@[i as int]@)));
            },
        }
        i = i + 1;
    }
    Ok(names)
}

/// The typed columns of the keys-header pieces.
fn columns(pieces: &Vec<Vec<u8>>) -> (r: Result<Vec<(String, Tag)>, Error>)
    ensures
        match r {
            Ok(cs) => columns_from(bytes_view(pieces@), 0, Seq::empty()) == Ok::<
                Seq<(Seq<char>, Tag)>,
                Error,
            >(columns_view(cs@)),
            Err(e) => columns_from(bytes_view(pieces@), 0, Seq::empty()) == Err::<
                Seq<(Seq<char>, Tag)>,
                Error,
            >(e),
        },
{
    let mut cols: Vec<(String, Tag)> = Vec::new();
    let mut i: usize = 0;
    assert(columns_view(cols@) =~= Seq::empty());
    while i < pieces.len()
        invariant
            i <= pieces.len(),
            columns_from(bytes_view(pieces@), 0, Seq::empty()) == columns_from(
                bytes_view(pieces@),
                i as int,
                columns_view(cols@),
            ),
        decreases pieces.len() - i,
    {
        let e = &pieces[i];
        let n = e.len();
        if n < 4 || e[n - 4] != 58u8 {
            return Err(Error::BadTag);
        }
        match tag_from(e[n - 3], e[n - 2], e[n - 1]) {
            None => {
                return Err(Error::BadTag);
            },
            Some(t) => match utf8_text(&e.as_slice()[0..n - 4]) {
                None => {
                    return Err(Error::BadUtf8);
                },
                Some(name) => {
                    let ghost before = columns_view(cols@);
                    cols.push((name, t));
                    assert(columns_view(cols@) =~= before.push((name@, t)));
                },
            },
        }
        i = i + 1;
    }
    Ok(cols)
}

/// A decoder positioned in a message body.
pub struct DeMessage<'a> {
    input: &'a [u8],
    pos: usize,
}

impl<'a> DeMessage<'a> {
    pub closed spec fn bytes(&self) -> Seq<u8> {
        self.input@
    }

    pub closed spec fn at(&self) -> int {
        self.pos as int
    }

    pub closed spec fn wf(&self) -> bool {
        self.pos <= self.input@.len()
    }

    /// A decoder at the start of `input`.
    pub fn from_bytes(input: &'a [u8]) -> (r: DeMessage<'a>)
        ensures
            r.wf(),
            r.bytes() == input@,
            r.at() == 0,
    {
        DeMessage { input, pos: 0 }
    }

    /// How many bytes are left to read.
    pub fn remaining(&self) -> (r: usize)
        requires
            self.wf(),
        ensures
            r == self.bytes().len() - self.at(),
    {
        self.input.len() - self.pos
    }

    fn read_u32(&mut self) -> (r: Result<u32, Error>)
        requires
            old(self).wf(),
        ensures
            final(self).wf(),
            final(self).bytes() == old(self).bytes(),
            old(self).at() <= final(self).at(),
            spec_u32(old(self).bytes(), old(self).at()) == match r {
                Ok(n) => Ok::<(int, int), Error>((n as int, final(self).at())),
                Err(e) => Err::<(int, int), Error>(e),
            },
    {
        if self.input.len() - self.pos < 4 {
            return Err(Error::UnexpectedEof);
        }
        let p = self.pos;
        let b0 = self.input[p] as u32;
        let b1 = self.input[p + 1] as u32;
        let b2 = self.input[p + 2] as u32;
        let b3 = self.input[p + 3] as u32;
        let n = b0 * 16777216 + b1 * 65536 + b2 * 256 + b3;
        self.pos = p + 4;
        Ok(n)
    }

    /// Reads a three-byte type tag.
    pub fn read_typ(&mut self) -> (r: Result<Tag, Error>)
        requires
            old(self).wf(),
        ensures
            final(self).wf(),
            final(self).bytes() == old(self).bytes(),
            old(self).at() <= final(self).at(),
            spec_tag(old(self).bytes(), old(self).at()) == match r {
                Ok(t) => Ok::<(Tag, int), Error>((t, final(self).at())),
                Err(e) => Err::<(Tag, int), Error>(e),
            },
    {
        if self.input.len() - self.pos < 3 {
            return Err(Error::UnexpectedEof);
        }
        let p = self.pos;
        match tag_from(self.input[p], self.input[p + 1], self.input[p + 2]) {
            None => Err(Error::BadTag),
            Some(t) => {
                self.pos = p + 3;
                Ok(t)
            },
        }
    }

    /// Reads a byte string with a four-byte length; `None` for null.
    pub fn read_buf(&mut self) -> (r: Result<Option<&'a [u8]>, Error>)
        requires
            old(self).wf(),
        ensures
            final(self).wf(),
            final(self).bytes() == old(self).bytes(),
            old(self).at() <= final(self).at(),
            spec_buf(old(self).bytes(), old(self).at()) == match r {
                Ok(Some(b)) => Ok::<(Option<Seq<u8>>, int), Error>((Some(b@), final(self).at())),
                Ok(None) => Ok::<(Option<Seq<u8>>, int), Error>((None, final(self).at())),
                Err(e) => Err::<(Option<Seq<u8>>, int), Error>(e),
            },
    {
        let n = match self.read_u32() {
            Ok(n) => n,
            Err(e) => {
                return Err(e);
            },
        };
        if n == 0xFFFFFFFF {
            return Ok(None);
        }
        let len = n as usize;
        if len > self.input.len() - self.pos {
            return Err(Error::BadLength);
        }
        let input: &'a [u8] = self.input;
        let start = self.pos;
        self.pos = start + len;
        Ok(Some(&input[start..start + len]))
    }

    /// Reads text with a four-byte length; `None` for null.
    pub fn read_str(&mut self) -> (r: Result<Option<String>, Error>)
        requires
            old(self).wf(),
        ensures
            final(self).wf(),
            final(self).bytes() == old(self).bytes(),
            old(self).at() <= final(self).at(),
            spec_str(old(self).bytes(), old(self).at()) == text_at(r, final(self).at()),
    {
        match self.read_buf() {
            Err(e) => Err(e),
            Ok(None) => Ok(None),
            Ok(Some(b)) => match utf8_text(b) {
                None => Err(Error::BadUtf8),
                Some(t) => Ok(Some(t)),
            },
        }
    }

    fn read_short(&mut self) -> (r: Result<&'a [u8], Error>)
        requires
            old(self).wf(),
        ensures
            final(self).wf(),
            final(self).bytes() == old(self).bytes(),
            old(self).at() <= final(self).at(),
            spec_short(old(self).bytes(), old(self).at()) == match r {
                Ok(b) => Ok::<(Seq<u8>, int), Error>((b@, final(self).at())),
                Err(e) => Err::<(Seq<u8>, int), Error>(e),
            },
    {
        if self.pos >= self.input.len() {
            return Err(Error::UnexpectedEof);
        }
        let len = self.input[self.pos] as usize;
        if len > self.input.len() - self.pos - 1 {
            return Err(Error::BadLength);
        }
        let input: &'a [u8] = self.input;
        let start = self.pos + 1;
        self.pos = start + len;
        Ok(&input[start..start + len])
    }

    /// Reads text with a one-byte length (a long integer or a time).
    fn read_text(&mut self) -> (r: Result<String, Error>)
        requires
            old(self).wf(),
        ensures
            final(self).wf(),
            final(self).bytes() == old(self).bytes(),
            old(self).at() <= final(self).at(),
            spec_text(old(self).bytes(), old(self).at()) == match r {
                Ok(t) => Ok::<(Seq<char>, int), Error>((t@, final(self).at())),
                Err(e) => Err::<(Seq<char>, int), Error>(e),
            },
    {
        match self.read_short() {
            Err(e) => Err(e),
            Ok(b) => match utf8_text(b) {
                None => Err(Error::BadUtf8),
                Some(t) => Ok(t),
            },
        }
    }

    /// Reads a pointer; `None` for the null pointer.
    pub fn read_ptr(&mut self) -> (r: Result<Option<String>, Error>)
        requires
            old(self).wf(),
        ensures
            final(self).wf(),
            final(self).bytes() == old(self).bytes(),
            old(self).at() <= final(self).at(),
            spec_ptr(old(self).bytes(), old(self).at()) == text_at(r, final(self).at()),
    {
        match self.read_short() {
            Err(e) => Err(e),
            Ok(b) => {
                if b.len() == 1 && b[0] == 48u8 {
                    assert(b@ =~= seq![48u8]);
                    return Ok(None);
                }
                assert(b@ != seq![48u8]) by {
                    if b@ == seq![48u8] {
                        assert(b@.len() == 1 && b@[0] == 48u8);
                    }
                }
                match utf8_text(b) {
                    None => Err(Error::BadUtf8),
                    Some(t) => Ok(Some(t)),
                }
            },
        }
    }
    /// Reads one untagged value of type `t`.
    pub fn read_value(&mut self, t: Tag) -> (r: Result<WireValue, Error>)
        requires
            old(self).wf(),
        ensures
            final(self).wf(),
            final(self).bytes() == old(self).bytes(),
            old(self).at() <= final(self).at(),
            spec_value(old(self).bytes(), old(self).at(), t) == value_at(r, final(self).at()),
        decreases old(self).bytes().len() - old(self).at(), 1int,
    {
        match t {
            Tag::Chr => {
                if self.pos >= self.input.len() {
                    return Err(Error::UnexpectedEof);
                }
                let b = self.input[self.pos];
                self.pos = self.pos + 1;
                Ok(WireValue::Chr(byte_to_i8(b)))
            },
            Tag::Int => match self.read_u32() {
                Err(e) => Err(e),
                Ok(u) => Ok(WireValue::Int(u32_to_i32(u))),
            },
            Tag::Lon => match self.read_text() {
                Err(e) => Err(e),
                Ok(x) => Ok(WireValue::Lon(x)),
            },
            Tag::Tim => match self.read_text() {
                Err(e) => Err(e),
                Ok(x) => Ok(WireValue::Tim(x)),
            },
            Tag::Ptr => match self.read_ptr() {
                Err(e) => Err(e),
                Ok(x) => Ok(WireValue::Ptr(x)),
            },
            Tag::Str => match self.read_str() {
                Err(e) => Err(e),
                Ok(x) => Ok(WireValue::Str(x)),
            },
            Tag::Buf => match self.read_buf() {
                Err(e) => Err(e),
                Ok(None) => Ok(WireValue::Buf(None)),
                Ok(Some(b)) => Ok(WireValue::Buf(Some(vstd::slice::slice_to_vec(b)))),
            },
            Tag::Inf => {
                let k = match self.read_str() {
                    Err(e) => {
                        return Err(e);
                    },
                    Ok(k) => k,
                };
                match self.read_str() {
                    Err(e) => Err(e),
                    Ok(v) => Ok(WireValue::Inf(k, v)),
                }
            },
            Tag::Inl => Err(Error::NotImplemented),
            Tag::Arr => self.read_arr(),
            Tag::Htb => self.read_htb(),
            Tag::Hda => self.read_hda(),
        }
    }

    fn read_arr(&mut self) -> (r: Result<WireValue, Error>)
        requires
            old(self).wf(),
        ensures
            final(self).wf(),
            final(self).bytes() == old(self).bytes(),
            old(self).at() <= final(self).at(),
            spec_value(old(self).bytes(), old(self).at(), Tag::Arr) == value_at(r, final(self).at()),
        decreases old(self).bytes().len() - old(self).at(), 0int,
    {
        let ghost s = self.bytes();
        let ghost p0 = self.at();
        let et = match self.read_typ() {
            Err(e) => {
                return Err(e);
            },
            Ok(t) => t,
        };
        let n = match self.read_u32() {
            Err(e) => {
                return Err(e);
            },
            Ok(n) => n,
        };
        let ghost r0 = self.at();
        let mut xs: Vec<WireValue> = Vec::new();
        let mut i: u32 = 0;
        assert(values_view(xs@) =~= Seq::empty());
        while i < n
            invariant
                self.wf(),
                self.bytes() == s,
                s == old(self).bytes(),
                p0 == old(self).at(),
                p0 < r0 <= self.at(),
                i <= n,
                spec_value(s, p0, Tag::Arr) == match spec_items(s, r0, et, n as int, Seq::empty()) {
                    Err(e) => Err(e),
                    Ok((xs, z)) => Ok((Value::Arr(xs), z)),
                },
                spec_items(s, r0, et, n as int, Seq::empty()) == spec_items(
                    s,
                    self.at(),
                    et,
                    n - i,
                    values_view(xs@),
                ),
            decreases n - i,
        {
            let v = match self.read_value(et) {
                Err(e) => {
                    return Err(e);
                },
                Ok(v) => v,
            };
            let ghost before = values_view(xs@);
            xs.push(v);
            assert(values_view(xs@) =~= before.push(v@));
            i = i + 1;
        }
        let r = WireValue::Arr(xs);
        assert(r@ == Value::Arr(values_view(xs@))) by {
            if let Value::Arr(ys) = r@ {
                assert(ys =~= values_view(xs@));
            }
        }
        Ok(r)
    }

    fn read_htb(&mut self) -> (r: Result<WireValue, Error>)
        requires
            old(self).wf(),
        ensures
            final(self).wf(),
            final(self).bytes() == old(self).bytes(),
            old(self).at() <= final(self).at(),
            spec_value(old(self).bytes(), old(self).at(), Tag::Htb) == value_at(r, final(self).at()),
        decreases old(self).bytes().len() - old(self).at(), 0int,
    {
        let ghost s = self.bytes();
        let ghost p0 = self.at();
        let kt = match self.read_typ() {
            Err(e) => {
                return Err(e);
            },
            Ok(t) => t,
        };
        let vt = match self.read_typ() {
            Err(e) => {
                return Err(e);
            },
            Ok(t) => t,
        };
        let n = match self.read_u32() {
            Err(e) => {
                return Err(e);
            },
            Ok(n) => n,
        };
        let ghost r0 = self.at();
        let mut ps: Vec<(WireValue, WireValue)> = Vec::new();
        let mut i: u32 = 0;
        assert(pairs_view(ps@) =~= Seq::empty());
        while i < n
            invariant
                self.wf(),
                self.bytes() == s,
                s == old(self).bytes(),
                p0 == old(self).at(),
                p0 < r0 <= self.at(),
                i <= n,
                spec_value(s, p0, Tag::Htb) == match spec_pairs(s, r0, kt, vt, n as int, Seq::empty()) {
                    Err(e) => Err(e),
                    Ok((ps, z)) => Ok((Value::Htb(ps), z)),
                },
                spec_pairs(s, r0, kt, vt, n as int, Seq::empty()) == spec_pairs(
                    s,
                    self.at(),
                    kt,
                    vt,
                    n - i,
                    pairs_view(ps@),
                ),
            decreases n - i,
        {
            let k = match self.read_value(kt) {
                Err(e) => {
                    return Err(e);
                },
                Ok(k) => k,
            };
            let v = match self.read_value(vt) {
                Err(e) => {
                    return Err(e);
                },
                Ok(v) => v,
            };
            let ghost before = pairs_view(ps@);
            ps.push((k, v));
            assert(pairs_view(ps@) =~= before.push((k@, v@)));
            i = i + 1;
        }
        let r = WireValue::Htb(ps);
        assert(r@ == Value::Htb(pairs_view(ps@))) by {
            if let Value::Htb(ys) = r@ {
                assert(ys =~= pairs_view(ps@));
            }
        }
        Ok(r)
    }

    fn read_row(&mut self, names: &Vec<String>, cols: &Vec<(String, Tag)>) -> (r: Result<
        Vec<(String, WireValue)>,
        Error,
    >)
        requires
            old(self).wf(),
        ensures
            final(self).wf(),
            final(self).bytes() == old(self).bytes(),
            old(self).at() <= final(self).at(),
            spec_row(old(self).bytes(), old(self).at(), texts_view(names@), columns_view(cols@))
                == match r {
                Ok(row) => Ok::<(Seq<(Seq<char>, Value)>, int), Error>(
                    (row_view(row@), final(self).at()),
                ),
                Err(e) => Err::<(Seq<(Seq<char>, Value)>, int), Error>(e),
            },
        decreases old(self).bytes().len() - old(self).at(), 2int,
    {
        let ghost s = self.bytes();
        let ghost p0 = self.at();
        let ghost nv = texts_view(names@);
        let ghost cv = columns_view(cols@);
        let mut row: Vec<(String, WireValue)> = Vec::new();
        let mut i: usize = 0;
        assert(row_view(row@) =~= Seq::empty());
        while i < names.len()
            invariant
                self.wf(),
                self.bytes() == s,
                s == old(self).bytes(),
                p0 == old(self).at(),
                p0 <= self.at(),
                i <= names.len(),
                nv == texts_view(names@),
                spec_ptrs_from(s, p0, nv, 0, Seq::empty()) == spec_ptrs_from(
                    s,
                    self.at(),
                    nv,
                    i as int,
                    row_view(row@),
                ),
            decreases names.len() - i,
        {
            let v = match self.read_ptr() {
                Err(e) => {
                    return Err(e);
                },
                Ok(v) => v,
            };
            let ghost before = row_view(row@);
            let name = names[i].clone();
            row.push((name, WireValue::Ptr(v)));
            assert(row_view(row@) =~= before.push((nv[i as int], Value::Ptr(opt_text(v)))));
            i = i + 1;
        }
        let ghost q0 = self.at();
        let ghost ptrs0 = row_view(row@);
        assert(spec_ptrs_from(s, p0, nv, 0, Seq::empty()) == Ok::<
            (Seq<(Seq<char>, Value)>, int),
            Error,
        >((ptrs0, q0)));
        assert(spec_row(s, p0, nv, cv) == spec_cols_from(s, q0, cv, 0, ptrs0));
        let mut j: usize = 0;
        while j < cols.len()
            invariant
                self.wf(),
                self.bytes() == s,
                s == old(self).bytes(),
                p0 == old(self).at(),
                p0 <= q0 <= self.at(),
                j <= cols.len(),
                nv == texts_view(names@),
                cv == columns_view(cols@),
                spec_row(s, p0, nv, cv) == spec_cols_from(s, self.at(), cv, j as int, row_view(row@)),
            decreases cols.len() - j,
        {
            let t = cols[j].1;
            assert(cv[j as int].1 == t);
            let v = match self.read_value(t) {
                Err(e) => {
                    return Err(e);
                },
                Ok(v) => v,
            };
            let ghost before = row_view(row@);
            let name = cols[j].0.clone();
            row.push((name, v));
            assert(row_view(row@) =~= before.push((cv[j as int].0, v@)));
            j = j + 1;
        }
        Ok(row)
    }

    fn read_hda(&mut self) -> (r: Result<WireValue, Error>)
        requires
            old(self).wf(),
        ensures
            final(self).wf(),
            final(self).bytes() == old(self).bytes(),
            old(self).at() <= final(self).at(),
            spec_hda(old(self).bytes(), old(self).at()) == value_at(r, final(self).at()),
        decreases old(self).bytes().len() - old(self).at(), 0int,
    {
        let ghost s = self.bytes();
        let ghost p0 = self.at();
        let input: &'a [u8] = self.input;
        let hpath = match self.read_buf() {
            Err(e) => {
                return Err(e);
            },
            Ok(h) => h,
        };
        let hp: &[u8] = match hpath {
            Some(b) => b,
            None => &input[0..0],
        };
        assert(hp@ == match hpath {
            Some(b) => b@,
            None => Seq::<u8>::empty(),
        });
        let hpieces = split_bytes(hp, 47u8);
        let names = match ptr_names(&hpieces) {
            Err(e) => {
                return Err(e);
            },
            Ok(ns) => ns,
        };
        let keys = match self.read_buf() {
            Err(e) => {
                return Err(e);
            },
            Ok(k) => k,
        };
        let kp: &[u8] = match keys {
            Some(b) => b,
            None => &input[0..0],
        };
        assert(kp@ == match keys {
            Some(b) => b@,
            None => Seq::<u8>::empty(),
        });
        let kpieces = split_bytes(kp, 44u8);
        let cols = match columns(&kpieces) {
            Err(e) => {
                return Err(e);
            },
            Ok(cs) => cs,
        };
        let n = match self.read_u32() {
            Err(e) => {
                return Err(e);
            },
            Ok(n) => n,
        };
        let ghost r0 = self.at();
        let ghost nv = texts_view(names@);
        let ghost cv = columns_view(cols@);
        let mut rows: Vec<Vec<(String, WireValue)>> = Vec::new();
        let mut i: u32 = 0;
        assert(rows_view(rows@) =~= Seq::empty());
        while i < n
            invariant
                self.wf(),
                self.bytes() == s,
                s == old(self).bytes(),
                p0 == old(self).at(),
                p0 < r0 <= self.at(),
                i <= n,
                nv == texts_view(names@),
                cv == columns_view(cols@),
                spec_hda(s, p0) == match spec_rows(s, r0, nv, cv, n as int, Seq::empty()) {
                    Err(e) => Err(e),
                    Ok((rows, z)) => Ok((Value::Hda(rows), z)),
                },
                spec_rows(s, r0, nv, cv, n as int, Seq::empty()) == spec_rows(
                    s,
                    self.at(),
                    nv,
                    cv,
                    n - i,
                    rows_view(rows@),
                ),
            decreases n - i,
        {
            let row = match self.read_row(&names, &cols) {
                Err(e) => {
                    return Err(e);
                },
                Ok(row) => row,
            };
            let ghost before = rows_view(rows@);
            rows.push(row);
            assert(rows_view(rows@) =~= before.push(row_view(row@)));
            i = i + 1;
        }
        let r = WireValue::Hda(rows);
        assert(r@ == Value::Hda(rows_view(rows@))) by {
            if let Value::Hda(ys) = r@ {
                assert forall|k: int| 0 <= k < ys.len() implies ys[k] =~= rows_view(rows@)[k] by {}
                assert(ys =~= rows_view(rows@));
            }
        }
        Ok(r)
    }
}

/// A decoded message: its id, then its values in order.
#[derive(Debug, PartialEq)]
pub struct Frame {
    pub id: Option<String>,
    pub values: Vec<WireValue>,
}

impl View for Frame {
    type V = FrameView;

    open spec fn view(&self) -> FrameView {
        FrameView { id: opt_text(self.id), values: values_view(self.values@) }
    }
}

/// Decodes a message body (the part after the length and the compression
/// flag) that holds an id and then `n` tagged values, and nothing else.
pub fn from_bytes(b: &[u8], n: usize) -> (r: Result<Frame, Error>)
    ensures
        match r {
            Ok(f) => spec_message(b@, n as int) == Ok::<FrameView, Error>(f@),
            Err(e) => spec_message(b@, n as int) == Err::<FrameView, Error>(e),
        },
{
    let mut de = DeMessage::from_bytes(b);
    let id = match de.read_str() {
        Err(e) => {
            return Err(e);
        },
        Ok(id) => id,
    };
    let mut values: Vec<WireValue> = Vec::new();
    let mut i: usize = 0;
    assert(values_view(values@) =~= Seq::empty());
    while i < n
        invariant
            de.wf(),
            de.bytes() == b@,
            i <= n,
            spec_message(b@, n as int) == match spec_fields(
                b@,
                de.at(),
                n - i,
                values_view(values@),
            ) {
                Err(e) => Err(e),
                Ok((vs, q)) => if q != b@.len() {
                    Err(Error::Trailing)
                } else {
                    Ok(FrameView { id: opt_text(id), values: vs })
                },
            },
        decreases n - i,
    {
        let t = match de.read_typ() {
            Err(e) => {
                return Err(e);
            },
            Ok(t) => t,
        };
        let v = match de.read_value(t) {
            Err(e) => {
                return Err(e);
            },
            Ok(v) => v,
        };
        let ghost before = values_view(values@);
        values.push(v);
        assert(values_view(values@) =~= before.push(v@));
        i = i + 1;
    }
    if de.remaining() != 0 {
        return Err(Error::Trailing);
    }
    Ok(Frame { id, values })
}

/// The id at the start of a message body, read without committing to a shape.
pub open spec fn peeked(b: Seq<u8>) -> Result<Option<Seq<char>>, Error> {
    match spec_str(b, 0) {
        Err(e) => Err(e),
        Ok((t, _)) => Ok(t),
    }
}

/// Reads the id at the start of a message body.
pub fn peek_str(b: &[u8]) -> (r: Result<Option<String>, Error>)
    ensures
        match r {
            Ok(t) => peeked(b@) == Ok::<Option<Seq<char>>, Error>(opt_text(t)),
            Err(e) => peeked(b@) == Err::<Option<Seq<char>>, Error>(e),
        },
{
    let mut de = DeMessage::from_bytes(b);
    de.read_str()
}

// ----- laws -----

/// An hdata whose h-path and keys header are each null or empty and whose
/// count is zero decodes, without error, to no rows.
pub proof fn lemma_empty_hdata(s: Seq<u8>, p: int)
    requires
        0 <= p,
        p + 12 <= s.len(),
        be32(s, p) == 0xFFFFFFFF || be32(s, p) == 0,
        be32(s, p + 4) == 0xFFFFFFFF || be32(s, p + 4) == 0,
        be32(s, p + 8) == 0,
    ensures
        spec_value(s, p, Tag::Hda) == Ok::<(Value, int), Error>((Value::Hda(Seq::empty()), p + 12)),
{
    let e = Seq::<u8>::empty();
    assert(s.subrange(p + 4, p + 4) =~= e);
    assert(s.subrange(p + 8, p + 8) =~= e);
    assert(split(e, 47u8) =~= Seq::empty());
    assert(split(e, 44u8) =~= Seq::empty());
    assert(ptr_names_from(Seq::empty(), 0, Seq::empty()) == Ok::<Seq<Seq<char>>, Error>(
        Seq::empty(),
    ));
    assert(columns_from(Seq::empty(), 0, Seq::empty()) == Ok::<Seq<(Seq<char>, Tag)>, Error>(
        Seq::empty(),
    ));
    let h = spec_buf(s, p);
    assert(h is Ok && h->Ok_0.1 == p + 4);
    assert(match h->Ok_0.0 {
        Some(b) => b,
        None => e,
    } == e);
    let k = spec_buf(s, p + 4);
    assert(k is Ok && k->Ok_0.1 == p + 8);
    assert(match k->Ok_0.0 {
        Some(b) => b,
        None => e,
    } == e);
    assert(spec_u32(s, p + 8) == Ok::<(int, int), Error>((0, p + 12)));
    assert(spec_rows(s, p + 12, Seq::empty(), Seq::empty(), 0, Seq::empty()) == Ok::<
        (Seq<Seq<(Seq<char>, Value)>>, int),
        Error,
    >((Seq::empty(), p + 12)));
    assert(spec_hda(s, p) == Ok::<(Value, int), Error>((Value::Hda(Seq::empty()), p + 12)));
}

/// When bytes are left after the id and the values a message is read as,
/// the message fails with `Trailing`.
pub proof fn lemma_trailing(s: Seq<u8>, n: int, id: Option<Seq<char>>, p: int, vs: Seq<Value>, q: int)
    requires
        spec_str(s, 0) == Ok::<(Option<Seq<char>>, int), Error>((id, p)),
        spec_fields(s, p, n, Seq::empty()) == Ok::<(Seq<Value>, int), Error>((vs, q)),
        q < s.len(),
    ensures
        spec_message(s, n) == Err::<FrameView, Error>(Error::Trailing),
{
}

// ----- decoding ignores what follows -----

proof fn lemma_buf_ext(s: Seq<u8>, t: Seq<u8>, p: int)
    requires
        0 <= p,
        spec_buf(s, p) is Ok,
    ensures
        spec_buf(s + t, p) == spec_buf(s, p),
{
    let u = s + t;
    assert(u[p] == s[p] && u[p + 1] == s[p + 1] && u[p + 2] == s[p + 2] && u[p + 3] == s[p + 3]);
    if be32(s, p) != 0xFFFFFFFF {
        assert(u.subrange(p + 4, p + 4 + be32(s, p)) =~= s.subrange(p + 4, p + 4 + be32(s, p)));
    }
}

proof fn lemma_short_ext(s: Seq<u8>, t: Seq<u8>, p: int)
    requires
        0 <= p,
        spec_short(s, p) is Ok,
    ensures
        spec_short(s + t, p) == spec_short(s, p),
{
    let u = s + t;
    assert(u[p] == s[p]);
    assert(u.subrange(p + 1, p + 1 + s[p]) =~= s.subrange(p + 1, p + 1 + s[p]));
}

proof fn lemma_u32_ext(s: Seq<u8>, t: Seq<u8>, p: int)
    requires
        0 <= p,
        spec_u32(s, p) is Ok,
    ensures
        spec_u32(s + t, p) == spec_u32(s, p),
{
    let u = s + t;
    assert(u[p] == s[p] && u[p + 1] == s[p + 1] && u[p + 2] == s[p + 2] && u[p + 3] == s[p + 3]);
}

proof fn lemma_tag_ext(s: Seq<u8>, t: Seq<u8>, p: int)
    requires
        0 <= p,
        spec_tag(s, p) is Ok,
    ensures
        spec_tag(s + t, p) == spec_tag(s, p),
{
    let u = s + t;
    assert(u[p] == s[p] && u[p + 1] == s[p + 1] && u[p + 2] == s[p + 2]);
}

proof fn lemma_ptr_ext(s: Seq<u8>, t: Seq<u8>, p: int)
    requires
        0 <= p,
        spec_ptr(s, p) is Ok,
    ensures
        spec_ptr(s + t, p) == spec_ptr(s, p),
{
    lemma_short_ext(s, t, p);
}

proof fn lemma_str_ext(s: Seq<u8>, t: Seq<u8>, p: int)
    requires
        0 <= p,
        spec_str(s, p) is Ok,
    ensures
        spec_str(s + t, p) == spec_str(s, p),
{
    lemma_buf_ext(s, t, p);
}

proof fn lemma_ptrs_ext(
    s: Seq<u8>,
    t: Seq<u8>,
    p: int,
    names: Seq<Seq<char>>,
    i: int,
    acc: Seq<(Seq<char>, Value)>,
)
    requires
        0 <= p,
        spec_ptrs_from(s, p, names, i, acc) is Ok,
    ensures
        spec_ptrs_from(s + t, p, names, i, acc) == spec_ptrs_from(s, p, names, i, acc),
        p <= spec_ptrs_from(s, p, names, i, acc)->Ok_0.1,
    decreases names.len() - i,
{
    if i < names.len() {
        lemma_ptr_ext(s, t, p);
        let (v, q) = spec_ptr(s, p)->Ok_0;
        lemma_ptrs_ext(s, t, q, names, i + 1, acc.push((names[i], Value::Ptr(v))));
    }
}

proof fn lemma_value_ext(s: Seq<u8>, t: Seq<u8>, p: int, tag: Tag)
    requires
        spec_value(s, p, tag) is Ok,
    ensures
        spec_value(s + t, p, tag) == spec_value(s, p, tag),
        0 <= p <= spec_value(s, p, tag)->Ok_0.1,
    decreases s.len() - p, 0int, 1int,
{
    let u = s + t;
    match tag {
        Tag::Chr => {
            assert(u[p] == s[p]);
        },
        Tag::Int => {
            assert(u[p] == s[p] && u[p + 1] == s[p + 1] && u[p + 2] == s[p + 2] && u[p + 3]
                == s[p + 3]);
        },
        Tag::Lon | Tag::Tim => {
            lemma_short_ext(s, t, p);
        },
        Tag::Ptr => {
            lemma_ptr_ext(s, t, p);
        },
        Tag::Str => {
            lemma_str_ext(s, t, p);
        },
        Tag::Buf => {
            lemma_buf_ext(s, t, p);
        },
        Tag::Inf => {
            lemma_str_ext(s, t, p);
            let q = spec_str(s, p)->Ok_0.1;
            lemma_str_ext(s, t, q);
        },
        Tag::Inl => {},
        Tag::Arr => {
            lemma_tag_ext(s, t, p);
            let (et, q) = spec_tag(s, p)->Ok_0;
            lemma_u32_ext(s, t, q);
            let (n, r) = spec_u32(s, q)->Ok_0;
            lemma_items_ext(s, t, r, et, n, Seq::empty());
        },
        Tag::Htb => {
            lemma_tag_ext(s, t, p);
            let (kt, q) = spec_tag(s, p)->Ok_0;
            lemma_tag_ext(s, t, q);
            let (vt, q2) = spec_tag(s, q)->Ok_0;
            lemma_u32_ext(s, t, q2);
            let (n, r) = spec_u32(s, q2)->Ok_0;
            lemma_pairs_ext(s, t, r, kt, vt, n, Seq::empty());
        },
        Tag::Hda => {
            lemma_hda_ext(s, t, p);
        },
    }
}

proof fn lemma_items_ext(s: Seq<u8>, t: Seq<u8>, p: int, tag: Tag, n: int, acc: Seq<Value>)
    requires
        spec_items(s, p, tag, n, acc) is Ok,
    ensures
        spec_items(s + t, p, tag, n, acc) == spec_items(s, p, tag, n, acc),
        p <= spec_items(s, p, tag, n, acc)->Ok_0.1,
    decreases s.len() - p, 1int, n,
{
    if n > 0 {
        lemma_value_ext(s, t, p, tag);
        let (v, q) = spec_value(s, p, tag)->Ok_0;
        lemma_items_ext(s, t, q, tag, n - 1, acc.push(v));
    }
}

#[verifier::rlimit(50)]
proof fn lemma_pairs_ext(
    s: Seq<u8>,
    t: Seq<u8>,
    p: int,
    kt: Tag,
    vt: Tag,
    n: int,
    acc: Seq<(Value, Value)>,
)
    requires
        spec_pairs(s, p, kt, vt, n, acc) is Ok,
    ensures
        spec_pairs(s + t, p, kt, vt, n, acc) == spec_pairs(s, p, kt, vt, n, acc),
        p <= spec_pairs(s, p, kt, vt, n, acc)->Ok_0.1,
    decreases s.len() - p, 1int, n,
{
    if n > 0 {
        lemma_value_ext(s, t, p, kt);
        let (k, q) = spec_value(s, p, kt)->Ok_0;
        lemma_value_ext(s, t, q, vt);
        let (v, r) = spec_value(s, q, vt)->Ok_0;
        lemma_pairs_ext(s, t, r, kt, vt, n - 1, acc.push((k, v)));
    }
}

proof fn lemma_cols_ext(
    s: Seq<u8>,
    t: Seq<u8>,
    p: int,
    cols: Seq<(Seq<char>, Tag)>,
    i: int,
    acc: Seq<(Seq<char>, Value)>,
)
    requires
        spec_cols_from(s, p, cols, i, acc) is Ok,
    ensures
        spec_cols_from(s + t, p, cols, i, acc) == spec_cols_from(s, p, cols, i, acc),
        p <= spec_cols_from(s, p, cols, i, acc)->Ok_0.1,
    decreases s.len() - p, 1int, cols.len() - i,
{
    if i < cols.len() {
        lemma_value_ext(s, t, p, cols[i].1);
        let (v, q) = spec_value(s, p, cols[i].1)->Ok_0;
        lemma_cols_ext(s, t, q, cols, i + 1, acc.push((cols[i].0, v)));
    }
}

#[verifier::rlimit(50)]
proof fn lemma_row_ext(
    s: Seq<u8>,
    t: Seq<u8>,
    p: int,
    names: Seq<Seq<char>>,
    cols: Seq<(Seq<char>, Tag)>,
)
    requires
        spec_row(s, p, names, cols) is Ok,
    ensures
        spec_row(s + t, p, names, cols) == spec_row(s, p, names, cols),
        p <= spec_row(s, p, names, cols)->Ok_0.1,
    decreases s.len() - p, 1int, cols.len() + 1,
{
    lemma_ptrs_ext(s, t, p, names, 0, Seq::empty());
    let (ptrs, q) = spec_ptrs_from(s, p, names, 0, Seq::empty())->Ok_0;
    lemma_cols_ext(s, t, q, cols, 0, ptrs);
}

#[verifier::rlimit(50)]
proof fn lemma_rows_ext(
    s: Seq<u8>,
    t: Seq<u8>,
    p: int,
    names: Seq<Seq<char>>,
    cols: Seq<(Seq<char>, Tag)>,
    n: int,
    acc: Seq<Seq<(Seq<char>, Value)>>,
)
    requires
        spec_rows(s, p, names, cols, n, acc) is Ok,
    ensures
        spec_rows(s + t, p, names, cols, n, acc) == spec_rows(s, p, names, cols, n, acc),
        p <= spec_rows(s, p, names, cols, n, acc)->Ok_0.1,
    decreases s.len() - p, 2int, n,
{
    if n > 0 {
        lemma_row_ext(s, t, p, names, cols);
        let (row, r) = spec_row(s, p, names, cols)->Ok_0;
        lemma_rows_ext(s, t, r, names, cols, n - 1, acc.push(row));
    }
}

proof fn lemma_hda_ext(s: Seq<u8>, t: Seq<u8>, p: int)
    requires
        0 <= p <= s.len(),
        spec_hda(s, p) is Ok,
    ensures
        spec_hda(s + t, p) == spec_hda(s, p),
        p <= spec_hda(s, p)->Ok_0.1,
    decreases s.len() - p, 0int, 0int,
{
    lemma_buf_ext(s, t, p);
    let q = spec_buf(s, p)->Ok_0.1;
    lemma_buf_ext(s, t, q);
    let q2 = spec_buf(s, q)->Ok_0.1;
    lemma_u32_ext(s, t, q2);
    let (n, r) = spec_u32(s, q2)->Ok_0;
    let h = spec_buf(s, p)->Ok_0.0;
    let k = spec_buf(s, q)->Ok_0.0;
    let names = ptr_names_from(
        split(
            match h {
                Some(b) => b,
                None => Seq::empty(),
            },
            47u8,
        ),
        0,
        Seq::empty(),
    )->Ok_0;
    let cols = columns_from(
        split(
            match k {
                Some(b) => b,
                None => Seq::empty(),
            },
            44u8,
        ),
        0,
        Seq::empty(),
    )->Ok_0;
    lemma_rows_ext(s, t, r, names, cols, n, Seq::empty());
}

proof fn lemma_fields_ext(s: Seq<u8>, t: Seq<u8>, p: int, n: int, acc: Seq<Value>)
    requires
        0 <= p,
        spec_fields(s, p, n, acc) is Ok,
    ensures
        spec_fields(s + t, p, n, acc) == spec_fields(s, p, n, acc),
    decreases n,
{
    if n > 0 {
        lemma_tag_ext(s, t, p);
        let (tag, q) = spec_tag(s, p)->Ok_0;
        lemma_value_ext(s, t, q, tag);
        let (v, r) = spec_value(s, q, tag)->Ok_0;
        lemma_fields_ext(s, t, r, n - 1, acc.push(v));
    }
}

/// Bytes appended after a message that decodes as `n` values make it fail
/// with `Trailing`.
pub proof fn lemma_tail_is_trailing(s: Seq<u8>, t: Seq<u8>, n: int)
    requires
        spec_message(s, n) is Ok,
        t.len() > 0,
    ensures
        spec_message(s + t, n) == Err::<FrameView, Error>(Error::Trailing),
{
    lemma_str_ext(s, t, 0);
    let p = spec_str(s, 0)->Ok_0.1;
    lemma_fields_ext(s, t, p, n, Seq::empty());
}

} // verus!
