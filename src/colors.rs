//! Removal of WeeChat's inline formatting codes from text.
//!
//! `\x1c` resets attributes and is dropped. `\x19` starts a color code: an
//! optional `F` or `B`, an optional one of `* ! / _ |`, a color (`@` and five
//! more characters, or two characters), then optionally `,` or `~` and a
//! second color. A code cut short by the end of the text ends there.
use crate::text::{chars_of, push_char};
use vstd::prelude::*;

verus! {

/// Where a color that starts at `i` ends.
pub open spec fn skip_color(s: Seq<char>, i: int) -> int {
    let j = if i < s.len() && s[i] == '@' {
        i + 6
    } else {
        i + 2
    };
    if j > s.len() {
        s.len() as int
    } else {
        j
    }
}

pub open spec fn is_attribute(c: char) -> bool {
    c == '*' || c == '!' || c == '/' || c == '_' || c == '|'
}

/// Where a color code whose body starts at `i` (just after `\x19`) ends.
pub open spec fn skip_code(s: Seq<char>, i: int) -> int {
    let i1 = if i < s.len() && (s[i] == 'F' || s[i] == 'B') {
        i + 1
    } else {
        i
    };
    let i2 = if i1 < s.len() && is_attribute(s[i1]) {
        i1 + 1
    } else {
        i1
    };
    let i3 = skip_color(s, i2);
    if i3 < s.len() && (s[i3] == ',' || s[i3] == '~') {
        skip_color(s, i3 + 1)
    } else {
        i3
    }
}

/// The characters of `s` from `i` on, without formatting codes.
pub open spec fn strip_from(s: Seq<char>, i: int) -> Seq<char>
    decreases s.len() - i,
{
    if i < 0 || i >= s.len() {
        Seq::empty()
    } else if s[i] == '\x1c' {
        strip_from(s, i + 1)
    } else if s[i] == '\x19' {
        if skip_code(s, i + 1) > i {
            strip_from(s, skip_code(s, i + 1))
        } else {
            Seq::empty()
        }
    } else {
        seq![s[i]] + strip_from(s, i + 1)
    }
}

pub open spec fn stripped(s: Seq<char>) -> Seq<char> {
    strip_from(s, 0)
}

fn color_end(s: &Vec<char>, i: usize) -> (r: usize)
    requires
        i <= s@.len(),
    ensures
        r == skip_color(s@, i as int),
{
    let w: usize = if i < s.len() && s[i] == '@' {
        6
    } else {
        2
    };
    if s.len() - i < w {
        s.len()
    } else {
        i + w
    }
}

fn code_end(s: &Vec<char>, i: usize) -> (r: usize)
    requires
        i <= s@.len(),
    ensures
        r == skip_code(s@, i as int),
        i <= r <= s@.len(),
{
    let i1 = if i < s.len() && (s[i] == 'F' || s[i] == 'B') {
        i + 1
    } else {
        i
    };
    let i2 = if i1 < s.len() && (s[i1] == '*' || s[i1] == '!' || s[i1] == '/' || s[i1] == '_'
        || s[i1] == '|') {
        i1 + 1
    } else {
        i1
    };
    let i3 = color_end(s, i2);
    if i3 < s.len() && (s[i3] == ',' || s[i3] == '~') {
        color_end(s, i3 + 1)
    } else {
        i3
    }
}

/// Strips WeeChat colors and attributes from `input`.
pub fn strip_colors(input: String) -> (r: String)
    ensures
        r@ == stripped(input@),
{
    let cs = chars_of(input.as_str());
    let mut out = String::new();
    let mut i: usize = 0;
    assert(out@ + strip_from(cs@, 0) =~= stripped(input@));
    while i < cs.len()
        invariant
            i <= cs.len(),
            cs@ == input@,
            out@ + strip_from(cs@, i as int) == stripped(input@),
        decreases cs.len() - i,
    {
        let c = cs[i];
        if c == '\x1c' {
            i = i + 1;
        } else if c == '\x19' {
            i = code_end(&cs, i + 1);
        } else {
            let ghost before = out@;
            push_char(&mut out, c);
            assert(before + strip_from(cs@, i as int) =~= out@ + strip_from(cs@, i + 1));
            i = i + 1;
        }
    }
    assert(out@ =~= out@ + strip_from(cs@, i as int));
    out
}

} // verus!
