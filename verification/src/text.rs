//! Byte-level line scanning primitives shared by all parsers.
//!
//! The input is a UTF-8 byte buffer. A line terminator is a lone line feed
//! or a carriage return immediately followed by a line feed; a carriage
//! return on its own is an ordinary content byte. Horizontal whitespace is
//! a space or a tab.

use vstd::prelude::*;

verus! {

pub const LF: u8 = 10;

pub const CR: u8 = 13;

pub open spec fn is_space(b: u8) -> bool {
    b == ' ' as u8 || b == '\t' as u8
}

pub open spec fn is_digit(b: u8) -> bool {
    '0' as u8 <= b <= '9' as u8
}

pub open spec fn is_alnum(b: u8) -> bool {
    ('0' as u8 <= b <= '9' as u8) || ('a' as u8 <= b <= 'z' as u8) || ('A' as u8 <= b <= 'Z' as u8)
}

/// Length of the line terminator starting exactly at `pos`: 1 for a line
/// feed, 2 for a carriage return followed by a line feed, otherwise 0.
pub open spec fn term_len_at(s: Seq<u8>, pos: int) -> int {
    if 0 <= pos < s.len() && s[pos] == LF {
        1
    } else if 0 <= pos && pos + 1 < s.len() && s[pos] == CR && s[pos + 1] == LF {
        2
    } else {
        0
    }
}

/// Position of the end of the current line's content: the first position at
/// or after `pos` that is the end of input or the start of a line terminator.
pub open spec fn line_content_end(s: Seq<u8>, pos: int) -> int
    decreases s.len() - pos,
{
    if pos < 0 || pos >= s.len() {
        s.len() as int
    } else if term_len_at(s, pos) > 0 {
        pos
    } else {
        line_content_end(s, pos + 1)
    }
}

/// Position of the start of the next line (just past the current line's
/// terminator), or the end of input if the current line is unterminated.
pub open spec fn next_line_start(s: Seq<u8>, pos: int) -> int {
    let e = line_content_end(s, pos);
    e + term_len_at(s, e)
}

/// First position at or after `pos` holding a byte that is not horizontal
/// whitespace (or the end of input).
pub open spec fn skip_spaces(s: Seq<u8>, pos: int) -> int
    decreases s.len() - pos,
{
    if 0 <= pos < s.len() && is_space(s[pos]) {
        skip_spaces(s, pos + 1)
    } else {
        pos
    }
}

/// The bytes `w` occur in `s` starting exactly at `pos`.
pub open spec fn has_prefix(s: Seq<u8>, pos: int, w: Seq<u8>) -> bool {
    0 <= pos && pos + w.len() <= s.len() && s.subrange(pos, pos + w.len()) == w
}

pub broadcast proof fn lemma_line_content_end_bounds(s: Seq<u8>, pos: int)
    requires
        0 <= pos <= s.len(),
    ensures
        pos <= #[trigger] line_content_end(s, pos) <= s.len(),
        line_content_end(s, pos) == s.len() || term_len_at(s, line_content_end(s, pos)) > 0,
    decreases s.len() - pos,
{
    if pos < s.len() && term_len_at(s, pos) == 0 {
        lemma_line_content_end_bounds(s, pos + 1);
    }
}

pub broadcast proof fn lemma_next_line_start_bounds(s: Seq<u8>, pos: int)
    requires
        0 <= pos <= s.len(),
    ensures
        pos <= #[trigger] next_line_start(s, pos) <= s.len(),
        pos < s.len() ==> pos < next_line_start(s, pos),
{
    lemma_line_content_end_bounds(s, pos);
}

pub broadcast proof fn lemma_skip_spaces_bounds(s: Seq<u8>, pos: int)
    requires
        0 <= pos <= s.len(),
    ensures
        pos <= #[trigger] skip_spaces(s, pos) <= s.len(),
        skip_spaces(s, pos) == s.len() || !is_space(s[skip_spaces(s, pos)]),
    decreases s.len() - pos,
{
    if pos < s.len() && is_space(s[pos]) {
        lemma_skip_spaces_bounds(s, pos + 1);
    }
}

/// Copies the byte range `[i, j)` of a slice into a fresh vector.
pub fn copy_range(v: &[u8], i: usize, j: usize) -> (r: Vec<u8>)
    requires
        i <= j <= v@.len(),
    ensures
        r@ == v@.subrange(i as int, j as int),
{
    vstd::slice::slice_to_vec(vstd::slice::slice_subrange(v, i, j))
}

/// Copies a byte vector.
pub fn copy_bytes(v: &Vec<u8>) -> (r: Vec<u8>)
    ensures
        r@ == v@,
{
    let r = vstd::slice::slice_to_vec(v.as_slice());
    proof {
        assert(r@ =~= v@);
    }
    r
}

pub fn term_len_x(input: &[u8], pos: usize) -> (r: usize)
    requires
        pos <= input@.len(),
    ensures
        r == term_len_at(input@, pos as int),
{
    if pos < input.len() && input[pos] == LF {
        1
    } else if pos < input.len() && input[pos] == CR && pos + 1 < input.len() && input[pos + 1]
        == LF {
        2
    } else {
        0
    }
}

pub fn line_content_end_x(input: &[u8], pos: usize) -> (r: usize)
    requires
        pos <= input@.len(),
    ensures
        r == line_content_end(input@, pos as int),
        pos <= r <= input@.len(),
{
    proof {
        lemma_line_content_end_bounds(input@, pos as int);
    }
    let mut i = pos;
    loop
        invariant
            pos <= i <= input@.len(),
            line_content_end(input@, pos as int) == line_content_end(input@, i as int),
        ensures
            i == line_content_end(input@, pos as int),
        decreases input@.len() - i,
    {
        if i >= input.len() {
            return i;
        }
        let t = term_len_x(input, i);
        if t > 0 {
            return i;
        }
        i = i + 1;
    }
}

pub fn next_line_start_x(input: &[u8], pos: usize) -> (r: usize)
    requires
        pos <= input@.len(),
    ensures
        r == next_line_start(input@, pos as int),
        pos <= r <= input@.len(),
{
    let n = input.len();
    let e = line_content_end_x(input, pos);
    let t = term_len_x(input, e);
    proof {
        assert(e as int + t as int <= n as int);
    }
    e + t
}

pub fn skip_spaces_x(input: &[u8], pos: usize) -> (r: usize)
    requires
        pos <= input@.len(),
    ensures
        r == skip_spaces(input@, pos as int),
        pos <= r <= input@.len(),
{
    proof {
        lemma_skip_spaces_bounds(input@, pos as int);
    }
    let mut i = pos;
    loop
        invariant
            pos <= i <= input@.len(),
            skip_spaces(input@, pos as int) == skip_spaces(input@, i as int),
        ensures
            i == skip_spaces(input@, pos as int),
        decreases input@.len() - i,
    {
        if i >= input.len() {
            return i;
        }
        let b = input[i];
        if b != ' ' as u8 && b != '\t' as u8 {
            return i;
        }
        i = i + 1;
    }
}

pub fn has_prefix_x(input: &[u8], pos: usize, w: &[u8]) -> (r: bool)
    ensures
        r == has_prefix(input@, pos as int, w@),
{
    if pos > input.len() || w.len() > input.len() - pos {
        proof {
            assert(!has_prefix(input@, pos as int, w@));
        }
        return false;
    }
    let n = input.len();
    let mut i: usize = 0;
    loop
        invariant
            0 <= i <= w@.len(),
            n == input@.len(),
            pos + w@.len() <= n,
            forall|k: int| 0 <= k < i ==> input@[pos + k] == w@[k],
        ensures
            i == w@.len(),
            pos + w@.len() <= input@.len(),
            forall|k: int| 0 <= k < w@.len() ==> input@[pos + k] == w@[k],
        decreases w@.len() - i,
    {
        if i >= w.len() {
            break;
        }
        if input[pos + i] != w[i] {
            proof {
                assert(input@.subrange(pos as int, pos + w@.len())[i as int] == input@[pos + i]);
            }
            return false;
        }
        i = i + 1;
    }
    proof {
        assert(input@.subrange(pos as int, pos + w@.len()) =~= w@);
    }
    true
}

} // verus!

verus! {

/// Appends all bytes of `src` to `dst`.
pub fn append_bytes(dst: &mut Vec<u8>, src: &[u8])
    ensures
        final(dst)@ == old(dst)@ + src@,
{
    dst.extend_from_slice(src);
    proof {
        assert(dst@ =~= old(dst)@ + src@);
    }
}

} // verus!

verus! {

/// `p` is reachable from `start` by stepping whole lines: it is `start`
/// itself or the start of a later line.
pub open spec fn is_line_start_in(s: Seq<u8>, start: int, p: int) -> bool
    decreases s.len() - start,
{
    if 0 <= start <= s.len() {
        if p == start {
            true
        } else if start < s.len() {
            let nx = next_line_start(s, start);
            if start < nx <= s.len() {
                is_line_start_in(s, nx, p)
            } else {
                false
            }
        } else {
            false
        }
    } else {
        false
    }
}

pub proof fn lemma_line_start_in_ge(s: Seq<u8>, start: int, p: int)
    requires
        is_line_start_in(s, start, p),
    ensures
        p >= start,
    decreases s.len() - start,
{
    if p != start && start < s.len() {
        let nx = next_line_start(s, start);
        if start < nx <= s.len() {
            lemma_line_start_in_ge(s, nx, p);
        }
    }
}

} // verus!
