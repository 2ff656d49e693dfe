//! Parser for a header-introduced question/answer pair.
//!
//! The front is a header line: one to six `#` characters (the header level),
//! at least one space, the literal `Q:`, optional spaces, then non-empty
//! text up to the end of the line. The back consumes whole lines until,
//! without consuming it, the end of input, a header line of level at most
//! the front's level (a `#` run followed by a single space), or a metadata
//! comment. The semantic back is the raw back span with leading and
//! trailing blank lines removed; a card whose trimmed back is empty is
//! rejected.

use crate::parser::flashcard_metadata::spec_parse_flashcard_metadata;
use crate::text::{has_prefix, line_content_end, next_line_start, skip_spaces};
use crate::types::{FlashCard, FlashCardV};
use vstd::prelude::*;

verus! {

broadcast use {
    crate::text::lemma_skip_spaces_bounds,
    crate::text::lemma_line_content_end_bounds,
    crate::text::lemma_next_line_start_bounds,
};

pub open spec fn kw_q() -> Seq<u8> {
    seq!['Q' as u8, ':' as u8]
}

/// End of the maximal run of `#` bytes starting at `pos`.
pub open spec fn hash_run_end(s: Seq<u8>, pos: int) -> int
    decreases s.len() - pos,
{
    if 0 <= pos < s.len() && s[pos] == '#' as u8 {
        hash_run_end(s, pos + 1)
    } else {
        pos
    }
}

pub broadcast proof fn lemma_hash_run_end_bounds(s: Seq<u8>, pos: int)
    requires
        0 <= pos <= s.len(),
    ensures
        pos <= #[trigger] hash_run_end(s, pos) <= s.len(),
    decreases s.len() - pos,
{
    if pos < s.len() && s[pos] == '#' as u8 {
        lemma_hash_run_end_bounds(s, pos + 1);
    }
}

/// The front of a card: header hashes (level 1 to 6), at least one space,
/// `Q:`, optional spaces, then non-empty text to the end of the line. On
/// success: the position after the line's terminator (or the end of input),
/// the front text, and the header level.
pub open spec fn spec_parse_front(s: Seq<u8>, pos: int) -> Option<(int, Seq<u8>, int)> {
    let h = hash_run_end(s, pos);
    if h > pos && h - pos <= 6 {
        let sp = skip_spaces(s, h);
        if sp > h && has_prefix(s, sp, kw_q()) {
            let v = skip_spaces(s, sp + 2);
            let ce = line_content_end(s, v);
            if ce > v {
                Some((next_line_start(s, v), s.subrange(v, ce), h - pos))
            } else {
                None
            }
        } else {
            None
        }
    } else {
        None
    }
}

/// A line at `pos` that terminates a card of the given level: a run of at
/// most `level` hashes followed by a single space.
pub open spec fn is_terminating_header(s: Seq<u8>, pos: int, level: int) -> bool {
    let h = hash_run_end(s, pos);
    h > pos && h - pos <= level && h < s.len() && s[h] == ' ' as u8
}

/// End of the back region: whole lines are consumed until the end of input,
/// a terminating header, or a metadata comment is reached (none of which is
/// consumed).
pub open spec fn back_scan(s: Seq<u8>, pos: int, level: int) -> int
    decreases s.len() - pos,
{
    if 0 <= pos < s.len() && !is_terminating_header(s, pos, level)
        && spec_parse_flashcard_metadata(s, pos) is None {
        let nx = next_line_start(s, pos);
        if pos < nx <= s.len() {
            back_scan(s, nx, level)
        } else {
            pos
        }
    } else {
        pos
    }
}

pub proof fn lemma_back_scan_bounds(s: Seq<u8>, pos: int, level: int)
    requires
        0 <= pos <= s.len(),
    ensures
        pos <= back_scan(s, pos, level) <= s.len(),
    decreases s.len() - pos,
{
    if 0 <= pos < s.len() && !is_terminating_header(s, pos, level)
        && spec_parse_flashcard_metadata(s, pos) is None {
        let nx = next_line_start(s, pos);
        if pos < nx <= s.len() {
            lemma_back_scan_bounds(s, nx, level);
        }
    }
}

/// The line starting at `pos` has only horizontal whitespace before its
/// terminator (or the end of input).
pub open spec fn line_blank_at(s: Seq<u8>, pos: int) -> bool {
    skip_spaces(s, pos) == line_content_end(s, pos)
}

/// First position in `[bs, be)` that starts a non-blank line, stepping over
/// whole blank lines; `be` when every line of the region is blank.
pub open spec fn trim_lead(s: Seq<u8>, bs: int, be: int) -> int
    decreases be - bs,
{
    if 0 <= bs < be && line_blank_at(s, bs) {
        let nx = next_line_start(s, bs);
        if bs < nx < be {
            trim_lead(s, nx, be)
        } else {
            be
        }
    } else {
        bs
    }
}

pub proof fn lemma_trim_lead_bounds(s: Seq<u8>, bs: int, be: int)
    requires
        0 <= bs <= be <= s.len(),
    ensures
        bs <= trim_lead(s, bs, be) <= be,
    decreases be - bs,
{
    if bs < be && line_blank_at(s, bs) {
        let nx = next_line_start(s, bs);
        if bs < nx < be {
            lemma_trim_lead_bounds(s, nx, be);
        }
    }
}

/// End (just past the terminator, capped at `be`) of the last non-blank
/// line whose start lies in `[pos, be)`, or -1 when every such line is
/// blank.
pub open spec fn last_nonblank_end(s: Seq<u8>, pos: int, be: int) -> int
    decreases be - pos,
{
    if 0 <= pos < be {
        let nx = next_line_start(s, pos);
        let e = if nx > be {
            be
        } else {
            nx
        };
        let rest = if pos < e {
            last_nonblank_end(s, e, be)
        } else {
            -1
        };
        if rest >= 0 {
            rest
        } else if !line_blank_at(s, pos) {
            e
        } else {
            -1
        }
    } else {
        -1
    }
}

pub proof fn lemma_last_nonblank_end_bounds(s: Seq<u8>, pos: int, be: int)
    requires
        0 <= pos <= be <= s.len(),
    ensures
        last_nonblank_end(s, pos, be) == -1 || pos < last_nonblank_end(s, pos, be) <= be,
    decreases be - pos,
{
    if 0 <= pos < be {
        let nx = next_line_start(s, pos);
        let e = if nx > be {
            be
        } else {
            nx
        };
        if pos < e {
            lemma_last_nonblank_end_bounds(s, e, be);
        }
    }
}

/// Bounds of the region `[bs, be)` after removing leading and trailing
/// blank lines; interior blank lines are kept. An all-blank region trims to
/// an empty one.
pub open spec fn spec_trim(s: Seq<u8>, bs: int, be: int) -> (int, int) {
    let cs = trim_lead(s, bs, be);
    let ce = last_nonblank_end(s, cs, be);
    if ce >= cs {
        (cs, ce)
    } else {
        (cs, cs)
    }
}

/// The whole card: front line, then one or more back lines, trimmed. The
/// raw span is the untrimmed front plus back; the card is rejected when no
/// back line was consumed or the trimmed back is empty.
pub open spec fn spec_parse_flashcard(s: Seq<u8>, pos: int) -> Option<(int, FlashCardV)> {
    match spec_parse_front(s, pos) {
        Some((fe, front, level)) => {
            let be = back_scan(s, fe, level);
            if be > fe {
                let (cs, ce) = spec_trim(s, fe, be);
                if ce > cs {
                    Some(
                        (
                            be,
                            FlashCardV {
                                raw: s.subrange(pos, be),
                                front: front,
                                back: s.subrange(cs, ce),
                            },
                        ),
                    )
                } else {
                    None
                }
            } else {
                None
            }
        },
        None => None,
    }
}

pub proof fn lemma_parse_front_bounds(s: Seq<u8>, pos: int)
    requires
        0 <= pos <= s.len(),
    ensures
        match spec_parse_front(s, pos) {
            Some((fe, front, level)) => pos < fe <= s.len() && 1 <= level <= 6,
            None => true,
        },
{
    lemma_hash_run_end_bounds(s, pos);
}

pub proof fn lemma_parse_flashcard_bounds(s: Seq<u8>, pos: int)
    requires
        0 <= pos <= s.len(),
    ensures
        match spec_parse_flashcard(s, pos) {
            Some((e, _)) => pos < e <= s.len(),
            None => true,
        },
{
    lemma_parse_front_bounds(s, pos);
    match spec_parse_front(s, pos) {
        Some((fe, front, level)) => {
            lemma_back_scan_bounds(s, fe, level);
        },
        None => {},
    }
}

} // verus!

verus! {

fn hash_run_end_x(input: &[u8], pos: usize) -> (r: usize)
    requires
        pos <= input@.len(),
    ensures
        r == hash_run_end(input@, pos as int),
        pos <= r <= input@.len(),
{
    proof {
        lemma_hash_run_end_bounds(input@, pos as int);
    }
    let mut i = pos;
    loop
        invariant
            pos <= i <= input@.len(),
            hash_run_end(input@, pos as int) == hash_run_end(input@, i as int),
        ensures
            i == hash_run_end(input@, pos as int),
        decreases input@.len() - i,
    {
        if i >= input.len() {
            return i;
        }
        if input[i] != '#' as u8 {
            return i;
        }
        i = i + 1;
    }
}

fn is_terminating_header_x(input: &[u8], pos: usize, level: u8) -> (r: bool)
    requires
        pos <= input@.len(),
    ensures
        r == is_terminating_header(input@, pos as int, level as int),
{
    let h = hash_run_end_x(input, pos);
    h > pos && h - pos <= level as usize && h < input.len() && input[h] == ' ' as u8
}

fn line_blank_at_x(input: &[u8], pos: usize) -> (r: bool)
    requires
        pos <= input@.len(),
    ensures
        r == line_blank_at(input@, pos as int),
{
    let sp = crate::text::skip_spaces_x(input, pos);
    let ce = crate::text::line_content_end_x(input, pos);
    sp == ce
}

fn parse_front(input: &[u8], pos: usize) -> (r: Option<(usize, Vec<u8>, u8)>)
    requires
        pos <= input@.len(),
    ensures
        match r {
            Some((fe, front, level)) => pos < fe <= input@.len() && 1 <= level <= 6
                && spec_parse_front(input@, pos as int) == Some(
                (fe as int, front@, level as int),
            ),
            None => spec_parse_front(input@, pos as int) is None,
        },
{
    proof {
        lemma_parse_front_bounds(input@, pos as int);
    }
    let h = hash_run_end_x(input, pos);
    if !(h > pos && h - pos <= 6) {
        return None;
    }
    let sp = crate::text::skip_spaces_x(input, h);
    let q = ['Q' as u8, ':' as u8];
    proof {
        assert(q@ =~= kw_q());
    }
    if !(sp > h && crate::text::has_prefix_x(input, sp, q.as_slice())) {
        return None;
    }
    let n = input.len();
    proof {
        assert(kw_q().len() == 2);
        assert(sp + 2 <= n);
    }
    let v = crate::text::skip_spaces_x(input, sp + 2);
    let ce = crate::text::line_content_end_x(input, v);
    if !(ce > v) {
        return None;
    }
    let fe = crate::text::next_line_start_x(input, v);
    let front = crate::text::copy_range(input, v, ce);
    Some((fe, front, (h - pos) as u8))
}

fn back_scan_x(input: &[u8], pos: usize, level: u8) -> (r: usize)
    requires
        pos <= input@.len(),
    ensures
        r == back_scan(input@, pos as int, level as int),
        pos <= r <= input@.len(),
{
    proof {
        lemma_back_scan_bounds(input@, pos as int, level as int);
    }
    let mut cur = pos;
    loop
        invariant
            pos <= cur <= input@.len(),
            back_scan(input@, pos as int, level as int) == back_scan(
                input@,
                cur as int,
                level as int,
            ),
        ensures
            cur == back_scan(input@, pos as int, level as int),
        decreases input@.len() - cur,
    {
        if cur >= input.len() {
            return cur;
        }
        if is_terminating_header_x(input, cur, level) {
            return cur;
        }
        if crate::parser::flashcard_metadata::parse_flashcard_metadata(input, cur).is_some() {
            return cur;
        }
        let nx = crate::text::next_line_start_x(input, cur);
        proof {
            assert(cur < nx);
        }
        cur = nx;
    }
}

fn trim_lead_x(input: &[u8], bs: usize, be: usize) -> (r: usize)
    requires
        bs <= be <= input@.len(),
    ensures
        r == trim_lead(input@, bs as int, be as int),
        bs <= r <= be,
{
    proof {
        lemma_trim_lead_bounds(input@, bs as int, be as int);
    }
    let mut cur = bs;
    loop
        invariant
            bs <= cur <= be <= input@.len(),
            trim_lead(input@, bs as int, be as int) == trim_lead(input@, cur as int, be as int),
        ensures
            cur == trim_lead(input@, bs as int, be as int),
        decreases be - cur,
    {
        if cur >= be {
            return cur;
        }
        if !line_blank_at_x(input, cur) {
            return cur;
        }
        let nx = crate::text::next_line_start_x(input, cur);
        if !(nx < be) {
            proof {
                assert(trim_lead(input@, cur as int, be as int) == be);
            }
            return be;
        }
        cur = nx;
    }
}

fn last_nonblank_end_x(input: &[u8], pos: usize, be: usize) -> (r: Option<usize>)
    requires
        pos <= be <= input@.len(),
    ensures
        match r {
            Some(e) => pos < e <= be && last_nonblank_end(input@, pos as int, be as int) == e as int,
            None => last_nonblank_end(input@, pos as int, be as int) == -1,
        },
{
    proof {
        lemma_last_nonblank_end_bounds(input@, pos as int, be as int);
    }
    let mut cur = pos;
    let mut best: Option<usize> = None;
    loop
        invariant
            pos <= cur <= be <= input@.len(),
            match best {
                Some(b) => pos < b <= be,
                None => true,
            },
            last_nonblank_end(input@, pos as int, be as int) == {
                let rest = last_nonblank_end(input@, cur as int, be as int);
                if rest >= 0 {
                    rest
                } else {
                    match best {
                        Some(b) => b as int,
                        None => -1,
                    }
                }
            },
        ensures
            cur == be,
            last_nonblank_end(input@, pos as int, be as int) == (match best {
                Some(b) => b as int,
                None => -1,
            }),
        decreases be - cur,
    {
        if cur >= be {
            break;
        }
        let nx = crate::text::next_line_start_x(input, cur);
        let e = if nx > be {
            be
        } else {
            nx
        };
        proof {
            assert(cur < e);
            lemma_last_nonblank_end_bounds(input@, e as int, be as int);
        }
        if !line_blank_at_x(input, cur) {
            best = Some(e);
        }
        cur = e;
    }
    best
}

/// Bounds of `[start, end)` after removing leading and trailing blank
/// lines; interior blank lines are kept.
pub fn trim_blank_lines(input: &[u8], start: usize, end: usize) -> (r: (usize, usize))
    requires
        start <= end <= input@.len(),
    ensures
        (r.0 as int, r.1 as int) == spec_trim(input@, start as int, end as int),
        start <= r.0 <= r.1 <= end,
{
    let cs = trim_lead_x(input, start, end);
    match last_nonblank_end_x(input, cs, end) {
        Some(ce) => (cs, ce),
        None => (cs, cs),
    }
}

/// Parses one flashcard at `pos`. On success the returned position is just
/// past the last consumed back line; the card's raw span is exactly the
/// consumed bytes, its back the trimmed back region.
pub fn parse_flashcard(input: &[u8], pos: usize) -> (r: Option<(usize, FlashCard)>)
    requires
        pos <= input@.len(),
    ensures
        match r {
            Some((e, c)) => pos < e <= input@.len() && spec_parse_flashcard(input@, pos as int)
                == Some((e as int, c@)),
            None => spec_parse_flashcard(input@, pos as int) is None,
        },
{
    match parse_front(input, pos) {
        None => None,
        Some((fe, front, level)) => {
            let be = back_scan_x(input, fe, level);
            if !(be > fe) {
                return None;
            }
            let (cs, ce) = trim_blank_lines(input, fe, be);
            if !(ce > cs) {
                return None;
            }
            let raw = crate::text::copy_range(input, pos, be);
            let back = crate::text::copy_range(input, cs, ce);
            Some((be, FlashCard { raw, front, back }))
        },
    }
}

} // verus!

verus! {

proof fn lemma_back_scan_stop(s: Seq<u8>, pos: int, level: int)
    requires
        0 <= pos <= s.len(),
    ensures
        ({
            let e = back_scan(s, pos, level);
            e == s.len() || is_terminating_header(s, e, level) || spec_parse_flashcard_metadata(
                s,
                e,
            ) is Some
        }),
    decreases s.len() - pos,
{
    if 0 <= pos < s.len() && !is_terminating_header(s, pos, level)
        && spec_parse_flashcard_metadata(s, pos) is None {
        let nx = next_line_start(s, pos);
        if pos < nx <= s.len() {
            lemma_back_scan_stop(s, nx, level);
        }
    }
}

proof fn lemma_back_scan_inside(s: Seq<u8>, pos: int, level: int, p: int)
    requires
        0 <= pos <= s.len(),
        crate::text::is_line_start_in(s, pos, p),
        p < back_scan(s, pos, level),
    ensures
        !is_terminating_header(s, p, level),
        spec_parse_flashcard_metadata(s, p) is None,
    decreases s.len() - pos,
{
    crate::text::lemma_line_start_in_ge(s, pos, p);
    if 0 <= pos < s.len() && !is_terminating_header(s, pos, level)
        && spec_parse_flashcard_metadata(s, pos) is None {
        if p != pos {
            let nx = next_line_start(s, pos);
            lemma_back_scan_inside(s, nx, level, p);
        }
    }
}

/// Header-level termination: a card opened at level `n` consumes back lines
/// until the end of input, a header line of level at most `n`, or a
/// metadata comment; no line consumed into the back is such a header, so
/// deeper headers are retained in the back verbatim.
pub proof fn lemma_header_level_termination(s: Seq<u8>, pos: int, p: int)
    requires
        0 <= pos <= s.len(),
        spec_parse_flashcard(s, pos) is Some,
    ensures
        ({
            let (e, c) = spec_parse_flashcard(s, pos).unwrap();
            let (fe, front, level) = spec_parse_front(s, pos).unwrap();
            &&& (e == s.len() || is_terminating_header(s, e, level)
                || spec_parse_flashcard_metadata(s, e) is Some)
            &&& (crate::text::is_line_start_in(s, fe, p) && p < e ==> !is_terminating_header(
                s,
                p,
                level,
            ))
        }),
{
    lemma_parse_front_bounds(s, pos);
    let (fe, front, level) = spec_parse_front(s, pos).unwrap();
    lemma_back_scan_stop(s, fe, level);
    if crate::text::is_line_start_in(s, fe, p) && p < back_scan(s, fe, level) {
        lemma_back_scan_inside(s, fe, level, p);
    }
}

proof fn lemma_trim_lead_blank(s: Seq<u8>, bs: int, be: int, p: int)
    requires
        0 <= bs <= be <= s.len(),
        crate::text::is_line_start_in(s, bs, p),
        p < trim_lead(s, bs, be),
    ensures
        line_blank_at(s, p),
    decreases be - bs,
{
    crate::text::lemma_line_start_in_ge(s, bs, p);
    if bs < be && line_blank_at(s, bs) {
        if p != bs {
            let nx = next_line_start(s, bs);
            if bs < nx < be {
                lemma_trim_lead_blank(s, nx, be, p);
            } else {
                crate::text::lemma_line_start_in_ge(s, nx, p);
            }
        }
    }
}

proof fn lemma_trim_lead_stop(s: Seq<u8>, bs: int, be: int)
    requires
        0 <= bs <= be <= s.len(),
    ensures
        trim_lead(s, bs, be) < be ==> !line_blank_at(s, trim_lead(s, bs, be)),
    decreases be - bs,
{
    if bs < be && line_blank_at(s, bs) {
        let nx = next_line_start(s, bs);
        if bs < nx < be {
            lemma_trim_lead_stop(s, nx, be);
        }
    }
}

proof fn lemma_trailing_blank(s: Seq<u8>, pos: int, be: int, q: int)
    requires
        0 <= pos <= be <= s.len(),
        crate::text::is_line_start_in(s, pos, q),
        q < be,
        q >= (if last_nonblank_end(s, pos, be) >= 0 {
            last_nonblank_end(s, pos, be)
        } else {
            pos
        }),
    ensures
        line_blank_at(s, q),
    decreases be - pos,
{
    crate::text::lemma_line_start_in_ge(s, pos, q);
    if 0 <= pos < be {
        let nx = next_line_start(s, pos);
        let e = if nx > be {
            be
        } else {
            nx
        };
        if pos < e {
            lemma_last_nonblank_end_bounds(s, e, be);
        }
        if q == pos {
            // at the scan's own line: the position is at or past the last
            // non-blank line's end, so this line must be blank
        } else {
            if nx > be {
                crate::text::lemma_line_start_in_ge(s, nx, q);
            } else {
                crate::text::lemma_line_start_in_ge(s, nx, q);
                lemma_trailing_blank(s, e, be, q);
            }
        }
    }
}

/// Blank trimming symmetry: trimming keeps a contiguous subregion, every
/// whole line dropped at the front or at the back is blank, and the first
/// kept line is not blank; interior blank lines are untouched because the
/// kept region is contiguous.
pub proof fn lemma_blank_trimming_symmetry(s: Seq<u8>, bs: int, be: int, p: int)
    requires
        0 <= bs <= be <= s.len(),
    ensures
        ({
            let (cs, ce) = spec_trim(s, bs, be);
            &&& bs <= cs <= ce <= be
            &&& (crate::text::is_line_start_in(s, bs, p) && p < cs ==> line_blank_at(s, p))
            &&& (cs < ce ==> !line_blank_at(s, cs))
            &&& (crate::text::is_line_start_in(s, cs, p) && ce <= p < be ==> line_blank_at(s, p))
        }),
{
    lemma_trim_lead_bounds(s, bs, be);
    let cs = trim_lead(s, bs, be);
    lemma_last_nonblank_end_bounds(s, cs, be);
    let (cs2, ce) = spec_trim(s, bs, be);
    if crate::text::is_line_start_in(s, bs, p) && p < cs {
        lemma_trim_lead_blank(s, bs, be, p);
    }
    if cs < ce {
        lemma_trim_lead_stop(s, bs, be);
    }
    if crate::text::is_line_start_in(s, cs, p) && ce <= p < be {
        lemma_trailing_blank(s, cs, be, p);
    }
}

} // verus!

verus! {

/// Parses the header's `#` run: one to six hashes. A longer run is not a
/// valid header at all.
pub fn parse_header_hashes(input: &[u8], pos: usize) -> (r: Option<(usize, u8)>)
    requires
        pos <= input@.len(),
    ensures
        ({
            let h = hash_run_end(input@, pos as int);
            match r {
                Some((e, level)) => pos < h <= input@.len() && h - pos <= 6 && e == h && level == h
                    - pos,
                None => h == pos || h - pos > 6,
            }
        }),
{
    let h = hash_run_end_x(input, pos);
    if h > pos && h - pos <= 6 {
        Some((h, (h - pos) as u8))
    } else {
        None
    }
}

} // verus!

verus! {

/// A successfully parsed card's semantic back is never empty: a card whose
/// back trims away entirely is rejected instead.
pub proof fn lemma_parsed_back_nonempty(s: Seq<u8>, pos: int)
    requires
        0 <= pos <= s.len(),
        spec_parse_flashcard(s, pos) is Some,
    ensures
        spec_parse_flashcard(s, pos).unwrap().1.back.len() > 0,
{
    lemma_parse_front_bounds(s, pos);
    let (fe, front, level) = spec_parse_front(s, pos).unwrap();
    lemma_back_scan_bounds(s, fe, level);
    let be = back_scan(s, fe, level);
    lemma_trim_lead_bounds(s, fe, be);
    lemma_last_nonblank_end_bounds(s, trim_lead(s, fe, be), be);
}

} // verus!
