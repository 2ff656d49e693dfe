//! Recognizer for runs of whitespace-only lines.

use crate::text::{
    copy_range, lemma_skip_spaces_bounds, skip_spaces, skip_spaces_x, term_len_at, term_len_x,
};
use crate::types::{BlankLine, BlankLineV};
use vstd::prelude::*;

verus! {

/// End of the single blank line starting at `pos`: a run of horizontal
/// whitespace followed by a line terminator. `None` if the line at `pos`
/// has any other content or is unterminated.
pub open spec fn blank_line_end(s: Seq<u8>, pos: int) -> Option<int> {
    let p = skip_spaces(s, pos);
    let t = term_len_at(s, p);
    if t > 0 {
        Some(p + t)
    } else {
        None
    }
}

/// End of the maximal run of blank lines starting at `pos` (equal to `pos`
/// when the first line is not blank).
pub open spec fn blank_run_end(s: Seq<u8>, pos: int) -> int
    decreases s.len() - pos,
{
    if 0 <= pos <= s.len() {
        match blank_line_end(s, pos) {
            Some(e) => if pos < e <= s.len() {
                blank_run_end(s, e)
            } else {
                pos
            },
            None => pos,
        }
    } else {
        pos
    }
}

/// Greedily consumes one or more consecutive whitespace-only lines; fails if
/// the very first line is not blank. The captured span is the exact text.
pub open spec fn spec_parse_blank_line(s: Seq<u8>, pos: int) -> Option<(int, BlankLineV)> {
    let e = blank_run_end(s, pos);
    if e > pos {
        Some((e, BlankLineV { raw: s.subrange(pos, e) }))
    } else {
        None
    }
}

pub broadcast proof fn lemma_blank_run_end_bounds(s: Seq<u8>, pos: int)
    requires
        0 <= pos <= s.len(),
    ensures
        pos <= #[trigger] blank_run_end(s, pos) <= s.len(),
    decreases s.len() - pos,
{
    lemma_skip_spaces_bounds(s, pos);
    match blank_line_end(s, pos) {
        Some(e) => {
            if pos < e <= s.len() {
                lemma_blank_run_end_bounds(s, e);
            }
        },
        None => {},
    }
}

/// Parses a run of one or more blank lines at `pos`, returning the position
/// after the run and the run's exact bytes.
pub fn parse_blank_line(input: &[u8], pos: usize) -> (r: Option<(usize, BlankLine)>)
    requires
        pos <= input@.len(),
    ensures
        match r {
            Some((e, bl)) => pos < e <= input@.len() && spec_parse_blank_line(input@, pos as int)
                == Some((e as int, bl@)),
            None => spec_parse_blank_line(input@, pos as int) is None,
        },
{
    proof {
        lemma_blank_run_end_bounds(input@, pos as int);
    }
    let n = input.len();
    let mut cur = pos;
    loop
        invariant
            n == input@.len(),
            pos <= cur <= input@.len(),
            blank_run_end(input@, pos as int) == blank_run_end(input@, cur as int),
        ensures
            cur == blank_run_end(input@, pos as int),
        decreases input@.len() - cur,
    {
        let p = skip_spaces_x(input, cur);
        let t = term_len_x(input, p);
        if t == 0 {
            proof {
                assert(blank_run_end(input@, cur as int) == cur);
            }
            break;
        }
        proof {
            lemma_skip_spaces_bounds(input@, cur as int);
            assert(p as int + t as int <= n as int);
            lemma_blank_run_end_bounds(input@, p + t);
        }
        cur = p + t;
    }
    if cur > pos {
        let raw = copy_range(input, pos, cur);
        Some((cur, BlankLine { raw }))
    } else {
        None
    }
}

} // verus!
