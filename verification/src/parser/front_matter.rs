//! Parser for the delimited front matter block at document start.
//!
//! The block is opened and closed by a line consisting solely of `---`
//! (followed by a line terminator or the end of input); a missing closing
//! line fails the parse. The raw span covers both delimiter lines. The
//! content between the delimiters is then classified: top-level lines other
//! than `anki_sync:` are skipped together with their indented children, and
//! the indented lines under a top-level `anki_sync:` key may carry a
//! `deck: <value>` field and a `tags: <list>` field (flow `[a, b]` or block
//! `- item` form), each optional, in any order, last occurrence winning.
//! With neither field found the front matter is `Raw`; otherwise it is
//! `AnkiSync` with the fields found.

use crate::parser::flashcard_metadata::{
    quote_content_end, spec_parse_list, spec_parse_word_or_quoted,
};
use crate::text::{has_prefix, is_space, line_content_end, next_line_start, skip_spaces,
    term_len_at};
use crate::types::{FrontMatter, FrontMatterV};
use vstd::prelude::*;

verus! {

broadcast use {
    crate::text::lemma_skip_spaces_bounds,
    crate::text::lemma_line_content_end_bounds,
    crate::text::lemma_next_line_start_bounds,
};

pub open spec fn kw_dashes() -> Seq<u8> {
    seq!['-' as u8, '-' as u8, '-' as u8]
}

pub open spec fn kw_anki_sync_key() -> Seq<u8> {
    seq![
        'a' as u8,
        'n' as u8,
        'k' as u8,
        'i' as u8,
        '_' as u8,
        's' as u8,
        'y' as u8,
        'n' as u8,
        'c' as u8,
        ':' as u8,
    ]
}

pub open spec fn kw_deck_key() -> Seq<u8> {
    seq!['d' as u8, 'e' as u8, 'c' as u8, 'k' as u8, ':' as u8]
}

pub open spec fn kw_tags_key() -> Seq<u8> {
    seq!['t' as u8, 'a' as u8, 'g' as u8, 's' as u8, ':' as u8]
}

/// A line at `pos` consisting solely of `---`, ended by a line terminator
/// or the end of input.
pub open spec fn is_delim_line(s: Seq<u8>, pos: int) -> bool {
    has_prefix(s, pos, kw_dashes()) && (pos + 3 == s.len() || term_len_at(s, pos + 3) > 0)
}

/// Position of the first line start at or after `pos` that is a `---`
/// delimiter line; `None` when no such line exists.
pub open spec fn find_close(s: Seq<u8>, pos: int) -> Option<int>
    decreases s.len() - pos,
{
    if 0 <= pos < s.len() {
        if is_delim_line(s, pos) {
            Some(pos)
        } else {
            let nx = next_line_start(s, pos);
            if pos < nx <= s.len() {
                find_close(s, nx)
            } else {
                None
            }
        }
    } else {
        None
    }
}

pub proof fn lemma_find_close_bounds(s: Seq<u8>, pos: int)
    requires
        0 <= pos <= s.len(),
    ensures
        match find_close(s, pos) {
            Some(c) => pos <= c < s.len() && is_delim_line(s, c),
            None => true,
        },
    decreases s.len() - pos,
{
    if 0 <= pos < s.len() && !is_delim_line(s, pos) {
        let nx = next_line_start(s, pos);
        if pos < nx <= s.len() {
            lemma_find_close_bounds(s, nx);
        }
    }
}

/// Skips the run of indented (space- or tab-led) lines starting at `p`,
/// staying within `[p, ie)`.
pub open spec fn skip_children(s: Seq<u8>, p: int, ie: int) -> int
    decreases ie - p,
{
    if 0 <= p < ie <= s.len() && is_space(s[p]) {
        let nx = next_line_start(s, p);
        if p < nx <= ie {
            skip_children(s, nx, ie)
        } else {
            p
        }
    } else {
        p
    }
}

pub proof fn lemma_skip_children_bounds(s: Seq<u8>, p: int, ie: int)
    requires
        0 <= p <= ie <= s.len(),
    ensures
        p <= skip_children(s, p, ie) <= ie,
    decreases ie - p,
{
    if p < ie && is_space(s[p]) {
        let nx = next_line_start(s, p);
        if p < nx <= ie {
            lemma_skip_children_bounds(s, nx, ie);
        }
    }
}

/// Skips top-level content lines before a possible `anki_sync:` key: blank
/// lines and non-indented lines other than `anki_sync:`, each together with
/// its indented children. Stops at an `anki_sync:` line, an indented line,
/// or the end of the region.
pub open spec fn skip_misc(s: Seq<u8>, p: int, ie: int) -> int
    decreases ie - p,
{
    if 0 <= p < ie <= s.len() && !has_prefix(s, p, kw_anki_sync_key()) && !is_space(s[p]) {
        let nx0 = next_line_start(s, p);
        let nx0c = if nx0 > ie {
            ie
        } else {
            nx0
        };
        let nx = skip_children(s, nx0c, ie);
        if p < nx <= ie {
            skip_misc(s, nx, ie)
        } else {
            p
        }
    } else {
        p
    }
}

pub proof fn lemma_skip_misc_bounds(s: Seq<u8>, p: int, ie: int)
    requires
        0 <= p <= ie <= s.len(),
    ensures
        p <= skip_misc(s, p, ie) <= ie,
    decreases ie - p,
{
    if p < ie && !has_prefix(s, p, kw_anki_sync_key()) && !is_space(s[p]) {
        let nx0 = next_line_start(s, p);
        let nx0c = if nx0 > ie {
            ie
        } else {
            nx0
        };
        lemma_skip_children_bounds(s, nx0c, ie);
        let nx = skip_children(s, nx0c, ie);
        if p < nx <= ie {
            lemma_skip_misc_bounds(s, nx, ie);
        }
    }
}

/// Position after dropping trailing horizontal whitespace from `[v, ce)`.
pub open spec fn rtrim_spaces(s: Seq<u8>, v: int, ce: int) -> int
    decreases ce - v,
{
    if v < ce <= s.len() && 0 <= v && is_space(s[ce - 1]) {
        rtrim_spaces(s, v, ce - 1)
    } else {
        ce
    }
}

pub proof fn lemma_rtrim_spaces_bounds(s: Seq<u8>, v: int, ce: int)
    requires
        0 <= v <= ce <= s.len(),
    ensures
        v <= rtrim_spaces(s, v, ce) <= ce,
    decreases ce - v,
{
    if v < ce && is_space(s[ce - 1]) {
        lemma_rtrim_spaces_bounds(s, v, ce - 1);
    }
}

/// The deck value on the rest of the line at `v`: the line content with
/// trailing whitespace dropped, required non-empty; when it is entirely one
/// double-quoted string the quotes are stripped.
pub open spec fn deck_value(s: Seq<u8>, v: int) -> Option<(int, Seq<u8>)> {
    let ce = line_content_end(s, v);
    let w = rtrim_spaces(s, v, ce);
    if w > v {
        let val = if w - v >= 2 && s[v] == '"' as u8 && quote_content_end(s, v + 1) == w - 1 && s[w
            - 1] == '"' as u8 {
            s.subrange(v + 1, w - 1)
        } else {
            s.subrange(v, w)
        };
        Some((next_line_start(s, v), val))
    } else {
        None
    }
}

/// One `- item` line of a block-form tag list: indentation, a dash, at
/// least one space, a word or quoted string, optional spaces, and the line
/// terminator (or end of input).
pub open spec fn spec_block_item(s: Seq<u8>, p: int) -> Option<(int, Seq<u8>)> {
    let sp = skip_spaces(s, p);
    if sp > p && sp < s.len() && s[sp] == '-' as u8 {
        let isp = skip_spaces(s, sp + 1);
        if isp > sp + 1 {
            match spec_parse_word_or_quoted(s, isp) {
                Some((ip, v)) => {
                    let q = skip_spaces(s, ip);
                    if q == s.len() || term_len_at(s, q) > 0 {
                        Some((q + term_len_at(s, q), v))
                    } else {
                        None
                    }
                },
                None => None,
            }
        } else {
            None
        }
    } else {
        None
    }
}

/// Block items after the first one.
pub open spec fn spec_block_items_cont(s: Seq<u8>, p: int, acc: Seq<Seq<u8>>) -> (int, Seq<
    Seq<u8>,
>)
    decreases s.len() - p,
{
    if 0 <= p <= s.len() {
        match spec_block_item(s, p) {
            Some((p2, v)) => if p < p2 <= s.len() {
                spec_block_items_cont(s, p2, acc.push(v))
            } else {
                (p, acc)
            },
            None => (p, acc),
        }
    } else {
        (p, acc)
    }
}

pub proof fn lemma_block_items_cont_bounds(s: Seq<u8>, p: int, acc: Seq<Seq<u8>>)
    requires
        0 <= p <= s.len(),
    ensures
        p <= spec_block_items_cont(s, p, acc).0 <= s.len(),
    decreases s.len() - p,
{
    match spec_block_item(s, p) {
        Some((p2, v)) => {
            if p < p2 <= s.len() {
                lemma_block_items_cont_bounds(s, p2, acc.push(v));
            }
        },
        None => {},
    }
}

/// The value of a `tags:` field: either the block form (line end, then one
/// or more `- item` lines) or the flow form (`[a, b]`, then optional spaces
/// and the line terminator or end of input). The block form is tried first.
pub open spec fn tags_value(s: Seq<u8>, t0: int) -> Option<(int, Seq<Seq<u8>>)> {
    if t0 == s.len() || term_len_at(s, t0) > 0 {
        let b0 = t0 + term_len_at(s, t0);
        match spec_block_item(s, b0) {
            Some((p1, v)) => Some(spec_block_items_cont(s, p1, seq![v])),
            None => None,
        }
    } else {
        match spec_parse_list(s, t0) {
            Some((le, items)) => {
                let q = skip_spaces(s, le);
                if q == s.len() || term_len_at(s, q) > 0 {
                    Some((q + term_len_at(s, q), items))
                } else {
                    None
                }
            },
            None => None,
        }
    }
}

pub enum FmFieldV {
    Deck(Seq<u8>),
    Tags(Seq<Seq<u8>>),
}

/// One indented field line under `anki_sync:`: `deck: <rest of line>` or
/// `tags: <list>`, with at least one space of indentation.
pub open spec fn spec_fm_field(s: Seq<u8>, p: int, ie: int) -> Option<(int, FmFieldV)> {
    if 0 <= p < ie {
        let sp = skip_spaces(s, p);
        if sp > p {
            if has_prefix(s, sp, kw_deck_key()) {
                let v = skip_spaces(s, sp + 5);
                match deck_value(s, v) {
                    Some((e, val)) => Some((e, FmFieldV::Deck(val))),
                    None => None,
                }
            } else if has_prefix(s, sp, kw_tags_key()) {
                let t0 = skip_spaces(s, sp + 5);
                match tags_value(s, t0) {
                    Some((e, items)) => Some((e, FmFieldV::Tags(items))),
                    None => None,
                }
            } else {
                None
            }
        } else {
            None
        }
    } else {
        None
    }
}

/// Folds `deck`/`tags` fields from `p` on, last occurrence winning, until
/// no further field line parses.
pub open spec fn spec_fm_fields(s: Seq<u8>, p: int, ie: int, deck: Option<Seq<u8>>, tags: Seq<
    Seq<u8>,
>) -> (Option<Seq<u8>>, Seq<Seq<u8>>)
    decreases s.len() - p,
{
    if 0 <= p <= s.len() {
        match spec_fm_field(s, p, ie) {
            Some((p2, f)) => if p < p2 <= s.len() {
                match f {
                    FmFieldV::Deck(d) => spec_fm_fields(s, p2, ie, Some(d), tags),
                    FmFieldV::Tags(t) => spec_fm_fields(s, p2, ie, deck, t),
                }
            } else {
                (deck, tags)
            },
            None => (deck, tags),
        }
    } else {
        (deck, tags)
    }
}

/// Classifies the content between the delimiters: the deck and tags found
/// under a top-level `anki_sync:` key, if any.
pub open spec fn spec_classify(s: Seq<u8>, is_0: int, ie: int) -> (Option<Seq<u8>>, Seq<Seq<u8>>) {
    let p = skip_misc(s, is_0, ie);
    if p < ie && has_prefix(s, p, kw_anki_sync_key()) {
        let q = skip_spaces(s, p + 10);
        if term_len_at(s, q) > 0 {
            let f0 = q + term_len_at(s, q);
            spec_fm_fields(s, f0, ie, None, Seq::empty())
        } else {
            (None, Seq::empty())
        }
    } else {
        (None, Seq::empty())
    }
}

/// The whole front matter at `pos`: an opening `---` line, content, a
/// closing `---` line with its terminator when present. `None` when `pos`
/// does not open a front matter block or no closing line exists. The raw
/// span covers both delimiters; the classification decides the variant.
pub open spec fn spec_parse_front_matter(s: Seq<u8>, pos: int) -> Option<(int, FrontMatterV)> {
    if is_delim_line(s, pos) {
        let cstart = pos + 3 + term_len_at(s, pos + 3);
        match find_close(s, cstart) {
            Some(close) => {
                let rend = close + 3 + term_len_at(s, close + 3);
                let (deck, tags) = spec_classify(s, cstart, close);
                let raw = s.subrange(pos, rend);
                if deck is Some || tags.len() > 0 {
                    Some((rend, FrontMatterV::AnkiSync { raw, deck, tags }))
                } else {
                    Some((rend, FrontMatterV::Raw { raw }))
                }
            },
            None => None,
        }
    } else {
        None
    }
}

pub proof fn lemma_parse_front_matter_bounds(s: Seq<u8>, pos: int)
    requires
        0 <= pos <= s.len(),
    ensures
        match spec_parse_front_matter(s, pos) {
            Some((e, _)) => pos < e <= s.len(),
            None => true,
        },
{
    if is_delim_line(s, pos) {
        let cstart = pos + 3 + term_len_at(s, pos + 3);
        lemma_find_close_bounds(s, cstart);
        assert(kw_dashes().len() == 3);
        match find_close(s, cstart) {
            Some(close) => {
                assert(close + 3 <= s.len());
                assert(close + 3 + term_len_at(s, close + 3) <= s.len());
            },
            None => {},
        }
    }
}

} // verus!

verus! {

fn arr_dashes() -> (r: [u8; 3])
    ensures
        r@ == kw_dashes(),
{
    let a = ['-' as u8, '-' as u8, '-' as u8];
    proof {
        assert(a@ =~= kw_dashes());
    }
    a
}

fn arr_anki_sync_key() -> (r: [u8; 10])
    ensures
        r@ == kw_anki_sync_key(),
{
    let a = [
        'a' as u8,
        'n' as u8,
        'k' as u8,
        'i' as u8,
        '_' as u8,
        's' as u8,
        'y' as u8,
        'n' as u8,
        'c' as u8,
        ':' as u8,
    ];
    proof {
        assert(a@ =~= kw_anki_sync_key());
    }
    a
}

fn arr_deck_key() -> (r: [u8; 5])
    ensures
        r@ == kw_deck_key(),
{
    let a = ['d' as u8, 'e' as u8, 'c' as u8, 'k' as u8, ':' as u8];
    proof {
        assert(a@ =~= kw_deck_key());
    }
    a
}

fn arr_tags_key() -> (r: [u8; 5])
    ensures
        r@ == kw_tags_key(),
{
    let a = ['t' as u8, 'a' as u8, 'g' as u8, 's' as u8, ':' as u8];
    proof {
        assert(a@ =~= kw_tags_key());
    }
    a
}

pub(crate) fn is_delim_line_x(input: &[u8], pos: usize) -> (r: bool)
    requires
        pos <= input@.len(),
    ensures
        r == is_delim_line(input@, pos as int),
{
    let n = input.len();
    let d = arr_dashes();
    if !crate::text::has_prefix_x(input, pos, d.as_slice()) {
        return false;
    }
    proof {
        assert(kw_dashes().len() == 3);
        assert(pos + 3 <= n);
    }
    if pos + 3 == input.len() {
        return true;
    }
    let t = crate::text::term_len_x(input, pos + 3);
    t > 0
}

fn find_close_x(input: &[u8], pos: usize) -> (r: Option<usize>)
    requires
        pos <= input@.len(),
    ensures
        match r {
            Some(c) => pos <= c < input@.len() && find_close(input@, pos as int) == Some(c as int),
            None => find_close(input@, pos as int) is None,
        },
{
    proof {
        lemma_find_close_bounds(input@, pos as int);
    }
    let mut cur = pos;
    loop
        invariant
            pos <= cur <= input@.len(),
            find_close(input@, pos as int) == find_close(input@, cur as int),
        ensures
            find_close(input@, pos as int) == find_close(input@, cur as int),
            cur == input@.len() || is_delim_line(input@, cur as int),
            cur < input@.len() || find_close(input@, cur as int) is None,
        decreases input@.len() - cur,
    {
        if cur >= input.len() {
            break;
        }
        if is_delim_line_x(input, cur) {
            proof {
                assert(find_close(input@, cur as int) == Some(cur as int));
            }
            break;
        }
        let nx = crate::text::next_line_start_x(input, cur);
        proof {
            assert(cur < nx);
        }
        cur = nx;
    }
    if cur < input.len() {
        proof {
            assert(find_close(input@, cur as int) == Some(cur as int));
        }
        Some(cur)
    } else {
        None
    }
}

fn skip_children_x(input: &[u8], p: usize, ie: usize) -> (r: usize)
    requires
        p <= ie <= input@.len(),
    ensures
        r == skip_children(input@, p as int, ie as int),
        p <= r <= ie,
{
    proof {
        lemma_skip_children_bounds(input@, p as int, ie as int);
    }
    let mut cur = p;
    loop
        invariant
            p <= cur <= ie <= input@.len(),
            skip_children(input@, p as int, ie as int) == skip_children(
                input@,
                cur as int,
                ie as int,
            ),
        ensures
            cur == skip_children(input@, p as int, ie as int),
        decreases ie - cur,
    {
        if cur >= ie {
            return cur;
        }
        let b = input[cur];
        if !(b == ' ' as u8 || b == '\t' as u8) {
            return cur;
        }
        let nx = crate::text::next_line_start_x(input, cur);
        if !(nx <= ie) {
            proof {
                assert(skip_children(input@, cur as int, ie as int) == cur);
            }
            return cur;
        }
        proof {
            assert(cur < nx);
        }
        cur = nx;
    }
}

fn skip_misc_x(input: &[u8], p: usize, ie: usize) -> (r: usize)
    requires
        p <= ie <= input@.len(),
    ensures
        r == skip_misc(input@, p as int, ie as int),
        p <= r <= ie,
{
    proof {
        lemma_skip_misc_bounds(input@, p as int, ie as int);
    }
    let key = arr_anki_sync_key();
    let mut cur = p;
    loop
        invariant
            p <= cur <= ie <= input@.len(),
            key@ == kw_anki_sync_key(),
            skip_misc(input@, p as int, ie as int) == skip_misc(input@, cur as int, ie as int),
        ensures
            cur == skip_misc(input@, p as int, ie as int),
        decreases ie - cur,
    {
        if cur >= ie {
            return cur;
        }
        if crate::text::has_prefix_x(input, cur, key.as_slice()) {
            return cur;
        }
        let b = input[cur];
        if b == ' ' as u8 || b == '\t' as u8 {
            return cur;
        }
        let nx0 = crate::text::next_line_start_x(input, cur);
        let nx0c = if nx0 > ie {
            ie
        } else {
            nx0
        };
        let nx = skip_children_x(input, nx0c, ie);
        proof {
            assert(cur < nx);
        }
        cur = nx;
    }
}

fn rtrim_spaces_x(input: &[u8], v: usize, ce: usize) -> (r: usize)
    requires
        v <= ce <= input@.len(),
    ensures
        r == rtrim_spaces(input@, v as int, ce as int),
        v <= r <= ce,
{
    proof {
        lemma_rtrim_spaces_bounds(input@, v as int, ce as int);
    }
    let mut j = ce;
    loop
        invariant
            v <= j <= ce <= input@.len(),
            rtrim_spaces(input@, v as int, ce as int) == rtrim_spaces(input@, v as int, j as int),
        ensures
            j == rtrim_spaces(input@, v as int, ce as int),
        decreases j,
    {
        if j <= v {
            return j;
        }
        let b = input[j - 1];
        if !(b == ' ' as u8 || b == '\t' as u8) {
            return j;
        }
        j = j - 1;
    }
}

fn deck_value_x(input: &[u8], v: usize) -> (r: Option<(usize, Vec<u8>)>)
    requires
        v <= input@.len(),
    ensures
        match r {
            Some((e, val)) => v < e <= input@.len() && deck_value(input@, v as int) == Some(
                (e as int, val@),
            ),
            None => deck_value(input@, v as int) is None,
        },
{
    let ce = crate::text::line_content_end_x(input, v);
    let w = rtrim_spaces_x(input, v, ce);
    if !(w > v) {
        return None;
    }
    let e = crate::text::next_line_start_x(input, v);
    if w - v >= 2 && input[v] == '"' as u8 {
        let qe = crate::parser::flashcard_metadata::quote_content_end_x(input, v + 1);
        if qe == w - 1 && input[w - 1] == '"' as u8 {
            let val = crate::text::copy_range(input, v + 1, w - 1);
            return Some((e, val));
        }
    }
    let val = crate::text::copy_range(input, v, w);
    Some((e, val))
}

fn block_item_x(input: &[u8], p: usize) -> (r: Option<(usize, Vec<u8>)>)
    requires
        p <= input@.len(),
    ensures
        match r {
            Some((e, v)) => p < e <= input@.len() && spec_block_item(input@, p as int) == Some(
                (e as int, v@),
            ),
            None => spec_block_item(input@, p as int) is None,
        },
{
    let n = input.len();
    let sp = crate::text::skip_spaces_x(input, p);
    if !(sp > p && sp < n && input[sp] == '-' as u8) {
        return None;
    }
    let isp = crate::text::skip_spaces_x(input, sp + 1);
    if !(isp > sp + 1) {
        return None;
    }
    match crate::parser::flashcard_metadata::parse_word_or_quoted_string(input, isp) {
        Some((ip, v)) => {
            let q = crate::text::skip_spaces_x(input, ip);
            let t = crate::text::term_len_x(input, q);
            if q == n || t > 0 {
                proof {
                    assert(q as int + t as int <= n as int);
                }
                Some((q + t, v))
            } else {
                None
            }
        },
        None => None,
    }
}

fn tags_value_x(input: &[u8], t0: usize) -> (r: Option<(usize, Vec<Vec<u8>>)>)
    requires
        t0 <= input@.len(),
    ensures
        match r {
            Some((e, items)) => t0 < e <= input@.len() && tags_value(input@, t0 as int) == Some(
                (e as int, items.deep_view()),
            ),
            None => tags_value(input@, t0 as int) is None,
        },
{
    let ghost s = input@;
    let n = input.len();
    let t = crate::text::term_len_x(input, t0);
    if t0 == n || t > 0 {
        proof {
            assert(t0 as int + t as int <= n as int);
        }
        let b0 = t0 + t;
        match block_item_x(input, b0) {
            Some((p1, v1)) => {
                let ghost v1v = v1@;
                let mut items: Vec<Vec<u8>> = Vec::new();
                items.push(v1);
                let mut cur = p1;
                proof {
                    assert(v1.deep_view() =~= v1v);
                    assert(items.deep_view() =~= seq![v1v]);
                    lemma_block_items_cont_bounds(s, p1 as int, items.deep_view());
                }
                loop
                    invariant
                        s == input@,
                        0 <= cur <= s.len(),
                        spec_block_items_cont(s, p1 as int, seq![spec_block_item(
                            s,
                            b0 as int,
                        ).unwrap().1]) == spec_block_items_cont(s, cur as int, items.deep_view()),
                    ensures
                        0 <= cur <= s.len(),
                        spec_block_items_cont(s, p1 as int, seq![spec_block_item(
                            s,
                            b0 as int,
                        ).unwrap().1]) == (cur as int, items.deep_view()),
                    decreases s.len() - cur,
                {
                    let ghost items0 = items.deep_view();
                    match block_item_x(input, cur) {
                        Some((p2, v2)) => {
                            let ghost v2v = v2@;
                            proof {
                                assert(spec_block_items_cont(s, cur as int, items0)
                                    == spec_block_items_cont(s, p2 as int, items0.push(v2v)));
                                assert(v2.deep_view() =~= v2v);
                            }
                            items.push(v2);
                            proof {
                                assert(items.deep_view() =~= items0.push(v2v));
                            }
                            cur = p2;
                        },
                        None => {
                            proof {
                                assert(spec_block_items_cont(s, cur as int, items0) == (
                                    cur as int,
                                    items0,
                                ));
                            }
                            break;
                        },
                    }
                }
                Some((cur, items))
            },
            None => None,
        }
    } else {
        match crate::parser::flashcard_metadata::parse_list(input, t0) {
            Some((le, items)) => {
                let q = crate::text::skip_spaces_x(input, le);
                let tq = crate::text::term_len_x(input, q);
                if q == n || tq > 0 {
                    proof {
                        assert(q as int + tq as int <= n as int);
                    }
                    Some((q + tq, items))
                } else {
                    None
                }
            },
            None => None,
        }
    }
}

/// One recognized field line under `anki_sync:`.
pub enum FmField {
    Deck(Vec<u8>),
    Tags(Vec<Vec<u8>>),
}

impl View for FmField {
    type V = FmFieldV;

    open spec fn view(&self) -> FmFieldV {
        match self {
            FmField::Deck(v) => FmFieldV::Deck(v@),
            FmField::Tags(v) => FmFieldV::Tags(v.deep_view()),
        }
    }
}

fn fm_field_x(input: &[u8], p: usize, ie: usize) -> (r: Option<(usize, FmField)>)
    requires
        p <= input@.len(),
        ie <= input@.len(),
    ensures
        match r {
            Some((e, f)) => p < e <= input@.len() && spec_fm_field(input@, p as int, ie as int)
                == Some((e as int, f@)),
            None => spec_fm_field(input@, p as int, ie as int) is None,
        },
{
    let n = input.len();
    if p >= ie {
        return None;
    }
    let sp = crate::text::skip_spaces_x(input, p);
    if !(sp > p) {
        return None;
    }
    let dk = arr_deck_key();
    if crate::text::has_prefix_x(input, sp, dk.as_slice()) {
        proof {
            assert(kw_deck_key().len() == 5);
            assert(sp + 5 <= n);
        }
        let v = crate::text::skip_spaces_x(input, sp + 5);
        match deck_value_x(input, v) {
            Some((e, val)) => {
                return Some((e, FmField::Deck(val)));
            },
            None => {
                return None;
            },
        }
    }
    let tk = arr_tags_key();
    if crate::text::has_prefix_x(input, sp, tk.as_slice()) {
        proof {
            assert(kw_tags_key().len() == 5);
            assert(sp + 5 <= n);
        }
        let t0 = crate::text::skip_spaces_x(input, sp + 5);
        match tags_value_x(input, t0) {
            Some((e, items)) => {
                return Some((e, FmField::Tags(items)));
            },
            None => {
                return None;
            },
        }
    }
    None
}

/// Parses front matter at `pos`: both `---` delimiter lines and the content
/// between them, classified as `Raw` or `AnkiSync`.
pub fn parse_front_matter(input: &[u8], pos: usize) -> (r: Option<(usize, FrontMatter)>)
    requires
        pos <= input@.len(),
    ensures
        match r {
            Some((e, fm)) => pos < e <= input@.len() && spec_parse_front_matter(input@, pos as int)
                == Some((e as int, fm@)),
            None => spec_parse_front_matter(input@, pos as int) is None,
        },
{
    let ghost s = input@;
    let n = input.len();
    if !is_delim_line_x(input, pos) {
        return None;
    }
    proof {
        assert(kw_dashes().len() == 3);
        assert(pos + 3 <= n);
    }
    let t0 = crate::text::term_len_x(input, pos + 3);
    proof {
        assert(pos as int + 3 + t0 as int <= n as int);
    }
    let cstart = pos + 3 + t0;
    match find_close_x(input, cstart) {
        None => None,
        Some(close) => {
            proof {
                lemma_find_close_bounds(s, cstart as int);
                assert(is_delim_line(s, close as int));
                assert(close + 3 <= n);
            }
            let tc = crate::text::term_len_x(input, close + 3);
            proof {
                assert(close as int + 3 + tc as int <= n as int);
            }
            let rend = close + 3 + tc;
            // classification of the inner region
            let p = skip_misc_x(input, cstart, close);
            let key = arr_anki_sync_key();
            let mut deck: Option<Vec<u8>> = None;
            let mut tags: Vec<Vec<u8>> = Vec::new();
            if p < close && crate::text::has_prefix_x(input, p, key.as_slice()) {
                proof {
                    assert(kw_anki_sync_key().len() == 10);
                    assert(p + 10 <= n);
                }
                let q = crate::text::skip_spaces_x(input, p + 10);
                let tq = crate::text::term_len_x(input, q);
                if tq > 0 {
                    proof {
                        assert(q as int + tq as int <= n as int);
                    }
                    let f0 = q + tq;
                    let mut cur = f0;
                    proof {
                        assert(tags.deep_view() =~= Seq::<Seq<u8>>::empty());
                    }
                    loop
                        invariant
                            s == input@,
                            0 <= cur <= s.len(),
                            close <= s.len(),
                            key@ == kw_anki_sync_key(),
                            spec_fm_fields(s, f0 as int, close as int, None, Seq::empty())
                                == spec_fm_fields(s, cur as int, close as int,
                                crate::parser::flashcard_metadata::opt_bytes_view(deck),
                                tags.deep_view()),
                        ensures
                            spec_fm_fields(s, f0 as int, close as int, None, Seq::empty()) == (
                            crate::parser::flashcard_metadata::opt_bytes_view(deck),
                            tags.deep_view()),
                        decreases s.len() - cur,
                    {
                        let ghost deck0 = crate::parser::flashcard_metadata::opt_bytes_view(deck);
                        let ghost tags0 = tags.deep_view();
                        match fm_field_x(input, cur, close) {
                            Some((p2, f)) => {
                                proof {
                                    assert(spec_fm_fields(s, cur as int, close as int, deck0, tags0)
                                        == (match f@ {
                                        FmFieldV::Deck(d) => spec_fm_fields(
                                            s,
                                            p2 as int,
                                            close as int,
                                            Some(d),
                                            tags0,
                                        ),
                                        FmFieldV::Tags(t) => spec_fm_fields(
                                            s,
                                            p2 as int,
                                            close as int,
                                            deck0,
                                            t,
                                        ),
                                    }));
                                }
                                match f {
                                    FmField::Deck(d) => {
                                        deck = Some(d);
                                    },
                                    FmField::Tags(t) => {
                                        let ghost tv = t.deep_view();
                                        tags = t;
                                        proof {
                                            assert(tags.deep_view() =~= tv);
                                        }
                                    },
                                }
                                cur = p2;
                            },
                            None => {
                                proof {
                                    assert(spec_fm_fields(s, cur as int, close as int, deck0, tags0)
                                        == (deck0, tags0));
                                }
                                break;
                            },
                        }
                    }
                }
            }
            let raw = crate::text::copy_range(input, pos, rend);
            let has_deck = deck.is_some();
            if has_deck || tags.len() > 0 {
                proof {
                    assert(tags.len() > 0 ==> tags.deep_view().len() > 0);
                }
                Some((rend, FrontMatter::AnkiSync { raw, deck, tags }))
            } else {
                proof {
                    assert(tags.deep_view().len() == 0);
                }
                Some((rend, FrontMatter::Raw { raw }))
            }
        },
    }
}

} // verus!
