//! Parser for `<!-- key: value, ... -->` metadata comments.
//!
//! Recognized keys are `anki_id` (decimal u64), `anki_sync` (`true` or
//! `false`), `anki_deck` (bare alphanumeric word or double-quoted string)
//! and `anki_tags` (non-empty bracketed list of words or quoted strings).
//! Keys may appear in any order; at least one must be present; on a repeat
//! the last occurrence wins. After the closing `-->` the rest of that line
//! and its terminator (or the end of input) are consumed into the raw span.

use crate::text::{
    copy_range, has_prefix, has_prefix_x, is_alnum, is_digit, lemma_skip_spaces_bounds,
    next_line_start, next_line_start_x, skip_spaces, skip_spaces_x, LF,
};
use crate::types::{FlashCardMetaData, FlashCardMetaDataV};
use vstd::prelude::*;

verus! {

pub open spec fn kw_anki_id() -> Seq<u8> {
    seq!['a' as u8, 'n' as u8, 'k' as u8, 'i' as u8, '_' as u8, 'i' as u8, 'd' as u8]
}

pub open spec fn kw_anki_sync() -> Seq<u8> {
    seq![
        'a' as u8,
        'n' as u8,
        'k' as u8,
        'i' as u8,
        '_' as u8,
        's' as u8,
        'y' as u8,
        'n' as u8,
        'c' as u8,
    ]
}

pub open spec fn kw_anki_deck() -> Seq<u8> {
    seq![
        'a' as u8,
        'n' as u8,
        'k' as u8,
        'i' as u8,
        '_' as u8,
        'd' as u8,
        'e' as u8,
        'c' as u8,
        'k' as u8,
    ]
}

pub open spec fn kw_anki_tags() -> Seq<u8> {
    seq![
        'a' as u8,
        'n' as u8,
        'k' as u8,
        'i' as u8,
        '_' as u8,
        't' as u8,
        'a' as u8,
        'g' as u8,
        's' as u8,
    ]
}

pub open spec fn kw_true() -> Seq<u8> {
    seq!['t' as u8, 'r' as u8, 'u' as u8, 'e' as u8]
}

pub open spec fn kw_false() -> Seq<u8> {
    seq!['f' as u8, 'a' as u8, 'l' as u8, 's' as u8, 'e' as u8]
}

pub open spec fn kw_comment_open() -> Seq<u8> {
    seq!['<' as u8, '!' as u8, '-' as u8, '-' as u8]
}

pub open spec fn kw_comment_close() -> Seq<u8> {
    seq!['-' as u8, '-' as u8, '>' as u8]
}

/// End of the maximal run of decimal digits starting at `pos`.
pub open spec fn digit_run_end(s: Seq<u8>, pos: int) -> int
    decreases s.len() - pos,
{
    if 0 <= pos < s.len() && is_digit(s[pos]) {
        digit_run_end(s, pos + 1)
    } else {
        pos
    }
}

/// End of the maximal run of ASCII alphanumeric bytes starting at `pos`.
pub open spec fn alnum_run_end(s: Seq<u8>, pos: int) -> int
    decreases s.len() - pos,
{
    if 0 <= pos < s.len() && is_alnum(s[pos]) {
        alnum_run_end(s, pos + 1)
    } else {
        pos
    }
}

/// First position at or after `pos` holding a double quote or a line feed
/// (or the end of input): the end of a quoted string's content.
pub open spec fn quote_content_end(s: Seq<u8>, pos: int) -> int
    decreases s.len() - pos,
{
    if 0 <= pos < s.len() && s[pos] != '"' as u8 && s[pos] != LF {
        quote_content_end(s, pos + 1)
    } else {
        pos
    }
}

/// The numeric value of a sequence of decimal digit bytes.
pub open spec fn digits_val(s: Seq<u8>) -> int
    decreases s.len(),
{
    if s.len() == 0 {
        0
    } else {
        digits_val(s.drop_last()) * 10 + (s.last() - '0' as u8)
    }
}

/// A non-empty maximal digit run whose value fits in a u64; fails otherwise.
pub open spec fn spec_parse_u64(s: Seq<u8>, pos: int) -> Option<(int, u64)> {
    let e = digit_run_end(s, pos);
    if e > pos && digits_val(s.subrange(pos, e)) <= u64::MAX {
        Some((e, digits_val(s.subrange(pos, e)) as u64))
    } else {
        None
    }
}

/// A bare alphanumeric word, or a double-quoted string whose content may
/// hold anything but a quote or a line feed (the quotes are stripped).
pub open spec fn spec_parse_word_or_quoted(s: Seq<u8>, pos: int) -> Option<(int, Seq<u8>)> {
    let a = alnum_run_end(s, pos);
    if a > pos {
        Some((a, s.subrange(pos, a)))
    } else if 0 <= pos < s.len() && s[pos] == '"' as u8 {
        let e = quote_content_end(s, pos + 1);
        if e < s.len() && s[e] == '"' as u8 {
            Some((e + 1, s.subrange(pos + 1, e)))
        } else {
            None
        }
    } else {
        None
    }
}

pub open spec fn spec_parse_bool(s: Seq<u8>, pos: int) -> Option<(int, bool)> {
    if has_prefix(s, pos, kw_true()) {
        Some((pos + 4, true))
    } else if has_prefix(s, pos, kw_false()) {
        Some((pos + 5, false))
    } else {
        None
    }
}

/// Position of a key's value: after the key, optional spaces, a colon and
/// optional spaces. `None` when the colon is missing.
pub open spec fn value_pos_after_key(s: Seq<u8>, pos: int, key_len: int) -> Option<int> {
    let p = skip_spaces(s, pos + key_len);
    if 0 <= p < s.len() && s[p] == ':' as u8 {
        Some(skip_spaces(s, p + 1))
    } else {
        None
    }
}

/// Comma-separated list of words or quoted strings between brackets, with
/// optional spaces around items; at least one item is required.
pub open spec fn spec_list_cont(s: Seq<u8>, p: int, acc: Seq<Seq<u8>>) -> (int, Seq<Seq<u8>>)
    decreases s.len() - p,
{
    if 0 <= p <= s.len() {
        let q = skip_spaces(s, p);
        if q < s.len() && s[q] == ',' as u8 {
            let r = skip_spaces(s, q + 1);
            match spec_parse_word_or_quoted(s, r) {
                Some((p2, v)) => if p < p2 <= s.len() {
                    spec_list_cont(s, p2, acc.push(v))
                } else {
                    (p, acc)
                },
                None => (p, acc),
            }
        } else {
            (p, acc)
        }
    } else {
        (p, acc)
    }
}

pub open spec fn spec_parse_list(s: Seq<u8>, pos: int) -> Option<(int, Seq<Seq<u8>>)> {
    if 0 <= pos < s.len() && s[pos] == '[' as u8 {
        let q0 = skip_spaces(s, pos + 1);
        match spec_parse_word_or_quoted(s, q0) {
            Some((p1, v)) => {
                let (p, items) = spec_list_cont(s, p1, seq![v]);
                let c = skip_spaces(s, p);
                if c < s.len() && s[c] == ']' as u8 {
                    Some((c + 1, items))
                } else {
                    None
                }
            },
            None => None,
        }
    } else {
        None
    }
}

pub enum FieldV {
    Id(u64),
    Sync(bool),
    Deck(Seq<u8>),
    Tags(Seq<Seq<u8>>),
}

/// The semantic fields of a metadata comment, before the raw span is known.
pub struct MetaFieldsV {
    pub id: Option<u64>,
    pub sync: Option<bool>,
    pub deck: Option<Seq<u8>>,
    pub tags: Option<Seq<Seq<u8>>>,
}

pub open spec fn empty_fields() -> MetaFieldsV {
    MetaFieldsV { id: None, sync: None, deck: None, tags: None }
}

pub open spec fn apply_field(acc: MetaFieldsV, f: FieldV) -> MetaFieldsV {
    match f {
        FieldV::Id(v) => MetaFieldsV { id: Some(v), ..acc },
        FieldV::Sync(v) => MetaFieldsV { sync: Some(v), ..acc },
        FieldV::Deck(v) => MetaFieldsV { deck: Some(v), ..acc },
        FieldV::Tags(v) => MetaFieldsV { tags: Some(v), ..acc },
    }
}

/// One `key: value` pair, for any of the four recognized keys.
pub open spec fn spec_parse_field(s: Seq<u8>, pos: int) -> Option<(int, FieldV)> {
    if has_prefix(s, pos, kw_anki_id()) {
        match value_pos_after_key(s, pos, 7) {
            Some(v) => match spec_parse_u64(s, v) {
                Some((e, x)) => Some((e, FieldV::Id(x))),
                None => None,
            },
            None => None,
        }
    } else if has_prefix(s, pos, kw_anki_sync()) {
        match value_pos_after_key(s, pos, 9) {
            Some(v) => match spec_parse_bool(s, v) {
                Some((e, x)) => Some((e, FieldV::Sync(x))),
                None => None,
            },
            None => None,
        }
    } else if has_prefix(s, pos, kw_anki_deck()) {
        match value_pos_after_key(s, pos, 9) {
            Some(v) => match spec_parse_word_or_quoted(s, v) {
                Some((e, x)) => Some((e, FieldV::Deck(x))),
                None => None,
            },
            None => None,
        }
    } else if has_prefix(s, pos, kw_anki_tags()) {
        match value_pos_after_key(s, pos, 9) {
            Some(v) => match spec_parse_list(s, v) {
                Some((e, x)) => Some((e, FieldV::Tags(x))),
                None => None,
            },
            None => None,
        }
    } else {
        None
    }
}

/// Comma-separated fields after the first one; stops (without consuming the
/// separator) as soon as no further `, field` follows.
pub open spec fn spec_fields_cont(s: Seq<u8>, p: int, acc: MetaFieldsV) -> (int, MetaFieldsV)
    decreases s.len() - p,
{
    if 0 <= p <= s.len() {
        let q = skip_spaces(s, p);
        if q < s.len() && s[q] == ',' as u8 {
            let r = skip_spaces(s, q + 1);
            match spec_parse_field(s, r) {
                Some((p2, f)) => if p < p2 <= s.len() {
                    spec_fields_cont(s, p2, apply_field(acc, f))
                } else {
                    (p, acc)
                },
                None => (p, acc),
            }
        } else {
            (p, acc)
        }
    } else {
        (p, acc)
    }
}

/// The whole metadata comment: `<!--`, at least one field, `-->`, then the
/// rest of that line and its terminator (or the end of input). The captured
/// raw span runs from the comment's first byte through the consumed
/// terminator.
pub open spec fn spec_parse_flashcard_metadata(s: Seq<u8>, pos: int) -> Option<
    (int, FlashCardMetaDataV),
> {
    if has_prefix(s, pos, kw_comment_open()) {
        let q = skip_spaces(s, pos + 4);
        match spec_parse_field(s, q) {
            Some((p1, f)) => {
                let (p, flds) = spec_fields_cont(s, p1, apply_field(empty_fields(), f));
                let c = skip_spaces(s, p);
                if has_prefix(s, c, kw_comment_close()) {
                    let end = next_line_start(s, c + 3);
                    Some(
                        (
                            end,
                            FlashCardMetaDataV {
                                raw: s.subrange(pos, end),
                                id: flds.id,
                                sync: flds.sync,
                                deck: flds.deck,
                                tags: flds.tags,
                            },
                        ),
                    )
                } else {
                    None
                }
            },
            None => None,
        }
    } else {
        None
    }
}

} // verus!

verus! {

broadcast use {
    crate::text::lemma_skip_spaces_bounds,
    crate::text::lemma_line_content_end_bounds,
    crate::text::lemma_next_line_start_bounds,
};

pub broadcast proof fn lemma_digit_run_end_bounds(s: Seq<u8>, pos: int)
    requires
        0 <= pos <= s.len(),
    ensures
        pos <= #[trigger] digit_run_end(s, pos) <= s.len(),
        forall|k: int| pos <= k < digit_run_end(s, pos) ==> is_digit(s[k]),
        digit_run_end(s, pos) == s.len() || !is_digit(s[digit_run_end(s, pos)]),
    decreases s.len() - pos,
{
    if pos < s.len() && is_digit(s[pos]) {
        lemma_digit_run_end_bounds(s, pos + 1);
    }
}

pub broadcast proof fn lemma_alnum_run_end_bounds(s: Seq<u8>, pos: int)
    requires
        0 <= pos <= s.len(),
    ensures
        pos <= #[trigger] alnum_run_end(s, pos) <= s.len(),
    decreases s.len() - pos,
{
    if pos < s.len() && is_alnum(s[pos]) {
        lemma_alnum_run_end_bounds(s, pos + 1);
    }
}

pub broadcast proof fn lemma_quote_content_end_bounds(s: Seq<u8>, pos: int)
    requires
        0 <= pos <= s.len(),
    ensures
        pos <= #[trigger] quote_content_end(s, pos) <= s.len(),
    decreases s.len() - pos,
{
    if pos < s.len() && s[pos] != '"' as u8 && s[pos] != LF {
        lemma_quote_content_end_bounds(s, pos + 1);
    }
}

/// On success a word or quoted string ends strictly past its start and
/// within the input.
pub proof fn lemma_parse_word_bounds(s: Seq<u8>, pos: int)
    requires
        0 <= pos <= s.len(),
    ensures
        match spec_parse_word_or_quoted(s, pos) {
            Some((e, _)) => pos < e <= s.len(),
            None => true,
        },
{
    lemma_alnum_run_end_bounds(s, pos);
    if pos < s.len() {
        lemma_quote_content_end_bounds(s, pos + 1);
    }
}

pub proof fn lemma_list_cont_bounds(s: Seq<u8>, p: int, acc: Seq<Seq<u8>>)
    requires
        0 <= p <= s.len(),
    ensures
        p <= spec_list_cont(s, p, acc).0 <= s.len(),
    decreases s.len() - p,
{
    let q = skip_spaces(s, p);
    if q < s.len() && s[q] == ',' as u8 {
        let r = skip_spaces(s, q + 1);
        match spec_parse_word_or_quoted(s, r) {
            Some((p2, v)) => {
                if p < p2 <= s.len() {
                    lemma_list_cont_bounds(s, p2, acc.push(v));
                }
            },
            None => {},
        }
    }
}

pub proof fn lemma_fields_cont_bounds(s: Seq<u8>, p: int, acc: MetaFieldsV)
    requires
        0 <= p <= s.len(),
    ensures
        p <= spec_fields_cont(s, p, acc).0 <= s.len(),
    decreases s.len() - p,
{
    let q = skip_spaces(s, p);
    if q < s.len() && s[q] == ',' as u8 {
        let r = skip_spaces(s, q + 1);
        match spec_parse_field(s, r) {
            Some((p2, f)) => {
                if p < p2 <= s.len() {
                    lemma_fields_cont_bounds(s, p2, apply_field(acc, f));
                }
            },
            None => {},
        }
    }
}

/// On success a field ends strictly past its start and within the input.
pub proof fn lemma_parse_field_bounds(s: Seq<u8>, pos: int)
    requires
        0 <= pos <= s.len(),
    ensures
        match spec_parse_field(s, pos) {
            Some((e, _)) => pos < e <= s.len(),
            None => true,
        },
{
    if has_prefix(s, pos, kw_anki_id()) {
        match value_pos_after_key(s, pos, 7) {
            Some(v) => {
                lemma_digit_run_end_bounds(s, v);
            },
            None => {},
        }
    } else if has_prefix(s, pos, kw_anki_sync()) {
    } else if has_prefix(s, pos, kw_anki_deck()) {
        match value_pos_after_key(s, pos, 9) {
            Some(v) => {
                lemma_parse_word_bounds(s, v);
            },
            None => {},
        }
    } else if has_prefix(s, pos, kw_anki_tags()) {
        match value_pos_after_key(s, pos, 9) {
            Some(v) => {
                if 0 <= v < s.len() && s[v] == '[' as u8 {
                    let q0 = skip_spaces(s, v + 1);
                    lemma_parse_word_bounds(s, q0);
                    match spec_parse_word_or_quoted(s, q0) {
                        Some((p1, w)) => {
                            lemma_list_cont_bounds(s, p1, seq![w]);
                        },
                        None => {},
                    }
                }
            },
            None => {},
        }
    }
}

fn digit_run_end_x(input: &[u8], pos: usize) -> (r: usize)
    requires
        pos <= input@.len(),
    ensures
        r == digit_run_end(input@, pos as int),
        pos <= r <= input@.len(),
{
    proof {
        lemma_digit_run_end_bounds(input@, pos as int);
    }
    let mut i = pos;
    loop
        invariant
            pos <= i <= input@.len(),
            digit_run_end(input@, pos as int) == digit_run_end(input@, i as int),
        ensures
            i == digit_run_end(input@, pos as int),
        decreases input@.len() - i,
    {
        if i >= input.len() {
            return i;
        }
        let b = input[i];
        if !(b >= '0' as u8 && b <= '9' as u8) {
            return i;
        }
        i = i + 1;
    }
}

fn alnum_run_end_x(input: &[u8], pos: usize) -> (r: usize)
    requires
        pos <= input@.len(),
    ensures
        r == alnum_run_end(input@, pos as int),
        pos <= r <= input@.len(),
{
    proof {
        lemma_alnum_run_end_bounds(input@, pos as int);
    }
    let mut i = pos;
    loop
        invariant
            pos <= i <= input@.len(),
            alnum_run_end(input@, pos as int) == alnum_run_end(input@, i as int),
        ensures
            i == alnum_run_end(input@, pos as int),
        decreases input@.len() - i,
    {
        if i >= input.len() {
            return i;
        }
        let b = input[i];
        if !((b >= '0' as u8 && b <= '9' as u8) || (b >= 'a' as u8 && b <= 'z' as u8) || (b >= 'A'
            as u8 && b <= 'Z' as u8)) {
            return i;
        }
        i = i + 1;
    }
}

pub(crate) fn quote_content_end_x(input: &[u8], pos: usize) -> (r: usize)
    requires
        pos <= input@.len(),
    ensures
        r == quote_content_end(input@, pos as int),
        pos <= r <= input@.len(),
{
    proof {
        lemma_quote_content_end_bounds(input@, pos as int);
    }
    let mut i = pos;
    loop
        invariant
            pos <= i <= input@.len(),
            quote_content_end(input@, pos as int) == quote_content_end(input@, i as int),
        ensures
            i == quote_content_end(input@, pos as int),
        decreases input@.len() - i,
    {
        if i >= input.len() {
            return i;
        }
        let b = input[i];
        if b == '"' as u8 || b == LF {
            return i;
        }
        i = i + 1;
    }
}

proof fn lemma_digits_val_snoc(s: Seq<u8>, pos: int, i: int)
    requires
        0 <= pos <= i < s.len(),
    ensures
        digits_val(s.subrange(pos, i + 1)) == digits_val(s.subrange(pos, i)) * 10 + (s[i] - '0'
            as u8),
{
    let t = s.subrange(pos, i + 1);
    assert(t.drop_last() =~= s.subrange(pos, i));
    assert(t.last() == s[i]);
}

proof fn lemma_digits_val_nonneg(s: Seq<u8>)
    requires
        forall|k: int| 0 <= k < s.len() ==> is_digit(s[k]),
    ensures
        digits_val(s) >= 0,
    decreases s.len(),
{
    if s.len() > 0 {
        lemma_digits_val_nonneg(s.drop_last());
    }
}

/// Within a digit run, the value of a longer prefix is at least the value
/// of a shorter one.
proof fn lemma_digits_val_monotone(s: Seq<u8>, pos: int, i: int, j: int)
    requires
        0 <= pos <= i <= j <= s.len(),
        forall|k: int| pos <= k < j ==> is_digit(s[k]),
    ensures
        digits_val(s.subrange(pos, j)) >= digits_val(s.subrange(pos, i)),
    decreases j - i,
{
    if i < j {
        lemma_digits_val_snoc(s, pos, j - 1);
        lemma_digits_val_monotone(s, pos, i, j - 1);
        assert(forall|k: int|
            0 <= k < s.subrange(pos, j - 1).len() ==> is_digit(#[trigger] s.subrange(pos, j - 1)[k]));
        lemma_digits_val_nonneg(s.subrange(pos, j - 1));
    }
}

/// Parses a non-empty run of decimal digits as a u64; fails when there is
/// no digit at `pos` or the run's value does not fit in a u64.
pub fn parse_u64_digits(input: &[u8], pos: usize) -> (r: Option<(usize, u64)>)
    requires
        pos <= input@.len(),
    ensures
        match r {
            Some((e, v)) => pos < e <= input@.len() && spec_parse_u64(input@, pos as int) == Some(
                (e as int, v),
            ),
            None => spec_parse_u64(input@, pos as int) is None,
        },
{
    let ghost s = input@;
    let e = digit_run_end_x(input, pos);
    proof {
        lemma_digit_run_end_bounds(s, pos as int);
    }
    if e == pos {
        return None;
    }
    let mut acc: u64 = 0;
    let mut i = pos;
    proof {
        assert(s.subrange(pos as int, pos as int) =~= Seq::<u8>::empty());
    }
    loop
        invariant
            pos <= i <= e <= input@.len(),
            e == digit_run_end(s, pos as int),
            s == input@,
            forall|k: int| pos <= k < e ==> is_digit(s[k]),
            acc as int == digits_val(s.subrange(pos as int, i as int)),
        ensures
            i == e,
            acc as int == digits_val(s.subrange(pos as int, e as int)),
        decreases e - i,
    {
        if i >= e {
            break;
        }
        let d = input[i] - '0' as u8;
        if acc > (u64::MAX - d as u64) / 10 {
            proof {
                lemma_digits_val_snoc(s, pos as int, i as int);
                assert(digits_val(s.subrange(pos as int, i as int + 1)) > u64::MAX) by {
                    assert(acc as int * 10 + d as int > u64::MAX) by (nonlinear_arith)
                        requires
                            acc as int > (u64::MAX as int - d as int) / 10,
                            0 <= d as int <= 9,
                            acc as int >= 0,
                    ;
                };
                lemma_digits_val_monotone(s, pos as int, i as int + 1, e as int);
            }
            return None;
        }
        proof {
            lemma_digits_val_snoc(s, pos as int, i as int);
        }
        acc = acc * 10 + d as u64;
        i = i + 1;
    }
    Some((e, acc))
}

} // verus!

verus! {

fn arr_anki_id() -> (r: [u8; 7])
    ensures
        r@ == kw_anki_id(),
{
    let a = ['a' as u8, 'n' as u8, 'k' as u8, 'i' as u8, '_' as u8, 'i' as u8, 'd' as u8];
    proof {
        assert(a@ =~= kw_anki_id());
    }
    a
}

fn arr_anki_sync() -> (r: [u8; 9])
    ensures
        r@ == kw_anki_sync(),
{
    let a = [
        'a' as u8,
        'n' as u8,
        'k' as u8,
        'i' as u8,
        '_' as u8,
        's' as u8,
        'y' as u8,
        'n' as u8,
        'c' as u8,
    ];
    proof {
        assert(a@ =~= kw_anki_sync());
    }
    a
}

fn arr_anki_deck() -> (r: [u8; 9])
    ensures
        r@ == kw_anki_deck(),
{
    let a = [
        'a' as u8,
        'n' as u8,
        'k' as u8,
        'i' as u8,
        '_' as u8,
        'd' as u8,
        'e' as u8,
        'c' as u8,
        'k' as u8,
    ];
    proof {
        assert(a@ =~= kw_anki_deck());
    }
    a
}

fn arr_anki_tags() -> (r: [u8; 9])
    ensures
        r@ == kw_anki_tags(),
{
    let a = [
        'a' as u8,
        'n' as u8,
        'k' as u8,
        'i' as u8,
        '_' as u8,
        't' as u8,
        'a' as u8,
        'g' as u8,
        's' as u8,
    ];
    proof {
        assert(a@ =~= kw_anki_tags());
    }
    a
}

fn arr_true() -> (r: [u8; 4])
    ensures
        r@ == kw_true(),
{
    let a = ['t' as u8, 'r' as u8, 'u' as u8, 'e' as u8];
    proof {
        assert(a@ =~= kw_true());
    }
    a
}

fn arr_false() -> (r: [u8; 5])
    ensures
        r@ == kw_false(),
{
    let a = ['f' as u8, 'a' as u8, 'l' as u8, 's' as u8, 'e' as u8];
    proof {
        assert(a@ =~= kw_false());
    }
    a
}

fn arr_comment_open() -> (r: [u8; 4])
    ensures
        r@ == kw_comment_open(),
{
    let a = ['<' as u8, '!' as u8, '-' as u8, '-' as u8];
    proof {
        assert(a@ =~= kw_comment_open());
    }
    a
}

fn arr_comment_close() -> (r: [u8; 3])
    ensures
        r@ == kw_comment_close(),
{
    let a = ['-' as u8, '-' as u8, '>' as u8];
    proof {
        assert(a@ =~= kw_comment_close());
    }
    a
}

/// Parses a bare alphanumeric word or a double-quoted string, returning the
/// word or the string's content with the quotes stripped.
pub fn parse_word_or_quoted_string(input: &[u8], pos: usize) -> (r: Option<(usize, Vec<u8>)>)
    requires
        pos <= input@.len(),
    ensures
        match r {
            Some((e, v)) => pos < e <= input@.len() && spec_parse_word_or_quoted(
                input@,
                pos as int,
            ) == Some((e as int, v@)),
            None => spec_parse_word_or_quoted(input@, pos as int) is None,
        },
{
    let a = alnum_run_end_x(input, pos);
    if a > pos {
        let v = copy_range(input, pos, a);
        return Some((a, v));
    }
    if pos < input.len() && input[pos] == '"' as u8 {
        let e = quote_content_end_x(input, pos + 1);
        if e < input.len() && input[e] == '"' as u8 {
            let v = copy_range(input, pos + 1, e);
            return Some((e + 1, v));
        }
    }
    None
}

/// Parses the literal `true` or `false`.
pub fn parse_bool(input: &[u8], pos: usize) -> (r: Option<(usize, bool)>)
    requires
        pos <= input@.len(),
    ensures
        match r {
            Some((e, v)) => pos < e <= input@.len() && spec_parse_bool(input@, pos as int) == Some(
                (e as int, v),
            ),
            None => spec_parse_bool(input@, pos as int) is None,
        },
{
    let n = input.len();
    let t = arr_true();
    if has_prefix_x(input, pos, t.as_slice()) {
        proof {
            assert(kw_true().len() == 4);
            assert(pos + 4 <= n);
        }
        return Some((pos + 4, true));
    }
    let f = arr_false();
    if has_prefix_x(input, pos, f.as_slice()) {
        proof {
            assert(kw_false().len() == 5);
            assert(pos + 5 <= n);
        }
        return Some((pos + 5, false));
    }
    None
}

/// Position of a key's value, after optional spaces, a colon and optional
/// spaces.
fn value_pos_x(input: &[u8], pos: usize, key_len: usize) -> (r: Option<usize>)
    requires
        pos + key_len <= input@.len(),
    ensures
        match r {
            Some(v) => pos <= v <= input@.len() && value_pos_after_key(
                input@,
                pos as int,
                key_len as int,
            ) == Some(v as int),
            None => value_pos_after_key(input@, pos as int, key_len as int) is None,
        },
{
    let n = input.len();
    proof {
        assert(pos + key_len <= n);
    }
    let p = skip_spaces_x(input, pos + key_len);
    if p < input.len() && input[p] == ':' as u8 {
        let v = skip_spaces_x(input, p + 1);
        Some(v)
    } else {
        None
    }
}

/// Parses a comma-separated non-empty bracketed list of words or quoted
/// strings.
pub fn parse_list(input: &[u8], pos: usize) -> (r: Option<(usize, Vec<Vec<u8>>)>)
    requires
        pos <= input@.len(),
    ensures
        match r {
            Some((e, v)) => pos < e <= input@.len() && spec_parse_list(input@, pos as int) == Some(
                (e as int, v.deep_view()),
            ),
            None => spec_parse_list(input@, pos as int) is None,
        },
{
    let ghost s = input@;
    if !(pos < input.len() && input[pos] == '[' as u8) {
        return None;
    }
    let q0 = skip_spaces_x(input, pos + 1);
    let first = parse_word_or_quoted_string(input, q0);
    match first {
        None => None,
        Some((p1, v1)) => {
            let ghost v1v = v1@;
            let mut items: Vec<Vec<u8>> = Vec::new();
            items.push(v1);
            let mut cur = p1;
            proof {
                assert(v1.deep_view() =~= v1v);
                assert(items.deep_view() =~= seq![v1v]);
                lemma_list_cont_bounds(s, p1 as int, items.deep_view());
            }
            loop
                invariant
                    s == input@,
                    0 <= cur <= s.len(),
                    spec_list_cont(s, p1 as int, seq![spec_parse_word_or_quoted(
                        s,
                        q0 as int,
                    ).unwrap().1]) == spec_list_cont(s, cur as int, items.deep_view()),
                ensures
                    0 <= cur <= s.len(),
                    spec_list_cont(s, p1 as int, seq![spec_parse_word_or_quoted(
                        s,
                        q0 as int,
                    ).unwrap().1]) == (cur as int, items.deep_view()),
                decreases s.len() - cur,
            {
                let ghost items0 = items.deep_view();
                let q = skip_spaces_x(input, cur);
                if !(q < input.len() && input[q] == ',' as u8) {
                    proof {
                        assert(spec_list_cont(s, cur as int, items0) == (cur as int, items0));
                    }
                    break;
                }
                let r2 = skip_spaces_x(input, q + 1);
                match parse_word_or_quoted_string(input, r2) {
                    Some((p2, v2)) => {
                        let ghost v2v = v2@;
                        proof {
                            assert(spec_list_cont(s, cur as int, items0) == spec_list_cont(
                                s,
                                p2 as int,
                                items0.push(v2v),
                            ));
                        }
                        proof {
                            assert(v2.deep_view() =~= v2v);
                        }
                        items.push(v2);
                        proof {
                            assert(items.deep_view() =~= items0.push(v2v));
                        }
                        cur = p2;
                    },
                    None => {
                        proof {
                            assert(spec_list_cont(s, cur as int, items0) == (cur as int, items0));
                        }
                        break;
                    },
                }
            }
            let c = skip_spaces_x(input, cur);
            if c < input.len() && input[c] == ']' as u8 {
                Some((c + 1, items))
            } else {
                None
            }
        },
    }
}

/// One recognized `key: value` field of a metadata comment.
pub enum MetaField {
    Id(u64),
    Sync(bool),
    Deck(Vec<u8>),
    Tags(Vec<Vec<u8>>),
}

impl View for MetaField {
    type V = FieldV;

    open spec fn view(&self) -> FieldV {
        match self {
            MetaField::Id(v) => FieldV::Id(*v),
            MetaField::Sync(v) => FieldV::Sync(*v),
            MetaField::Deck(v) => FieldV::Deck(v@),
            MetaField::Tags(v) => FieldV::Tags(v.deep_view()),
        }
    }
}

pub fn parse_field(input: &[u8], pos: usize) -> (r: Option<(usize, MetaField)>)
    requires
        pos <= input@.len(),
    ensures
        match r {
            Some((e, f)) => pos < e <= input@.len() && spec_parse_field(input@, pos as int) == Some(
                (e as int, f@),
            ),
            None => spec_parse_field(input@, pos as int) is None,
        },
{
    let kid = arr_anki_id();
    if has_prefix_x(input, pos, kid.as_slice()) {
        match value_pos_x(input, pos, 7) {
            Some(v) => match parse_u64_digits(input, v) {
                Some((e, x)) => {
                    return Some((e, MetaField::Id(x)));
                },
                None => {
                    return None;
                },
            },
            None => {
                return None;
            },
        }
    }
    let ksync = arr_anki_sync();
    if has_prefix_x(input, pos, ksync.as_slice()) {
        match value_pos_x(input, pos, 9) {
            Some(v) => match parse_bool(input, v) {
                Some((e, x)) => {
                    return Some((e, MetaField::Sync(x)));
                },
                None => {
                    return None;
                },
            },
            None => {
                return None;
            },
        }
    }
    let kdeck = arr_anki_deck();
    if has_prefix_x(input, pos, kdeck.as_slice()) {
        match value_pos_x(input, pos, 9) {
            Some(v) => match parse_word_or_quoted_string(input, v) {
                Some((e, x)) => {
                    return Some((e, MetaField::Deck(x)));
                },
                None => {
                    return None;
                },
            },
            None => {
                return None;
            },
        }
    }
    let ktags = arr_anki_tags();
    if has_prefix_x(input, pos, ktags.as_slice()) {
        match value_pos_x(input, pos, 9) {
            Some(v) => match parse_list(input, v) {
                Some((e, x)) => {
                    return Some((e, MetaField::Tags(x)));
                },
                None => {
                    return None;
                },
            },
            None => {
                return None;
            },
        }
    }
    None
}

} // verus!

verus! {

pub open spec fn opt_bytes_view(d: Option<Vec<u8>>) -> Option<Seq<u8>> {
    match d {
        Some(v) => Some(v@),
        None => None,
    }
}

pub open spec fn opt_tags_view(t: Option<Vec<Vec<u8>>>) -> Option<Seq<Seq<u8>>> {
    match t {
        Some(v) => Some(v.deep_view()),
        None => None,
    }
}

/// Parses a whole metadata comment at `pos`: `<!--`, one or more
/// comma-separated fields, `-->`, the rest of that line and its terminator.
/// On success the returned position is the start of the next line (or the
/// end of input) and the value's raw span is exactly the consumed bytes.
pub fn parse_flashcard_metadata(input: &[u8], pos: usize) -> (r: Option<(usize, FlashCardMetaData)>)
    requires
        pos <= input@.len(),
    ensures
        match r {
            Some((e, m)) => pos < e <= input@.len() && spec_parse_flashcard_metadata(
                input@,
                pos as int,
            ) == Some((e as int, m@)),
            None => spec_parse_flashcard_metadata(input@, pos as int) is None,
        },
{
    let ghost s = input@;
    let n = input.len();
    let ko = arr_comment_open();
    if !has_prefix_x(input, pos, ko.as_slice()) {
        return None;
    }
    proof {
        assert(kw_comment_open().len() == 4);
        assert(pos + 4 <= n);
    }
    let q = skip_spaces_x(input, pos + 4);
    match parse_field(input, q) {
        None => None,
        Some((p1, f1)) => {
            let mut id: Option<u64> = None;
            let mut sync: Option<bool> = None;
            let mut deck: Option<Vec<u8>> = None;
            let mut tags: Option<Vec<Vec<u8>>> = None;
            let ghost f1v = f1@;
            match f1 {
                MetaField::Id(v) => {
                    id = Some(v);
                },
                MetaField::Sync(v) => {
                    sync = Some(v);
                },
                MetaField::Deck(v) => {
                    deck = Some(v);
                },
                MetaField::Tags(v) => {
                    tags = Some(v);
                },
            }
            let ghost acc1 = apply_field(empty_fields(), f1v);
            proof {
                assert(MetaFieldsV {
                    id: id,
                    sync: sync,
                    deck: opt_bytes_view(deck),
                    tags: opt_tags_view(tags),
                } == acc1);
                lemma_fields_cont_bounds(s, p1 as int, acc1);
            }
            let mut cur = p1;
            loop
                invariant
                    s == input@,
                    0 <= cur <= s.len(),
                    spec_fields_cont(s, p1 as int, acc1) == spec_fields_cont(
                        s,
                        cur as int,
                        MetaFieldsV {
                            id: id,
                            sync: sync,
                            deck: opt_bytes_view(deck),
                            tags: opt_tags_view(tags),
                        },
                    ),
                ensures
                    0 <= cur <= s.len(),
                    spec_fields_cont(s, p1 as int, acc1) == (cur as int, MetaFieldsV {
                        id: id,
                        sync: sync,
                        deck: opt_bytes_view(deck),
                        tags: opt_tags_view(tags),
                    }),
                decreases s.len() - cur,
            {
                let ghost acc0 = MetaFieldsV {
                    id: id,
                    sync: sync,
                    deck: opt_bytes_view(deck),
                    tags: opt_tags_view(tags),
                };
                let q2 = skip_spaces_x(input, cur);
                if !(q2 < input.len() && input[q2] == ',' as u8) {
                    proof {
                        assert(spec_fields_cont(s, cur as int, acc0) == (cur as int, acc0));
                    }
                    break;
                }
                let r2 = skip_spaces_x(input, q2 + 1);
                match parse_field(input, r2) {
                    Some((p2, f2)) => {
                        let ghost f2v = f2@;
                        proof {
                            assert(spec_fields_cont(s, cur as int, acc0) == spec_fields_cont(
                                s,
                                p2 as int,
                                apply_field(acc0, f2v),
                            ));
                        }
                        match f2 {
                            MetaField::Id(v) => {
                                id = Some(v);
                            },
                            MetaField::Sync(v) => {
                                sync = Some(v);
                            },
                            MetaField::Deck(v) => {
                                deck = Some(v);
                            },
                            MetaField::Tags(v) => {
                                tags = Some(v);
                            },
                        }
                        proof {
                            assert(MetaFieldsV {
                                id: id,
                                sync: sync,
                                deck: opt_bytes_view(deck),
                                tags: opt_tags_view(tags),
                            } == apply_field(acc0, f2v));
                        }
                        cur = p2;
                    },
                    None => {
                        proof {
                            assert(spec_fields_cont(s, cur as int, acc0) == (cur as int, acc0));
                        }
                        break;
                    },
                }
            }
            let c = skip_spaces_x(input, cur);
            let kc = arr_comment_close();
            if has_prefix_x(input, c, kc.as_slice()) {
                proof {
                    assert(kw_comment_close().len() == 3);
                    assert(c + 3 <= n);
                }
                let end = next_line_start_x(input, c + 3);
                proof {
                    assert(pos < end);
                }
                let raw = copy_range(input, pos, end);
                Some((end, FlashCardMetaData { raw, id, sync, deck, tags }))
            } else {
                None
            }
        },
    }
}

} // verus!

verus! {

/// On success a metadata comment ends strictly past its start and within
/// the input.
pub proof fn lemma_parse_metadata_bounds(s: Seq<u8>, pos: int)
    requires
        0 <= pos <= s.len(),
    ensures
        match spec_parse_flashcard_metadata(s, pos) {
            Some((e, _)) => pos < e <= s.len(),
            None => true,
        },
{
    if has_prefix(s, pos, kw_comment_open()) {
        assert(kw_comment_open().len() == 4);
        let q = skip_spaces(s, pos + 4);
        lemma_parse_field_bounds(s, q);
        match spec_parse_field(s, q) {
            Some((p1, f)) => {
                lemma_fields_cont_bounds(s, p1, apply_field(empty_fields(), f));
                let (p, flds) = spec_fields_cont(s, p1, apply_field(empty_fields(), f));
                let c = skip_spaces(s, p);
                if has_prefix(s, c, kw_comment_close()) {
                    assert(kw_comment_close().len() == 3);
                    crate::text::lemma_next_line_start_bounds(s, c + 3);
                }
            },
            None => {},
        }
    }
}

} // verus!
