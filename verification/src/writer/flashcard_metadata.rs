//! Canonical regeneration of a metadata comment from semantic fields.
//!
//! Fields are emitted in the fixed order `anki_id`, `anki_deck`,
//! `anki_sync`, `anki_tags`, absent ones omitted, separated by `, `; a deck
//! or tag containing a space is double-quoted, others are bare; the comment
//! is always terminated by a single newline.

use crate::text::{append_bytes, LF};
use crate::types::FlashCardMetaData;
use vstd::prelude::*;

verus! {

/// The decimal digits of `n`, most significant first.
pub open spec fn u64_dec(n: int) -> Seq<u8>
    decreases n,
{
    if n < 10 {
        seq![(n + '0' as u8) as u8]
    } else {
        u64_dec(n / 10).push((n % 10 + '0' as u8) as u8)
    }
}

/// A deck or tag value as emitted: double-quoted when it contains a space.
pub open spec fn quoted_if_spaced(v: Seq<u8>) -> Seq<u8> {
    if v.contains(' ' as u8) {
        seq!['"' as u8] + v + seq!['"' as u8]
    } else {
        v
    }
}

/// Parts joined by `, `.
pub open spec fn join_comma(parts: Seq<Seq<u8>>) -> Seq<u8>
    decreases parts.len(),
{
    if parts.len() == 0 {
        Seq::empty()
    } else if parts.len() == 1 {
        parts[0]
    } else {
        join_comma(parts.drop_last()) + seq![',' as u8, ' ' as u8] + parts.last()
    }
}

pub open spec fn kw_id_part() -> Seq<u8> {
    seq![
        'a' as u8,
        'n' as u8,
        'k' as u8,
        'i' as u8,
        '_' as u8,
        'i' as u8,
        'd' as u8,
        ':' as u8,
        ' ' as u8,
    ]
}

pub open spec fn kw_deck_part() -> Seq<u8> {
    seq![
        'a' as u8,
        'n' as u8,
        'k' as u8,
        'i' as u8,
        '_' as u8,
        'd' as u8,
        'e' as u8,
        'c' as u8,
        'k' as u8,
        ':' as u8,
        ' ' as u8,
    ]
}

pub open spec fn kw_sync_part() -> Seq<u8> {
    seq![
        'a' as u8,
        'n' as u8,
        'k' as u8,
        'i' as u8,
        '_' as u8,
        's' as u8,
        'y' as u8,
        'n' as u8,
        'c' as u8,
        ':' as u8,
        ' ' as u8,
    ]
}

pub open spec fn kw_tags_part() -> Seq<u8> {
    seq![
        'a' as u8,
        'n' as u8,
        'k' as u8,
        'i' as u8,
        '_' as u8,
        't' as u8,
        'a' as u8,
        'g' as u8,
        's' as u8,
        ':' as u8,
        ' ' as u8,
        '[' as u8,
    ]
}

pub open spec fn kw_true_bytes() -> Seq<u8> {
    seq!['t' as u8, 'r' as u8, 'u' as u8, 'e' as u8]
}

pub open spec fn kw_false_bytes() -> Seq<u8> {
    seq!['f' as u8, 'a' as u8, 'l' as u8, 's' as u8, 'e' as u8]
}

pub open spec fn kw_open_part() -> Seq<u8> {
    seq!['<' as u8, '!' as u8, '-' as u8, '-' as u8, ' ' as u8]
}

pub open spec fn kw_close_part() -> Seq<u8> {
    seq![' ' as u8, '-' as u8, '-' as u8, '>' as u8, LF]
}

/// The emitted field parts, in the fixed order, absent fields omitted.
pub open spec fn field_parts(
    id: Option<u64>,
    deck: Option<Seq<u8>>,
    sync: Option<bool>,
    tags: Option<Seq<Seq<u8>>>,
) -> Seq<Seq<u8>> {
    let ps = Seq::<Seq<u8>>::empty();
    let ps = match id {
        Some(n) => ps.push(kw_id_part() + u64_dec(n as int)),
        None => ps,
    };
    let ps = match deck {
        Some(d) => ps.push(kw_deck_part() + quoted_if_spaced(d)),
        None => ps,
    };
    let ps = match sync {
        Some(b) => ps.push(
            kw_sync_part() + if b {
                kw_true_bytes()
            } else {
                kw_false_bytes()
            },
        ),
        None => ps,
    };
    let ps = match tags {
        Some(ts) => ps.push(
            kw_tags_part() + join_comma(Seq::new(ts.len(), |i: int| quoted_if_spaced(ts[i])))
                + seq![']' as u8],
        ),
        None => ps,
    };
    ps
}

/// The canonical raw text of a regenerated metadata comment.
pub open spec fn from_fields_raw(
    id: Option<u64>,
    deck: Option<Seq<u8>>,
    sync: Option<bool>,
    tags: Option<Seq<Seq<u8>>>,
) -> Seq<u8> {
    kw_open_part() + join_comma(field_parts(id, deck, sync, tags)) + kw_close_part()
}

/// Appends the decimal digits of `n`.
fn push_u64_dec(n: u64, out: &mut Vec<u8>)
    ensures
        final(out)@ == old(out)@ + u64_dec(n as int),
    decreases n,
{
    if n >= 10 {
        push_u64_dec(n / 10, out);
        let ghost mid = out@;
        out.push((n % 10) as u8 + '0' as u8);
        proof {
            assert(out@ =~= mid.push((n as int % 10 + '0' as u8) as u8));
            assert(old(out)@ + u64_dec(n as int) =~= out@);
        }
    } else {
        let ghost mid = out@;
        out.push(n as u8 + '0' as u8);
        proof {
            assert(out@ =~= mid.push((n as int + '0' as u8) as u8));
            assert(old(out)@ + u64_dec(n as int) =~= out@);
        }
    }
}

/// `v` holds at least one space byte.
fn contains_space(v: &Vec<u8>) -> (r: bool)
    ensures
        r == v@.contains(' ' as u8),
{
    let mut i: usize = 0;
    while i < v.len()
        invariant
            0 <= i <= v@.len(),
            forall|k: int| 0 <= k < i ==> v@[k] != ' ' as u8,
        decreases v@.len() - i,
    {
        if v[i] == ' ' as u8 {
            proof {
                assert(v@.contains(' ' as u8));
            }
            return true;
        }
        i = i + 1;
    }
    proof {
        assert(!v@.contains(' ' as u8));
    }
    false
}

/// Appends `v`, double-quoted when it contains a space.
fn push_quoted_if_spaced(v: &Vec<u8>, out: &mut Vec<u8>)
    ensures
        final(out)@ == old(out)@ + quoted_if_spaced(v@),
{
    if contains_space(v) {
        out.push('"' as u8);
        append_bytes(out, v.as_slice());
        out.push('"' as u8);
        proof {
            assert(out@ =~= old(out)@ + quoted_if_spaced(v@));
        }
    } else {
        append_bytes(out, v.as_slice());
    }
}

} // verus!

verus! {

fn arr_id_part() -> (r: [u8; 9])
    ensures
        r@ == kw_id_part(),
{
    let a = [
        'a' as u8,
        'n' as u8,
        'k' as u8,
        'i' as u8,
        '_' as u8,
        'i' as u8,
        'd' as u8,
        ':' as u8,
        ' ' as u8,
    ];
    proof {
        assert(a@ =~= kw_id_part());
    }
    a
}

fn arr_deck_part() -> (r: [u8; 11])
    ensures
        r@ == kw_deck_part(),
{
    let a = [
        'a' as u8,
        'n' as u8,
        'k' as u8,
        'i' as u8,
        '_' as u8,
        'd' as u8,
        'e' as u8,
        'c' as u8,
        'k' as u8,
        ':' as u8,
        ' ' as u8,
    ];
    proof {
        assert(a@ =~= kw_deck_part());
    }
    a
}

fn arr_sync_part() -> (r: [u8; 11])
    ensures
        r@ == kw_sync_part(),
{
    let a = [
        'a' as u8,
        'n' as u8,
        'k' as u8,
        'i' as u8,
        '_' as u8,
        's' as u8,
        'y' as u8,
        'n' as u8,
        'c' as u8,
        ':' as u8,
        ' ' as u8,
    ];
    proof {
        assert(a@ =~= kw_sync_part());
    }
    a
}

fn arr_tags_part() -> (r: [u8; 12])
    ensures
        r@ == kw_tags_part(),
{
    let a = [
        'a' as u8,
        'n' as u8,
        'k' as u8,
        'i' as u8,
        '_' as u8,
        't' as u8,
        'a' as u8,
        'g' as u8,
        's' as u8,
        ':' as u8,
        ' ' as u8,
        '[' as u8,
    ];
    proof {
        assert(a@ =~= kw_tags_part());
    }
    a
}

fn arr_true_bytes() -> (r: [u8; 4])
    ensures
        r@ == kw_true_bytes(),
{
    let a = ['t' as u8, 'r' as u8, 'u' as u8, 'e' as u8];
    proof {
        assert(a@ =~= kw_true_bytes());
    }
    a
}

fn arr_false_bytes() -> (r: [u8; 5])
    ensures
        r@ == kw_false_bytes(),
{
    let a = ['f' as u8, 'a' as u8, 'l' as u8, 's' as u8, 'e' as u8];
    proof {
        assert(a@ =~= kw_false_bytes());
    }
    a
}

fn arr_open_part() -> (r: [u8; 5])
    ensures
        r@ == kw_open_part(),
{
    let a = ['<' as u8, '!' as u8, '-' as u8, '-' as u8, ' ' as u8];
    proof {
        assert(a@ =~= kw_open_part());
    }
    a
}

fn arr_close_part() -> (r: [u8; 5])
    ensures
        r@ == kw_close_part(),
{
    let a = [' ' as u8, '-' as u8, '-' as u8, '>' as u8, LF];
    proof {
        assert(a@ =~= kw_close_part());
    }
    a
}

impl FlashCardMetaData {
    /// Builds a metadata value whose raw text is the canonically emitted
    /// comment for exactly the given fields.
    pub fn from_fields(
        id: Option<u64>,
        deck: Option<Vec<u8>>,
        sync: Option<bool>,
        tags: Option<Vec<Vec<u8>>>,
    ) -> (m: FlashCardMetaData)
        ensures
            m.id == id,
            m.sync == sync,
            m@.deck == crate::parser::flashcard_metadata::opt_bytes_view(deck),
            m@.tags == crate::parser::flashcard_metadata::opt_tags_view(tags),
            m.raw@ == from_fields_raw(
                id,
                crate::parser::flashcard_metadata::opt_bytes_view(deck),
                sync,
                crate::parser::flashcard_metadata::opt_tags_view(tags),
            ),
    {
        let ghost deckv = crate::parser::flashcard_metadata::opt_bytes_view(deck);
        let ghost tagsv = crate::parser::flashcard_metadata::opt_tags_view(tags);
        let ghost goal_parts = field_parts(id, deckv, sync, tagsv);
        let mut parts: Vec<Vec<u8>> = Vec::new();
        match id {
            Some(n) => {
                let mut p: Vec<u8> = Vec::new();
                let k = arr_id_part();
                append_bytes(&mut p, k.as_slice());
                push_u64_dec(n, &mut p);
                proof {
                    assert(p@ =~= kw_id_part() + u64_dec(n as int));
                }
                let ghost parts0 = parts.deep_view();
                let ghost pv = p@;
                proof {
                    assert(p.deep_view() =~= pv);
                }
                parts.push(p);
                proof {
                    assert(parts.deep_view() =~= parts0.push(pv));
                }
            },
            None => {},
        }
        match &deck {
            Some(d) => {
                let mut p: Vec<u8> = Vec::new();
                let k = arr_deck_part();
                append_bytes(&mut p, k.as_slice());
                push_quoted_if_spaced(d, &mut p);
                proof {
                    assert(p@ =~= kw_deck_part() + quoted_if_spaced(d@));
                }
                let ghost parts0 = parts.deep_view();
                let ghost pv = p@;
                proof {
                    assert(p.deep_view() =~= pv);
                }
                parts.push(p);
                proof {
                    assert(parts.deep_view() =~= parts0.push(pv));
                }
            },
            None => {},
        }
        match sync {
            Some(b) => {
                let mut p: Vec<u8> = Vec::new();
                let k = arr_sync_part();
                append_bytes(&mut p, k.as_slice());
                if b {
                    let t = arr_true_bytes();
                    append_bytes(&mut p, t.as_slice());
                } else {
                    let f = arr_false_bytes();
                    append_bytes(&mut p, f.as_slice());
                }
                proof {
                    assert(p@ =~= kw_sync_part() + if b {
                        kw_true_bytes()
                    } else {
                        kw_false_bytes()
                    });
                }
                let ghost parts0 = parts.deep_view();
                let ghost pv = p@;
                proof {
                    assert(p.deep_view() =~= pv);
                }
                parts.push(p);
                proof {
                    assert(parts.deep_view() =~= parts0.push(pv));
                }
            },
            None => {},
        }
        match &tags {
            Some(ts) => {
                let ghost mapped = Seq::new(
                    ts.deep_view().len(),
                    |i: int| quoted_if_spaced(ts.deep_view()[i]),
                );
                let mut p: Vec<u8> = Vec::new();
                let k = arr_tags_part();
                append_bytes(&mut p, k.as_slice());
                let mut i: usize = 0;
                proof {
                    assert(p@ =~= kw_tags_part() + join_comma(mapped.take(0)));
                    assert forall|k: int| 0 <= k < ts@.len() implies mapped[k] == quoted_if_spaced(
                        #[trigger] ts@[k]@,
                    ) by {
                        assert(ts@[k].deep_view() =~= ts@[k]@);
                    }
                }
                while i < ts.len()
                    invariant
                        0 <= i <= ts@.len(),
                        mapped.len() == ts@.len(),
                        forall|k: int| 0 <= k < ts@.len() ==> mapped[k] == quoted_if_spaced(
                            #[trigger] ts@[k]@,
                        ),
                        p@ == kw_tags_part() + join_comma(mapped.take(i as int)),
                    decreases ts@.len() - i,
                {
                    let ghost p0 = p@;
                    if i > 0 {
                        p.push(',' as u8);
                        p.push(' ' as u8);
                    }
                    push_quoted_if_spaced(&ts[i], &mut p);
                    proof {
                        assert(mapped.take(i + 1).drop_last() =~= mapped.take(i as int));
                        if i == 0 {
                            assert(p@ =~= kw_tags_part() + join_comma(mapped.take(1)));
                        } else {
                            assert(p@ =~= p0 + seq![',' as u8, ' ' as u8] + mapped[i as int]);
                            assert(p@ =~= kw_tags_part() + join_comma(mapped.take(i + 1)));
                        }
                    }
                    i = i + 1;
                }
                proof {
                    assert(mapped.take(ts@.len() as int) =~= mapped);
                }
                p.push(']' as u8);
                proof {
                    assert(p@ =~= kw_tags_part() + join_comma(mapped) + seq![']' as u8]);
                    assert(mapped =~= Seq::new(tagsv.unwrap().len(), |i: int| quoted_if_spaced(
                        tagsv.unwrap()[i],
                    )));
                }
                let ghost parts0 = parts.deep_view();
                let ghost pv = p@;
                proof {
                    assert(p.deep_view() =~= pv);
                }
                parts.push(p);
                proof {
                    assert(parts.deep_view() =~= parts0.push(pv));
                }
            },
            None => {},
        }
        proof {
            assert(parts.deep_view() == goal_parts);
        }
        let mut raw: Vec<u8> = Vec::new();
        let o = arr_open_part();
        append_bytes(&mut raw, o.as_slice());
        let mut i: usize = 0;
        proof {
            assert(raw@ =~= kw_open_part() + join_comma(goal_parts.take(0)));
        }
        while i < parts.len()
            invariant
                0 <= i <= parts@.len(),
                parts.deep_view() == goal_parts,
                goal_parts.len() == parts@.len(),
                raw@ == kw_open_part() + join_comma(goal_parts.take(i as int)),
            decreases parts@.len() - i,
        {
            let ghost r0 = raw@;
            if i > 0 {
                raw.push(',' as u8);
                raw.push(' ' as u8);
            }
            append_bytes(&mut raw, parts[i].as_slice());
            proof {
                assert(goal_parts[i as int] == parts@[i as int].deep_view());
                assert(parts@[i as int].deep_view() =~= parts@[i as int]@);
                assert(goal_parts.take(i + 1).drop_last() =~= goal_parts.take(i as int));
                if i == 0 {
                    assert(raw@ =~= kw_open_part() + join_comma(goal_parts.take(1)));
                } else {
                    assert(raw@ =~= r0 + seq![',' as u8, ' ' as u8] + goal_parts[i as int]);
                    assert(raw@ =~= kw_open_part() + join_comma(goal_parts.take(i + 1)));
                }
            }
            i = i + 1;
        }
        proof {
            assert(goal_parts.take(goal_parts.len() as int) =~= goal_parts);
        }
        let c = arr_close_part();
        append_bytes(&mut raw, c.as_slice());
        proof {
            assert(raw@ =~= from_fields_raw(id, deckv, sync, tagsv));
        }
        FlashCardMetaData { raw, id, sync, deck, tags }
    }
}

} // verus!
