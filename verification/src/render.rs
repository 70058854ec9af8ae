//! The textual bridge-hand layout.
//!
//! A sorted hand renders as four segments, one per suit in descending suit
//! order (spades first, clubs last), each of the form
//! `"<suit-glyph> <rank-glyphs high to low>"`; a suit with no cards shows a
//! single placeholder character instead of rank glyphs.  Segments are
//! joined with single spaces.
use vstd::prelude::*;

use crate::card::{rank_char, rank_glyph_str, suit_char, suit_glyph_str, valid_card, valid_suit,
    Card};
use crate::sorting::{count_suit, sort_spec, suit_block, suit_cards};

verus! {

/// The rank glyphs of a group of cards, in the group's order.
pub open spec fn rank_glyphs(cs: Seq<Card>) -> Seq<char> {
    cs.map_values(|c: Card| rank_char(c.rank as int))
}

/// One suit's segment: the suit glyph, a space, then the rank glyphs of
/// that suit's cards — or a single placeholder when the suit is empty.
pub open spec fn segment_spec(s: Seq<Card>, suit: int) -> Seq<char> {
    seq![suit_char(suit), ' '] + if suit_cards(s, suit).len() == 0 {
        seq!['_']
    } else {
        rank_glyphs(suit_cards(s, suit))
    }
}

/// The full layout: the four suit segments in descending suit order,
/// joined with single spaces.
pub open spec fn hand_repr_spec(s: Seq<Card>) -> Seq<char> {
    segment_spec(s, 4) + seq![' '] + segment_spec(s, 3) + seq![' '] + segment_spec(s, 2)
        + seq![' '] + segment_spec(s, 1)
}

/// Every segment begins with its suit's glyph followed by a space, and an
/// empty suit renders as the glyph, a space and the placeholder.
pub proof fn lemma_segment_structure(s: Seq<Card>, suit: int)
    ensures
        segment_spec(s, suit).len() >= 3,
        segment_spec(s, suit)[0] == suit_char(suit),
        segment_spec(s, suit)[1] == ' ',
        suit_cards(s, suit).len() == 0 ==> segment_spec(s, suit) == seq![
            suit_char(suit),
            ' ',
            '_',
        ],
        suit_cards(s, suit).len() > 0 ==> segment_spec(s, suit).len() == 2 + suit_cards(
            s,
            suit,
        ).len(),
{
    if suit_cards(s, suit).len() == 0 {
        assert(segment_spec(s, suit) =~= seq![suit_char(suit), ' ', '_']);
    }
}

/// Round trip between formatting and independent grouping: each segment of
/// the formatted sorted hand shows exactly the cards found by filtering the
/// unsorted hand by that suit, rank descending.
pub proof fn lemma_format_round_trip(h: Seq<Card>, u: int)
    requires
        valid_suit(u),
    ensures
        segment_spec(sort_spec(h), u) == seq![suit_char(u), ' '] + (if suit_block(h, u).len()
            == 0 {
            seq!['_']
        } else {
            rank_glyphs(suit_block(h, u))
        }),
{
    crate::sorting::lemma_sort_groups_by_suit(h, u);
}

/// The segments for suits 4 down to `suit + 1`, each followed by its
/// joining space: what the formatter has emitted before it starts `suit`.
spec fn segments_above(s: Seq<Card>, suit: int) -> Seq<char>
    decreases 5 - suit,
{
    if suit >= 4 {
        Seq::empty()
    } else {
        segments_above(s, suit + 1) + segment_spec(s, suit + 1) + seq![' ']
    }
}

proof fn lemma_segments_assemble(s: Seq<Card>)
    ensures
        segments_above(s, 1) + segment_spec(s, 1) == hand_repr_spec(s),
{
    assert(segments_above(s, 4) =~= Seq::<char>::empty());
    assert(segments_above(s, 3) == segments_above(s, 4) + segment_spec(s, 4) + seq![' ']);
    assert(segments_above(s, 2) == segments_above(s, 3) + segment_spec(s, 3) + seq![' ']);
    assert(segments_above(s, 1) == segments_above(s, 2) + segment_spec(s, 2) + seq![' ']);
    assert(segments_above(s, 1) + segment_spec(s, 1) =~= hand_repr_spec(s));
}

/// Renders a sorted hand as the classic bridge hand diagram: four suit
/// segments in descending suit order, joined with single spaces, an empty
/// suit shown as the placeholder.
pub fn hand_repr(sorted: &[Card]) -> (r: String)
    requires
        forall|i: int| 0 <= i < sorted@.len() ==> valid_card(#[trigger] sorted@[i]),
    ensures
        r@ == hand_repr_spec(sorted@),
{
    let ghost s = sorted@;
    let mut out = String::new();
    let mut suit: usize = 4;
    proof {
        reveal_strlit(" ");
        reveal_strlit("_");
        assert(out@ =~= segments_above(s, 4));
    }
    while suit >= 1
        invariant
            suit <= 4,
            s == sorted@,
            forall|i: int| 0 <= i < s.len() ==> valid_card(#[trigger] s[i]),
            suit >= 1 ==> out@ == segments_above(s, suit as int),
            suit == 0 ==> out@ == segments_above(s, 1) + segment_spec(s, 1),
        decreases suit,
    {
        let ghost emitted = out@;
        out.append(suit_glyph_str(suit));
        out.append(" ");
        let ghost base = out@;
        proof {
            reveal_strlit(" ");
            assert(base =~= emitted + seq![suit_char(suit as int), ' ']);
        }
        if count_suit(sorted, suit) == 0 {
            out.append("_");
            proof {
                reveal_strlit("_");
                assert(out@ =~= emitted + segment_spec(s, suit as int));
            }
        } else {
            let mut k: usize = 0;
            proof {
                reveal(Seq::filter);
                assert(s.take(0) =~= Seq::<Card>::empty());
                assert(suit_cards(s.take(0), suit as int) =~= Seq::<Card>::empty());
                assert(out@ =~= base + rank_glyphs(suit_cards(s.take(0), suit as int)));
            }
            while k < sorted.len()
                invariant
                    k <= s.len(),
                    s == sorted@,
                    forall|i: int| 0 <= i < s.len() ==> valid_card(#[trigger] s[i]),
                    1 <= suit <= 4,
                    out@ == base + rank_glyphs(suit_cards(s.take(k as int), suit as int)),
                decreases s.len() - k,
            {
                proof {
                    broadcast use vstd::prelude::Seq::lemma_filter_push;

                    assert(s.take(k as int + 1) =~= s.take(k as int).push(s[k as int]));
                }
                if sorted[k].suit == suit {
                    out.append(rank_glyph_str(sorted[k].rank));
                    proof {
                        assert(rank_glyphs(suit_cards(s.take(k as int + 1), suit as int)) =~=
                        rank_glyphs(suit_cards(s.take(k as int), suit as int)).push(
                            rank_char(s[k as int].rank as int),
                        ));
                    }
                } else {
                    proof {
                        assert(suit_cards(s.take(k as int + 1), suit as int) == suit_cards(
                            s.take(k as int),
                            suit as int,
                        ));
                    }
                }
                k += 1;
            }
            proof {
                assert(s.take(s.len() as int) =~= s);
                assert(out@ =~= emitted + segment_spec(s, suit as int));
            }
        }
        if suit > 1 {
            out.append(" ");
            proof {
                reveal_strlit(" ");
                assert(out@ =~= segments_above(s, suit as int - 1));
            }
        }
        suit -= 1;
    }
    proof {
        lemma_segments_assemble(s);
    }
    out
}

} // verus!
