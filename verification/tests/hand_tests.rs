use brpts::card::{rank_codes, rank_repr, suit_codes, suit_repr, Card};
use brpts::deck::{new_deck, new_hand, new_shuffled_deck};
use brpts::render::hand_repr;
use brpts::score::{face_card_points, long_suit_points, short_suit_points, total_points};
use brpts::sorting::{count_suit, sort_hand};

fn card(rank: usize, suit: usize) -> Card {
    Card { rank, suit }
}

/// All thirteen spades, given out of order.
fn all_spades() -> Vec<Card> {
    vec![
        card(7, 4),
        card(14, 4),
        card(2, 4),
        card(13, 4),
        card(10, 4),
        card(12, 4),
        card(3, 4),
        card(11, 4),
        card(9, 4),
        card(4, 4),
        card(8, 4),
        card(5, 4),
        card(6, 4),
    ]
}

/// A balanced 3-3-3-4 hand with no card above a ten.
fn balanced_low_hand() -> Vec<Card> {
    vec![
        card(2, 1),
        card(3, 1),
        card(4, 1),
        card(2, 2),
        card(3, 2),
        card(4, 2),
        card(2, 3),
        card(3, 3),
        card(4, 3),
        card(2, 4),
        card(3, 4),
        card(4, 4),
        card(5, 4),
    ]
}

#[test]
fn test_ten_repr() {
    assert_eq!(rank_repr(10), "\u{2469}");
}

#[test]
fn test_rank_glyphs_nonempty_distinct() {
    let codes = rank_codes();
    assert_eq!(codes, vec![2, 3, 4, 5, 6, 7, 8, 9, 10, 11, 12, 13, 14]);
    for &r in &codes {
        assert!(!rank_repr(r).is_empty());
    }
    for &a in &codes {
        for &b in &codes {
            if a != b {
                assert_ne!(rank_repr(a), rank_repr(b));
            }
        }
    }
}

#[test]
fn test_suit_glyphs_distinct() {
    let codes = suit_codes();
    assert_eq!(codes, vec![1, 2, 3, 4]);
    assert_eq!(suit_repr(1), "\u{2663}");
    assert_eq!(suit_repr(2), "\u{2666}");
    assert_eq!(suit_repr(3), "\u{2665}");
    assert_eq!(suit_repr(4), "\u{2660}");
}

#[test]
fn test_build_deck_covers_every_card_once() {
    let deck = new_deck();
    assert_eq!(deck.len(), 52);
    for suit in 1..=4 {
        for rank in 2..=14 {
            let n: usize = deck
                .iter()
                .filter(|c| c.rank == rank && c.suit == suit)
                .count();
            assert_eq!(n, 1);
        }
    }
}

#[test]
fn test_shuffled_deck_is_permutation() {
    let deck = new_shuffled_deck();
    assert_eq!(deck.len(), 52);
    for suit in 1..=4 {
        for rank in 2..=14 {
            let n: usize = deck
                .iter()
                .filter(|c| c.rank == rank && c.suit == suit)
                .count();
            assert_eq!(n, 1);
        }
    }
}

#[test]
fn test_deal_hand_thirteen_distinct() {
    for _ in 0..5 {
        let hand = new_hand();
        assert_eq!(hand.len(), 13);
        for i in 0..hand.len() {
            let c = hand[i];
            assert!((2..=14).contains(&c.rank));
            assert!((1..=4).contains(&c.suit));
            for j in 0..i {
                assert!(hand[j] != c);
            }
        }
    }
}

#[test]
fn test_deal_hand_varies() {
    let a = new_hand();
    let b = new_hand();
    let c = new_hand();
    assert!(a != b || b != c);
}

#[test]
fn test_sort_hand_order() {
    let hand = vec![card(2, 4), card(14, 1), card(10, 2), card(14, 2), card(3, 1)];
    let sorted = sort_hand(&hand);
    let expected = vec![card(14, 1), card(3, 1), card(14, 2), card(10, 2), card(2, 4)];
    assert_eq!(sorted, expected);
}

#[test]
fn test_sort_hand_deterministic_and_idempotent() {
    let hand = all_spades();
    let mut reordered = hand.clone();
    reordered.reverse();
    let once = sort_hand(&hand);
    let from_reordered = sort_hand(&reordered);
    assert_eq!(once, from_reordered);
    let twice = sort_hand(&once);
    assert_eq!(once, twice);
}

#[test]
fn test_format_empty_hand_all_placeholders() {
    let sorted = sort_hand(&[]);
    assert_eq!(
        hand_repr(&sorted),
        "\u{2660} _ \u{2665} _ \u{2666} _ \u{2663} _"
    );
}

#[test]
fn test_format_all_spades() {
    let sorted = sort_hand(&all_spades());
    assert_eq!(
        hand_repr(&sorted),
        "\u{2660} AKQJ\u{2469}98765432 \u{2665} _ \u{2666} _ \u{2663} _"
    );
}

#[test]
fn test_format_mixed_hand() {
    let hand = vec![card(2, 1), card(14, 1), card(7, 3), card(10, 3), card(11, 4)];
    let sorted = sort_hand(&hand);
    assert_eq!(
        hand_repr(&sorted),
        "\u{2660} J \u{2665} \u{2469}7 \u{2666} _ \u{2663} A2"
    );
}

#[test]
fn test_format_round_trip_matches_suit_filters() {
    let hand = vec![
        card(5, 1),
        card(9, 1),
        card(12, 2),
        card(2, 2),
        card(10, 2),
        card(14, 3),
        card(3, 3),
        card(6, 3),
        card(8, 3),
        card(13, 4),
        card(4, 4),
        card(7, 4),
        card(11, 4),
    ];
    let formatted = hand_repr(&sort_hand(&hand));
    let mut segments: Vec<String> = Vec::new();
    for suit in [4, 3, 2, 1] {
        let mut ranks: Vec<usize> = hand
            .iter()
            .filter(|c| c.suit == suit)
            .map(|c| c.rank)
            .collect();
        ranks.sort();
        ranks.reverse();
        let glyphs: String = if ranks.is_empty() {
            "_".to_string()
        } else {
            ranks.iter().map(|&r| rank_repr(r)).collect::<Vec<_>>().join("")
        };
        segments.push(format!("{} {}", suit_repr(suit), glyphs));
    }
    assert_eq!(formatted, segments.join(" "));
}

#[test]
fn test_count_suit() {
    let hand = balanced_low_hand();
    assert_eq!(count_suit(&hand, 1), 3);
    assert_eq!(count_suit(&hand, 2), 3);
    assert_eq!(count_suit(&hand, 3), 3);
    assert_eq!(count_suit(&hand, 4), 4);
}

#[test]
fn test_scores_all_spades() {
    let hand = all_spades();
    assert_eq!(face_card_points(&hand), 10);
    assert_eq!(long_suit_points(&hand), 9);
    assert_eq!(short_suit_points(&hand), 9);
    assert_eq!(total_points(&hand), 28);
}

#[test]
fn test_scores_balanced_no_face_cards() {
    let hand = balanced_low_hand();
    assert_eq!(face_card_points(&hand), 0);
    assert_eq!(long_suit_points(&hand), 0);
    assert_eq!(short_suit_points(&hand), 0);
    assert_eq!(total_points(&hand), 0);
}

#[test]
fn test_scores_void_and_exact_four() {
    // Spades 5, hearts 4, diamonds 4, clubs void.
    let hand = vec![
        card(2, 4),
        card(3, 4),
        card(4, 4),
        card(5, 4),
        card(6, 4),
        card(2, 3),
        card(3, 3),
        card(4, 3),
        card(5, 3),
        card(2, 2),
        card(3, 2),
        card(4, 2),
        card(5, 2),
    ];
    assert_eq!(long_suit_points(&hand), 1);
    assert_eq!(short_suit_points(&hand), 3);
    assert_eq!(face_card_points(&hand), 0);
    assert_eq!(total_points(&hand), 4);
}

#[test]
fn test_scores_singleton_and_doubleton() {
    // Spades 1, hearts 2, diamonds 4, clubs 6.
    let hand = vec![
        card(2, 4),
        card(2, 3),
        card(3, 3),
        card(2, 2),
        card(3, 2),
        card(4, 2),
        card(5, 2),
        card(2, 1),
        card(3, 1),
        card(4, 1),
        card(5, 1),
        card(6, 1),
        card(7, 1),
    ];
    assert_eq!(short_suit_points(&hand), 3);
    assert_eq!(long_suit_points(&hand), 2);
    assert_eq!(face_card_points(&hand), 0);
    assert_eq!(total_points(&hand), 5);
}

#[test]
fn test_face_card_points_each_honour() {
    assert_eq!(face_card_points(&[card(11, 1)]), 1);
    assert_eq!(face_card_points(&[card(12, 1)]), 2);
    assert_eq!(face_card_points(&[card(13, 1)]), 3);
    assert_eq!(face_card_points(&[card(14, 1)]), 4);
    assert_eq!(face_card_points(&[card(10, 1)]), 0);
}

#[test]
fn test_dealt_hand_scores_consistently() {
    let hand = new_hand();
    let f: usize = face_card_points(&hand);
    let l: usize = long_suit_points(&hand);
    let s: usize = short_suit_points(&hand);
    assert_eq!(total_points(&hand), f + l + s);
    let n: usize = (1..=4).map(|u| count_suit(&hand, u)).sum();
    assert_eq!(n, 13);
}
