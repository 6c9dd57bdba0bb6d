//! Suits carry no rank: renaming the suits of a hand (by any one-to-one
//! map of the four suits) does not change its score.

use vstd::prelude::*;
use vstd::multiset::Multiset;
use crate::game::eval::{
    cell_count, flush_suit, hand_cards, hand_score, rank_count, ranks_counted, ranks_in_suit,
    ranks_present, ranks_present_except, suit_count, suit_count_below, suited_ranks,
};
use crate::game::holdem::{
    card_of, lemma_card_of_injective, lemma_card_of_values, lemma_rank_value_roundtrip,
    lemma_suit_value_roundtrip, rank_value, suit_value, Card,
};

verus! {

broadcast use vstd::seq_lib::group_to_multiset_ensures;

/// `perm` maps each suit value (0 to 3) to a suit value, no two alike.
pub open spec fn is_suit_perm(perm: Seq<int>) -> bool {
    &&& perm.len() == 4
    &&& forall|i: int| 0 <= i < 4 ==> 0 <= #[trigger] perm[i] < 4
    &&& forall|i: int, j: int| 0 <= i < j < 4 ==> perm[i] != perm[j]
}

/// The card with the same rank and the suit `perm` gives its suit.
pub open spec fn relabel(c: Card, perm: Seq<int>) -> Card {
    card_of(rank_value(c.rank), perm[suit_value(c.suit)])
}

/// Every card of `cards` relabelled.
pub open spec fn relabel_all(cards: Seq<Card>, perm: Seq<int>) -> Seq<Card> {
    cards.map_values(|c: Card| relabel(c, perm))
}

/// The suit that `perm` maps to `t`.
proof fn perm_preimage(perm: Seq<int>, t: int) -> (s: int)
    requires
        is_suit_perm(perm),
        0 <= t < 4,
    ensures
        0 <= s < 4,
        perm[s] == t,
{
    assert(0 <= perm[0] < 4 && 0 <= perm[1] < 4 && 0 <= perm[2] < 4 && 0 <= perm[3] < 4);
    assert(perm[0] != perm[1] && perm[0] != perm[2] && perm[0] != perm[3]);
    assert(perm[1] != perm[2] && perm[1] != perm[3] && perm[2] != perm[3]);
    if perm[0] == t {
        0
    } else if perm[1] == t {
        1
    } else if perm[2] == t {
        2
    } else {
        3
    }
}

/// Summing over the suits in `perm`'s order gives the same total.
proof fn lemma_perm_sum(perm: Seq<int>, f: spec_fn(int) -> int)
    requires
        is_suit_perm(perm),
    ensures
        f(perm[0]) + f(perm[1]) + f(perm[2]) + f(perm[3]) == f(0) + f(1) + f(2) + f(3),
{
    assert(0 <= perm[0] < 4 && 0 <= perm[1] < 4 && 0 <= perm[2] < 4 && 0 <= perm[3] < 4);
    assert(perm[0] != perm[1] && perm[0] != perm[2] && perm[0] != perm[3]);
    assert(perm[1] != perm[2] && perm[1] != perm[3] && perm[2] != perm[3]);
}

/// A relabelled card is the card (r, perm[s]) exactly when the card is (r, s).
proof fn lemma_relabel_hits(x: Card, perm: Seq<int>, r: int, s: int)
    requires
        is_suit_perm(perm),
        0 <= r < 13,
        0 <= s < 4,
    ensures
        (relabel(x, perm) == card_of(r, perm[s])) == (x == card_of(r, s)),
{
    lemma_rank_value_roundtrip(x.rank);
    lemma_suit_value_roundtrip(x.suit);
    lemma_card_of_values(x);
    let xr = rank_value(x.rank);
    let xs = suit_value(x.suit);
    if relabel(x, perm) == card_of(r, perm[s]) {
        lemma_card_of_injective(xr, perm[xs], r, perm[s]);
        if xs != s {
            if xs < s {
                assert(perm[xs] != perm[s]);
            } else {
                assert(perm[s] != perm[xs]);
            }
        }
    }
    if x == card_of(r, s) {
        lemma_card_of_injective(xr, xs, r, s);
    }
}

/// Relabelling moves each card count from suit `s` to suit `perm[s]`.
proof fn lemma_relabel_cell(cards: Seq<Card>, perm: Seq<int>, r: int, s: int)
    requires
        is_suit_perm(perm),
        0 <= r < 13,
        0 <= s < 4,
    ensures
        cell_count(relabel_all(cards, perm).to_multiset(), r, perm[s]) == cell_count(
            cards.to_multiset(),
            r,
            s,
        ),
    decreases cards.len(),
{
    if cards.len() == 0 {
        assert(relabel_all(cards, perm) =~= Seq::<Card>::empty());
        assert(cards.to_multiset() =~= Multiset::<Card>::empty());
        assert(relabel_all(cards, perm).to_multiset() =~= Multiset::<Card>::empty());
    } else {
        let pre = cards.drop_last();
        let x = cards.last();
        lemma_relabel_cell(pre, perm, r, s);
        assert(cards =~= pre.push(x));
        assert(relabel_all(cards, perm) =~= relabel_all(pre, perm).push(relabel(x, perm)));
        lemma_relabel_hits(x, perm, r, s);
    }
}

proof fn lemma_relabel_suit_below(cards: Seq<Card>, perm: Seq<int>, s: int, n: int)
    requires
        is_suit_perm(perm),
        0 <= s < 4,
        n <= 13,
    ensures
        suit_count_below(relabel_all(cards, perm).to_multiset(), perm[s], n) == suit_count_below(
            cards.to_multiset(),
            s,
            n,
        ),
    decreases n,
{
    if n > 0 {
        lemma_relabel_suit_below(cards, perm, s, n - 1);
        lemma_relabel_cell(cards, perm, n - 1, s);
    }
}

/// Adding a card adds one to the count of its suit below its rank's limit.
proof fn lemma_suit_below_insert(m: Multiset<Card>, x: Card, s: int, n: int)
    requires
        0 <= s < 4,
        n <= 13,
    ensures
        suit_count_below(m.insert(x), s, n) == suit_count_below(m, s, n) + (if suit_value(x.suit)
            == s && rank_value(x.rank) < n {
            1int
        } else {
            0
        }),
    decreases n,
{
    if n > 0 {
        lemma_suit_below_insert(m, x, s, n - 1);
        lemma_rank_value_roundtrip(x.rank);
        lemma_suit_value_roundtrip(x.suit);
        lemma_card_of_values(x);
        if x == card_of(n - 1, s) {
            lemma_card_of_injective(rank_value(x.rank), suit_value(x.suit), n - 1, s);
        }
    }
}

proof fn lemma_suit_below_empty(s: int, n: int)
    ensures
        suit_count_below(Multiset::<Card>::empty(), s, n) == 0,
    decreases n,
{
    if n > 0 {
        lemma_suit_below_empty(s, n - 1);
    }
}

/// The four suit counts add up to the number of cards.
pub(crate) proof fn lemma_suit_counts_total(cards: Seq<Card>)
    ensures
        suit_count(cards.to_multiset(), 0) + suit_count(cards.to_multiset(), 1) + suit_count(
            cards.to_multiset(),
            2,
        ) + suit_count(cards.to_multiset(), 3) == cards.len(),
    decreases cards.len(),
{
    if cards.len() == 0 {
        assert(cards.to_multiset() =~= Multiset::<Card>::empty());
        lemma_suit_below_empty(0, 13);
        lemma_suit_below_empty(1, 13);
        lemma_suit_below_empty(2, 13);
        lemma_suit_below_empty(3, 13);
    } else {
        let pre = cards.drop_last();
        let x = cards.last();
        lemma_suit_counts_total(pre);
        assert(cards =~= pre.push(x));
        let m = pre.to_multiset();
        lemma_suit_below_insert(m, x, 0, 13);
        lemma_suit_below_insert(m, x, 1, 13);
        lemma_suit_below_insert(m, x, 2, 13);
        lemma_suit_below_insert(m, x, 3, 13);
        lemma_rank_value_roundtrip(x.rank);
        lemma_suit_value_roundtrip(x.suit);
    }
}

proof fn lemma_relabel_suited_ranks(cards: Seq<Card>, perm: Seq<int>, fs: int, lo: int)
    requires
        is_suit_perm(perm),
        0 <= fs < 4,
        0 <= lo,
    ensures
        suited_ranks(relabel_all(cards, perm).to_multiset(), perm[fs], lo) == suited_ranks(
            cards.to_multiset(),
            fs,
            lo,
        ),
    decreases 13 - lo,
{
    if lo < 13 {
        lemma_relabel_suited_ranks(cards, perm, fs, lo + 1);
        lemma_relabel_cell(cards, perm, lo, fs);
    }
}

#[verifier::spinoff_prover]
proof fn lemma_relabel_rank_counts(cards: Seq<Card>, perm: Seq<int>)
    requires
        is_suit_perm(perm),
    ensures
        ({
            let m = cards.to_multiset();
            let m2 = relabel_all(cards, perm).to_multiset();
            &&& ranks_present(m2) == ranks_present(m)
            &&& ranks_counted(m2, 2) == ranks_counted(m, 2)
            &&& ranks_counted(m2, 3) == ranks_counted(m, 3)
            &&& ranks_counted(m2, 4) == ranks_counted(m, 4)
            &&& forall|a: int, b: int| #[trigger] ranks_present_except(m2, a, b) == ranks_present_except(m, a, b)
        }),
{
    let m = cards.to_multiset();
    let m2 = relabel_all(cards, perm).to_multiset();
    assert forall|r: int| 0 <= r < 13 implies #[trigger] rank_count(m2, r) == rank_count(m, r) by {
        lemma_relabel_cell(cards, perm, r, 0);
        lemma_relabel_cell(cards, perm, r, 1);
        lemma_relabel_cell(cards, perm, r, 2);
        lemma_relabel_cell(cards, perm, r, 3);
        lemma_perm_sum(perm, |t: int| cell_count(m2, r, t) as int);
    }
    assert(ranks_present(m2) =~= ranks_present(m));
    assert(ranks_counted(m2, 2) =~= ranks_counted(m, 2));
    assert(ranks_counted(m2, 3) =~= ranks_counted(m, 3));
    assert(ranks_counted(m2, 4) =~= ranks_counted(m, 4));
    assert forall|a: int, b: int| #[trigger] ranks_present_except(m2, a, b) == ranks_present_except(m, a, b) by {
        assert(ranks_present_except(m2, a, b) =~= ranks_present_except(m, a, b));
    }
}

#[verifier::spinoff_prover]
proof fn lemma_relabel_flush(cards: Seq<Card>, perm: Seq<int>)
    requires
        cards.len() <= 7,
        is_suit_perm(perm),
    ensures
        ({
            let m = cards.to_multiset();
            let m2 = relabel_all(cards, perm).to_multiset();
            match flush_suit(m) {
                Some(fs) => {
                    &&& 0 <= fs < 4
                    &&& flush_suit(m2) == Some(perm[fs])
                    &&& ranks_in_suit(m2, perm[fs]) == ranks_in_suit(m, fs)
                    &&& suited_ranks(m2, perm[fs], 0) == suited_ranks(m, fs, 0)
                },
                None => flush_suit(m2) is None,
            }
        }),
{
    let m = cards.to_multiset();
    let m2 = relabel_all(cards, perm).to_multiset();
    lemma_suit_counts_total(cards);
    let t0 = perm_preimage(perm, 0);
    let t1 = perm_preimage(perm, 1);
    let t2 = perm_preimage(perm, 2);
    let t3 = perm_preimage(perm, 3);
    lemma_relabel_suit_below(cards, perm, t0, 13);
    lemma_relabel_suit_below(cards, perm, t1, 13);
    lemma_relabel_suit_below(cards, perm, t2, 13);
    lemma_relabel_suit_below(cards, perm, t3, 13);
    assert(t0 != t1 && t0 != t2 && t0 != t3 && t1 != t2 && t1 != t3 && t2 != t3);
    match flush_suit(m) {
        Some(fs) => {
            lemma_relabel_suit_below(cards, perm, fs, 13);
            assert(flush_suit(m2) == Some(perm[fs]));
            assert(ranks_in_suit(m2, perm[fs]) =~= ranks_in_suit(m, fs)) by {
                assert forall|r: int| 0 <= r < 13 implies cell_count(m2, r, perm[fs]) == cell_count(m, r, fs) by {
                    lemma_relabel_cell(cards, perm, r, fs);
                }
            }
            lemma_relabel_suited_ranks(cards, perm, fs, 0);
        },
        None => {
        },
    }
}

/// Renaming the suits of up to seven cards by a one-to-one map of the four
/// suits leaves the hand's score unchanged.
pub proof fn lemma_hand_score_suit_free(cards: Seq<Card>, perm: Seq<int>)
    requires
        cards.len() <= 7,
        is_suit_perm(perm),
    ensures
        hand_score(relabel_all(cards, perm).to_multiset()) == hand_score(cards.to_multiset()),
{
    lemma_relabel_rank_counts(cards, perm);
    lemma_relabel_flush(cards, perm);
}

/// The same for a hand of two hole cards and a board: relabelling every card
/// leaves the score unchanged.
pub proof fn lemma_hand_suit_free(hole: Seq<Card>, board: Seq<Card>, perm: Seq<int>)
    requires
        hole.len() == 2,
        is_suit_perm(perm),
    ensures
        hand_score(hand_cards(relabel_all(hole, perm), relabel_all(board, perm)).to_multiset())
            == hand_score(hand_cards(hole, board).to_multiset()),
{
    let cards = hand_cards(hole, board);
    assert(hand_cards(relabel_all(hole, perm), relabel_all(board, perm)) =~= relabel_all(
        cards,
        perm,
    ));
    lemma_hand_score_suit_free(cards, perm);
}

} // verus!
