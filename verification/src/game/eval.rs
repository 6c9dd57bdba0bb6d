//! Seven-card poker hand evaluation.
//!
//! A score is `category << 32` plus tie-break fields, so that a larger score
//! is a better hand. Categories: 8 straight flush, 7 four of a kind, 6 full
//! house, 5 flush, 4 straight, 3 three of a kind, 2 two pair, 1 one pair,
//! 0 high card.

use vstd::prelude::*;
use vstd::multiset::Multiset;
use crate::game::holdem::{
    card_of, lemma_card_of_injective, lemma_card_of_values, rank_value, suit_value, Card,
};

verus! {

broadcast use vstd::seq_lib::group_to_multiset_ensures;

/// The cards a hand is made of: both hole cards and at most five board cards.
pub open spec fn hand_cards(hole: Seq<Card>, board: Seq<Card>) -> Seq<Card> {
    seq![hole[0], hole[1]] + board.take(if board.len() < 5 { board.len() as int } else { 5 })
}

/// How many copies of the card (rank `r`, suit `s`) the hand holds.
pub open spec fn cell_count(m: Multiset<Card>, r: int, s: int) -> nat {
    m.count(card_of(r, s))
}

/// How many cards of rank `r` the hand holds.
pub open spec fn rank_count(m: Multiset<Card>, r: int) -> nat {
    cell_count(m, r, 0) + cell_count(m, r, 1) + cell_count(m, r, 2) + cell_count(m, r, 3)
}

/// How many cards of suit `s` with rank value below `n` the hand holds.
pub open spec fn suit_count_below(m: Multiset<Card>, s: int, n: int) -> nat
    decreases n,
{
    if n <= 0 {
        0
    } else {
        suit_count_below(m, s, n - 1) + cell_count(m, n - 1, s)
    }
}

/// How many cards of suit `s` the hand holds.
pub open spec fn suit_count(m: Multiset<Card>, s: int) -> nat {
    suit_count_below(m, s, 13)
}

/// The first suit (in suit order) holding at least five of the hand's cards.
pub open spec fn flush_suit(m: Multiset<Card>) -> Option<int> {
    if suit_count(m, 0) >= 5 {
        Some(0)
    } else if suit_count(m, 1) >= 5 {
        Some(1)
    } else if suit_count(m, 2) >= 5 {
        Some(2)
    } else if suit_count(m, 3) >= 5 {
        Some(3)
    } else {
        None
    }
}

/// Five consecutive ranks ending at `h` are all marked in `p`.
pub open spec fn run_of_five(p: Seq<bool>, h: int) -> bool {
    p[h] && p[h - 1] && p[h - 2] && p[h - 3] && p[h - 4]
}

/// The highest top rank `<= h` of five consecutive marked ranks, falling back
/// to the wheel (A-2-3-4-5, top rank value 3).
pub open spec fn straight_from(p: Seq<bool>, h: int) -> Option<int>
    decreases h,
{
    if h < 4 {
        if p[12] && p[0] && p[1] && p[2] && p[3] {
            Some(3)
        } else {
            None
        }
    } else if run_of_five(p, h) {
        Some(h)
    } else {
        straight_from(p, h - 1)
    }
}

/// The top rank of the best straight among the marked ranks, if any.
pub open spec fn straight_high(p: Seq<bool>) -> Option<int> {
    straight_from(p, 12)
}

/// The marked rank values in `[lo, 13)`, highest first.
pub open spec fn desc_marked(p: Seq<bool>, lo: int) -> Seq<u64>
    decreases 13 - lo,
{
    if lo >= 13 {
        Seq::empty()
    } else if p[lo] {
        desc_marked(p, lo + 1).push(lo as u64)
    } else {
        desc_marked(p, lo + 1)
    }
}

/// Element `i` of `s`, or 0 past its end.
pub open spec fn at_or_zero(s: Seq<u64>, i: int) -> int {
    if 0 <= i < s.len() {
        s[i] as int
    } else {
        0
    }
}

/// The ranks of the hand's cards of suit `fs` in `[lo, 13)`, highest first,
/// each repeated as often as the hand holds it.
pub open spec fn suited_ranks(m: Multiset<Card>, fs: int, lo: int) -> Seq<u64>
    decreases 13 - lo,
{
    if lo >= 13 {
        Seq::empty()
    } else {
        suited_ranks(m, fs, lo + 1) + Seq::new(cell_count(m, lo, fs), |j: int| lo as u64)
    }
}

/// The first five entries of `s`, four bits each, the first in the highest place.
pub open spec fn pack5(s: Seq<u64>) -> int {
    at_or_zero(s, 0) * 0x10000 + at_or_zero(s, 1) * 0x1000 + at_or_zero(s, 2) * 0x100
        + at_or_zero(s, 3) * 0x10 + at_or_zero(s, 4)
}

/// A score of category `cat` with tie-break fields `a` (bits 16..), `b` (bits 8..) and `c`.
pub open spec fn score_of(cat: int, a: int, b: int, c: int) -> int {
    cat * 0x1_0000_0000 + a * 0x10000 + b * 0x100 + c
}

pub open spec fn ranks_present(m: Multiset<Card>) -> Seq<bool> {
    Seq::new(13, |r: int| rank_count(m, r) > 0)
}

pub open spec fn ranks_counted(m: Multiset<Card>, k: nat) -> Seq<bool> {
    Seq::new(13, |r: int| rank_count(m, r) == k)
}

pub open spec fn ranks_present_except(m: Multiset<Card>, a: int, b: int) -> Seq<bool> {
    Seq::new(13, |r: int| rank_count(m, r) > 0 && r != a && r != b)
}

pub open spec fn ranks_in_suit(m: Multiset<Card>, fs: int) -> Seq<bool> {
    Seq::new(13, |r: int| cell_count(m, r, fs) > 0)
}

/// The score of a hand, as a function of which cards it holds.
pub open spec fn hand_score(m: Multiset<Card>) -> int {
    let quads = desc_marked(ranks_counted(m, 4), 0);
    let trips = desc_marked(ranks_counted(m, 3), 0);
    let pairs = desc_marked(ranks_counted(m, 2), 0);
    let fsuit = flush_suit(m);
    let straight = straight_high(ranks_present(m));
    if fsuit is Some && straight_high(ranks_in_suit(m, fsuit->0)) is Some {
        score_of(8, 0, 0, straight_high(ranks_in_suit(m, fsuit->0))->0)
    } else if quads.len() > 0 {
        let q = quads[0] as int;
        score_of(7, q, 0, at_or_zero(desc_marked(ranks_present_except(m, q, q), 0), 0))
    } else if trips.len() > 0 && (pairs.len() > 0 || trips.len() > 1) {
        let t = trips[0] as int;
        let p = if trips.len() > 1 { trips[1] as int } else { pairs[0] as int };
        score_of(6, t, 0, p)
    } else if fsuit is Some {
        score_of(5, 0, 0, 0) + pack5(suited_ranks(m, fsuit->0, 0))
    } else if straight is Some {
        score_of(4, 0, 0, straight->0)
    } else if trips.len() > 0 {
        let t = trips[0] as int;
        let ks = desc_marked(ranks_present_except(m, t, t), 0);
        score_of(3, t, at_or_zero(ks, 0), at_or_zero(ks, 1))
    } else if pairs.len() >= 2 {
        let p1 = pairs[0] as int;
        let p2 = pairs[1] as int;
        score_of(2, p1, p2, at_or_zero(desc_marked(ranks_present_except(m, p1, p2), 0), 0))
    } else if pairs.len() >= 1 {
        let p = pairs[0] as int;
        let ks = desc_marked(ranks_present_except(m, p, p), 0);
        score_of(1, p, at_or_zero(ks, 0), at_or_zero(ks, 1))
    } else {
        pack5(desc_marked(ranks_present(m), 0))
    }
}

/// The hand category (0 high card .. 8 straight flush) of a score.
pub open spec fn score_category(score: int) -> int {
    score / 0x1_0000_0000
}

pub(crate) proof fn lemma_desc_marked_bounds(p: Seq<bool>, lo: int)
    requires
        p.len() == 13,
        0 <= lo,
    ensures
        forall|i: int| 0 <= i < desc_marked(p, lo).len() ==> #[trigger] desc_marked(p, lo)[i] < 13,
        desc_marked(p, lo).len() <= 13,
        lo <= 13 ==> desc_marked(p, lo).len() <= 13 - lo,
    decreases 13 - lo,
{
    if lo < 13 {
        lemma_desc_marked_bounds(p, lo + 1);
    }
}

pub(crate) proof fn lemma_straight_from_bounds(p: Seq<bool>, h: int)
    requires
        p.len() == 13,
        h <= 12,
    ensures
        straight_from(p, h) matches Some(x) ==> 3 <= x <= 12,
    decreases h,
{
    if h >= 4 {
        lemma_straight_from_bounds(p, h - 1);
    }
}

pub(crate) proof fn lemma_suited_ranks_bounds(m: Multiset<Card>, fs: int, lo: int)
    requires
        0 <= lo,
    ensures
        forall|i: int| 0 <= i < suited_ranks(m, fs, lo).len() ==> #[trigger] suited_ranks(m, fs, lo)[i] < 13,
    decreases 13 - lo,
{
    if lo < 13 {
        lemma_suited_ranks_bounds(m, fs, lo + 1);
        let pre = suited_ranks(m, fs, lo + 1);
        let tail = Seq::new(cell_count(m, lo, fs), |j: int| lo as u64);
        assert forall|i: int| 0 <= i < suited_ranks(m, fs, lo).len() implies #[trigger] suited_ranks(
            m,
            fs,
            lo,
        )[i] < 13 by {
            if i >= pre.len() {
                assert(suited_ranks(m, fs, lo)[i] == tail[i - pre.len()]);
            }
        }
    }
}

/// Every hand score lies in category 0 to 8, that is below `9 << 32`.
pub proof fn lemma_hand_score_category(m: Multiset<Card>)
    ensures
        0 <= hand_score(m) < score_of(9, 0, 0, 0),
        0 <= score_category(hand_score(m)) <= 8,
{
    let fsuit = flush_suit(m);
    lemma_desc_marked_bounds(ranks_counted(m, 4), 0);
    lemma_desc_marked_bounds(ranks_counted(m, 3), 0);
    lemma_desc_marked_bounds(ranks_counted(m, 2), 0);
    lemma_desc_marked_bounds(ranks_present(m), 0);
    lemma_straight_from_bounds(ranks_present(m), 12);
    if fsuit is Some {
        lemma_straight_from_bounds(ranks_in_suit(m, fsuit->0), 12);
        lemma_suited_ranks_bounds(m, fsuit->0, 0);
    }
    let quads = desc_marked(ranks_counted(m, 4), 0);
    let trips = desc_marked(ranks_counted(m, 3), 0);
    let pairs = desc_marked(ranks_counted(m, 2), 0);
    if quads.len() > 0 {
        let q = quads[0] as int;
        lemma_desc_marked_bounds(ranks_present_except(m, q, q), 0);
    }
    if trips.len() > 0 {
        let t = trips[0] as int;
        lemma_desc_marked_bounds(ranks_present_except(m, t, t), 0);
    }
    if pairs.len() >= 2 {
        lemma_desc_marked_bounds(ranks_present_except(m, pairs[0] as int, pairs[1] as int), 0);
    }
    if pairs.len() >= 1 {
        lemma_desc_marked_bounds(ranks_present_except(m, pairs[0] as int, pairs[0] as int), 0);
    }
}

/// The tie-break part of a score: what lies below its category.
pub open spec fn score_rest(score: int) -> int {
    score % 0x1_0000_0000
}

pub(crate) proof fn lemma_score_split(cat: int, rest: int)
    requires
        0 <= cat,
        0 <= rest < 0x1_0000_0000,
    ensures
        score_rest(cat * 0x1_0000_0000 + rest) == rest,
        score_category(cat * 0x1_0000_0000 + rest) == cat,
{
    vstd::arithmetic::div_mod::lemma_fundamental_div_mod_converse(
        cat * 0x1_0000_0000 + rest,
        0x1_0000_0000,
        cat,
        rest,
    );
}

/// A score's tie-break fields are rank values: its part below the category
/// stays under `13 << 16`, and a straight's is its top rank alone.
pub proof fn lemma_hand_score_shape(m: Multiset<Card>)
    ensures
        hand_score(m) == score_category(hand_score(m)) * 0x1_0000_0000 + score_rest(hand_score(m)),
        0 <= score_rest(hand_score(m)) < 13 * 0x10000,
        score_category(hand_score(m)) == 4 ==> score_rest(hand_score(m)) < 13,
{
    lemma_hand_score_category(m);
    let fsuit = flush_suit(m);
    lemma_desc_marked_bounds(ranks_counted(m, 4), 0);
    lemma_desc_marked_bounds(ranks_counted(m, 3), 0);
    lemma_desc_marked_bounds(ranks_counted(m, 2), 0);
    lemma_desc_marked_bounds(ranks_present(m), 0);
    lemma_straight_from_bounds(ranks_present(m), 12);
    let quads = desc_marked(ranks_counted(m, 4), 0);
    let trips = desc_marked(ranks_counted(m, 3), 0);
    let pairs = desc_marked(ranks_counted(m, 2), 0);
    let straight = straight_high(ranks_present(m));
    if fsuit is Some {
        lemma_straight_from_bounds(ranks_in_suit(m, fsuit->0), 12);
        lemma_suited_ranks_bounds(m, fsuit->0, 0);
    }
    if fsuit is Some && straight_high(ranks_in_suit(m, fsuit->0)) is Some {
        lemma_score_split(8, straight_high(ranks_in_suit(m, fsuit->0))->0);
    } else if quads.len() > 0 {
        let q = quads[0] as int;
        lemma_desc_marked_bounds(ranks_present_except(m, q, q), 0);
        let k = at_or_zero(desc_marked(ranks_present_except(m, q, q), 0), 0);
        lemma_score_split(7, q * 0x10000 + k);
    } else if trips.len() > 0 && (pairs.len() > 0 || trips.len() > 1) {
        let t = trips[0] as int;
        let p = if trips.len() > 1 {
            trips[1] as int
        } else {
            pairs[0] as int
        };
        lemma_score_split(6, t * 0x10000 + p);
    } else if fsuit is Some {
        let r = suited_ranks(m, fsuit->0, 0);
        assert(0 <= pack5(r) < 13 * 0x10000);
        lemma_score_split(5, pack5(r));
    } else if straight is Some {
        lemma_score_split(4, straight->0);
    } else if trips.len() > 0 {
        let t = trips[0] as int;
        lemma_desc_marked_bounds(ranks_present_except(m, t, t), 0);
        let ks = desc_marked(ranks_present_except(m, t, t), 0);
        lemma_score_split(3, t * 0x10000 + at_or_zero(ks, 0) * 0x100 + at_or_zero(ks, 1));
    } else if pairs.len() >= 2 {
        let p1 = pairs[0] as int;
        let p2 = pairs[1] as int;
        lemma_desc_marked_bounds(ranks_present_except(m, p1, p2), 0);
        let k = at_or_zero(desc_marked(ranks_present_except(m, p1, p2), 0), 0);
        lemma_score_split(2, p1 * 0x10000 + p2 * 0x100 + k);
    } else if pairs.len() >= 1 {
        let p = pairs[0] as int;
        lemma_desc_marked_bounds(ranks_present_except(m, p, p), 0);
        let ks = desc_marked(ranks_present_except(m, p, p), 0);
        lemma_score_split(1, p * 0x10000 + at_or_zero(ks, 0) * 0x100 + at_or_zero(ks, 1));
    } else {
        let r = desc_marked(ranks_present(m), 0);
        assert(0 <= pack5(r) < 13 * 0x10000);
        lemma_score_split(0, pack5(r));
    }
}

/// The category decides first: a hand of a higher category always outscores
/// a hand of a lower one.
pub proof fn lemma_category_dominates(m1: Multiset<Card>, m2: Multiset<Card>)
    requires
        score_category(hand_score(m1)) < score_category(hand_score(m2)),
    ensures
        hand_score(m1) < hand_score(m2),
{
    lemma_hand_score_category(m1);
    lemma_hand_score_category(m2);
}

/// The score depends only on which cards make up the hand: two hands with the
/// same cards, in any order, score the same.
pub proof fn lemma_hand_score_order_free(a: Seq<Card>, b: Seq<Card>)
    requires
        a.to_multiset() =~= b.to_multiset(),
    ensures
        hand_score(a.to_multiset()) == hand_score(b.to_multiset()),
{
}

/// Swapping the two hole cards does not change the score.
pub proof fn lemma_hole_order_irrelevant(h0: Card, h1: Card, board: Seq<Card>)
    ensures
        hand_score(hand_cards(seq![h0, h1], board).to_multiset())
            == hand_score(hand_cards(seq![h1, h0], board).to_multiset()),
{
    let rest = board.take(if board.len() < 5 { board.len() as int } else { 5 });
    vstd::seq_lib::lemma_multiset_commutative(seq![h0, h1], rest);
    vstd::seq_lib::lemma_multiset_commutative(seq![h1, h0], rest);
    assert(seq![h0, h1] =~= seq![h0].push(h1));
    assert(seq![h1, h0] =~= seq![h1].push(h0));
    assert(seq![h0].to_multiset() =~= Multiset::empty().insert(h0)) by {
        assert(seq![h0] =~= Seq::<Card>::empty().push(h0));
    }
    assert(seq![h1].to_multiset() =~= Multiset::empty().insert(h1)) by {
        assert(seq![h1] =~= Seq::<Card>::empty().push(h1));
    }
    assert(seq![h0, h1].to_multiset() =~= seq![h1, h0].to_multiset());
    assert(hand_cards(seq![h0, h1], board) =~= seq![h0, h1] + rest);
    assert(hand_cards(seq![h1, h0], board) =~= seq![h1, h0] + rest);
}


/// Position of the card (rank `r`, suit `s`) in a 52-entry count table.
pub open spec fn cell_index(r: int, s: int) -> int {
    r * 4 + s
}

/// Counts, for every card, how often it occurs among the hand's cards.
fn count_cells(hole: &[Card; 2], board: &[Card]) -> (cells: Vec<u64>)
    ensures
        cells@.len() == 52,
        forall|r: int, s: int|
            0 <= r < 13 && 0 <= s < 4 ==> #[trigger] cells@[cell_index(r, s)] == cell_count(
                hand_cards(hole@, board@).to_multiset(),
                r,
                s,
            ),
        forall|k: int| 0 <= k < 52 ==> #[trigger] cells@[k] <= 7,
{
    let ghost hand = hand_cards(hole@, board@);
    let bn: usize = if board.len() < 5 {
        board.len()
    } else {
        5
    };
    let total: usize = 2 + bn;
    assert(hand.len() == total);
    let mut cells: Vec<u64> = vec![0u64; 52];
    let mut i: usize = 0;
    while i < total
        invariant
            total == 2 + bn,
            bn <= 5,
            bn <= board@.len(),
            hand.len() == total,
            hand == hand_cards(hole@, board@),
            0 <= i <= total,
            cells@.len() == 52,
            forall|r: int, s: int|
                0 <= r < 13 && 0 <= s < 4 ==> #[trigger] cells@[cell_index(r, s)]
                    == hand.take(i as int).to_multiset().count(card_of(r, s)),
            forall|k: int| 0 <= k < 52 ==> #[trigger] cells@[k] <= i,
        decreases total - i,
    {
        let c: Card = if i < 2 {
            hole[i]
        } else {
            board[i - 2]
        };
        assert(c == hand[i as int]);
        let rv = c.rank.value() as usize;
        let sv = c.suit.value() as usize;
        let idx: usize = rv * 4 + sv;
        let old_cells = Ghost(cells@);
        let v = cells[idx];
        cells.set(idx, v + 1);
        proof {
            assert(hand.take(i as int + 1) =~= hand.take(i as int).push(c));
            lemma_card_of_values(c);
            assert forall|r: int, s: int| 0 <= r < 13 && 0 <= s < 4 implies #[trigger] cells@[cell_index(
                r,
                s,
            )] == hand.take(i as int + 1).to_multiset().count(card_of(r, s)) by {
                if r == rv as int && s == sv as int {
                } else {
                    if card_of(r, s) == c {
                        lemma_card_of_injective(r, s, rv as int, sv as int);
                    }
                    assert(cell_index(r, s) != idx as int);
                    assert(old_cells@[cell_index(r, s)] == cells@[cell_index(r, s)]);
                }
            }
        }
        i = i + 1;
    }
    assert(hand.take(total as int) =~= hand);
    cells
}

/// For every rank, how many of the hand's cards have it.
fn count_ranks(cells: &Vec<u64>, Ghost(m): Ghost<Multiset<Card>>) -> (rc: Vec<u64>)
    requires
        cells@.len() == 52,
        forall|r: int, s: int|
            0 <= r < 13 && 0 <= s < 4 ==> #[trigger] cells@[cell_index(r, s)] == cell_count(m, r, s),
        forall|k: int| 0 <= k < 52 ==> #[trigger] cells@[k] <= 7,
    ensures
        rc@.len() == 13,
        forall|r: int| 0 <= r < 13 ==> #[trigger] rc@[r] == rank_count(m, r),
{
    let mut rc: Vec<u64> = Vec::new();
    let mut r: usize = 0;
    while r < 13
        invariant
            cells@.len() == 52,
            forall|r: int, s: int|
                0 <= r < 13 && 0 <= s < 4 ==> #[trigger] cells@[cell_index(r, s)] == cell_count(
                    m,
                    r,
                    s,
                ),
            forall|k: int| 0 <= k < 52 ==> #[trigger] cells@[k] <= 7,
            0 <= r <= 13,
            rc@.len() == r,
            forall|q: int| 0 <= q < r ==> #[trigger] rc@[q] == rank_count(m, q),
        decreases 13 - r,
    {
        let base = r * 4;
        assert(cells@[cell_index(r as int, 0)] == cell_count(m, r as int, 0));
        assert(cells@[cell_index(r as int, 1)] == cell_count(m, r as int, 1));
        assert(cells@[cell_index(r as int, 2)] == cell_count(m, r as int, 2));
        assert(cells@[cell_index(r as int, 3)] == cell_count(m, r as int, 3));
        let total = cells[base] + cells[base + 1] + cells[base + 2] + cells[base + 3];
        rc.push(total);
        r = r + 1;
    }
    rc
}

/// For every suit, how many of the hand's cards have it.
fn count_suits(cells: &Vec<u64>, Ghost(m): Ghost<Multiset<Card>>) -> (sc: Vec<u64>)
    requires
        cells@.len() == 52,
        forall|r: int, s: int|
            0 <= r < 13 && 0 <= s < 4 ==> #[trigger] cells@[cell_index(r, s)] == cell_count(m, r, s),
        forall|k: int| 0 <= k < 52 ==> #[trigger] cells@[k] <= 7,
    ensures
        sc@.len() == 4,
        forall|s: int| 0 <= s < 4 ==> #[trigger] sc@[s] == suit_count(m, s),
{
    let mut sc: Vec<u64> = Vec::new();
    let mut s: usize = 0;
    while s < 4
        invariant
            cells@.len() == 52,
            forall|r: int, s: int|
                0 <= r < 13 && 0 <= s < 4 ==> #[trigger] cells@[cell_index(r, s)] == cell_count(
                    m,
                    r,
                    s,
                ),
            forall|k: int| 0 <= k < 52 ==> #[trigger] cells@[k] <= 7,
            0 <= s <= 4,
            sc@.len() == s,
            forall|q: int| 0 <= q < s ==> #[trigger] sc@[q] == suit_count(m, q),
        decreases 4 - s,
    {
        let mut total: u64 = 0;
        let mut r: usize = 0;
        while r < 13
            invariant
                cells@.len() == 52,
                forall|r: int, s: int|
                    0 <= r < 13 && 0 <= s < 4 ==> #[trigger] cells@[cell_index(r, s)]
                        == cell_count(m, r, s),
                forall|k: int| 0 <= k < 52 ==> #[trigger] cells@[k] <= 7,
                0 <= s < 4,
                0 <= r <= 13,
                total == suit_count_below(m, s as int, r as int),
                total <= 7 * r,
            decreases 13 - r,
        {
            assert(cells@[cell_index(r as int, s as int)] == cell_count(m, r as int, s as int));
            assert(cells@[r * 4 + s] <= 7);
            total = total + cells[r * 4 + s];
            r = r + 1;
        }
        sc.push(total);
        s = s + 1;
    }
    sc
}

/// Marks every rank whose count is exactly `k`.
fn mark_count_equal(rc: &Vec<u64>, k: u64) -> (p: Vec<bool>)
    requires
        rc@.len() == 13,
    ensures
        p@ =~= Seq::new(13, |r: int| rc@[r] == k),
{
    let mut p: Vec<bool> = Vec::new();
    let mut r: usize = 0;
    while r < 13
        invariant
            rc@.len() == 13,
            0 <= r <= 13,
            p@.len() == r,
            forall|q: int| 0 <= q < r ==> #[trigger] p@[q] == (rc@[q] == k),
        decreases 13 - r,
    {
        p.push(rc[r] == k);
        r = r + 1;
    }
    p
}

/// Marks every rank held at least once, other than `a` and `b`.
fn mark_present_except(rc: &Vec<u64>, a: u64, b: u64) -> (p: Vec<bool>)
    requires
        rc@.len() == 13,
    ensures
        p@ =~= Seq::new(13, |r: int| rc@[r] > 0 && r != a && r != b),
{
    let mut p: Vec<bool> = Vec::new();
    let mut r: usize = 0;
    while r < 13
        invariant
            rc@.len() == 13,
            0 <= r <= 13,
            p@.len() == r,
            forall|q: int| 0 <= q < r ==> #[trigger] p@[q] == (rc@[q] > 0 && q != a && q != b),
        decreases 13 - r,
    {
        p.push(rc[r] > 0 && r as u64 != a && r as u64 != b);
        r = r + 1;
    }
    p
}

/// Marks every rank held in suit `fs`.
fn mark_in_suit(cells: &Vec<u64>, fs: usize) -> (p: Vec<bool>)
    requires
        cells@.len() == 52,
        fs < 4,
    ensures
        p@ =~= Seq::new(13, |r: int| cells@[cell_index(r, fs as int)] > 0),
{
    let mut p: Vec<bool> = Vec::new();
    let mut r: usize = 0;
    while r < 13
        invariant
            cells@.len() == 52,
            fs < 4,
            0 <= r <= 13,
            p@.len() == r,
            forall|q: int| 0 <= q < r ==> #[trigger] p@[q] == (cells@[cell_index(q, fs as int)] > 0),
        decreases 13 - r,
    {
        p.push(cells[r * 4 + fs] > 0);
        r = r + 1;
    }
    p
}

/// The marked ranks, highest first.
fn collect_marked(p: &Vec<bool>) -> (res: Vec<u64>)
    requires
        p@.len() == 13,
    ensures
        res@ == desc_marked(p@, 0),
        forall|i: int| 0 <= i < res@.len() ==> #[trigger] res@[i] < 13,
{
    let mut res: Vec<u64> = Vec::new();
    let mut lo: usize = 13;
    while lo > 0
        invariant
            p@.len() == 13,
            0 <= lo <= 13,
            res@ == desc_marked(p@, lo as int),
            forall|i: int| 0 <= i < res@.len() ==> #[trigger] res@[i] < 13,
        decreases lo,
    {
        lo = lo - 1;
        if p[lo] {
            res.push(lo as u64);
        }
    }
    res
}

/// The top rank of the best straight among the marked ranks.
fn find_straight(p: &Vec<bool>) -> (res: Option<u64>)
    requires
        p@.len() == 13,
    ensures
        match res {
            Some(x) => straight_high(p@) == Some(x as int),
            None => straight_high(p@) is None,
        },
        res matches Some(x) ==> 3 <= x <= 12,
{
    let mut h: usize = 12;
    while h >= 4
        invariant
            p@.len() == 13,
            3 <= h <= 12,
            straight_high(p@) == straight_from(p@, h as int),
        decreases h,
    {
        if p[h] && p[h - 1] && p[h - 2] && p[h - 3] && p[h - 4] {
            return Some(h as u64);
        }
        h = h - 1;
    }
    if p[12] && p[0] && p[1] && p[2] && p[3] {
        Some(3)
    } else {
        None
    }
}

/// The hand's ranks in suit `fs`, highest first, with multiplicity.
fn collect_suited(cells: &Vec<u64>, fs: usize, Ghost(m): Ghost<Multiset<Card>>) -> (res: Vec<u64>)
    requires
        cells@.len() == 52,
        fs < 4,
        forall|r: int, s: int|
            0 <= r < 13 && 0 <= s < 4 ==> #[trigger] cells@[cell_index(r, s)] == cell_count(m, r, s),
        forall|k: int| 0 <= k < 52 ==> #[trigger] cells@[k] <= 7,
    ensures
        res@ == suited_ranks(m, fs as int, 0),
        forall|i: int| 0 <= i < res@.len() ==> #[trigger] res@[i] < 13,
{
    let mut res: Vec<u64> = Vec::new();
    let mut lo: usize = 13;
    while lo > 0
        invariant
            cells@.len() == 52,
            fs < 4,
            forall|r: int, s: int|
                0 <= r < 13 && 0 <= s < 4 ==> #[trigger] cells@[cell_index(r, s)] == cell_count(
                    m,
                    r,
                    s,
                ),
            forall|k: int| 0 <= k < 52 ==> #[trigger] cells@[k] <= 7,
            0 <= lo <= 13,
            res@ == suited_ranks(m, fs as int, lo as int),
            forall|i: int| 0 <= i < res@.len() ==> #[trigger] res@[i] < 13,
        decreases lo,
    {
        lo = lo - 1;
        assert(cells@[cell_index(lo as int, fs as int)] == cell_count(m, lo as int, fs as int));
        let n = cells[lo * 4 + fs];
        let ghost before = res@;
        let mut j: u64 = 0;
        while j < n
            invariant
                lo < 13,
                0 <= j <= n,
                res@ == before + Seq::new(j as nat, |t: int| lo as u64),
                forall|i: int| 0 <= i < before.len() ==> #[trigger] before[i] < 13,
            decreases n - j,
        {
            res.push(lo as u64);
            j = j + 1;
            assert(res@ =~= before + Seq::new(j as nat, |t: int| lo as u64));
        }
        assert(res@ =~= suited_ranks(m, fs as int, lo as int));
        assert forall|i: int| 0 <= i < res@.len() implies #[trigger] res@[i] < 13 by {
            if i >= before.len() {
                assert(res@[i] == lo as u64);
            }
        }
    }
    res
}

fn at_or_zero_exec(s: &Vec<u64>, i: usize) -> (v: u64)
    ensures
        v as int == at_or_zero(s@, i as int),
{
    if i < s.len() {
        s[i]
    } else {
        0
    }
}

fn pack5_exec(s: &Vec<u64>) -> (v: u64)
    requires
        forall|i: int| 0 <= i < s@.len() ==> #[trigger] s@[i] < 13,
    ensures
        v as int == pack5(s@),
{
    let a = at_or_zero_exec(s, 0);
    let b = at_or_zero_exec(s, 1);
    let c = at_or_zero_exec(s, 2);
    let d = at_or_zero_exec(s, 3);
    let e = at_or_zero_exec(s, 4);
    a * 0x10000 + b * 0x1000 + c * 0x100 + d * 0x10 + e
}

fn score_exec(cat: u64, a: u64, b: u64, c: u64) -> (v: u64)
    requires
        cat <= 8,
        a < 13,
        b < 13,
        c < 13,
    ensures
        v as int == score_of(cat as int, a as int, b as int, c as int),
{
    cat * 0x1_0000_0000 + a * 0x10000 + b * 0x100 + c
}

/// Scores the hand made of both hole cards and the first (at most five)
/// board cards. A better hand scores higher; `score >> 32` is its category.
pub fn evaluate_7cards(hole: &[Card; 2], board: &[Card]) -> (score: u64)
    ensures
        score as int == hand_score(hand_cards(hole@, board@).to_multiset()),
        score_category(score as int) <= 8,
{
    let ghost m = hand_cards(hole@, board@).to_multiset();
    let cells = count_cells(hole, board);
    let rc = count_ranks(&cells, Ghost(m));
    let sc = count_suits(&cells, Ghost(m));
    proof {
        lemma_hand_score_category(m);
    }

    let flush: Option<usize> = if sc[0] >= 5 {
        Some(0)
    } else if sc[1] >= 5 {
        Some(1)
    } else if sc[2] >= 5 {
        Some(2)
    } else if sc[3] >= 5 {
        Some(3)
    } else {
        None
    };
    assert(match flush {
        Some(f) => flush_suit(m) == Some(f as int),
        None => flush_suit(m) is None,
    });

    let present = mark_present_except(&rc, 13, 13);
    assert(present@ =~= ranks_present(m));
    let quad_marks = mark_count_equal(&rc, 4);
    assert(quad_marks@ =~= ranks_counted(m, 4));
    let trip_marks = mark_count_equal(&rc, 3);
    assert(trip_marks@ =~= ranks_counted(m, 3));
    let pair_marks = mark_count_equal(&rc, 2);
    assert(pair_marks@ =~= ranks_counted(m, 2));
    let quads = collect_marked(&quad_marks);
    let trips = collect_marked(&trip_marks);
    let pairs = collect_marked(&pair_marks);
    let straight = find_straight(&present);

    if let Some(fs) = flush {
        let suit_marks = mark_in_suit(&cells, fs);
        assert(suit_marks@ =~= ranks_in_suit(m, fs as int));
        if let Some(h) = find_straight(&suit_marks) {
            return score_exec(8, 0, 0, h);
        }
    }

    if quads.len() > 0 {
        let q = quads[0];
        let marks = mark_present_except(&rc, q, q);
        assert(marks@ =~= ranks_present_except(m, q as int, q as int));
        let kickers = collect_marked(&marks);
        let kicker = at_or_zero_exec(&kickers, 0);
        return score_exec(7, q, 0, kicker);
    }

    if trips.len() > 0 && (pairs.len() > 0 || trips.len() > 1) {
        let t = trips[0];
        let p = if trips.len() > 1 {
            trips[1]
        } else {
            pairs[0]
        };
        return score_exec(6, t, 0, p);
    }

    if let Some(fs) = flush {
        let ranks = collect_suited(&cells, fs, Ghost(m));
        return score_exec(5, 0, 0, 0) + pack5_exec(&ranks);
    }

    if let Some(h) = straight {
        return score_exec(4, 0, 0, h);
    }

    if trips.len() > 0 {
        let t = trips[0];
        let marks = mark_present_except(&rc, t, t);
        assert(marks@ =~= ranks_present_except(m, t as int, t as int));
        let kickers = collect_marked(&marks);
        let k0 = at_or_zero_exec(&kickers, 0);
        let k1 = at_or_zero_exec(&kickers, 1);
        return score_exec(3, t, k0, k1);
    }

    if pairs.len() >= 2 {
        let p1 = pairs[0];
        let p2 = pairs[1];
        let marks = mark_present_except(&rc, p1, p2);
        assert(marks@ =~= ranks_present_except(m, p1 as int, p2 as int));
        let kickers = collect_marked(&marks);
        let k = at_or_zero_exec(&kickers, 0);
        return score_exec(2, p1, p2, k);
    }

    if pairs.len() >= 1 {
        let p = pairs[0];
        let marks = mark_present_except(&rc, p, p);
        assert(marks@ =~= ranks_present_except(m, p as int, p as int));
        let kickers = collect_marked(&marks);
        let k0 = at_or_zero_exec(&kickers, 0);
        let k1 = at_or_zero_exec(&kickers, 1);
        return score_exec(1, p, k0, k1);
    }

    let high = collect_marked(&present);
    pack5_exec(&high)
}

} // verus!
