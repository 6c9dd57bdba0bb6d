//! The poker categories a hand's score reports, stated from the cards: a
//! straight flush beats four of a kind, which beats a full house, then a
//! flush, a straight, three of a kind, two pair, one pair and high card.

use vstd::prelude::*;
use vstd::multiset::Multiset;
use crate::game::eval::{
    score_rest, at_or_zero, cell_count, desc_marked, flush_suit, hand_score, lemma_category_dominates,
    lemma_desc_marked_bounds, lemma_hand_score_category, lemma_score_split,
    lemma_straight_from_bounds, lemma_suited_ranks_bounds, pack5, rank_count, ranks_counted,
    ranks_in_suit, ranks_present, ranks_present_except, run_of_five, score_category,
    straight_from, straight_high, suit_count, suit_count_below, suited_ranks,
};
use crate::game::holdem::{
    card_of, lemma_card_of_values, lemma_rank_value_roundtrip, lemma_suit_value_roundtrip, rank_value,
    suit_value, Card,
};
use crate::game::relabel::lemma_suit_counts_total;

verus! {

/// A rank value one below `x`, where the rank below the Two is the Ace.
pub open spec fn wrap_rank(x: int) -> int {
    if x < 0 {
        x + 13
    } else {
        x
    }
}

/// The hand holds five ranks in a row with top rank `h` (3, the Five, for
/// the wheel A-2-3-4-5, up to 12, the Ace).
pub open spec fn rank_run(m: Multiset<Card>, h: int) -> bool {
    &&& 3 <= h <= 12
    &&& forall|k: int| 0 <= k < 5 ==> #[trigger] rank_count(m, wrap_rank(h - k)) > 0
}

/// The hand holds five cards of suit `s` in a row with top rank `h`.
pub open spec fn suited_run(m: Multiset<Card>, s: int, h: int) -> bool {
    &&& 0 <= s < 4
    &&& 3 <= h <= 12
    &&& forall|k: int| 0 <= k < 5 ==> #[trigger] cell_count(m, wrap_rank(h - k), s) > 0
}

pub open spec fn has_straight_flush(m: Multiset<Card>) -> bool {
    exists|s: int, h: int| #[trigger] suited_run(m, s, h)
}

pub open spec fn has_quads(m: Multiset<Card>) -> bool {
    exists|r: int| 0 <= r < 13 && #[trigger] rank_count(m, r) >= 4
}

pub open spec fn has_full_house(m: Multiset<Card>) -> bool {
    exists|r1: int, r2: int|
        0 <= r1 < 13 && 0 <= r2 < 13 && r1 != r2 && #[trigger] rank_count(m, r1) >= 3
            && #[trigger] rank_count(m, r2) >= 2
}

pub open spec fn has_flush(m: Multiset<Card>) -> bool {
    exists|s: int| 0 <= s < 4 && #[trigger] suit_count(m, s) >= 5
}

pub open spec fn has_straight(m: Multiset<Card>) -> bool {
    exists|h: int| #[trigger] rank_run(m, h)
}

pub open spec fn has_trips(m: Multiset<Card>) -> bool {
    exists|r: int| 0 <= r < 13 && #[trigger] rank_count(m, r) >= 3
}

pub open spec fn has_two_pair(m: Multiset<Card>) -> bool {
    exists|r1: int, r2: int|
        0 <= r1 < 13 && 0 <= r2 < 13 && r1 != r2 && #[trigger] rank_count(m, r1) >= 2
            && #[trigger] rank_count(m, r2) >= 2
}

pub open spec fn has_pair(m: Multiset<Card>) -> bool {
    exists|r: int| 0 <= r < 13 && #[trigger] rank_count(m, r) >= 2
}

/// The best poker combination among the cards: 8 straight flush, 7 four of
/// a kind, 6 full house, 5 flush, 4 straight, 3 three of a kind, 2 two
/// pair, 1 one pair, 0 high card.
pub open spec fn poker_category(m: Multiset<Card>) -> int {
    if has_straight_flush(m) {
        8
    } else if has_quads(m) {
        7
    } else if has_full_house(m) {
        6
    } else if has_flush(m) {
        5
    } else if has_straight(m) {
        4
    } else if has_trips(m) {
        3
    } else if has_two_pair(m) {
        2
    } else if has_pair(m) {
        1
    } else {
        0
    }
}

/// Five marked entries in a row with top `h`, the wheel wrapping to the Ace.
pub open spec fn seq_run(p: Seq<bool>, h: int) -> bool {
    &&& 3 <= h <= 12
    &&& forall|k: int| 0 <= k < 5 ==> #[trigger] p[wrap_rank(h - k)]
}

proof fn lemma_straight_from_iff(p: Seq<bool>, h: int)
    requires
        p.len() == 13,
        3 <= h <= 12,
    ensures
        straight_from(p, h) is Some <==> exists|x: int| x <= h && #[trigger] seq_run(p, x),
    decreases h,
{
    if h < 4 {
        if p[12] && p[0] && p[1] && p[2] && p[3] {
            assert forall|k: int| 0 <= k < 5 implies #[trigger] p[wrap_rank(3 - k)] by {
                if k == 4 {
                    assert(wrap_rank(3 - k) == 12);
                }
            }
            assert(seq_run(p, 3));
        } else {
            assert forall|x: int| x <= h implies !#[trigger] seq_run(p, x) by {
                if seq_run(p, x) {
                    assert(p[wrap_rank(x - 0)]);
                    assert(p[wrap_rank(x - 1)]);
                    assert(p[wrap_rank(x - 2)]);
                    assert(p[wrap_rank(x - 3)]);
                    assert(p[wrap_rank(x - 4)]);
                }
            }
        }
    } else {
        lemma_straight_from_iff(p, h - 1);
        if run_of_five(p, h) {
            assert forall|k: int| 0 <= k < 5 implies #[trigger] p[wrap_rank(h - k)] by {
                assert(wrap_rank(h - k) == h - k);
            }
            assert(seq_run(p, h));
        } else {
            if seq_run(p, h) {
                assert(p[wrap_rank(h - 0)]);
                assert(p[wrap_rank(h - 1)]);
                assert(p[wrap_rank(h - 2)]);
                assert(p[wrap_rank(h - 3)]);
                assert(p[wrap_rank(h - 4)]);
            }
            assert forall|x: int| x <= h && #[trigger] seq_run(p, x) implies x <= h - 1 by {
            }
        }
    }
}

proof fn lemma_desc_nonempty(p: Seq<bool>, lo: int)
    requires
        p.len() == 13,
        0 <= lo <= 13,
    ensures
        desc_marked(p, lo).len() > 0 <==> exists|r: int| lo <= r < 13 && #[trigger] p[r],
        desc_marked(p, lo).len() > 1 <==> exists|r1: int, r2: int|
            lo <= r1 < 13 && lo <= r2 < 13 && r1 != r2 && #[trigger] p[r1] && #[trigger] p[r2],
    decreases 13 - lo,
{
    if lo < 13 {
        lemma_desc_nonempty(p, lo + 1);
        if p[lo] {
            if desc_marked(p, lo + 1).len() > 0 {
                let r = choose|r: int| lo + 1 <= r < 13 && #[trigger] p[r];
                assert(p[lo] && p[r]);
            }
            assert forall|r1: int, r2: int|
                lo <= r1 < 13 && lo <= r2 < 13 && r1 != r2 && #[trigger] p[r1] && #[trigger] p[r2]
                implies desc_marked(p, lo).len() > 1 by {
                if r1 != lo {
                    assert(p[r1]);
                } else {
                    assert(p[r2]);
                }
            }
        } else {
            assert forall|r: int| lo <= r < 13 && #[trigger] p[r] implies lo + 1 <= r by {}
            assert forall|r1: int, r2: int|
                lo <= r1 < 13 && lo <= r2 < 13 && r1 != r2 && #[trigger] p[r1] && #[trigger] p[r2]
                implies lo + 1 <= r1 && lo + 1 <= r2 by {}
        }
    }
}

/// How many of the five ranks of a run with top `h` lie below `n`.
spec fn run_members_below(h: int, n: int) -> int {
    (if wrap_rank(h) < n { 1int } else { 0 }) + (if wrap_rank(h - 1) < n { 1int } else { 0 })
        + (if wrap_rank(h - 2) < n { 1int } else { 0 }) + (if wrap_rank(h - 3) < n {
        1int
    } else {
        0
    }) + (if wrap_rank(h - 4) < n { 1int } else { 0 })
}

proof fn lemma_suit_count_of_run(m: Multiset<Card>, s: int, h: int, n: int)
    requires
        suited_run(m, s, h),
        0 <= n <= 13,
    ensures
        suit_count_below(m, s, n) >= run_members_below(h, n),
    decreases n,
{
    if n > 0 {
        lemma_suit_count_of_run(m, s, h, n - 1);
        assert(cell_count(m, wrap_rank(h - 0), s) > 0);
        assert(cell_count(m, wrap_rank(h - 1), s) > 0);
        assert(cell_count(m, wrap_rank(h - 2), s) > 0);
        assert(cell_count(m, wrap_rank(h - 3), s) > 0);
        assert(cell_count(m, wrap_rank(h - 4), s) > 0);
        assert(h - 0 == h);
    }
}

/// A hand of up to seven distinct cards: each card at most once, so each
/// rank at most four times; and at most one suit holds five or more.
proof fn lemma_hand_counts(cards: Seq<Card>)
    requires
        cards.len() <= 7,
        cards.no_duplicates(),
    ensures
        forall|r: int, s: int| #[trigger] cell_count(cards.to_multiset(), r, s) <= 1,
        forall|r: int| #[trigger] rank_count(cards.to_multiset(), r) <= 4,
        suit_count(cards.to_multiset(), 0) + suit_count(cards.to_multiset(), 1) + suit_count(
            cards.to_multiset(),
            2,
        ) + suit_count(cards.to_multiset(), 3) <= 7,
{
    let m = cards.to_multiset();
    cards.lemma_multiset_has_no_duplicates();
    assert forall|r: int, s: int| #[trigger] cell_count(m, r, s) <= 1 by {
        if m.contains(card_of(r, s)) {
            assert(m.count(card_of(r, s)) == 1);
        }
    }
    assert forall|r: int| #[trigger] rank_count(m, r) <= 4 by {
        assert(cell_count(m, r, 0) <= 1);
        assert(cell_count(m, r, 1) <= 1);
        assert(cell_count(m, r, 2) <= 1);
        assert(cell_count(m, r, 3) <= 1);
    }
    lemma_suit_counts_total(cards);
}

/// With at most seven cards, a straight flush is a straight in the flush
/// suit, and the flush suit is the one suit holding five or more cards.
#[verifier::spinoff_prover]
proof fn lemma_flush_and_straight_flush(cards: Seq<Card>)
    requires
        cards.len() <= 7,
        cards.no_duplicates(),
    ensures
        ({
            let m = cards.to_multiset();
            &&& (flush_suit(m) is Some <==> has_flush(m))
            &&& (flush_suit(m) is Some ==> 0 <= flush_suit(m)->0 < 4)
            &&& ((flush_suit(m) is Some && straight_high(ranks_in_suit(m, flush_suit(m)->0)) is Some)
                <==> has_straight_flush(m))
        }),
{
    let m = cards.to_multiset();
    lemma_hand_counts(cards);
    if has_flush(m) {
        let s = choose|s: int| 0 <= s < 4 && #[trigger] suit_count(m, s) >= 5;
        assert(suit_count(m, s) >= 5);
    }
    if flush_suit(m) is Some {
        let fs = flush_suit(m)->0;
        assert(suit_count(m, fs) >= 5);
        let p = ranks_in_suit(m, fs);
        lemma_straight_from_iff(p, 12);
        if straight_high(p) is Some {
            let x = choose|x: int| x <= 12 && #[trigger] seq_run(p, x);
            assert forall|k: int| 0 <= k < 5 implies #[trigger] cell_count(m, wrap_rank(x - k), fs) > 0 by {
                assert(p[wrap_rank(x - k)]);
            }
            assert(suited_run(m, fs, x));
        }
        if has_straight_flush(m) {
            let (s, h) = choose|s: int, h: int| #[trigger] suited_run(m, s, h);
            lemma_suit_count_of_run(m, s, h, 13);
            assert(suit_count(m, s) >= 5);
            assert(s == fs);
            assert forall|k: int| 0 <= k < 5 implies #[trigger] p[wrap_rank(h - k)] by {
                assert(cell_count(m, wrap_rank(h - k), s) > 0);
            }
            assert(seq_run(p, h));
        }
    } else {
        if has_straight_flush(m) {
            let (s, h) = choose|s: int, h: int| #[trigger] suited_run(m, s, h);
            lemma_suit_count_of_run(m, s, h, 13);
            assert(suit_count(m, s) >= 5);
        }
    }
}

/// The category each branch of the score gives.
proof fn lemma_branch_category(m: Multiset<Card>)
    ensures
        ({
            let quads = desc_marked(ranks_counted(m, 4), 0);
            let trips = desc_marked(ranks_counted(m, 3), 0);
            let pairs = desc_marked(ranks_counted(m, 2), 0);
            let fsuit = flush_suit(m);
            let straight = straight_high(ranks_present(m));
            score_category(hand_score(m)) == if fsuit is Some && straight_high(
                ranks_in_suit(m, fsuit->0),
            ) is Some {
                8
            } else if quads.len() > 0 {
                7
            } else if trips.len() > 0 && (pairs.len() > 0 || trips.len() > 1) {
                6
            } else if fsuit is Some {
                5
            } else if straight is Some {
                4
            } else if trips.len() > 0 {
                3
            } else if pairs.len() >= 2 {
                2
            } else if pairs.len() >= 1 {
                1
            } else {
                0int
            }
        }),
{
    let fsuit = flush_suit(m);
    lemma_desc_marked_bounds(ranks_counted(m, 4), 0);
    lemma_desc_marked_bounds(ranks_counted(m, 3), 0);
    lemma_desc_marked_bounds(ranks_counted(m, 2), 0);
    lemma_desc_marked_bounds(ranks_present(m), 0);
    lemma_straight_from_bounds(ranks_present(m), 12);
    let quads = desc_marked(ranks_counted(m, 4), 0);
    let trips = desc_marked(ranks_counted(m, 3), 0);
    let pairs = desc_marked(ranks_counted(m, 2), 0);
    let straight = straight_high(ranks_present(m));
    if fsuit is Some {
        lemma_straight_from_bounds(ranks_in_suit(m, fsuit->0), 12);
        lemma_suited_ranks_bounds(m, fsuit->0, 0);
    }
    if fsuit is Some && straight_high(ranks_in_suit(m, fsuit->0)) is Some {
        lemma_score_split(8, straight_high(ranks_in_suit(m, fsuit->0))->0);
    } else if quads.len() > 0 {
        let q = quads[0] as int;
        lemma_desc_marked_bounds(ranks_present_except(m, q, q), 0);
        let k = at_or_zero(desc_marked(ranks_present_except(m, q, q), 0), 0);
        lemma_score_split(7, q * 0x10000 + k);
    } else if trips.len() > 0 && (pairs.len() > 0 || trips.len() > 1) {
        let t = trips[0] as int;
        let p = if trips.len() > 1 {
            trips[1] as int
        } else {
            pairs[0] as int
        };
        lemma_score_split(6, t * 0x10000 + p);
    } else if fsuit is Some {
        let r = suited_ranks(m, fsuit->0, 0);
        assert(0 <= pack5(r) < 13 * 0x10000);
        lemma_score_split(5, pack5(r));
    } else if straight is Some {
        lemma_score_split(4, straight->0);
    } else if trips.len() > 0 {
        let t = trips[0] as int;
        lemma_desc_marked_bounds(ranks_present_except(m, t, t), 0);
        let ks = desc_marked(ranks_present_except(m, t, t), 0);
        lemma_score_split(3, t * 0x10000 + at_or_zero(ks, 0) * 0x100 + at_or_zero(ks, 1));
    } else if pairs.len() >= 2 {
        let p1 = pairs[0] as int;
        let p2 = pairs[1] as int;
        lemma_desc_marked_bounds(ranks_present_except(m, p1, p2), 0);
        let k = at_or_zero(desc_marked(ranks_present_except(m, p1, p2), 0), 0);
        lemma_score_split(2, p1 * 0x10000 + p2 * 0x100 + k);
    } else if pairs.len() >= 1 {
        let p = pairs[0] as int;
        lemma_desc_marked_bounds(ranks_present_except(m, p, p), 0);
        let ks = desc_marked(ranks_present_except(m, p, p), 0);
        lemma_score_split(1, p * 0x10000 + at_or_zero(ks, 0) * 0x100 + at_or_zero(ks, 1));
    } else {
        let r = desc_marked(ranks_present(m), 0);
        assert(0 <= pack5(r) < 13 * 0x10000);
        lemma_score_split(0, pack5(r));
    }
}

/// The score's category is the best poker combination among the cards: for
/// a hand of up to seven distinct cards, `score >> 32` is 8 with a straight
/// flush, else 7 with four of a kind, 6 with a full house, 5 with a flush
/// (whatever straights the ranks also form), 4 with a straight, 3 with three
/// of a kind, 2 with two pair, 1 with one pair, and 0 otherwise.
#[verifier::spinoff_prover]
pub proof fn lemma_hand_category(cards: Seq<Card>)
    requires
        cards.len() <= 7,
        cards.no_duplicates(),
    ensures
        score_category(hand_score(cards.to_multiset())) == poker_category(cards.to_multiset()),
{
    let m = cards.to_multiset();
    lemma_hand_counts(cards);
    lemma_flush_and_straight_flush(cards);
    lemma_branch_category(m);
    let pr = ranks_present(m);
    lemma_straight_from_iff(pr, 12);
    if has_straight(m) {
        let h = choose|h: int| #[trigger] rank_run(m, h);
        assert forall|k: int| 0 <= k < 5 implies #[trigger] pr[wrap_rank(h - k)] by {
            assert(rank_count(m, wrap_rank(h - k)) > 0);
        }
        assert(seq_run(pr, h));
    }
    if straight_high(pr) is Some {
        let x = choose|x: int| x <= 12 && #[trigger] seq_run(pr, x);
        assert forall|k: int| 0 <= k < 5 implies #[trigger] rank_count(m, wrap_rank(x - k)) > 0 by {
            assert(pr[wrap_rank(x - k)]);
        }
        assert(rank_run(m, x));
    }
    let c4 = ranks_counted(m, 4);
    let c3 = ranks_counted(m, 3);
    let c2 = ranks_counted(m, 2);
    lemma_desc_nonempty(c4, 0);
    lemma_desc_nonempty(c3, 0);
    lemma_desc_nonempty(c2, 0);
    if has_quads(m) {
        let r = choose|r: int| 0 <= r < 13 && #[trigger] rank_count(m, r) >= 4;
        assert(c4[r]);
    }
    if desc_marked(c4, 0).len() > 0 {
        let r = choose|r: int| 0 <= r < 13 && #[trigger] c4[r];
        assert(rank_count(m, r) >= 4);
    }
    if !has_quads(m) {
        assert forall|r: int| 0 <= r < 13 implies #[trigger] rank_count(m, r) <= 3 by {
            if rank_count(m, r) >= 4 {
                assert(has_quads(m));
            }
        }
        if has_trips(m) {
            let r = choose|r: int| 0 <= r < 13 && #[trigger] rank_count(m, r) >= 3;
            assert(c3[r]);
        }
        if desc_marked(c3, 0).len() > 0 {
            let r = choose|r: int| 0 <= r < 13 && #[trigger] c3[r];
            assert(rank_count(m, r) >= 3);
        }
        if has_full_house(m) {
            let (r1, r2) = choose|r1: int, r2: int|
                0 <= r1 < 13 && 0 <= r2 < 13 && r1 != r2 && #[trigger] rank_count(m, r1) >= 3
                    && #[trigger] rank_count(m, r2) >= 2;
            assert(c3[r1]);
            if rank_count(m, r2) == 2 {
                assert(c2[r2]);
            } else {
                assert(c3[r2]);
            }
        }
        if desc_marked(c3, 0).len() > 0 && desc_marked(c2, 0).len() > 0 {
            let r1 = choose|r: int| 0 <= r < 13 && #[trigger] c3[r];
            let r2 = choose|r: int| 0 <= r < 13 && #[trigger] c2[r];
            assert(rank_count(m, r1) >= 3 && rank_count(m, r2) >= 2 && r1 != r2);
        }
        if desc_marked(c3, 0).len() > 1 {
            let (r1, r2) = choose|r1: int, r2: int|
                0 <= r1 < 13 && 0 <= r2 < 13 && r1 != r2 && #[trigger] c3[r1] && #[trigger] c3[r2];
            assert(rank_count(m, r1) >= 3 && rank_count(m, r2) >= 2);
        }
        if !has_trips(m) {
            assert forall|r: int| 0 <= r < 13 implies #[trigger] rank_count(m, r) <= 2 by {
                if rank_count(m, r) >= 3 {
                    assert(has_trips(m));
                }
            }
            if has_pair(m) {
                let r = choose|r: int| 0 <= r < 13 && #[trigger] rank_count(m, r) >= 2;
                assert(c2[r]);
            }
            if desc_marked(c2, 0).len() > 0 {
                let r = choose|r: int| 0 <= r < 13 && #[trigger] c2[r];
                assert(rank_count(m, r) >= 2);
            }
            if has_two_pair(m) {
                let (r1, r2) = choose|r1: int, r2: int|
                    0 <= r1 < 13 && 0 <= r2 < 13 && r1 != r2 && #[trigger] rank_count(m, r1) >= 2
                        && #[trigger] rank_count(m, r2) >= 2;
                assert(c2[r1] && c2[r2]);
            }
            if desc_marked(c2, 0).len() > 1 {
                let (r1, r2) = choose|r1: int, r2: int|
                    0 <= r1 < 13 && 0 <= r2 < 13 && r1 != r2 && #[trigger] c2[r1] && #[trigger] c2[r2];
                assert(rank_count(m, r1) >= 2 && rank_count(m, r2) >= 2);
            }
        }
    }
}

/// In particular a flush (without a straight flush, four of a kind or a
/// full house) outscores every hand whose best combination is a straight
/// or less, whatever straights its own ranks form.
pub proof fn lemma_flush_beats_straight(flush: Seq<Card>, other: Seq<Card>)
    requires
        flush.len() <= 7,
        flush.no_duplicates(),
        other.len() <= 7,
        other.no_duplicates(),
        has_flush(flush.to_multiset()),
        !has_straight_flush(flush.to_multiset()),
        !has_quads(flush.to_multiset()),
        !has_full_house(flush.to_multiset()),
        !has_flush(other.to_multiset()),
        !has_quads(other.to_multiset()),
        !has_full_house(other.to_multiset()),
        !has_straight_flush(other.to_multiset()),
    ensures
        hand_score(flush.to_multiset()) > hand_score(other.to_multiset()),
{
    lemma_hand_category(flush);
    lemma_hand_category(other);
    lemma_category_dominates(other.to_multiset(), flush.to_multiset());
}

proof fn lemma_desc_top(p: Seq<bool>, lo: int)
    requires
        p.len() == 13,
        0 <= lo <= 13,
    ensures
        desc_marked(p, lo).len() > 0 ==> {
            let d = desc_marked(p, lo);
            &&& lo <= d[0] < 13
            &&& p[d[0] as int]
            &&& forall|r: int| lo <= r < 13 && #[trigger] p[r] ==> r <= d[0]
        },
        desc_marked(p, lo).len() > 1 ==> {
            let d = desc_marked(p, lo);
            &&& lo <= d[1] < d[0]
            &&& p[d[1] as int]
            &&& forall|r: int| lo <= r < 13 && #[trigger] p[r] && r != d[0] ==> r <= d[1]
        },
    decreases 13 - lo,
{
    if lo < 13 {
        lemma_desc_top(p, lo + 1);
        lemma_desc_nonempty(p, lo + 1);
        let e = desc_marked(p, lo + 1);
        if !p[lo] {
            assert(desc_marked(p, lo) == e);
            assert forall|r: int| lo <= r < 13 && #[trigger] p[r] implies lo + 1 <= r by {}
        }
        if p[lo] {
            let d = desc_marked(p, lo);
            assert(d == e.push(lo as u64));
            if e.len() == 0 {
                assert(d[0] == lo);
                assert forall|r: int| lo <= r < 13 && #[trigger] p[r] implies r <= lo by {
                    if r > lo {
                        assert(lo + 1 <= r < 13 && p[r]);
                    }
                }
            }
            if e.len() > 0 {
                assert(d[0] == e[0]);
            }
            if e.len() > 1 {
                assert(d[1] == e[1]);
            }
            if e.len() == 1 {
                assert(d[1] == lo);
                assert forall|r: int| lo <= r < 13 && #[trigger] p[r] && r != d[0] implies r <= d[1] by {
                    if r > lo {
                        lemma_desc_nonempty(p, lo + 1);
                        if r != e[0] {
                            assert(desc_marked(p, lo + 1).len() > 1);
                        }
                    }
                }
            }
        }
    }
}

proof fn lemma_fields(a: int, b: int, c: int)
    requires
        0 <= a < 13,
        0 <= b < 13,
        0 <= c < 256,
    ensures
        (a * 0x10000 + b * 0x100 + c) / 0x10000 == a,
        ((a * 0x10000 + b * 0x100 + c) / 0x100) % 0x100 == b,
{
    vstd::arithmetic::div_mod::lemma_fundamental_div_mod_converse(
        a * 0x10000 + b * 0x100 + c,
        0x10000,
        a,
        b * 0x100 + c,
    );
    vstd::arithmetic::div_mod::lemma_fundamental_div_mod_converse(
        a * 0x10000 + b * 0x100 + c,
        0x100,
        a * 0x100 + b,
        c,
    );
    vstd::arithmetic::div_mod::lemma_fundamental_div_mod_converse(a * 0x100 + b, 0x100, a, b);
}

proof fn lemma_straight_from_top(p: Seq<bool>, h: int)
    requires
        p.len() == 13,
        3 <= h <= 12,
        straight_from(p, h) is Some,
    ensures
        seq_run(p, straight_from(p, h)->0),
        forall|y: int| straight_from(p, h)->0 < y <= h ==> !#[trigger] seq_run(p, y),
    decreases h,
{
    if h < 4 {
        assert forall|k: int| 0 <= k < 5 implies #[trigger] p[wrap_rank(3 - k)] by {
            if k == 4 {
                assert(wrap_rank(3 - k) == 12);
            }
        }
    } else if run_of_five(p, h) {
        assert forall|k: int| 0 <= k < 5 implies #[trigger] p[wrap_rank(h - k)] by {
            assert(wrap_rank(h - k) == h - k);
        }
    } else {
        lemma_straight_from_top(p, h - 1);
        if seq_run(p, h) {
            assert(p[wrap_rank(h - 0)]);
            assert(p[wrap_rank(h - 1)]);
            assert(p[wrap_rank(h - 2)]);
            assert(p[wrap_rank(h - 3)]);
            assert(p[wrap_rank(h - 4)]);
        }
    }
}

proof fn lemma_suited_ranks_top(m: Multiset<Card>, fs: int, lo: int)
    requires
        0 <= lo <= 13,
    ensures
        (exists|r: int| lo <= r < 13 && #[trigger] cell_count(m, r, fs) > 0) ==> suited_ranks(
            m,
            fs,
            lo,
        ).len() > 0,
        suited_ranks(m, fs, lo).len() > 0 ==> {
            let t = suited_ranks(m, fs, lo)[0] as int;
            &&& lo <= t < 13
            &&& cell_count(m, t, fs) > 0
            &&& forall|r: int| t < r < 13 ==> #[trigger] cell_count(m, r, fs) == 0
        },
    decreases 13 - lo,
{
    if lo < 13 {
        lemma_suited_ranks_top(m, fs, lo + 1);
        let e = suited_ranks(m, fs, lo + 1);
        let tail = Seq::new(cell_count(m, lo, fs), |j: int| lo as u64);
        let d = suited_ranks(m, fs, lo);
        assert(d == e + tail);
        if e.len() > 0 {
            assert(d[0] == e[0]);
        } else if tail.len() > 0 {
            assert(d[0] == tail[0]);
            assert forall|r: int| lo < r < 13 implies #[trigger] cell_count(m, r, fs) == 0 by {
                if cell_count(m, r, fs) > 0 {
                    assert(lo + 1 <= r < 13);
                }
            }
        }
        if exists|r: int| lo <= r < 13 && #[trigger] cell_count(m, r, fs) > 0 {
            let r = choose|r: int| lo <= r < 13 && #[trigger] cell_count(m, r, fs) > 0;
            if r == lo {
                assert(tail.len() > 0);
            }
        }
    }
}

proof fn lemma_suit_count_has_card(m: Multiset<Card>, s: int, n: int)
    requires
        suit_count_below(m, s, n) > 0,
    ensures
        exists|r: int| 0 <= r < n && #[trigger] cell_count(m, r, s) > 0,
    decreases n,
{
    if n > 0 {
        if cell_count(m, n - 1, s) > 0 {
            assert(cell_count(m, n - 1, s) > 0);
        } else {
            lemma_suit_count_has_card(m, s, n - 1);
            let r = choose|r: int| 0 <= r < n - 1 && #[trigger] cell_count(m, r, s) > 0;
            assert(cell_count(m, r, s) > 0);
        }
    }
}

proof fn lemma_pack_top(x: Seq<u64>)
    requires
        forall|i: int| 0 <= i < x.len() ==> #[trigger] x[i] < 13,
    ensures
        pack5(x) / 0x10000 == at_or_zero(x, 0),
{
    let rest = at_or_zero(x, 1) * 0x1000 + at_or_zero(x, 2) * 0x100 + at_or_zero(x, 3) * 0x10
        + at_or_zero(x, 4);
    assert(0 <= rest < 0x10000);
    vstd::arithmetic::div_mod::lemma_fundamental_div_mod_converse(
        pack5(x),
        0x10000,
        at_or_zero(x, 0),
        rest,
    );
}

/// The top rank field of a score, `(score >> 16) & 0xF` below the category.
pub open spec fn top_field(score: int) -> int {
    score_rest(score) / 0x10000
}

/// The second rank field of a score (two pair's lower pair).
pub open spec fn second_field(score: int) -> int {
    (score_rest(score) / 0x100) % 0x100
}

/// What the score's rank fields report, stated from the cards, for a hand of
/// up to seven distinct cards: a straight (or straight flush) scores the top
/// rank of its highest run; four of a kind, three of a kind and one pair
/// score the rank held that often; a full house scores its highest three of
/// a kind; two pair score the highest and second-highest pairs; a flush
/// scores the top card of its suit; high card the top rank held.

/// The facts every tie-break lemma starts from.
proof fn lemma_tiebreak_setup(cards: Seq<Card>)
    requires
        cards.len() <= 7,
        cards.no_duplicates(),
    ensures
        ({
            let m = cards.to_multiset();
            &&& forall|r: int, s: int| #[trigger] cell_count(m, r, s) <= 1
            &&& forall|r: int| #[trigger] rank_count(m, r) <= 4
            &&& suit_count(m, 0) + suit_count(m, 1) + suit_count(m, 2) + suit_count(m, 3) <= 7
            &&& (flush_suit(m) is Some ==> 0 <= flush_suit(m)->0 < 4)
            &&& forall|i: int|
                0 <= i < desc_marked(ranks_counted(m, 4), 0).len() ==> #[trigger] desc_marked(
                    ranks_counted(m, 4),
                    0,
                )[i] < 13
            &&& forall|i: int|
                0 <= i < desc_marked(ranks_counted(m, 3), 0).len() ==> #[trigger] desc_marked(
                    ranks_counted(m, 3),
                    0,
                )[i] < 13
            &&& forall|i: int|
                0 <= i < desc_marked(ranks_counted(m, 2), 0).len() ==> #[trigger] desc_marked(
                    ranks_counted(m, 2),
                    0,
                )[i] < 13
        }),
{
    let m = cards.to_multiset();
    lemma_hand_counts(cards);
    lemma_flush_and_straight_flush(cards);
    lemma_desc_marked_bounds(ranks_counted(m, 4), 0);
    lemma_desc_marked_bounds(ranks_counted(m, 3), 0);
    lemma_desc_marked_bounds(ranks_counted(m, 2), 0);
}


#[verifier::spinoff_prover]
proof fn lemma_tb_straight_flush(cards: Seq<Card>)
    requires
        cards.len() <= 7,
        cards.no_duplicates(),
        score_category(hand_score(cards.to_multiset())) == 8,
    ensures
        ({
            let m = cards.to_multiset();
            let score = hand_score(m);
            &&& exists|s: int| #[trigger] suited_run(m, s, score_rest(score))
            &&& forall|s: int, h: int| #[trigger] suited_run(m, s, h) ==> h <= score_rest(score)
        }),
{
    let m = cards.to_multiset();
    lemma_branch_category(m);
    lemma_tiebreak_setup(cards);
    let fs = flush_suit(m)->0;
    let p = ranks_in_suit(m, fs);
    lemma_straight_from_bounds(p, 12);
    lemma_straight_from_top(p, 12);
    let x = straight_high(p)->0;
    lemma_score_split(8, x);
    assert forall|k: int| 0 <= k < 5 implies #[trigger] cell_count(m, wrap_rank(x - k), fs) > 0 by {
        assert(p[wrap_rank(x - k)]);
    }
    assert(suited_run(m, fs, x));
    assert forall|s: int, h: int| #[trigger] suited_run(m, s, h) implies h <= x by {
        lemma_suit_count_of_run(m, s, h, 13);
        assert(s == fs);
        assert forall|k: int| 0 <= k < 5 implies #[trigger] p[wrap_rank(h - k)] by {
            assert(cell_count(m, wrap_rank(h - k), s) > 0);
        }
        assert(seq_run(p, h));
    }
}

proof fn lemma_tb_quads(cards: Seq<Card>)
    requires
        cards.len() <= 7,
        cards.no_duplicates(),
        score_category(hand_score(cards.to_multiset())) == 7,
    ensures
        ({
            let m = cards.to_multiset();
            let a = top_field(hand_score(m));
            0 <= a < 13 && rank_count(m, a) == 4
        }),
{
    let m = cards.to_multiset();
    lemma_branch_category(m);
    lemma_tiebreak_setup(cards);
    let c4 = ranks_counted(m, 4);
    lemma_desc_top(c4, 0);
    let q = desc_marked(c4, 0)[0] as int;
    lemma_desc_marked_bounds(ranks_present_except(m, q, q), 0);
    let k = at_or_zero(desc_marked(ranks_present_except(m, q, q), 0), 0);
    lemma_score_split(7, q * 0x10000 + k);
    lemma_fields(q, 0, k);
}

#[verifier::spinoff_prover]
proof fn lemma_tb_full_house(cards: Seq<Card>)
    requires
        cards.len() <= 7,
        cards.no_duplicates(),
        score_category(hand_score(cards.to_multiset())) == 6,
    ensures
        ({
            let m = cards.to_multiset();
            let a = top_field(hand_score(m));
            &&& 0 <= a < 13
            &&& rank_count(m, a) == 3
            &&& forall|r: int| a < r < 13 ==> #[trigger] rank_count(m, r) < 3
        }),
{
    let m = cards.to_multiset();
    lemma_branch_category(m);
    lemma_tiebreak_setup(cards);
    let c4 = ranks_counted(m, 4);
    let c3 = ranks_counted(m, 3);
    let c2 = ranks_counted(m, 2);
    lemma_desc_top(c3, 0);
    lemma_desc_nonempty(c4, 0);
    let trips = desc_marked(c3, 0);
    let pairs = desc_marked(c2, 0);
    let t = trips[0] as int;
    let pp = if trips.len() > 1 {
        trips[1] as int
    } else {
        pairs[0] as int
    };
    lemma_score_split(6, t * 0x10000 + pp);
    lemma_fields(t, 0, pp);
    assert forall|r: int| t < r < 13 implies #[trigger] rank_count(m, r) < 3 by {
        if rank_count(m, r) >= 3 {
            if rank_count(m, r) == 3 {
                assert(c3[r]);
            } else {
                assert(c4[r]);
            }
        }
    }
}

proof fn lemma_tb_flush(cards: Seq<Card>)
    requires
        cards.len() <= 7,
        cards.no_duplicates(),
        score_category(hand_score(cards.to_multiset())) == 5,
    ensures
        ({
            let m = cards.to_multiset();
            let a = top_field(hand_score(m));
            exists|s: int|
                0 <= s < 4 && suit_count(m, s) >= 5 && cell_count(m, a, s) > 0 && forall|r: int|
                    a < r < 13 ==> #[trigger] cell_count(m, r, s) == 0
        }),
{
    let m = cards.to_multiset();
    lemma_branch_category(m);
    lemma_tiebreak_setup(cards);
    let fs = flush_suit(m)->0;
    let r = suited_ranks(m, fs, 0);
    lemma_suited_ranks_bounds(m, fs, 0);
    assert(0 <= pack5(r) < 13 * 0x10000);
    lemma_score_split(5, pack5(r));
    lemma_pack_top(r);
    assert(suit_count(m, fs) >= 5);
    lemma_suit_count_has_card(m, fs, 13);
    lemma_suited_ranks_top(m, fs, 0);
    assert(suit_count(m, fs) >= 5 && cell_count(m, top_field(hand_score(m)), fs) > 0);
}

proof fn lemma_tb_straight(cards: Seq<Card>)
    requires
        cards.len() <= 7,
        cards.no_duplicates(),
        score_category(hand_score(cards.to_multiset())) == 4,
    ensures
        ({
            let m = cards.to_multiset();
            let score = hand_score(m);
            &&& rank_run(m, score_rest(score))
            &&& forall|h: int| #[trigger] rank_run(m, h) ==> h <= score_rest(score)
        }),
{
    let m = cards.to_multiset();
    lemma_branch_category(m);
    lemma_tiebreak_setup(cards);
    let pr = ranks_present(m);
    lemma_straight_from_bounds(pr, 12);
    lemma_straight_from_top(pr, 12);
    let x = straight_high(pr)->0;
    lemma_score_split(4, x);
    assert forall|k: int| 0 <= k < 5 implies #[trigger] rank_count(m, wrap_rank(x - k)) > 0 by {
        assert(pr[wrap_rank(x - k)]);
    }
    assert forall|h: int| #[trigger] rank_run(m, h) implies h <= x by {
        assert forall|k: int| 0 <= k < 5 implies #[trigger] pr[wrap_rank(h - k)] by {
            assert(rank_count(m, wrap_rank(h - k)) > 0);
        }
        assert(seq_run(pr, h));
    }
}

proof fn lemma_tb_trips(cards: Seq<Card>)
    requires
        cards.len() <= 7,
        cards.no_duplicates(),
        score_category(hand_score(cards.to_multiset())) == 3,
    ensures
        ({
            let m = cards.to_multiset();
            let a = top_field(hand_score(m));
            0 <= a < 13 && rank_count(m, a) == 3
        }),
{
    let m = cards.to_multiset();
    lemma_branch_category(m);
    lemma_tiebreak_setup(cards);
    let c3 = ranks_counted(m, 3);
    lemma_desc_top(c3, 0);
    let t = desc_marked(c3, 0)[0] as int;
    lemma_desc_marked_bounds(ranks_present_except(m, t, t), 0);
    let ks = desc_marked(ranks_present_except(m, t, t), 0);
    lemma_score_split(3, t * 0x10000 + at_or_zero(ks, 0) * 0x100 + at_or_zero(ks, 1));
    lemma_fields(t, at_or_zero(ks, 0), at_or_zero(ks, 1));
}

#[verifier::spinoff_prover]
proof fn lemma_tb_two_pair(cards: Seq<Card>)
    requires
        cards.len() <= 7,
        cards.no_duplicates(),
        score_category(hand_score(cards.to_multiset())) == 2,
    ensures
        ({
            let m = cards.to_multiset();
            let a = top_field(hand_score(m));
            let b = second_field(hand_score(m));
            &&& 0 <= b < a < 13
            &&& rank_count(m, a) == 2
            &&& rank_count(m, b) == 2
            &&& forall|r: int| b < r < 13 && r != a ==> #[trigger] rank_count(m, r) < 2
        }),
{
    let m = cards.to_multiset();
    lemma_branch_category(m);
    lemma_tiebreak_setup(cards);
    let c4 = ranks_counted(m, 4);
    let c3 = ranks_counted(m, 3);
    let c2 = ranks_counted(m, 2);
    lemma_desc_top(c2, 0);
    lemma_desc_nonempty(c3, 0);
    lemma_desc_nonempty(c4, 0);
    let pairs = desc_marked(c2, 0);
    let p1 = pairs[0] as int;
    let p2 = pairs[1] as int;
    lemma_desc_marked_bounds(ranks_present_except(m, p1, p2), 0);
    let k = at_or_zero(desc_marked(ranks_present_except(m, p1, p2), 0), 0);
    lemma_score_split(2, p1 * 0x10000 + p2 * 0x100 + k);
    lemma_fields(p1, p2, k);
    assert forall|r: int| p2 < r < 13 && r != p1 implies #[trigger] rank_count(m, r) < 2 by {
        if rank_count(m, r) >= 2 {
            if rank_count(m, r) == 2 {
                assert(c2[r]);
            } else if rank_count(m, r) == 3 {
                assert(c3[r]);
            } else {
                assert(c4[r]);
            }
        }
    }
}

proof fn lemma_tb_pair(cards: Seq<Card>)
    requires
        cards.len() <= 7,
        cards.no_duplicates(),
        score_category(hand_score(cards.to_multiset())) == 1,
    ensures
        ({
            let m = cards.to_multiset();
            let a = top_field(hand_score(m));
            0 <= a < 13 && rank_count(m, a) == 2
        }),
{
    let m = cards.to_multiset();
    lemma_branch_category(m);
    lemma_tiebreak_setup(cards);
    let c2 = ranks_counted(m, 2);
    lemma_desc_top(c2, 0);
    let pp = desc_marked(c2, 0)[0] as int;
    lemma_desc_marked_bounds(ranks_present_except(m, pp, pp), 0);
    let ks = desc_marked(ranks_present_except(m, pp, pp), 0);
    lemma_score_split(1, pp * 0x10000 + at_or_zero(ks, 0) * 0x100 + at_or_zero(ks, 1));
    lemma_fields(pp, at_or_zero(ks, 0), at_or_zero(ks, 1));
}

#[verifier::spinoff_prover]
proof fn lemma_tb_high_card(cards: Seq<Card>)
    requires
        1 <= cards.len() <= 7,
        cards.no_duplicates(),
        score_category(hand_score(cards.to_multiset())) == 0,
    ensures
        ({
            let m = cards.to_multiset();
            let a = top_field(hand_score(m));
            &&& 0 <= a < 13
            &&& rank_count(m, a) > 0
            &&& forall|r: int| a < r < 13 ==> #[trigger] rank_count(m, r) == 0
        }),
{
    broadcast use vstd::seq_lib::group_to_multiset_ensures;

    let m = cards.to_multiset();
    lemma_branch_category(m);
    lemma_tiebreak_setup(cards);
    let pr = ranks_present(m);
    lemma_desc_top(pr, 0);
    lemma_desc_marked_bounds(pr, 0);
    let r = desc_marked(pr, 0);
    assert(0 <= pack5(r) < 13 * 0x10000);
    lemma_score_split(0, pack5(r));
    lemma_pack_top(r);
    let c = cards[0];
    assert(m.count(c) > 0);
    lemma_card_of_values(c);
    lemma_rank_value_roundtrip(c.rank);
    lemma_suit_value_roundtrip(c.suit);
    let rr = rank_value(c.rank);
    let ss = suit_value(c.suit);
    assert(cell_count(m, rr, ss) > 0);
    assert(rank_count(m, rr) > 0);
    assert(pr[rr]);
    lemma_desc_nonempty(pr, 0);
    assert forall|x: int| top_field(hand_score(m)) < x < 13 implies #[trigger] rank_count(m, x) == 0 by {
        if rank_count(m, x) > 0 {
            assert(pr[x]);
        }
    }
}

/// What the score's rank fields report, stated from the cards, for a hand of
/// up to seven distinct cards: a straight (or straight flush) scores the top
/// rank of its highest run; four of a kind, three of a kind and one pair
/// score the rank held that often; a full house scores its highest three of
/// a kind; two pair score the highest and second-highest pairs; a flush
/// scores the top card of its suit; high card the top rank held.
pub proof fn lemma_hand_tiebreaks(cards: Seq<Card>)
    requires
        cards.len() <= 7,
        cards.no_duplicates(),
    ensures
        ({
            let m = cards.to_multiset();
            let score = hand_score(m);
            let cat = score_category(score);
            let a = top_field(score);
            let b = second_field(score);
            &&& cat == 8 ==> (exists|s: int| #[trigger] suited_run(m, s, score_rest(score)))
                && forall|s: int, h: int| #[trigger] suited_run(m, s, h) ==> h <= score_rest(score)
            &&& cat == 7 ==> 0 <= a < 13 && rank_count(m, a) == 4
            &&& cat == 6 ==> 0 <= a < 13 && rank_count(m, a) == 3 && forall|r: int|
                a < r < 13 ==> #[trigger] rank_count(m, r) < 3
            &&& cat == 5 ==> exists|s: int|
                0 <= s < 4 && suit_count(m, s) >= 5 && cell_count(m, a, s) > 0 && forall|r: int|
                    a < r < 13 ==> #[trigger] cell_count(m, r, s) == 0
            &&& cat == 4 ==> rank_run(m, score_rest(score)) && forall|h: int|
                #[trigger] rank_run(m, h) ==> h <= score_rest(score)
            &&& cat == 3 ==> 0 <= a < 13 && rank_count(m, a) == 3
            &&& cat == 2 ==> 0 <= b < a < 13 && rank_count(m, a) == 2 && rank_count(m, b) == 2
                && forall|r: int| b < r < 13 && r != a ==> #[trigger] rank_count(m, r) < 2
            &&& cat == 1 ==> 0 <= a < 13 && rank_count(m, a) == 2
            &&& (cat == 0 && cards.len() > 0) ==> 0 <= a < 13 && rank_count(m, a) > 0
                && forall|r: int| a < r < 13 ==> #[trigger] rank_count(m, r) == 0
        }),
{
    let cat = score_category(hand_score(cards.to_multiset()));
    lemma_hand_score_category(cards.to_multiset());
    if cat == 8 {
        lemma_tb_straight_flush(cards);
    } else if cat == 7 {
        lemma_tb_quads(cards);
    } else if cat == 6 {
        lemma_tb_full_house(cards);
    } else if cat == 5 {
        lemma_tb_flush(cards);
    } else if cat == 4 {
        lemma_tb_straight(cards);
    } else if cat == 3 {
        lemma_tb_trips(cards);
    } else if cat == 2 {
        lemma_tb_two_pair(cards);
    } else if cat == 1 {
        lemma_tb_pair(cards);
    } else if cards.len() > 0 {
        lemma_tb_high_card(cards);
    }
}

} // verus!
