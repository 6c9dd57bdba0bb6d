//! Card abstraction for Texas Hold'em: 169 canonical preflop hand classes
//! (pairs, suited and offsuit hands), 50 postflop buckets by hand category
//! and top rank, and the compact information-set keys built from them.

use vstd::prelude::*;
use vstd::multiset::Multiset;
use crate::game::eval::{
    hand_cards, hand_score, lemma_hand_score_category, lemma_hand_score_shape, score_category, score_rest,
};
use crate::game::holdem::{
    all_52_cards, deck_card, evaluate_7cards, full_deck, rank_value, suit_value, Card, Rank,
};
use crate::rng::{seeded_rng, shuffle_in_place};
use crate::text::{push_char, push_chars};

verus! {

broadcast use vstd::seq_lib::group_to_multiset_ensures;

/// The one-letter symbol of a rank: A K Q J T 9 .. 2.
pub open spec fn rank_symbol(r: Rank) -> char {
    match r {
        Rank::Ace => 'A',
        Rank::King => 'K',
        Rank::Queen => 'Q',
        Rank::Jack => 'J',
        Rank::Ten => 'T',
        Rank::Nine => '9',
        Rank::Eight => '8',
        Rank::Seven => '7',
        Rank::Six => '6',
        Rank::Five => '5',
        Rank::Four => '4',
        Rank::Three => '3',
        Rank::Two => '2',
    }
}

/// `(12) + (11) + ... + (12 - h + 1)`: how many suited (or offsuit) classes
/// have a high card above the one `h` steps below the Ace.
pub open spec fn tri(h: int) -> int
    decreases h,
{
    if h <= 0 {
        0
    } else {
        tri(h - 1) + 12 - (h - 1)
    }
}

/// The higher-ranked of the two hole cards' ranks.
pub open spec fn preflop_high(c1: Card, c2: Card) -> Rank {
    if rank_value(c1.rank) >= rank_value(c2.rank) {
        c1.rank
    } else {
        c2.rank
    }
}

/// The lower-ranked of the two hole cards' ranks.
pub open spec fn preflop_low(c1: Card, c2: Card) -> Rank {
    if rank_value(c1.rank) >= rank_value(c2.rank) {
        c2.rank
    } else {
        c1.rank
    }
}

/// The canonical preflop class index: pairs 0..13 (AA first), suited hands
/// 13..91 and offsuit hands 91..169 (AK first, then AQ .. 32).
pub open spec fn preflop_index(c1: Card, c2: Card) -> int {
    let hi = rank_value(preflop_high(c1, c2));
    let lo = rank_value(preflop_low(c1, c2));
    if hi == lo {
        12 - hi
    } else {
        (if c1.suit == c2.suit {
            13int
        } else {
            91int
        }) + tri(12 - hi) + (hi - lo - 1)
    }
}

/// The canonical preflop class name, such as "AA", "AKs" or "AKo".
pub open spec fn preflop_name(c1: Card, c2: Card) -> Seq<char> {
    let hi = preflop_high(c1, c2);
    let lo = preflop_low(c1, c2);
    if hi == lo {
        seq![rank_symbol(hi), rank_symbol(hi)]
    } else if c1.suit == c2.suit {
        seq![rank_symbol(hi), rank_symbol(lo), 's']
    } else {
        seq![rank_symbol(hi), rank_symbol(lo), 'o']
    }
}

/// The canonical preflop class of a starting hand: its index (0..169) and name.
pub fn preflop_bucket(c1: Card, c2: Card) -> (res: (usize, &'static str))
    ensures
        res.0 == preflop_index(c1, c2),
        res.1@ == preflop_name(c1, c2),
        res.0 < 169,
{
    let v1 = c1.rank.value();
    let v2 = c2.rank.value();
    let (r1, r2) = if v1 >= v2 {
        (c1.rank, c2.rank)
    } else {
        (c2.rank, c1.rank)
    };
    let is_pair = r1 == r2;
    let is_suited = c1.suit == c2.suit;
    proof {
        lemma_tri_bounds(12 - rank_value(r1));
    }
    if is_pair {
        let idx = 12 - r1.value() as usize;
        (idx, pair_name(r1))
    } else {
        let high = 12 - r1.value() as usize;
        let low = 12 - r2.value() as usize;
        let offset: usize = if is_suited {
            13
        } else {
            13 + 78
        };
        let mut pair_count: usize = 0;
        let mut h: usize = 0;
        while h < high
            invariant
                high <= 12,
                0 <= h <= high,
                pair_count == tri(h as int),
                tri(h as int) <= 78,
            decreases high - h,
        {
            proof {
                lemma_tri_bounds(h as int + 1);
            }
            pair_count = pair_count + (12 - h);
            h = h + 1;
        }
        proof {
            lemma_tri_bounds(high as int);
        }
        let idx = offset + pair_count + (low - high - 1);
        let name = if is_suited {
            suited_name(r1, r2)
        } else {
            offsuited_name(r1, r2)
        };
        (idx, name)
    }
}

/// `tri` grows with `h` and reaches 78 at 12.
pub proof fn lemma_tri_bounds(h: int)
    requires
        0 <= h <= 12,
    ensures
        0 <= tri(h) <= 78,
        tri(12) == 78,
        h < 12 ==> tri(h) + 12 - h == tri(h + 1),
        tri(h) <= tri(12) - (12 - h),
    decreases 12 - h,
{
    reveal_with_fuel(tri, 13);
    if h < 12 {
        lemma_tri_bounds(h + 1);
    }
}

/// `tri` is increasing: the classes of one high card all sit below those of
/// the next lower high card.
proof fn lemma_tri_monotone(a: int, b: int)
    requires
        0 <= a < b <= 12,
    ensures
        tri(a + 1) <= tri(b),
    decreases b - a,
{
    lemma_tri_bounds(a);
    lemma_tri_bounds(b - 1);
    if a + 1 < b {
        lemma_tri_monotone(a, b - 1);
    }
}

/// The order of the two hole cards does not matter.
pub proof fn lemma_preflop_symmetric(c1: Card, c2: Card)
    ensures
        preflop_index(c1, c2) == preflop_index(c2, c1),
        preflop_name(c1, c2) == preflop_name(c2, c1),
{
}

/// Every starting hand lands in one of the 169 classes, and two hands share
/// a class index only if they have the same two ranks and (unless paired) the
/// same suitedness.
pub proof fn lemma_preflop_classes(a1: Card, a2: Card, b1: Card, b2: Card)
    ensures
        0 <= preflop_index(a1, a2) < 169,
        preflop_index(a1, a2) == preflop_index(b1, b2) ==> {
            &&& preflop_high(a1, a2) == preflop_high(b1, b2)
            &&& preflop_low(a1, a2) == preflop_low(b1, b2)
            &&& (preflop_high(a1, a2) != preflop_low(a1, a2) ==> (a1.suit == a2.suit) == (b1.suit
                == b2.suit))
        },
{
    let ha = rank_value(preflop_high(a1, a2));
    let la = rank_value(preflop_low(a1, a2));
    let hb = rank_value(preflop_high(b1, b2));
    let lb = rank_value(preflop_low(b1, b2));
    lemma_tri_bounds(12 - ha);
    lemma_tri_bounds(12 - hb);
    if ha != la {
        lemma_tri_bounds(12 - ha + 1);
    }
    if hb != lb {
        lemma_tri_bounds(12 - hb + 1);
    }
    if preflop_index(a1, a2) == preflop_index(b1, b2) && ha != la && hb != lb {
        if ha < hb {
            lemma_tri_monotone(12 - hb, 12 - ha);
        } else if hb < ha {
            lemma_tri_monotone(12 - ha, 12 - hb);
        }
    }
    crate::game::holdem::lemma_rank_value_roundtrip(preflop_high(a1, a2));
    crate::game::holdem::lemma_rank_value_roundtrip(preflop_high(b1, b2));
    crate::game::holdem::lemma_rank_value_roundtrip(preflop_low(a1, a2));
    crate::game::holdem::lemma_rank_value_roundtrip(preflop_low(b1, b2));
}

/// The class layout: pairs take 0..13 (AA at 0 down to 22 at 12), suited
/// hands 13..91 and offsuit hands 91..169; within pairs, suited or offsuit
/// hands, a higher top card comes first, and with equal top cards a higher
/// second card comes first.
pub proof fn lemma_preflop_layout(a1: Card, a2: Card, b1: Card, b2: Card)
    ensures
        ({
            let ha = rank_value(preflop_high(a1, a2));
            let la = rank_value(preflop_low(a1, a2));
            let hb = rank_value(preflop_high(b1, b2));
            let lb = rank_value(preflop_low(b1, b2));
            let ia = preflop_index(a1, a2);
            let ib = preflop_index(b1, b2);
            &&& a1.rank == a2.rank ==> ia == 12 - rank_value(a1.rank)
            &&& (a1.rank != a2.rank && a1.suit == a2.suit) ==> 13 <= ia < 91
            &&& (a1.rank != a2.rank && a1.suit != a2.suit) ==> 91 <= ia < 169
            &&& (ha != la && hb != lb && (a1.suit == a2.suit) == (b1.suit == b2.suit) && (ha > hb
                || (ha == hb && la > lb))) ==> ia < ib
        }),
{
    let ha = rank_value(preflop_high(a1, a2));
    let la = rank_value(preflop_low(a1, a2));
    let hb = rank_value(preflop_high(b1, b2));
    let lb = rank_value(preflop_low(b1, b2));
    crate::game::holdem::lemma_rank_value_roundtrip(a1.rank);
    crate::game::holdem::lemma_rank_value_roundtrip(a2.rank);
    crate::game::holdem::lemma_rank_value_roundtrip(b1.rank);
    crate::game::holdem::lemma_rank_value_roundtrip(b2.rank);
    lemma_tri_bounds(12 - ha);
    lemma_tri_bounds(12 - hb);
    if ha != la {
        lemma_tri_bounds(12 - ha + 1);
    }
    if hb != lb {
        lemma_tri_bounds(12 - hb + 1);
    }
    if ha > hb && ha != la && hb != lb {
        lemma_tri_monotone(12 - ha, 12 - hb);
    }
}

proof fn lemma_rank_symbol_injective(r1: Rank, r2: Rank)
    requires
        rank_symbol(r1) == rank_symbol(r2),
    ensures
        r1 == r2,
{
}

/// Two starting hands get the same class name exactly when they get the same
/// class index.
pub proof fn lemma_preflop_name_matches_index(a1: Card, a2: Card, b1: Card, b2: Card)
    ensures
        (preflop_name(a1, a2) == preflop_name(b1, b2)) <==> (preflop_index(a1, a2) == preflop_index(
            b1,
            b2,
        )),
{
    lemma_preflop_classes(a1, a2, b1, b2);
    let ha = preflop_high(a1, a2);
    let la = preflop_low(a1, a2);
    let hb = preflop_high(b1, b2);
    let lb = preflop_low(b1, b2);
    let na = preflop_name(a1, a2);
    let nb = preflop_name(b1, b2);
    if na == nb {
        assert(na[0] == rank_symbol(ha));
        assert(nb[0] == rank_symbol(hb));
        lemma_rank_symbol_injective(ha, hb);
        assert(na[1] == rank_symbol(la));
        assert(nb[1] == rank_symbol(lb));
        lemma_rank_symbol_injective(la, lb);
        if ha != la {
            assert(na.len() == 3);
            assert(na[2] == nb[2]);
        }
        lemma_preflop_same_class(a1, a2, b1, b2);
    }
}

proof fn lemma_preflop_same_class(a1: Card, a2: Card, b1: Card, b2: Card)
    requires
        preflop_high(a1, a2) == preflop_high(b1, b2),
        preflop_low(a1, a2) == preflop_low(b1, b2),
        preflop_high(a1, a2) != preflop_low(a1, a2) ==> (a1.suit == a2.suit) == (b1.suit == b2.suit),
    ensures
        preflop_index(a1, a2) == preflop_index(b1, b2),
{
    crate::game::holdem::lemma_rank_value_roundtrip(preflop_high(a1, a2));
    crate::game::holdem::lemma_rank_value_roundtrip(preflop_low(a1, a2));
}

pub open spec fn min_int(a: int, b: int) -> int {
    if a < b {
        a
    } else {
        b
    }
}

/// Bits 16..20 of a score: the primary rank field.
pub open spec fn score_field(score: int) -> int {
    (score / 0x10000) % 16
}

/// The postflop bucket (0..50) of a hand score: straight flush 49, quads 48,
/// full house 45..48, flush 40..44, straight 35..39, trips 28..34, two pair
/// 20..27, one pair 10..19, high card 0..9; within a category by top rank.
pub open spec fn bucket_of_score(score: int) -> int {
    let cat = score_category(score);
    let f = score_field(score);
    let b = if cat == 8 {
        49
    } else if cat == 7 {
        48
    } else if cat == 6 {
        45 + min_int(f, 3)
    } else if cat == 5 {
        40 + min_int(f, 4)
    } else if cat == 4 {
        35 + min_int(score % 16, 4)
    } else if cat == 3 {
        28 + min_int(f, 6)
    } else if cat == 2 {
        20 + min_int(f, 7)
    } else if cat == 1 {
        10 + min_int(f, 9)
    } else {
        min_int(f, 9)
    };
    min_int(b, 49)
}

/// Buckets never overlap downward: a hand of a higher category never gets a
/// lower bucket than one of a lower category, and all buckets lie in 0..50.
pub proof fn lemma_bucket_respects_category(s1: int, s2: int)
    requires
        0 <= s1,
        0 <= s2,
        score_category(s1) < score_category(s2) <= 8,
    ensures
        0 <= bucket_of_score(s1) <= bucket_of_score(s2) < 50,
{
}

proof fn lemma_score_fields(c: int, r: int)
    requires
        0 <= c,
        0 <= r < 13 * 0x10000,
    ensures
        score_field(c * 0x1_0000_0000 + r) == r / 0x10000,
        (c * 0x1_0000_0000 + r) % 16 == r % 16,
{
    let s = c * 0x1_0000_0000 + r;
    vstd::arithmetic::div_mod::lemma_fundamental_div_mod(r, 0x10000);
    vstd::arithmetic::div_mod::lemma_div_pos_is_pos(r, 0x10000);
    assert(r / 0x10000 < 13) by {
        vstd::arithmetic::div_mod::lemma_div_is_ordered(r, 13 * 0x10000 - 1, 0x10000);
        vstd::arithmetic::div_mod::lemma_fundamental_div_mod_converse(13 * 0x10000 - 1, 0x10000, 12, 0xFFFF);
    }
    vstd::arithmetic::div_mod::lemma_mod_pos_bound(r, 0x10000);
    vstd::arithmetic::div_mod::lemma_fundamental_div_mod_converse(
        s,
        0x10000,
        c * 0x10000 + r / 0x10000,
        r % 0x10000,
    );
    vstd::arithmetic::div_mod::lemma_fundamental_div_mod_converse(
        c * 0x10000 + r / 0x10000,
        16,
        c * 0x1000,
        r / 0x10000,
    );
    vstd::arithmetic::div_mod::lemma_fundamental_div_mod(r, 16);
    vstd::arithmetic::div_mod::lemma_mod_pos_bound(r, 16);
    vstd::arithmetic::div_mod::lemma_fundamental_div_mod_converse(
        s,
        16,
        c * 0x1000_0000 + r / 16,
        r % 16,
    );
}

/// A better-scoring hand never lands in a lower postflop bucket: buckets
/// grow with the score, within a category as well as across categories.
pub proof fn lemma_bucket_monotone(m1: Multiset<Card>, m2: Multiset<Card>)
    requires
        hand_score(m1) <= hand_score(m2),
    ensures
        bucket_of_score(hand_score(m1)) <= bucket_of_score(hand_score(m2)),
{
    let s1 = hand_score(m1);
    let s2 = hand_score(m2);
    lemma_hand_score_category(m1);
    lemma_hand_score_category(m2);
    lemma_hand_score_shape(m1);
    lemma_hand_score_shape(m2);
    let c1 = score_category(s1);
    let c2 = score_category(s2);
    let r1 = score_rest(s1);
    let r2 = score_rest(s2);
    if c1 < c2 {
        lemma_bucket_respects_category(s1, s2);
    } else {
        assert(c1 == c2);
        assert(r1 <= r2);
        lemma_score_fields(c1, r1);
        lemma_score_fields(c2, r2);
        vstd::arithmetic::div_mod::lemma_div_is_ordered(r1, r2, 0x10000);
        if c1 == 4 {
            vstd::arithmetic::div_mod::lemma_small_mod(r1 as nat, 16);
            vstd::arithmetic::div_mod::lemma_small_mod(r2 as nat, 16);
        }
    }
}

/// The postflop bucket (0..50) of the hand: category plus top rank.
pub fn postflop_equity_bucket(hole: &[Card; 2], board: &[Card]) -> (bucket: usize)
    ensures
        bucket == bucket_of_score(hand_score(hand_cards(hole@, board@).to_multiset())),
        bucket < 50,
{
    let score = evaluate_7cards(hole, board);
    let category = score / 0x1_0000_0000;
    let field = (score / 0x10000) % 16;
    let low = score % 16;
    let clamp = |x: u64, m: u64| -> (r: u64)
        ensures
            r == min_int(x as int, m as int),
        {
            if x < m {
                x
            } else {
                m
            }
        };
    let bucket: u64 = if category == 8 {
        49
    } else if category == 7 {
        48
    } else if category == 6 {
        45 + clamp(field, 3)
    } else if category == 5 {
        40 + clamp(field, 4)
    } else if category == 4 {
        35 + clamp(low, 4)
    } else if category == 3 {
        28 + clamp(field, 6)
    } else if category == 2 {
        20 + clamp(field, 7)
    } else if category == 1 {
        10 + clamp(field, 9)
    } else {
        clamp(field, 9)
    };
    clamp(bucket, 49) as usize
}

/// The letter a Hold'em action is written with: f c r h (half-pot raise), x.
pub open spec fn holdem_action_letter(a: u8) -> char {
    if a == 0 {
        'f'
    } else if a == 1 {
        'c'
    } else if a == 2 {
        'r'
    } else if a == 3 {
        'h'
    } else {
        'x'
    }
}

pub open spec fn holdem_actions_text(h: Seq<u8>) -> Seq<char> {
    h.map_values(|a: u8| holdem_action_letter(a))
}

/// The street letter of a round: F flop, T turn, R river.
pub open spec fn round_code(round: int) -> char {
    if round == 2 {
        'F'
    } else if round == 3 {
        'T'
    } else if round == 4 {
        'R'
    } else {
        'X'
    }
}

pub open spec fn digit_char(d: int) -> char {
    if d == 0 {
        '0'
    } else if d == 1 {
        '1'
    } else if d == 2 {
        '2'
    } else if d == 3 {
        '3'
    } else if d == 4 {
        '4'
    } else if d == 5 {
        '5'
    } else if d == 6 {
        '6'
    } else if d == 7 {
        '7'
    } else if d == 8 {
        '8'
    } else {
        '9'
    }
}

/// The abstract information-set key: preflop `P:<class>/<actions>`,
/// postflop `<street>:B<two-digit bucket>/<actions>`, with the actions of
/// the current round.
pub open spec fn holdem_key(hole: Seq<Card>, board: Seq<Card>, round: int, actions: Seq<u8>) -> Seq<
    char,
> {
    if round == 1 {
        seq!['P', ':'] + preflop_name(hole[0], hole[1]) + seq!['/'] + holdem_actions_text(actions)
    } else {
        let b = bucket_of_score(hand_score(hand_cards(hole, board).to_multiset()));
        seq![round_code(round), ':', 'B', digit_char(b / 10), digit_char(b % 10), '/']
            + holdem_actions_text(actions)
    }
}

/// Swapping the two hole cards leaves the abstract key unchanged.
pub proof fn lemma_key_hole_order_irrelevant(
    h0: Card,
    h1: Card,
    board: Seq<Card>,
    round: int,
    actions: Seq<u8>,
)
    ensures
        holdem_key(seq![h0, h1], board, round, actions) == holdem_key(
            seq![h1, h0],
            board,
            round,
            actions,
        ),
{
    crate::game::eval::lemma_hole_order_irrelevant(h0, h1, board);
    lemma_preflop_symmetric(h0, h1);
    assert(seq![h0, h1][0] == h0 && seq![h0, h1][1] == h1);
    assert(seq![h1, h0][0] == h1 && seq![h1, h0][1] == h0);
}

proof fn lemma_actions_text_injective(a1: Seq<u8>, a2: Seq<u8>)
    requires
        forall|i: int| 0 <= i < a1.len() ==> #[trigger] a1[i] <= 3,
        forall|i: int| 0 <= i < a2.len() ==> #[trigger] a2[i] <= 3,
        holdem_actions_text(a1) == holdem_actions_text(a2),
    ensures
        a1 == a2,
{
    assert(a1.len() == holdem_actions_text(a1).len());
    assert forall|i: int| 0 <= i < a1.len() implies a1[i] == a2[i] by {
        assert(holdem_actions_text(a1)[i] == holdem_action_letter(a1[i]));
        assert(holdem_actions_text(a2)[i] == holdem_action_letter(a2[i]));
    }
    assert(a1 =~= a2);
}

/// A key tells apart what it abstracts: two hands with the same key in the
/// same round have played the same actions this round (codes 0 to 3), and
/// preflop share a starting-hand class, postflop a bucket.
#[verifier::spinoff_prover]
pub proof fn lemma_holdem_key_decodes(
    h1: Seq<Card>,
    b1: Seq<Card>,
    h2: Seq<Card>,
    b2: Seq<Card>,
    round: int,
    acts1: Seq<u8>,
    acts2: Seq<u8>,
)
    requires
        1 <= round <= 4,
        forall|i: int| 0 <= i < acts1.len() ==> #[trigger] acts1[i] <= 3,
        forall|i: int| 0 <= i < acts2.len() ==> #[trigger] acts2[i] <= 3,
        holdem_key(h1, b1, round, acts1) == holdem_key(h2, b2, round, acts2),
    ensures
        acts1 == acts2,
        round == 1 ==> preflop_index(h1[0], h1[1]) == preflop_index(h2[0], h2[1]),
        round > 1 ==> bucket_of_score(hand_score(hand_cards(h1, b1).to_multiset()))
            == bucket_of_score(hand_score(hand_cards(h2, b2).to_multiset())),
{
    let k1 = holdem_key(h1, b1, round, acts1);
    let k2 = holdem_key(h2, b2, round, acts2);
    let t1 = holdem_actions_text(acts1);
    let t2 = holdem_actions_text(acts2);
    if round == 1 {
        let n1 = preflop_name(h1[0], h1[1]);
        let n2 = preflop_name(h2[0], h2[1]);
        let p1 = seq!['P', ':'] + n1 + seq!['/'];
        let p2 = seq!['P', ':'] + n2 + seq!['/'];
        assert(k1 == p1 + t1);
        assert(k2 == p2 + t2);
        assert(forall|i: int| 0 <= i < t1.len() ==> #[trigger] t1[i] != '/');
        assert(forall|i: int| 0 <= i < t2.len() ==> #[trigger] t2[i] != '/');
        if n1.len() != n2.len() {
            assert(k1[4] != k2[4]);
        }
        assert(n1.len() == n2.len());
        assert(p1.len() == p2.len());
        assert(k1.subrange(0, p1.len() as int) =~= p1);
        assert(k2.subrange(0, p2.len() as int) =~= p2);
        assert(n1 =~= p1.subrange(2, 2 + n1.len() as int));
        assert(n2 =~= p2.subrange(2, 2 + n2.len() as int));
        assert(n1 == n2);
        assert(k1.skip(p1.len() as int) =~= t1);
        assert(k2.skip(p2.len() as int) =~= t2);
        lemma_preflop_name_matches_index(h1[0], h1[1], h2[0], h2[1]);
    } else {
        let bk1 = bucket_of_score(hand_score(hand_cards(h1, b1).to_multiset()));
        let bk2 = bucket_of_score(hand_score(hand_cards(h2, b2).to_multiset()));
        let p1 = seq![round_code(round), ':', 'B', digit_char(bk1 / 10), digit_char(bk1 % 10), '/'];
        let p2 = seq![round_code(round), ':', 'B', digit_char(bk2 / 10), digit_char(bk2 % 10), '/'];
        assert(k1 == p1 + t1);
        assert(k2 == p2 + t2);
        assert(k1[3] == k2[3]);
        assert(k1[4] == k2[4]);
        crate::game::eval::lemma_hand_score_category(hand_cards(h1, b1).to_multiset());
        crate::game::eval::lemma_hand_score_category(hand_cards(h2, b2).to_multiset());
        lemma_bucket_respects_range(hand_score(hand_cards(h1, b1).to_multiset()));
        lemma_bucket_respects_range(hand_score(hand_cards(h2, b2).to_multiset()));
        assert(bk1 / 10 == bk2 / 10);
        assert(bk1 % 10 == bk2 % 10);
        assert(k1.skip(6) =~= t1);
        assert(k2.skip(6) =~= t2);
    }
    lemma_actions_text_injective(acts1, acts2);
}

proof fn lemma_bucket_respects_range(s: int)
    requires
        0 <= s,
        score_category(s) <= 8,
    ensures
        0 <= bucket_of_score(s) < 50,
{
    vstd::arithmetic::div_mod::lemma_mod_pos_bound(s / 0x10000, 16);
    vstd::arithmetic::div_mod::lemma_mod_pos_bound(s, 16);
}

fn digit_to_char(d: usize) -> (c: char)
    requires
        d < 10,
    ensures
        c == digit_char(d as int),
{
    if d == 0 {
        '0'
    } else if d == 1 {
        '1'
    } else if d == 2 {
        '2'
    } else if d == 3 {
        '3'
    } else if d == 4 {
        '4'
    } else if d == 5 {
        '5'
    } else if d == 6 {
        '6'
    } else if d == 7 {
        '7'
    } else if d == 8 {
        '8'
    } else {
        '9'
    }
}

fn holdem_action_char(a: u8) -> (c: char)
    ensures
        c == holdem_action_letter(a),
{
    if a == 0 {
        'f'
    } else if a == 1 {
        'c'
    } else if a == 2 {
        'r'
    } else if a == 3 {
        'h'
    } else {
        'x'
    }
}

/// The compact abstract information-set key of a player holding `hole`.
pub fn get_holdem_infoset_key(
    hole: &[Card; 2],
    board: &[Card],
    round: u8,
    history: &[Vec<u8>; 4],
) -> (key: String)
    requires
        1 <= round <= 4,
    ensures
        key@ == holdem_key(hole@, board@, round as int, history[round - 1]@),
{
    let mut key = String::new();
    if round == 1 {
        let (_, name) = preflop_bucket(hole[0], hole[1]);
        push_char(&mut key, 'P');
        push_char(&mut key, ':');
        push_chars(&mut key, name);
    } else {
        let bucket = postflop_equity_bucket(hole, board);
        let code = if round == 2 {
            'F'
        } else if round == 3 {
            'T'
        } else {
            'R'
        };
        push_char(&mut key, code);
        push_char(&mut key, ':');
        push_char(&mut key, 'B');
        push_char(&mut key, digit_to_char(bucket / 10));
        push_char(&mut key, digit_to_char(bucket % 10));
    }
    push_char(&mut key, '/');
    let actions = &history[(round - 1) as usize];
    let ghost prefix = key@;
    let mut i: usize = 0;
    while i < actions.len()
        invariant
            0 <= i <= actions@.len(),
            key@ == prefix + holdem_actions_text(actions@.take(i as int)),
        decreases actions@.len() - i,
    {
        push_char(&mut key, holdem_action_char(actions[i]));
        assert(holdem_actions_text(actions@.take(i as int + 1)) =~= holdem_actions_text(
            actions@.take(i as int),
        ).push(holdem_action_letter(actions@[i as int])));
        i = i + 1;
    }
    assert(actions@.take(actions@.len() as int) =~= actions@);
    key
}

/// The deck cards (in deck order) among the first `k` that are neither hole
/// nor board cards.
pub open spec fn unused_cards(hole: Seq<Card>, board: Seq<Card>, k: int) -> Seq<Card>
    decreases k,
{
    if k <= 0 {
        Seq::empty()
    } else if hole.contains(deck_card(k - 1)) || board.contains(deck_card(k - 1)) {
        unused_cards(hole, board, k - 1)
    } else {
        unused_cards(hole, board, k - 1).push(deck_card(k - 1))
    }
}

/// The cards an opponent or the rest of the board can still hold.
pub open spec fn remaining_deck(hole: Seq<Card>, board: Seq<Card>) -> Seq<Card> {
    unused_cards(hole, board, 52)
}

/// Equity points of one matchup: 2 for a win, 1 for a tie, 0 for a loss.
pub open spec fn versus_points(mine: int, theirs: int) -> int {
    if mine > theirs {
        2
    } else if mine == theirs {
        1
    } else {
        0
    }
}

/// The score of an opponent holding `rem[i]` and `rem[j]` on `board`.
pub open spec fn opponent_score(rem: Seq<Card>, board: Seq<Card>, i: int, j: int) -> int {
    hand_score(hand_cards(seq![rem[i], rem[j]], board).to_multiset())
}

/// Points against the opponents `(rem[i], rem[k])` for `i < k < j`.
pub open spec fn row_points(rem: Seq<Card>, board: Seq<Card>, mine: int, i: int, j: int) -> int
    decreases j - i,
{
    if j <= i + 1 {
        0
    } else {
        row_points(rem, board, mine, i, j - 1) + versus_points(
            mine,
            opponent_score(rem, board, i, j - 1),
        )
    }
}

/// Points against every opponent pair whose first card is one of `rem[..i]`.
pub open spec fn river_points(rem: Seq<Card>, board: Seq<Card>, mine: int, i: int) -> int
    decreases i,
{
    if i <= 0 {
        0
    } else {
        river_points(rem, board, mine, i - 1) + row_points(rem, board, mine, i - 1, rem.len() as int)
    }
}

/// How many pairs `(a, b)` with `a < b < n` have `a < i`.
pub open spec fn pairs_before(n: int, i: int) -> int
    decreases i,
{
    if i <= 0 {
        0
    } else {
        pairs_before(n, i - 1) + (if n - i > 0 {
            n - i
        } else {
            0
        })
    }
}

/// How many opponents `(rem[i], rem[k])`, `i < k < j`, score as `p` asks.
pub open spec fn row_count(
    rem: Seq<Card>,
    board: Seq<Card>,
    i: int,
    j: int,
    p: spec_fn(int) -> bool,
) -> int
    decreases j - i,
{
    if j <= i + 1 {
        0
    } else {
        row_count(rem, board, i, j - 1, p) + if p(opponent_score(rem, board, i, j - 1)) {
            1int
        } else {
            0
        }
    }
}

/// How many opponent pairs `(rem[a], rem[b])`, `a < b`, `a < i`, score as
/// `p` asks.
pub open spec fn pair_count(rem: Seq<Card>, board: Seq<Card>, i: int, p: spec_fn(int) -> bool) -> int
    decreases i,
{
    if i <= 0 {
        0
    } else {
        pair_count(rem, board, i - 1, p) + row_count(rem, board, i - 1, rem.len() as int, p)
    }
}

proof fn lemma_row_points_counts(rem: Seq<Card>, board: Seq<Card>, mine: int, i: int, j: int)
    ensures
        row_points(rem, board, mine, i, j) == 2 * row_count(rem, board, i, j, |s: int| s < mine)
            + row_count(rem, board, i, j, |s: int| s == mine),
        row_count(rem, board, i, j, |s: int| true) == if j - i - 1 > 0 {
            j - i - 1
        } else {
            0
        },
    decreases j - i,
{
    if j > i + 1 {
        lemma_row_points_counts(rem, board, mine, i, j - 1);
    }
}

/// On the river the points count 2 for every opponent pair the hand beats
/// and 1 for every pair it ties, and the pairs counted are all the pairs:
/// `n * (n - 1) / 2` of them for `n` remaining cards.
pub proof fn lemma_river_points_counts(rem: Seq<Card>, board: Seq<Card>, mine: int, i: int)
    requires
        0 <= i <= rem.len(),
    ensures
        river_points(rem, board, mine, i) == 2 * pair_count(rem, board, i, |s: int| s < mine)
            + pair_count(rem, board, i, |s: int| s == mine),
        pair_count(rem, board, i, |s: int| true) == pairs_before(rem.len() as int, i),
        pairs_before(rem.len() as int, rem.len() as int) * 2 == rem.len() * (rem.len() - 1),
    decreases i,
{
    if i > 0 {
        lemma_river_points_counts(rem, board, mine, i - 1);
        lemma_row_points_counts(rem, board, mine, i - 1, rem.len() as int);
    }
    lemma_pairs_before_formula(rem.len() as int, rem.len() as int);
}

proof fn lemma_pairs_before_formula(n: int, i: int)
    requires
        0 <= i <= n,
    ensures
        2 * pairs_before(n, i) == i * (2 * n - i - 1),
    decreases i,
{
    if i > 0 {
        lemma_pairs_before_formula(n, i - 1);
        assert(pairs_before(n, i) == pairs_before(n, i - 1) + (n - i));
        let prev = (i - 1) * (2 * n - (i - 1) - 1);
        assert(2 * pairs_before(n, i - 1) == prev);
        assert(i * (2 * n - i - 1) == prev + 2 * (n - i)) by (nonlinear_arith)
            requires
                prev == (i - 1) * (2 * n - (i - 1) - 1),
        ;
    } else {
        assert(i * (2 * n - i - 1) == 0) by (nonlinear_arith)
            requires
                i == 0,
        ;
    }
}

/// Each matchup is scored from both sides consistently: a win for one is a
/// loss for the other, and a tie gives each half of a win.
pub proof fn lemma_versus_points_split(mine: int, theirs: int)
    ensures
        versus_points(mine, theirs) + versus_points(theirs, mine) == 2,
        versus_points(mine, mine) == 1,
        versus_points(mine, theirs) == 2 <==> mine > theirs,
        versus_points(mine, theirs) == 0 <==> mine < theirs,
{
}

proof fn lemma_pairs_before_bound(n: int, i: int)
    requires
        0 <= i <= n <= 52,
    ensures
        0 <= pairs_before(n, i) <= 52 * i,
    decreases i,
{
    if i > 0 {
        lemma_pairs_before_bound(n, i - 1);
    }
}

proof fn lemma_row_points_bound(rem: Seq<Card>, board: Seq<Card>, mine: int, i: int, j: int)
    ensures
        0 <= row_points(rem, board, mine, i, j) <= 2 * (if j - i - 1 > 0 {
            j - i - 1
        } else {
            0
        }),
    decreases j - i,
{
    if j > i + 1 {
        lemma_row_points_bound(rem, board, mine, i, j - 1);
    }
}

proof fn lemma_river_points_bound(rem: Seq<Card>, board: Seq<Card>, mine: int, i: int)
    requires
        0 <= i <= rem.len(),
    ensures
        0 <= river_points(rem, board, mine, i) <= 2 * pairs_before(rem.len() as int, i),
    decreases i,
{
    if i > 0 {
        lemma_river_points_bound(rem, board, mine, i - 1);
        lemma_row_points_bound(rem, board, mine, i - 1, rem.len() as int);
    }
}

fn contains_card(cards: &[Card], c: Card) -> (r: bool)
    ensures
        r == cards@.contains(c),
{
    let mut i: usize = 0;
    while i < cards.len()
        invariant
            0 <= i <= cards@.len(),
            forall|k: int| 0 <= k < i ==> cards@[k] != c,
        decreases cards@.len() - i,
    {
        if cards[i] == c {
            return true;
        }
        i = i + 1;
    }
    false
}

/// The deck cards, in deck order, that are neither hole nor board cards.
fn collect_remaining(hole: &[Card; 2], board: &[Card]) -> (rem: Vec<Card>)
    ensures
        rem@ == remaining_deck(hole@, board@),
{
    let deck = all_52_cards();
    let mut rem: Vec<Card> = Vec::new();
    let mut k: usize = 0;
    while k < 52
        invariant
            0 <= k <= 52,
            deck@ == full_deck(),
            rem@ == unused_cards(hole@, board@, k as int),
        decreases 52 - k,
    {
        let c = deck[k];
        assert(c == deck_card(k as int));
        if !contains_card(hole.as_slice(), c) && !contains_card(board, c) {
            rem.push(c);
        }
        k = k + 1;
    }
    rem
}

fn versus(mine: u64, theirs: u64) -> (p: u64)
    ensures
        p == versus_points(mine as int, theirs as int),
{
    if mine > theirs {
        2
    } else if mine == theirs {
        1
    } else {
        0
    }
}

/// Index of a card in the 52-card order (suit-major).
fn card_index(c: Card) -> (i: u64)
    ensures
        i == suit_value(c.suit) * 13 + rank_value(c.rank),
        i < 52,
{
    (c.suit.value() as u64) * 13 + (c.rank.value() as u64)
}

/// The board a rollout completes: the known board cards followed by the
/// deal's cards after the opponent's two, five cards in all.
pub open spec fn rollout_board(board: Seq<Card>, deal: Seq<Card>) -> Seq<Card> {
    board + deal.subrange(2, 2 + (5 - board.len()))
}

/// Points of one rollout: the opponent holds the deal's first two cards and
/// the deal's next cards complete the board.
pub open spec fn rollout_points(hole: Seq<Card>, board: Seq<Card>, deal: Seq<Card>) -> int {
    let full = rollout_board(board, deal);
    versus_points(
        hand_score(hand_cards(hole, full).to_multiset()),
        hand_score(hand_cards(seq![deal[0], deal[1]], full).to_multiset()),
    )
}

/// Points of a series of rollouts, one per deal.
pub open spec fn rollouts_points(hole: Seq<Card>, board: Seq<Card>, deals: Seq<Seq<Card>>) -> int
    decreases deals.len(),
{
    if deals.len() == 0 {
        0
    } else {
        rollouts_points(hole, board, deals.drop_last()) + rollout_points(
            hole,
            board,
            deals[deals.len() - 1],
        )
    }
}

/// A rollout scores the same deal from both seats consistently: swapping
/// the two players' hole cards turns a win into a loss and keeps a tie, so
/// the two results add up to 2.
pub proof fn lemma_rollout_seats(hole: Seq<Card>, board: Seq<Card>, deal: Seq<Card>)
    requires
        hole.len() == 2,
        board.len() <= 4,
        deal.len() >= 2 + (5 - board.len()),
    ensures
        rollout_points(hole, board, deal) + rollout_points(
            seq![deal[0], deal[1]],
            board,
            seq![hole[0], hole[1]] + deal.skip(2),
        ) == 2,
{
    let swapped = seq![hole[0], hole[1]] + deal.skip(2);
    assert(swapped.subrange(2, 2 + (5 - board.len())) =~= deal.subrange(2, 2 + (5 - board.len())));
    assert(rollout_board(board, swapped) == rollout_board(board, deal));
    assert(seq![swapped[0], swapped[1]] =~= hole);
    assert(hand_cards(hole, rollout_board(board, deal)) =~= hand_cards(
        seq![hole[0], hole[1]],
        rollout_board(board, deal),
    ));
}

/// Plays out one rollout from a dealt deck: the opponent gets the deck's
/// first two cards, and the next ones complete the board. Returns 2 for a
/// win, 1 for a tie and 0 for a loss.
pub fn rollout(hole: &[Card; 2], board: &[Card], deal: &[Card]) -> (p: u64)
    requires
        board@.len() <= 4,
        deal@.len() >= 2 + (5 - board@.len()),
    ensures
        p == rollout_points(hole@, board@, deal@),
        p <= 2,
{
    let missing = 5 - board.len();
    let mut full_board: Vec<Card> = Vec::new();
    let mut k: usize = 0;
    while k < board.len()
        invariant
            0 <= k <= board@.len(),
            full_board@ == board@.take(k as int),
        decreases board@.len() - k,
    {
        full_board.push(board[k]);
        assert(board@.take(k as int + 1) =~= board@.take(k as int).push(board@[k as int]));
        k = k + 1;
    }
    assert(board@.take(board@.len() as int) =~= board@);
    let mut k: usize = 0;
    while k < missing
        invariant
            0 <= k <= missing,
            missing == 5 - board@.len(),
            deal@.len() >= 2 + missing,
            full_board@ == board@ + deal@.subrange(2, 2 + k as int),
        decreases missing - k,
    {
        full_board.push(deal[2 + k]);
        assert(deal@.subrange(2, 2 + k as int + 1) =~= deal@.subrange(2, 2 + k as int).push(
            deal@[2 + k as int],
        ));
        k = k + 1;
    }
    assert(full_board@ == rollout_board(board@, deal@));
    let opp_hole = [deal[0], deal[1]];
    assert(hand_cards(opp_hole@, full_board@) =~= hand_cards(seq![deal@[0], deal@[1]], full_board@));
    let my_score = evaluate_7cards(hole, full_board.as_slice());
    let opp_score = evaluate_7cards(&opp_hole, full_board.as_slice());
    versus(my_score, opp_score)
}

/// The seed of the rollout generator: the hole cards' deck indices
/// (suit-major) shifted left by 32 and 24 bits, xor the board size, xor a
/// fixed constant.
pub open spec fn equity_seed_spec(hole: Seq<Card>, board_len: int) -> u64 {
    let i0 = (suit_value(hole[0].suit) * 13 + rank_value(hole[0].rank)) as u64;
    let i1 = (suit_value(hole[1].suit) * 13 + rank_value(hole[1].rank)) as u64;
    (i0 << 32u64) ^ (i1 << 24u64) ^ (board_len as u64) ^ 0xDEAD_BEEF_CAFE_BABEu64
}

/// The seed `equity_tally` hands the rollout generator.
pub fn equity_seed(hole: &[Card; 2], board_len: usize) -> (seed: u64)
    ensures
        seed == equity_seed_spec(hole@, board_len as int),
{
    let i0 = card_index(hole[0]);
    let i1 = card_index(hole[1]);
    (i0 << 32) ^ (i1 << 24) ^ (board_len as u64) ^ 0xDEAD_BEEF_CAFE_BABE
}

/// How the hand fares against opponent hands, as `(points, matchups)` with
/// 2 points per win and 1 per tie; its equity is `points / (2 * matchups)`.
/// On the river every opponent pair from the remaining deck is counted
/// exactly once. Earlier, a fixed number of rollouts (120 on the turn, 80
/// otherwise) each play out a shuffle of the remaining deck (see `rollout`);
/// which orders the shuffles give rests on the generator, which is seeded
/// with `equity_seed`.
pub fn equity_tally(hole: &[Card; 2], board: &[Card]) -> (tally: (u64, u64))
    requires
        board@.len() <= 5,
        board@.len() < 5 ==> remaining_deck(hole@, board@).len() >= 2 + (5 - board@.len()),
    ensures
        board@.len() == 5 ==> tally.0 == river_points(
            remaining_deck(hole@, board@),
            board@,
            hand_score(hand_cards(hole@, board@).to_multiset()),
            remaining_deck(hole@, board@).len() as int,
        ) && tally.1 == pairs_before(
            remaining_deck(hole@, board@).len() as int,
            remaining_deck(hole@, board@).len() as int,
        ),
        board@.len() == 4 ==> tally.1 == 120,
        board@.len() < 4 ==> tally.1 == 80,
        board@.len() < 5 ==> exists|deals: Seq<Seq<Card>>|
            #![trigger rollouts_points(hole@, board@, deals)]
            {
                &&& deals.len() == tally.1
                &&& forall|i: int|
                    0 <= i < deals.len() ==> #[trigger] deals[i].to_multiset()
                        == remaining_deck(hole@, board@).to_multiset()
                &&& tally.0 == rollouts_points(hole@, board@, deals)
            },
        tally.0 <= 2 * tally.1,
{
    let remaining = collect_remaining(hole, board);
    let missing = 5 - board.len();
    if missing == 0 {
        let my_score = evaluate_7cards(hole, board);
        let ghost mine = my_score as int;
        let n = remaining.len();
        proof {
            lemma_unused_len(hole@, board@, 52);
        }
        let mut points: u64 = 0;
        let mut total: u64 = 0;
        let mut i: usize = 0;
        while i < n
            invariant
                n == remaining@.len(),
                n <= 52,
                0 <= i <= n,
                points == river_points(remaining@, board@, mine, i as int),
                total == pairs_before(n as int, i as int),
                my_score as int == mine,
                mine == hand_score(hand_cards(hole@, board@).to_multiset()),
                board@.len() == 5,
            decreases n - i,
        {
            proof {
                lemma_river_points_bound(remaining@, board@, mine, i as int);
                lemma_pairs_before_bound(n as int, i as int);
            }
            let mut j: usize = i + 1;
            let mut row: u64 = 0;
            while j < n
                invariant
                    n == remaining@.len(),
                    n <= 52,
                    i < n,
                    i + 1 <= j <= n,
                    row == row_points(remaining@, board@, mine, i as int, j as int),
                    row <= 2 * j,
                    my_score as int == mine,
                    mine == hand_score(hand_cards(hole@, board@).to_multiset()),
                decreases n - j,
            {
                let opp_hole = [remaining[i], remaining[j]];
                assert(opp_hole@ =~= seq![remaining@[i as int], remaining@[j as int]]);
                let opp_score = evaluate_7cards(&opp_hole, board);
                assert(hand_cards(opp_hole@, board@) =~= hand_cards(
                    seq![remaining@[i as int], remaining@[j as int]],
                    board@,
                ));
                assert(opp_score == opponent_score(remaining@, board@, i as int, j as int));
                assert(row_points(remaining@, board@, mine, i as int, j as int + 1) == row_points(
                    remaining@,
                    board@,
                    mine,
                    i as int,
                    j as int,
                ) + versus_points(mine, opponent_score(remaining@, board@, i as int, j as int)));
                row = row + versus(my_score, opp_score);
                j = j + 1;
            }
            points = points + row;
            total = total + (n - i - 1) as u64;
            i = i + 1;
        }
        proof {
            lemma_river_points_bound(remaining@, board@, mine, n as int);
        }
        return (points, total);
    }
    let num_trials: u64 = if missing == 1 {
        120
    } else {
        80
    };
    let mut rng = seeded_rng(equity_seed(hole, board.len()));
    let ghost rem = remaining@;
    let mut deck = remaining;
    let mut points: u64 = 0;
    let mut t: u64 = 0;
    let ghost mut deals: Seq<Seq<Card>> = Seq::empty();
    while t < num_trials
        invariant
            rem == remaining_deck(hole@, board@),
            deck@.to_multiset() == rem.to_multiset(),
            deck@.len() >= 2 + missing,
            missing == 5 - board@.len(),
            1 <= missing <= 5,
            0 <= t <= num_trials,
            num_trials <= 120,
            points <= 2 * t,
            deals.len() == t,
            forall|i: int| 0 <= i < deals.len() ==> #[trigger] deals[i].to_multiset() == rem.to_multiset(),
            points == rollouts_points(hole@, board@, deals),
        decreases num_trials - t,
    {
        let ghost before = deck@;
        shuffle_in_place(&mut deck, &mut rng);
        assert(deck@.len() == before.len()) by {
            assert(deck@.to_multiset().len() == before.to_multiset().len());
        }
        let p = rollout(hole, board, deck.as_slice());
        proof {
            let prev = deals;
            deals = deals.push(deck@);
            assert(deals.drop_last() =~= prev);
        }
        points = points + p;
        t = t + 1;
    }
    assert(rollouts_points(hole@, board@, deals) == points);
    (points, num_trials)
}

proof fn lemma_unused_len(hole: Seq<Card>, board: Seq<Card>, k: int)
    requires
        0 <= k <= 52,
    ensures
        unused_cards(hole, board, k).len() <= k,
    decreases k,
{
    if k > 0 {
        lemma_unused_len(hole, board, k - 1);
    }
}

/// The one-letter symbol of a rank (`T` for Ten).
fn rank_char(r: Rank) -> (s: &'static str)
    ensures
        s@ == seq![rank_symbol(r)],
{
    match r {
        Rank::Ace => {
            proof {
                reveal_strlit("A");
            }
            "A"
        },
        Rank::King => {
            proof {
                reveal_strlit("K");
            }
            "K"
        },
        Rank::Queen => {
            proof {
                reveal_strlit("Q");
            }
            "Q"
        },
        Rank::Jack => {
            proof {
                reveal_strlit("J");
            }
            "J"
        },
        Rank::Ten => {
            proof {
                reveal_strlit("T");
            }
            "T"
        },
        Rank::Nine => {
            proof {
                reveal_strlit("9");
            }
            "9"
        },
        Rank::Eight => {
            proof {
                reveal_strlit("8");
            }
            "8"
        },
        Rank::Seven => {
            proof {
                reveal_strlit("7");
            }
            "7"
        },
        Rank::Six => {
            proof {
                reveal_strlit("6");
            }
            "6"
        },
        Rank::Five => {
            proof {
                reveal_strlit("5");
            }
            "5"
        },
        Rank::Four => {
            proof {
                reveal_strlit("4");
            }
            "4"
        },
        Rank::Three => {
            proof {
                reveal_strlit("3");
            }
            "3"
        },
        Rank::Two => {
            proof {
                reveal_strlit("2");
            }
            "2"
        },
    }
}

/// The name of the pocket pair of rank `r`, such as "QQ".
fn pair_name(r: Rank) -> (name: &'static str)
    ensures
        name@ == seq![rank_symbol(r), rank_symbol(r)],
{
    match r {
        Rank::Ace => {
            proof {
                reveal_strlit("AA");
            }
            "AA"
        },
        Rank::King => {
            proof {
                reveal_strlit("KK");
            }
            "KK"
        },
        Rank::Queen => {
            proof {
                reveal_strlit("QQ");
            }
            "QQ"
        },
        Rank::Jack => {
            proof {
                reveal_strlit("JJ");
            }
            "JJ"
        },
        Rank::Ten => {
            proof {
                reveal_strlit("TT");
            }
            "TT"
        },
        Rank::Nine => {
            proof {
                reveal_strlit("99");
            }
            "99"
        },
        Rank::Eight => {
            proof {
                reveal_strlit("88");
            }
            "88"
        },
        Rank::Seven => {
            proof {
                reveal_strlit("77");
            }
            "77"
        },
        Rank::Six => {
            proof {
                reveal_strlit("66");
            }
            "66"
        },
        Rank::Five => {
            proof {
                reveal_strlit("55");
            }
            "55"
        },
        Rank::Four => {
            proof {
                reveal_strlit("44");
            }
            "44"
        },
        Rank::Three => {
            proof {
                reveal_strlit("33");
            }
            "33"
        },
        Rank::Two => {
            proof {
                reveal_strlit("22");
            }
            "22"
        },
    }
}

/// The name of a suited hand with ranks `r1` above `r2`, such as "AKs".
fn suited_name(r1: Rank, r2: Rank) -> (name: &'static str)
    ensures
        name@ == if rank_value(r1) > rank_value(r2) {
            seq![rank_symbol(r1), rank_symbol(r2), 's']
        } else {
            seq!['X', 'X', 's']
        },
{
    match (r1, r2) {
        (Rank::Ace, Rank::King) => {
            proof {
                reveal_strlit("AKs");
            }
            "AKs"
        },
        (Rank::Ace, Rank::Queen) => {
            proof {
                reveal_strlit("AQs");
            }
            "AQs"
        },
        (Rank::Ace, Rank::Jack) => {
            proof {
                reveal_strlit("AJs");
            }
            "AJs"
        },
        (Rank::Ace, Rank::Ten) => {
            proof {
                reveal_strlit("ATs");
            }
            "ATs"
        },
        (Rank::Ace, Rank::Nine) => {
            proof {
                reveal_strlit("A9s");
            }
            "A9s"
        },
        (Rank::Ace, Rank::Eight) => {
            proof {
                reveal_strlit("A8s");
            }
            "A8s"
        },
        (Rank::Ace, Rank::Seven) => {
            proof {
                reveal_strlit("A7s");
            }
            "A7s"
        },
        (Rank::Ace, Rank::Six) => {
            proof {
                reveal_strlit("A6s");
            }
            "A6s"
        },
        (Rank::Ace, Rank::Five) => {
            proof {
                reveal_strlit("A5s");
            }
            "A5s"
        },
        (Rank::Ace, Rank::Four) => {
            proof {
                reveal_strlit("A4s");
            }
            "A4s"
        },
        (Rank::Ace, Rank::Three) => {
            proof {
                reveal_strlit("A3s");
            }
            "A3s"
        },
        (Rank::Ace, Rank::Two) => {
            proof {
                reveal_strlit("A2s");
            }
            "A2s"
        },
        (Rank::King, Rank::Queen) => {
            proof {
                reveal_strlit("KQs");
            }
            "KQs"
        },
        (Rank::King, Rank::Jack) => {
            proof {
                reveal_strlit("KJs");
            }
            "KJs"
        },
        (Rank::King, Rank::Ten) => {
            proof {
                reveal_strlit("KTs");
            }
            "KTs"
        },
        (Rank::King, Rank::Nine) => {
            proof {
                reveal_strlit("K9s");
            }
            "K9s"
        },
        (Rank::King, Rank::Eight) => {
            proof {
                reveal_strlit("K8s");
            }
            "K8s"
        },
        (Rank::King, Rank::Seven) => {
            proof {
                reveal_strlit("K7s");
            }
            "K7s"
        },
        (Rank::King, Rank::Six) => {
            proof {
                reveal_strlit("K6s");
            }
            "K6s"
        },
        (Rank::King, Rank::Five) => {
            proof {
                reveal_strlit("K5s");
            }
            "K5s"
        },
        (Rank::King, Rank::Four) => {
            proof {
                reveal_strlit("K4s");
            }
            "K4s"
        },
        (Rank::King, Rank::Three) => {
            proof {
                reveal_strlit("K3s");
            }
            "K3s"
        },
        (Rank::King, Rank::Two) => {
            proof {
                reveal_strlit("K2s");
            }
            "K2s"
        },
        (Rank::Queen, Rank::Jack) => {
            proof {
                reveal_strlit("QJs");
            }
            "QJs"
        },
        (Rank::Queen, Rank::Ten) => {
            proof {
                reveal_strlit("QTs");
            }
            "QTs"
        },
        (Rank::Queen, Rank::Nine) => {
            proof {
                reveal_strlit("Q9s");
            }
            "Q9s"
        },
        (Rank::Queen, Rank::Eight) => {
            proof {
                reveal_strlit("Q8s");
            }
            "Q8s"
        },
        (Rank::Queen, Rank::Seven) => {
            proof {
                reveal_strlit("Q7s");
            }
            "Q7s"
        },
        (Rank::Queen, Rank::Six) => {
            proof {
                reveal_strlit("Q6s");
            }
            "Q6s"
        },
        (Rank::Queen, Rank::Five) => {
            proof {
                reveal_strlit("Q5s");
            }
            "Q5s"
        },
        (Rank::Queen, Rank::Four) => {
            proof {
                reveal_strlit("Q4s");
            }
            "Q4s"
        },
        (Rank::Queen, Rank::Three) => {
            proof {
                reveal_strlit("Q3s");
            }
            "Q3s"
        },
        (Rank::Queen, Rank::Two) => {
            proof {
                reveal_strlit("Q2s");
            }
            "Q2s"
        },
        (Rank::Jack, Rank::Ten) => {
            proof {
                reveal_strlit("JTs");
            }
            "JTs"
        },
        (Rank::Jack, Rank::Nine) => {
            proof {
                reveal_strlit("J9s");
            }
            "J9s"
        },
        (Rank::Jack, Rank::Eight) => {
            proof {
                reveal_strlit("J8s");
            }
            "J8s"
        },
        (Rank::Jack, Rank::Seven) => {
            proof {
                reveal_strlit("J7s");
            }
            "J7s"
        },
        (Rank::Jack, Rank::Six) => {
            proof {
                reveal_strlit("J6s");
            }
            "J6s"
        },
        (Rank::Jack, Rank::Five) => {
            proof {
                reveal_strlit("J5s");
            }
            "J5s"
        },
        (Rank::Jack, Rank::Four) => {
            proof {
                reveal_strlit("J4s");
            }
            "J4s"
        },
        (Rank::Jack, Rank::Three) => {
            proof {
                reveal_strlit("J3s");
            }
            "J3s"
        },
        (Rank::Jack, Rank::Two) => {
            proof {
                reveal_strlit("J2s");
            }
            "J2s"
        },
        (Rank::Ten, Rank::Nine) => {
            proof {
                reveal_strlit("T9s");
            }
            "T9s"
        },
        (Rank::Ten, Rank::Eight) => {
            proof {
                reveal_strlit("T8s");
            }
            "T8s"
        },
        (Rank::Ten, Rank::Seven) => {
            proof {
                reveal_strlit("T7s");
            }
            "T7s"
        },
        (Rank::Ten, Rank::Six) => {
            proof {
                reveal_strlit("T6s");
            }
            "T6s"
        },
        (Rank::Ten, Rank::Five) => {
            proof {
                reveal_strlit("T5s");
            }
            "T5s"
        },
        (Rank::Ten, Rank::Four) => {
            proof {
                reveal_strlit("T4s");
            }
            "T4s"
        },
        (Rank::Ten, Rank::Three) => {
            proof {
                reveal_strlit("T3s");
            }
            "T3s"
        },
        (Rank::Ten, Rank::Two) => {
            proof {
                reveal_strlit("T2s");
            }
            "T2s"
        },
        (Rank::Nine, Rank::Eight) => {
            proof {
                reveal_strlit("98s");
            }
            "98s"
        },
        (Rank::Nine, Rank::Seven) => {
            proof {
                reveal_strlit("97s");
            }
            "97s"
        },
        (Rank::Nine, Rank::Six) => {
            proof {
                reveal_strlit("96s");
            }
            "96s"
        },
        (Rank::Nine, Rank::Five) => {
            proof {
                reveal_strlit("95s");
            }
            "95s"
        },
        (Rank::Nine, Rank::Four) => {
            proof {
                reveal_strlit("94s");
            }
            "94s"
        },
        (Rank::Nine, Rank::Three) => {
            proof {
                reveal_strlit("93s");
            }
            "93s"
        },
        (Rank::Nine, Rank::Two) => {
            proof {
                reveal_strlit("92s");
            }
            "92s"
        },
        (Rank::Eight, Rank::Seven) => {
            proof {
                reveal_strlit("87s");
            }
            "87s"
        },
        (Rank::Eight, Rank::Six) => {
            proof {
                reveal_strlit("86s");
            }
            "86s"
        },
        (Rank::Eight, Rank::Five) => {
            proof {
                reveal_strlit("85s");
            }
            "85s"
        },
        (Rank::Eight, Rank::Four) => {
            proof {
                reveal_strlit("84s");
            }
            "84s"
        },
        (Rank::Eight, Rank::Three) => {
            proof {
                reveal_strlit("83s");
            }
            "83s"
        },
        (Rank::Eight, Rank::Two) => {
            proof {
                reveal_strlit("82s");
            }
            "82s"
        },
        (Rank::Seven, Rank::Six) => {
            proof {
                reveal_strlit("76s");
            }
            "76s"
        },
        (Rank::Seven, Rank::Five) => {
            proof {
                reveal_strlit("75s");
            }
            "75s"
        },
        (Rank::Seven, Rank::Four) => {
            proof {
                reveal_strlit("74s");
            }
            "74s"
        },
        (Rank::Seven, Rank::Three) => {
            proof {
                reveal_strlit("73s");
            }
            "73s"
        },
        (Rank::Seven, Rank::Two) => {
            proof {
                reveal_strlit("72s");
            }
            "72s"
        },
        (Rank::Six, Rank::Five) => {
            proof {
                reveal_strlit("65s");
            }
            "65s"
        },
        (Rank::Six, Rank::Four) => {
            proof {
                reveal_strlit("64s");
            }
            "64s"
        },
        (Rank::Six, Rank::Three) => {
            proof {
                reveal_strlit("63s");
            }
            "63s"
        },
        (Rank::Six, Rank::Two) => {
            proof {
                reveal_strlit("62s");
            }
            "62s"
        },
        (Rank::Five, Rank::Four) => {
            proof {
                reveal_strlit("54s");
            }
            "54s"
        },
        (Rank::Five, Rank::Three) => {
            proof {
                reveal_strlit("53s");
            }
            "53s"
        },
        (Rank::Five, Rank::Two) => {
            proof {
                reveal_strlit("52s");
            }
            "52s"
        },
        (Rank::Four, Rank::Three) => {
            proof {
                reveal_strlit("43s");
            }
            "43s"
        },
        (Rank::Four, Rank::Two) => {
            proof {
                reveal_strlit("42s");
            }
            "42s"
        },
        (Rank::Three, Rank::Two) => {
            proof {
                reveal_strlit("32s");
            }
            "32s"
        },
        _ => {
            proof {
                reveal_strlit("XXs");
            }
            "XXs"
        },
    }
}

/// The name of an offsuit hand with ranks `r1` above `r2`, such as "AKo".
fn offsuited_name(r1: Rank, r2: Rank) -> (name: &'static str)
    ensures
        name@ == if rank_value(r1) > rank_value(r2) {
            seq![rank_symbol(r1), rank_symbol(r2), 'o']
        } else {
            seq!['X', 'X', 'o']
        },
{
    match (r1, r2) {
        (Rank::Ace, Rank::King) => {
            proof {
                reveal_strlit("AKo");
            }
            "AKo"
        },
        (Rank::Ace, Rank::Queen) => {
            proof {
                reveal_strlit("AQo");
            }
            "AQo"
        },
        (Rank::Ace, Rank::Jack) => {
            proof {
                reveal_strlit("AJo");
            }
            "AJo"
        },
        (Rank::Ace, Rank::Ten) => {
            proof {
                reveal_strlit("ATo");
            }
            "ATo"
        },
        (Rank::Ace, Rank::Nine) => {
            proof {
                reveal_strlit("A9o");
            }
            "A9o"
        },
        (Rank::Ace, Rank::Eight) => {
            proof {
                reveal_strlit("A8o");
            }
            "A8o"
        },
        (Rank::Ace, Rank::Seven) => {
            proof {
                reveal_strlit("A7o");
            }
            "A7o"
        },
        (Rank::Ace, Rank::Six) => {
            proof {
                reveal_strlit("A6o");
            }
            "A6o"
        },
        (Rank::Ace, Rank::Five) => {
            proof {
                reveal_strlit("A5o");
            }
            "A5o"
        },
        (Rank::Ace, Rank::Four) => {
            proof {
                reveal_strlit("A4o");
            }
            "A4o"
        },
        (Rank::Ace, Rank::Three) => {
            proof {
                reveal_strlit("A3o");
            }
            "A3o"
        },
        (Rank::Ace, Rank::Two) => {
            proof {
                reveal_strlit("A2o");
            }
            "A2o"
        },
        (Rank::King, Rank::Queen) => {
            proof {
                reveal_strlit("KQo");
            }
            "KQo"
        },
        (Rank::King, Rank::Jack) => {
            proof {
                reveal_strlit("KJo");
            }
            "KJo"
        },
        (Rank::King, Rank::Ten) => {
            proof {
                reveal_strlit("KTo");
            }
            "KTo"
        },
        (Rank::King, Rank::Nine) => {
            proof {
                reveal_strlit("K9o");
            }
            "K9o"
        },
        (Rank::King, Rank::Eight) => {
            proof {
                reveal_strlit("K8o");
            }
            "K8o"
        },
        (Rank::King, Rank::Seven) => {
            proof {
                reveal_strlit("K7o");
            }
            "K7o"
        },
        (Rank::King, Rank::Six) => {
            proof {
                reveal_strlit("K6o");
            }
            "K6o"
        },
        (Rank::King, Rank::Five) => {
            proof {
                reveal_strlit("K5o");
            }
            "K5o"
        },
        (Rank::King, Rank::Four) => {
            proof {
                reveal_strlit("K4o");
            }
            "K4o"
        },
        (Rank::King, Rank::Three) => {
            proof {
                reveal_strlit("K3o");
            }
            "K3o"
        },
        (Rank::King, Rank::Two) => {
            proof {
                reveal_strlit("K2o");
            }
            "K2o"
        },
        (Rank::Queen, Rank::Jack) => {
            proof {
                reveal_strlit("QJo");
            }
            "QJo"
        },
        (Rank::Queen, Rank::Ten) => {
            proof {
                reveal_strlit("QTo");
            }
            "QTo"
        },
        (Rank::Queen, Rank::Nine) => {
            proof {
                reveal_strlit("Q9o");
            }
            "Q9o"
        },
        (Rank::Queen, Rank::Eight) => {
            proof {
                reveal_strlit("Q8o");
            }
            "Q8o"
        },
        (Rank::Queen, Rank::Seven) => {
            proof {
                reveal_strlit("Q7o");
            }
            "Q7o"
        },
        (Rank::Queen, Rank::Six) => {
            proof {
                reveal_strlit("Q6o");
            }
            "Q6o"
        },
        (Rank::Queen, Rank::Five) => {
            proof {
                reveal_strlit("Q5o");
            }
            "Q5o"
        },
        (Rank::Queen, Rank::Four) => {
            proof {
                reveal_strlit("Q4o");
            }
            "Q4o"
        },
        (Rank::Queen, Rank::Three) => {
            proof {
                reveal_strlit("Q3o");
            }
            "Q3o"
        },
        (Rank::Queen, Rank::Two) => {
            proof {
                reveal_strlit("Q2o");
            }
            "Q2o"
        },
        (Rank::Jack, Rank::Ten) => {
            proof {
                reveal_strlit("JTo");
            }
            "JTo"
        },
        (Rank::Jack, Rank::Nine) => {
            proof {
                reveal_strlit("J9o");
            }
            "J9o"
        },
        (Rank::Jack, Rank::Eight) => {
            proof {
                reveal_strlit("J8o");
            }
            "J8o"
        },
        (Rank::Jack, Rank::Seven) => {
            proof {
                reveal_strlit("J7o");
            }
            "J7o"
        },
        (Rank::Jack, Rank::Six) => {
            proof {
                reveal_strlit("J6o");
            }
            "J6o"
        },
        (Rank::Jack, Rank::Five) => {
            proof {
                reveal_strlit("J5o");
            }
            "J5o"
        },
        (Rank::Jack, Rank::Four) => {
            proof {
                reveal_strlit("J4o");
            }
            "J4o"
        },
        (Rank::Jack, Rank::Three) => {
            proof {
                reveal_strlit("J3o");
            }
            "J3o"
        },
        (Rank::Jack, Rank::Two) => {
            proof {
                reveal_strlit("J2o");
            }
            "J2o"
        },
        (Rank::Ten, Rank::Nine) => {
            proof {
                reveal_strlit("T9o");
            }
            "T9o"
        },
        (Rank::Ten, Rank::Eight) => {
            proof {
                reveal_strlit("T8o");
            }
            "T8o"
        },
        (Rank::Ten, Rank::Seven) => {
            proof {
                reveal_strlit("T7o");
            }
            "T7o"
        },
        (Rank::Ten, Rank::Six) => {
            proof {
                reveal_strlit("T6o");
            }
            "T6o"
        },
        (Rank::Ten, Rank::Five) => {
            proof {
                reveal_strlit("T5o");
            }
            "T5o"
        },
        (Rank::Ten, Rank::Four) => {
            proof {
                reveal_strlit("T4o");
            }
            "T4o"
        },
        (Rank::Ten, Rank::Three) => {
            proof {
                reveal_strlit("T3o");
            }
            "T3o"
        },
        (Rank::Ten, Rank::Two) => {
            proof {
                reveal_strlit("T2o");
            }
            "T2o"
        },
        (Rank::Nine, Rank::Eight) => {
            proof {
                reveal_strlit("98o");
            }
            "98o"
        },
        (Rank::Nine, Rank::Seven) => {
            proof {
                reveal_strlit("97o");
            }
            "97o"
        },
        (Rank::Nine, Rank::Six) => {
            proof {
                reveal_strlit("96o");
            }
            "96o"
        },
        (Rank::Nine, Rank::Five) => {
            proof {
                reveal_strlit("95o");
            }
            "95o"
        },
        (Rank::Nine, Rank::Four) => {
            proof {
                reveal_strlit("94o");
            }
            "94o"
        },
        (Rank::Nine, Rank::Three) => {
            proof {
                reveal_strlit("93o");
            }
            "93o"
        },
        (Rank::Nine, Rank::Two) => {
            proof {
                reveal_strlit("92o");
            }
            "92o"
        },
        (Rank::Eight, Rank::Seven) => {
            proof {
                reveal_strlit("87o");
            }
            "87o"
        },
        (Rank::Eight, Rank::Six) => {
            proof {
                reveal_strlit("86o");
            }
            "86o"
        },
        (Rank::Eight, Rank::Five) => {
            proof {
                reveal_strlit("85o");
            }
            "85o"
        },
        (Rank::Eight, Rank::Four) => {
            proof {
                reveal_strlit("84o");
            }
            "84o"
        },
        (Rank::Eight, Rank::Three) => {
            proof {
                reveal_strlit("83o");
            }
            "83o"
        },
        (Rank::Eight, Rank::Two) => {
            proof {
                reveal_strlit("82o");
            }
            "82o"
        },
        (Rank::Seven, Rank::Six) => {
            proof {
                reveal_strlit("76o");
            }
            "76o"
        },
        (Rank::Seven, Rank::Five) => {
            proof {
                reveal_strlit("75o");
            }
            "75o"
        },
        (Rank::Seven, Rank::Four) => {
            proof {
                reveal_strlit("74o");
            }
            "74o"
        },
        (Rank::Seven, Rank::Three) => {
            proof {
                reveal_strlit("73o");
            }
            "73o"
        },
        (Rank::Seven, Rank::Two) => {
            proof {
                reveal_strlit("72o");
            }
            "72o"
        },
        (Rank::Six, Rank::Five) => {
            proof {
                reveal_strlit("65o");
            }
            "65o"
        },
        (Rank::Six, Rank::Four) => {
            proof {
                reveal_strlit("64o");
            }
            "64o"
        },
        (Rank::Six, Rank::Three) => {
            proof {
                reveal_strlit("63o");
            }
            "63o"
        },
        (Rank::Six, Rank::Two) => {
            proof {
                reveal_strlit("62o");
            }
            "62o"
        },
        (Rank::Five, Rank::Four) => {
            proof {
                reveal_strlit("54o");
            }
            "54o"
        },
        (Rank::Five, Rank::Three) => {
            proof {
                reveal_strlit("53o");
            }
            "53o"
        },
        (Rank::Five, Rank::Two) => {
            proof {
                reveal_strlit("52o");
            }
            "52o"
        },
        (Rank::Four, Rank::Three) => {
            proof {
                reveal_strlit("43o");
            }
            "43o"
        },
        (Rank::Four, Rank::Two) => {
            proof {
                reveal_strlit("42o");
            }
            "42o"
        },
        (Rank::Three, Rank::Two) => {
            proof {
                reveal_strlit("32o");
            }
            "32o"
        },
        _ => {
            proof {
                reveal_strlit("XXo");
            }
            "XXo"
        },
    }
}

} // verus!
