//! 52-card Texas Hold'em: cards, the fixed-capacity board and history
//! buffers, the undealt deck, and the heads-up betting game.

use vstd::prelude::*;
use rand::rngs::SmallRng;
use crate::game::eval::{hand_cards, hand_score};
use crate::rng::random_index;
use crate::text::push_char;
pub use crate::game::eval::evaluate_7cards;



verus! {

/// Card rank, from Two (value 0) up to Ace (value 12).
#[derive(Debug, Clone, Copy, PartialEq, Eq, Hash, PartialOrd, Ord, Structural)]
pub enum Rank {
    Two,
    Three,
    Four,
    Five,
    Six,
    Seven,
    Eight,
    Nine,
    Ten,
    Jack,
    Queen,
    King,
    Ace,
}

/// Card suit, Clubs (value 0) to Spades (value 3).
#[derive(Debug, Clone, Copy, PartialEq, Eq, Hash, Structural)]
pub enum Suit {
    Clubs,
    Diamonds,
    Hearts,
    Spades,
}

#[derive(Debug, Clone, Copy, PartialEq, Eq, Hash, Structural)]
pub struct Card {
    pub rank: Rank,
    pub suit: Suit,
}

/// Numeric value of a rank: Two is 0, Ace is 12.
pub open spec fn rank_value(r: Rank) -> int {
    match r {
        Rank::Two => 0,
        Rank::Three => 1,
        Rank::Four => 2,
        Rank::Five => 3,
        Rank::Six => 4,
        Rank::Seven => 5,
        Rank::Eight => 6,
        Rank::Nine => 7,
        Rank::Ten => 8,
        Rank::Jack => 9,
        Rank::Queen => 10,
        Rank::King => 11,
        Rank::Ace => 12,
    }
}

/// The rank whose value is `v` (meaningful for `0 <= v < 13`).
pub open spec fn rank_of_value(v: int) -> Rank {
    if v <= 0 {
        Rank::Two
    } else if v == 1 {
        Rank::Three
    } else if v == 2 {
        Rank::Four
    } else if v == 3 {
        Rank::Five
    } else if v == 4 {
        Rank::Six
    } else if v == 5 {
        Rank::Seven
    } else if v == 6 {
        Rank::Eight
    } else if v == 7 {
        Rank::Nine
    } else if v == 8 {
        Rank::Ten
    } else if v == 9 {
        Rank::Jack
    } else if v == 10 {
        Rank::Queen
    } else if v == 11 {
        Rank::King
    } else {
        Rank::Ace
    }
}

/// Numeric value of a suit: Clubs 0, Diamonds 1, Hearts 2, Spades 3.
pub open spec fn suit_value(s: Suit) -> int {
    match s {
        Suit::Clubs => 0,
        Suit::Diamonds => 1,
        Suit::Hearts => 2,
        Suit::Spades => 3,
    }
}

pub open spec fn suit_of_value(v: int) -> Suit {
    if v <= 0 {
        Suit::Clubs
    } else if v == 1 {
        Suit::Diamonds
    } else if v == 2 {
        Suit::Hearts
    } else {
        Suit::Spades
    }
}

/// The card of rank value `r` and suit value `s`.
pub open spec fn card_of(r: int, s: int) -> Card {
    Card { rank: rank_of_value(r), suit: suit_of_value(s) }
}

pub proof fn lemma_rank_value_roundtrip(r: Rank)
    ensures
        0 <= rank_value(r) < 13,
        rank_of_value(rank_value(r)) == r,
{
}

pub proof fn lemma_suit_value_roundtrip(s: Suit)
    ensures
        0 <= suit_value(s) < 4,
        suit_of_value(suit_value(s)) == s,
{
}

pub proof fn lemma_card_of_values(c: Card)
    ensures
        card_of(rank_value(c.rank), suit_value(c.suit)) == c,
{
    lemma_rank_value_roundtrip(c.rank);
    lemma_suit_value_roundtrip(c.suit);
}

pub proof fn lemma_card_of_injective(r1: int, s1: int, r2: int, s2: int)
    requires
        0 <= r1 < 13,
        0 <= r2 < 13,
        0 <= s1 < 4,
        0 <= s2 < 4,
        card_of(r1, s1) == card_of(r2, s2),
    ensures
        r1 == r2,
        s1 == s2,
{
}

impl Rank {
    /// The rank's numeric value (Two is 0, Ace is 12).
    pub fn value(self) -> (v: u8)
        ensures
            v as int == rank_value(self),
            v < 13,
    {
        match self {
            Rank::Two => 0,
            Rank::Three => 1,
            Rank::Four => 2,
            Rank::Five => 3,
            Rank::Six => 4,
            Rank::Seven => 5,
            Rank::Eight => 6,
            Rank::Nine => 7,
            Rank::Ten => 8,
            Rank::Jack => 9,
            Rank::Queen => 10,
            Rank::King => 11,
            Rank::Ace => 12,
        }
    }

    /// The rank of numeric value `v`.
    pub fn from_value(v: u8) -> (r: Rank)
        requires
            v < 13,
        ensures
            r == rank_of_value(v as int),
            rank_value(r) == v as int,
    {
        if v == 0 {
            Rank::Two
        } else if v == 1 {
            Rank::Three
        } else if v == 2 {
            Rank::Four
        } else if v == 3 {
            Rank::Five
        } else if v == 4 {
            Rank::Six
        } else if v == 5 {
            Rank::Seven
        } else if v == 6 {
            Rank::Eight
        } else if v == 7 {
            Rank::Nine
        } else if v == 8 {
            Rank::Ten
        } else if v == 9 {
            Rank::Jack
        } else if v == 10 {
            Rank::Queen
        } else if v == 11 {
            Rank::King
        } else {
            Rank::Ace
        }
    }
}

impl Suit {
    /// The suit's numeric value (Clubs 0 .. Spades 3).
    pub fn value(self) -> (v: u8)
        ensures
            v as int == suit_value(self),
            v < 4,
    {
        match self {
            Suit::Clubs => 0,
            Suit::Diamonds => 1,
            Suit::Hearts => 2,
            Suit::Spades => 3,
        }
    }

    pub fn from_value(v: u8) -> (s: Suit)
        requires
            v < 4,
        ensures
            s == suit_of_value(v as int),
            suit_value(s) == v as int,
    {
        if v == 0 {
            Suit::Clubs
        } else if v == 1 {
            Suit::Diamonds
        } else if v == 2 {
            Suit::Hearts
        } else {
            Suit::Spades
        }
    }
}

/// How a rank is written on screen: 2..10, J, Q, K, A.
pub open spec fn rank_label(r: Rank) -> Seq<char> {
    match r {
        Rank::Two => seq!['2'],
        Rank::Three => seq!['3'],
        Rank::Four => seq!['4'],
        Rank::Five => seq!['5'],
        Rank::Six => seq!['6'],
        Rank::Seven => seq!['7'],
        Rank::Eight => seq!['8'],
        Rank::Nine => seq!['9'],
        Rank::Ten => seq!['1', '0'],
        Rank::Jack => seq!['J'],
        Rank::Queen => seq!['Q'],
        Rank::King => seq!['K'],
        Rank::Ace => seq!['A'],
    }
}

/// The suit sign: clubs, diamonds, hearts, spades.
pub open spec fn suit_sign(s: Suit) -> char {
    match s {
        Suit::Clubs => '\u{2663}',
        Suit::Diamonds => '\u{2666}',
        Suit::Hearts => '\u{2665}',
        Suit::Spades => '\u{2660}',
    }
}

/// A card as shown on screen, quoted: `'10\u{2665}'`, `'A\u{2660}'`.
pub open spec fn card_display(c: Card) -> Seq<char> {
    seq!['\''] + rank_label(c.rank) + seq![suit_sign(c.suit), '\'']
}

impl Default for Card {
    fn default() -> (c: Self)
        ensures
            c == (Card { rank: Rank::Two, suit: Suit::Clubs }),
    {
        Card { rank: Rank::Two, suit: Suit::Clubs }
    }
}

impl Card {
    pub fn new(rank: Rank, suit: Suit) -> (c: Self)
        ensures
            c.rank == rank,
            c.suit == suit,
    {
        Card { rank, suit }
    }

    /// The card as shown on screen, such as `'10\u{2665}'`.
    pub fn to_display_string(&self) -> (text: String)
        ensures
            text@ == card_display(*self),
    {
        let mut text = String::new();
        push_char(&mut text, '\'');
        match self.rank {
            Rank::Two => push_char(&mut text, '2'),
            Rank::Three => push_char(&mut text, '3'),
            Rank::Four => push_char(&mut text, '4'),
            Rank::Five => push_char(&mut text, '5'),
            Rank::Six => push_char(&mut text, '6'),
            Rank::Seven => push_char(&mut text, '7'),
            Rank::Eight => push_char(&mut text, '8'),
            Rank::Nine => push_char(&mut text, '9'),
            Rank::Ten => {
                push_char(&mut text, '1');
                push_char(&mut text, '0');
            },
            Rank::Jack => push_char(&mut text, 'J'),
            Rank::Queen => push_char(&mut text, 'Q'),
            Rank::King => push_char(&mut text, 'K'),
            Rank::Ace => push_char(&mut text, 'A'),
        }
        let sign = match self.suit {
            Suit::Clubs => '\u{2663}',
            Suit::Diamonds => '\u{2666}',
            Suit::Hearts => '\u{2665}',
            Suit::Spades => '\u{2660}',
        };
        push_char(&mut text, sign);
        push_char(&mut text, '\'');
        assert(text@ =~= card_display(*self));
        text
    }
}


/// The card at position `i` of the full deck: clubs Two..Ace, then diamonds,
/// hearts and spades.
pub open spec fn deck_card(i: int) -> Card {
    card_of(i % 13, i / 13)
}

/// The full 52-card deck in its fixed order.
pub open spec fn full_deck() -> Seq<Card> {
    Seq::new(52, |i: int| deck_card(i))
}

/// The full 52-card deck in its fixed order (the Two of clubs first).
pub fn all_52_cards() -> (deck: [Card; 52])
    ensures
        deck@ == full_deck(),
{
    let mut deck = [Card { rank: Rank::Two, suit: Suit::Clubs }; 52];
    let mut i: usize = 0;
    while i < 52
        invariant
            0 <= i <= 52,
            deck@.len() == 52,
            forall|k: int| 0 <= k < i ==> #[trigger] deck@[k] == deck_card(k),
        decreases 52 - i,
    {
        let c = Card::new(Rank::from_value((i % 13) as u8), Suit::from_value((i / 13) as u8));
        deck[i] = c;
        i = i + 1;
    }
    assert(deck@ =~= full_deck());
    deck
}

/// Every card of the full deck is distinct from every other.
pub proof fn lemma_full_deck_distinct()
    ensures
        full_deck().no_duplicates(),
{
    assert forall|i: int, j: int| 0 <= i < 52 && 0 <= j < 52 && i != j implies full_deck()[i]
        != full_deck()[j] by {
        if deck_card(i) == deck_card(j) {
            lemma_card_of_injective(i % 13, i / 13, j % 13, j / 13);
        }
    }
}

pub const FOLD: u8 = 0;
pub const CALL_CHECK: u8 = 1;
pub const RAISE_MIN: u8 = 2;
pub const RAISE_HALF_POT: u8 = 3;

/// The community cards dealt so far (at most five).
#[derive(Debug, Clone, Copy, PartialEq, Eq)]
pub struct Board {
    cards: [Card; 5],
    len: u8,
}

impl Board {
    #[verifier::type_invariant]
    spec fn board_inv(self) -> bool {
        self.padded()
    }

    /// At most five cards are held, and every cell past them holds the Two
    /// of clubs, as a new board has it.
    pub closed spec fn padded(self) -> bool {
        &&& self.len <= 5
        &&& forall|i: int| self.len <= i < 5 ==> #[trigger] self.cards@[i] == (Card {
            rank: Rank::Two,
            suit: Suit::Clubs,
        })
    }
}

impl View for Board {
    type V = Seq<Card>;

    closed spec fn view(&self) -> Seq<Card> {
        self.cards@.take(if self.len <= 5 { self.len as int } else { 5 })
    }
}

/// A board holds at most five cards.
pub broadcast proof fn lemma_board_len(b: Board)
    ensures
        #[trigger] b@.len() <= 5,
{
}

/// Two boards built by this module's operations are equal, every cell
/// included, exactly when they hold the same cards.
pub proof fn lemma_board_determined(b1: Board, b2: Board)
    requires
        b1.padded(),
        b2.padded(),
        b1@ == b2@,
    ensures
        b1 == b2,
{
    assert(b1.cards@.len() == 5 && b2.cards@.len() == 5);
    assert(b1@.len() == b1.len && b2@.len() == b2.len);
    assert forall|i: int| 0 <= i < 5 implies b1.cards@[i] == b2.cards@[i] by {
        if i < b1.len {
            assert(b1@[i] == b1.cards@[i]);
            assert(b2@[i] == b2.cards@[i]);
            assert(b1@[i] == b2@[i]);
        } else {
            assert(b1.cards@[i] == (Card { rank: Rank::Two, suit: Suit::Clubs }));
            assert(b2.cards@[i] == (Card { rank: Rank::Two, suit: Suit::Clubs }));
        }
    }
    assert(b1.cards@ =~= b2.cards@);
    assert(b1.cards =~= b2.cards);
}

impl Board {
    pub fn new() -> (b: Self)
        ensures
            b@ == Seq::<Card>::empty(),
            b.padded(),
    {
        let b = Board { cards: [Card { rank: Rank::Two, suit: Suit::Clubs }; 5], len: 0 };
        assert(b@ =~= Seq::<Card>::empty());
        b
    }

    /// A board of the first (at most five) of `cards`.
    pub fn from_slice(cards: &[Card]) -> (b: Self)
        ensures
            b@ == cards@.take(if cards@.len() < 5 { cards@.len() as int } else { 5 }),
            b.padded(),
    {
        let mut b = Self::new();
        let n: usize = if cards.len() < 5 {
            cards.len()
        } else {
            5
        };
        let mut i: usize = 0;
        while i < n
            invariant
                n <= 5,
                n <= cards@.len(),
                0 <= i <= n,
                b@ == cards@.take(i as int),
                b.padded(),
            decreases n - i,
        {
            b.push(cards[i]);
            assert(cards@.take(i as int + 1) =~= cards@.take(i as int).push(cards@[i as int]));
            i = i + 1;
        }
        b
    }

    /// Appends a card; a full board (five cards) is left unchanged.
    pub fn push(&mut self, card: Card)
        ensures
            final(self)@ == if old(self)@.len() < 5 {
                old(self)@.push(card)
            } else {
                old(self)@
            },
            final(self).padded(),
    {
        proof {
            use_type_invariant(&*self);
        }
        if (self.len as usize) < 5 {
            let ghost before = self.cards@;
            let i = self.len as usize;
            let mut cards = self.cards;
            cards[i] = card;
            *self = Board { cards, len: self.len + 1 };
            assert(self.cards@.take(self.len as int) =~= before.take(i as int).push(card));
        }
    }

    pub fn len(&self) -> (n: usize)
        ensures
            n == self@.len(),
            self.padded(),
    {
        proof {
            use_type_invariant(self);
        }
        self.len as usize
    }

    pub fn is_empty(&self) -> (e: bool)
        ensures
            e == (self@.len() == 0),
            self.padded(),
    {
        proof {
            use_type_invariant(self);
        }
        self.len == 0
    }

    pub fn as_slice(&self) -> (s: &[Card])
        ensures
            s@ == self@,
            self.padded(),
    {
        proof {
            use_type_invariant(self);
        }
        vstd::slice::slice_subrange(self.cards.as_slice(), 0, self.len as usize)
    }
}

impl Default for Board {
    fn default() -> (b: Self)
        ensures
            b@ == Seq::<Card>::empty(),
            b.padded(),
    {
        Board::new()
    }
}

/// The actions taken in one betting round (the first 32 are kept).
#[derive(Debug, Clone, Copy, PartialEq, Eq)]
pub struct RoundHistory {
    actions: [u8; 32],
    len: u8,
}

impl RoundHistory {
    #[verifier::type_invariant]
    spec fn history_inv(self) -> bool {
        self.padded()
    }

    /// At most 32 actions are held, and every cell past them holds 0, as a
    /// new history has it.
    pub closed spec fn padded(self) -> bool {
        &&& self.len <= 32
        &&& forall|i: int| self.len <= i < 32 ==> #[trigger] self.actions@[i] == 0u8
    }
}

impl View for RoundHistory {
    type V = Seq<u8>;

    closed spec fn view(&self) -> Seq<u8> {
        self.actions@.take(if self.len <= 32 { self.len as int } else { 32 })
    }
}

/// A round history keeps at most 32 actions.
pub broadcast proof fn lemma_history_len(h: RoundHistory)
    ensures
        #[trigger] h@.len() <= 32,
{
}

/// Two histories built by this module's operations are equal, every cell
/// included, exactly when they hold the same actions.
pub proof fn lemma_history_determined(h1: RoundHistory, h2: RoundHistory)
    requires
        h1.padded(),
        h2.padded(),
        h1@ == h2@,
    ensures
        h1 == h2,
{
    assert(h1.actions@.len() == 32 && h2.actions@.len() == 32);
    assert(h1@.len() == h1.len && h2@.len() == h2.len);
    assert forall|i: int| 0 <= i < 32 implies h1.actions@[i] == h2.actions@[i] by {
        if i < h1.len {
            assert(h1@[i] == h1.actions@[i]);
            assert(h2@[i] == h2.actions@[i]);
            assert(h1@[i] == h2@[i]);
        } else {
            assert(h1.actions@[i] == 0u8);
            assert(h2.actions@[i] == 0u8);
        }
    }
    assert(h1.actions@ =~= h2.actions@);
    assert(h1.actions =~= h2.actions);
}

/// The history after recording `action`: appended unless 32 are already kept.
pub open spec fn history_after(h: Seq<u8>, action: u8) -> Seq<u8> {
    if h.len() < 32 {
        h.push(action)
    } else {
        h
    }
}

impl RoundHistory {
    pub fn new() -> (h: Self)
        ensures
            h@ == Seq::<u8>::empty(),
            h.padded(),
    {
        let h = RoundHistory { actions: [0u8; 32], len: 0 };
        assert(h@ =~= Seq::<u8>::empty());
        h
    }

    /// A history of the first (at most 32) of `actions`.
    pub fn from_slice(actions: &[u8]) -> (h: Self)
        ensures
            h@ == actions@.take(if actions@.len() < 32 { actions@.len() as int } else { 32 }),
            h.padded(),
    {
        let mut h = Self::new();
        let n: usize = if actions.len() < 32 {
            actions.len()
        } else {
            32
        };
        let mut i: usize = 0;
        while i < n
            invariant
                n <= 32,
                n <= actions@.len(),
                0 <= i <= n,
                h@ == actions@.take(i as int),
                h.padded(),
            decreases n - i,
        {
            h.push(actions[i]);
            assert(actions@.take(i as int + 1) =~= actions@.take(i as int).push(actions@[i as int]));
            i = i + 1;
        }
        h
    }

    /// Records an action; a history already holding 32 is left unchanged.
    pub fn push(&mut self, action: u8)
        ensures
            final(self)@ == history_after(old(self)@, action),
            final(self).padded(),
    {
        proof {
            use_type_invariant(&*self);
        }
        if (self.len as usize) < 32 {
            let ghost before = self.actions@;
            let i = self.len as usize;
            let mut actions = self.actions;
            actions[i] = action;
            *self = RoundHistory { actions, len: self.len + 1 };
            assert(self.actions@.take(self.len as int) =~= before.take(i as int).push(action));
        }
    }

    pub fn len(&self) -> (n: usize)
        ensures
            n == self@.len(),
            self.padded(),
    {
        proof {
            use_type_invariant(self);
        }
        self.len as usize
    }

    pub fn is_empty(&self) -> (e: bool)
        ensures
            e == (self@.len() == 0),
            self.padded(),
    {
        proof {
            use_type_invariant(self);
        }
        self.len == 0
    }

    pub fn as_slice(&self) -> (s: &[u8])
        ensures
            s@ == self@,
            self.padded(),
    {
        proof {
            use_type_invariant(self);
        }
        vstd::slice::slice_subrange(self.actions.as_slice(), 0, self.len as usize)
    }
}

impl Default for RoundHistory {
    fn default() -> (h: Self)
        ensures
            h@ == Seq::<u8>::empty(),
            h.padded(),
    {
        RoundHistory::new()
    }
}

/// The undealt cards, dealt from the front. A deck built from fewer than 52
/// cards is padded with the Two of clubs.
#[derive(Debug, Clone, Copy, PartialEq, Eq)]
pub struct DeckRemaining {
    cards: [Card; 52],
    ptr: u8,
}

impl DeckRemaining {
    #[verifier::type_invariant]
    spec fn deck_inv(self) -> bool {
        self.ptr <= 52
    }
}

impl View for DeckRemaining {
    type V = Seq<Card>;

    closed spec fn view(&self) -> Seq<Card> {
        self.cards@.skip(if self.ptr <= 52 { self.ptr as int } else { 52 })
    }
}

/// A deck holds at most 52 cards.
pub broadcast proof fn lemma_deck_len(d: DeckRemaining)
    ensures
        #[trigger] d@.len() <= 52,
{
}

impl DeckRemaining {
    /// The deck's position is within its 52 cells, as every operation here
    /// keeps it.
    pub closed spec fn intact(self) -> bool {
        self.ptr <= 52
    }

    /// The cards already dealt from the front, in the order dealt.
    pub closed spec fn dealt(self) -> Seq<Card> {
        self.cards@.take(if self.ptr <= 52 { self.ptr as int } else { 52 })
    }
}

/// Two decks are equal, every cell included, exactly when they have dealt
/// the same cards and hold the same cards still to deal.
pub proof fn lemma_deck_determined(d1: DeckRemaining, d2: DeckRemaining)
    requires
        d1.intact(),
        d2.intact(),
        d1.dealt() == d2.dealt(),
        d1@ == d2@,
    ensures
        d1 == d2,
{
    assert(d1.cards@.len() == 52 && d2.cards@.len() == 52);
    assert(d1.dealt().len() == d1.ptr && d2.dealt().len() == d2.ptr);
    assert(d1.cards@ =~= d1.dealt() + d1@);
    assert(d2.cards@ =~= d2.dealt() + d2@);
    assert(d1.cards@ =~= d2.cards@);
    assert(d1.cards =~= d2.cards);
}

/// `n` copies of the padding card, the Two of clubs.
pub open spec fn deck_padding(n: int) -> Seq<Card> {
    Seq::new(n as nat, |i: int| Card { rank: Rank::Two, suit: Suit::Clubs })
}

impl DeckRemaining {
    /// A deck of the first (at most 52) of `cards`, padded to 52.
    pub fn from_slice(cards: &[Card]) -> (d: Self)
        ensures
            d@ == cards@.take(if cards@.len() < 52 { cards@.len() as int } else { 52 })
                + deck_padding(
                if cards@.len() < 52 {
                    52 - cards@.len()
                } else {
                    0
                },
            ),
            d.intact(),
            d.dealt() == Seq::<Card>::empty(),
    {
        let mut arr = [Card { rank: Rank::Two, suit: Suit::Clubs }; 52];
        let n: usize = if cards.len() < 52 {
            cards.len()
        } else {
            52
        };
        let mut i: usize = 0;
        while i < n
            invariant
                n <= 52,
                n <= cards@.len(),
                0 <= i <= n,
                arr@.len() == 52,
                forall|k: int| 0 <= k < i ==> #[trigger] arr@[k] == cards@[k],
                forall|k: int|
                    i <= k < 52 ==> #[trigger] arr@[k] == (Card { rank: Rank::Two, suit: Suit::Clubs }),
            decreases n - i,
        {
            arr[i] = cards[i];
            i = i + 1;
        }
        let d = DeckRemaining { cards: arr, ptr: 0 };
        assert(d@ =~= cards@.take(n as int) + deck_padding(52 - n));
        assert(d.dealt() =~= Seq::<Card>::empty());
        d
    }

    /// Deals the front card.
    pub fn deal_one(&mut self) -> (c: Card)
        requires
            old(self)@.len() > 0,
        ensures
            c == old(self)@[0],
            final(self)@ == old(self)@.drop_first(),
            final(self).intact(),
            final(self).dealt() == old(self).dealt().push(c),
    {
        proof {
            use_type_invariant(&*self);
        }
        let c = self.cards[self.ptr as usize];
        self.ptr = self.ptr + 1;
        assert(self@ =~= old(self)@.drop_first());
        assert(self.dealt() =~= old(self).dealt().push(c));
        c
    }

    pub fn len(&self) -> (n: usize)
        ensures
            n == self@.len(),
            self.intact(),
    {
        proof {
            use_type_invariant(self);
        }
        (52 - self.ptr) as usize
    }

    pub fn is_empty(&self) -> (e: bool)
        ensures
            e == (self@.len() == 0),
            self.intact(),
    {
        proof {
            use_type_invariant(self);
        }
        self.ptr >= 52
    }
}

impl Default for DeckRemaining {
    /// The full deck in its fixed order.
    fn default() -> (d: Self)
        ensures
            d@ == full_deck(),
            d.intact(),
            d.dealt() == Seq::<Card>::empty(),
    {
        let d = DeckRemaining { cards: all_52_cards(), ptr: 0 };
        assert(d@ =~= full_deck());
        assert(d.dealt() =~= Seq::<Card>::empty());
        d
    }
}


/// Most a player can put into the pot in one hand.
pub const STACK_LIMIT: i32 = 1000;

/// The value fits in an `i32`.
pub open spec fn fits_i32(x: int) -> bool {
    i32::MIN <= x <= i32::MAX
}

/// What a raise of kind `action` adds on top of a call, with `pot` in the
/// middle: 0 for a call, 40 for a minimum raise, else half the pot but at
/// least 40.
pub open spec fn raise_extra(pot: int, action: u8) -> int {
    if action == CALL_CHECK {
        0
    } else if action == RAISE_MIN {
        40
    } else if pot / 2 > 40 {
        pot / 2
    } else {
        40
    }
}

/// A round closes on check-check or on a call of a raise.
pub open spec fn closes_round(h: Seq<u8>) -> bool {
    &&& h.len() >= 2
    &&& h[h.len() - 1] == CALL_CHECK
    &&& (h[h.len() - 2] == CALL_CHECK || h[h.len() - 2] == RAISE_MIN || h[h.len() - 2]
        == RAISE_HALF_POT)
}

/// Cards dealt when round `round` closes: three for the flop, then one each
/// for turn and river.
pub open spec fn cards_dealt_after(round: int) -> nat {
    if round == 1 {
        3
    } else if round == 2 || round == 3 {
        1
    } else {
        0
    }
}

/// Cards still to be dealt from the start of round `round` to the river.
pub open spec fn cards_still_needed(round: int) -> nat {
    if round == 1 {
        5
    } else if round == 2 {
        2
    } else if round == 3 {
        1
    } else {
        0
    }
}

/// The board size during round `round`: none preflop, then 3, 4 and 5.
pub open spec fn board_size(round: int) -> nat {
    if round == 1 {
        0
    } else if round == 2 {
        3
    } else if round == 3 {
        4
    } else {
        5
    }
}

pub open spec fn max0(x: int) -> int {
    if x > 0 {
        x
    } else {
        0
    }
}

pub open spec fn capped(x: int) -> int {
    if x < STACK_LIMIT {
        x
    } else {
        STACK_LIMIT as int
    }
}

/// What the player to act has contributed after a non-fold `action`, having
/// contributed `me` against the opponent's `opp`: call the difference, then
/// add 40 (minimum raise) or the larger of half the pot and 40; never more
/// than the stack limit.
pub open spec fn paid_after(me: int, opp: int, action: u8) -> int {
    capped(me + max0(opp - me) + raise_extra(me + opp, action))
}

/// Appends a card to a board unless it already holds five.
pub open spec fn push_capped(b: Seq<Card>, c: Card) -> Seq<Card> {
    if b.len() < 5 {
        b.push(c)
    } else {
        b
    }
}

/// The board after dealing the cards for the close of round `round` from `deck`.
pub open spec fn board_after_deal(b: Seq<Card>, deck: Seq<Card>, round: int) -> Seq<Card> {
    if round == 1 {
        push_capped(push_capped(push_capped(b, deck[0]), deck[1]), deck[2])
    } else {
        push_capped(b, deck[0])
    }
}

/// Showdown payoffs: the better hand wins what the other put in; a tie
/// splits the pot back (both zero).
pub open spec fn showdown_returns(
    hole0: Seq<Card>,
    hole1: Seq<Card>,
    board: Seq<Card>,
    c0: int,
    c1: int,
) -> (int, int) {
    let s0 = hand_score(hand_cards(hole0, board).to_multiset());
    let s1 = hand_score(hand_cards(hole1, board).to_multiset());
    let pot = c0 + c1;
    if s0 > s1 {
        (pot - c0, -c1)
    } else if s1 > s0 {
        (-c0, pot - c1)
    } else {
        (0, 0)
    }
}

/// `deck` after the first `k` steps of a partial Fisher-Yates shuffle that
/// swaps position `i` with position `draws[i]`.
pub open spec fn swapped_deck(deck: Seq<Card>, draws: Seq<usize>, k: int) -> Seq<Card>
    decreases k,
{
    if k <= 0 {
        deck
    } else {
        let d = swapped_deck(deck, draws, k - 1);
        let i = k - 1;
        let j = draws[i] as int;
        d.update(i, d[j]).update(j, d[i])
    }
}

/// The payoffs of a finished hand with contributions `c0` and `c1`: one
/// player wins exactly what the other put in and the other loses it, or
/// both get nothing.
pub open spec fn settled(r0: int, r1: int, c0: int, c1: int) -> bool {
    ||| (r0 == c1 && r1 == -c1)
    ||| (r1 == c0 && r0 == -c0)
    ||| (r0 == 0 && r1 == 0)
}

/// Heads-up no-limit-style Texas Hold'em with four betting rounds, blinds 10
/// and 20, and the action codes FOLD, CALL_CHECK, RAISE_MIN and
/// RAISE_HALF_POT. Payoffs are whole chips.
#[derive(Debug, Clone, Copy, PartialEq, Eq)]
pub struct TexasHoldemGame {
    pub hole: [[Card; 2]; 2],
    pub board: Board,
    pub deck_remaining: DeckRemaining,
    pub current_player: usize,
    pub round: u8,
    pub raises_this_round: u8,
    pub contributions: [i32; 2],
    pub history: [RoundHistory; 4],
    pub terminal: bool,
    pub returns: [i64; 2],
}

impl TexasHoldemGame {
    /// The opponent's contribution less the mover's fits in an `i32`.
    pub open spec fn facing_fits(self) -> bool {
        let cp = self.current_player as int;
        fits_i32(self.contributions[1 - cp] - self.contributions[cp])
    }

    /// The actions the player to act may take, in code order.
    pub open spec fn legal_spec(self) -> Seq<u8> {
        let cp = self.current_player as int;
        let opp = 1 - cp;
        let diff = self.contributions[opp] - self.contributions[cp];
        if self.terminal {
            Seq::empty()
        } else if self.contributions[cp] >= STACK_LIMIT || self.contributions[opp] >= STACK_LIMIT
            || self.raises_this_round >= 3 {
            if diff > 0 {
                seq![FOLD, CALL_CHECK]
            } else {
                seq![CALL_CHECK]
            }
        } else if diff > 0 {
            seq![FOLD, CALL_CHECK, RAISE_MIN, RAISE_HALF_POT]
        } else {
            seq![CALL_CHECK, RAISE_MIN, RAISE_HALF_POT]
        }
    }

    /// The history of the current round after recording `action`.
    pub open spec fn round_history_after(self, action: u8) -> Seq<u8> {
        history_after(self.history[self.round - 1]@, action)
    }

    /// What `apply_action(action)` needs to run without overflow or panic:
    /// the pot, the amount to call and the mover's new total fit in an
    /// `i32`, as does the pot at a showdown.
    pub open spec fn can_apply(self, action: u8) -> bool {
        let cp = self.current_player as int;
        let opp = 1 - cp;
        let me = self.contributions[cp] as int;
        let o = self.contributions[opp] as int;
        &&& 1 <= self.round <= 4
        &&& self.current_player <= 1
        &&& action <= 3
        &&& fits_i32(me + o)
        &&& action != FOLD ==> {
            &&& fits_i32(o - me)
            &&& fits_i32(me + max0(o - me) + raise_extra(me + o, action))
        }
        &&& (action == RAISE_MIN || action == RAISE_HALF_POT) ==> self.raises_this_round < 255
        &&& (action != FOLD && closes_round(self.round_history_after(action)))
            ==> self.deck_remaining@.len() >= cards_dealt_after(self.round as int)
        &&& (action != FOLD && closes_round(self.round_history_after(action)) && self.round == 4)
            ==> fits_i32(paid_after(me, o, action) + o)
    }

    /// A state reachable by play from a fresh deal: the blinds (10 and 20)
    /// stay posted, contributions stay within the stack limit, the board
    /// matches the street, payoffs are zero-sum, and a finished hand has paid
    /// out what one player put in, or nothing.
    pub open spec fn well_formed(self) -> bool {
        &&& 1 <= self.round <= 4
        &&& self.current_player <= 1
        &&& 10 <= self.contributions[0] <= STACK_LIMIT
        &&& 20 <= self.contributions[1] <= STACK_LIMIT
        &&& self.raises_this_round <= 3
        &&& self.board@.len() == board_size(self.round as int)
        &&& self.deck_remaining@.len() >= cards_still_needed(self.round as int)
        &&& self.returns[0] + self.returns[1] == 0
        &&& self.terminal ==> settled(
            self.returns[0] as int,
            self.returns[1] as int,
            self.contributions[0] as int,
            self.contributions[1] as int,
        )
    }

    /// Deals a new hand from the indices a partial Fisher-Yates shuffle of the
    /// full deck draws: for `i` in `0..9`, the card at `i` is swapped with the
    /// card at `draws[i]`. The first four cards are the hole cards (two each),
    /// the next five are kept for the board; blinds 10 and 20 are posted and
    /// player 0 acts first preflop.
    pub fn deal_from_draws(draws: &[usize; 9]) -> (g: Self)
        requires
            forall|i: int| 0 <= i < 9 ==> i <= #[trigger] draws@[i] < 52,
        ensures
            ({
                let d = swapped_deck(full_deck(), draws@, 9);
                &&& g.hole == [[d[0], d[1]], [d[2], d[3]]]
                &&& g.deck_remaining@ == d.subrange(4, 9) + deck_padding(47)
                &&& g.deck_remaining.dealt() == Seq::<Card>::empty()
            }),
            g.board@ == Seq::<Card>::empty(),
            g.current_player == 0,
            g.round == 1,
            g.raises_this_round == 0,
            g.contributions[0] == 10,
            g.contributions[1] == 20,
            forall|k: int| 0 <= k < 4 ==> #[trigger] g.history[k]@ == Seq::<u8>::empty(),
            !g.terminal,
            g.returns[0] == 0,
            g.returns[1] == 0,
            g.well_formed(),
            (seq![g.hole[0][0], g.hole[0][1], g.hole[1][0], g.hole[1][1]]
                + g.deck_remaining@.take(5)).no_duplicates(),
    {
        let mut deck = all_52_cards();
        proof {
            lemma_full_deck_distinct();
        }
        let mut i: usize = 0;
        while i < 9
            invariant
                0 <= i <= 9,
                deck@.len() == 52,
                deck@.no_duplicates(),
                deck@ == swapped_deck(full_deck(), draws@, i as int),
                forall|k: int| 0 <= k < 9 ==> k <= #[trigger] draws@[k] < 52,
            decreases 9 - i,
        {
            let j = draws[i];
            let a = deck[i];
            let b = deck[j];
            let ghost before = deck@;
            deck[i] = b;
            deck[j] = a;
            proof {
                assert(deck@ =~= before.update(i as int, before[j as int]).update(
                    j as int,
                    before[i as int],
                ));
                assert forall|x: int, y: int|
                    0 <= x < 52 && 0 <= y < 52 && x != y implies deck@[x] != deck@[y] by {
                    let fx = if x == i as int {
                        j as int
                    } else if x == j as int {
                        i as int
                    } else {
                        x
                    };
                    let fy = if y == i as int {
                        j as int
                    } else if y == j as int {
                        i as int
                    } else {
                        y
                    };
                    assert(deck@[x] == before[fx]);
                    assert(deck@[y] == before[fy]);
                }
            }
            i = i + 1;
        }
        let hole0 = [deck[0], deck[1]];
        let hole1 = [deck[2], deck[3]];
        let rest = vstd::slice::slice_subrange(deck.as_slice(), 4, 9);
        let deck_rem = DeckRemaining::from_slice(rest);
        let g = TexasHoldemGame {
            hole: [hole0, hole1],
            board: Board::new(),
            deck_remaining: deck_rem,
            current_player: 0,
            round: 1,
            raises_this_round: 0,
            contributions: [10, 20],
            history: [RoundHistory::new(), RoundHistory::new(), RoundHistory::new(), RoundHistory::new()],
            terminal: false,
            returns: [0, 0],
        };
        proof {
            let dealt = seq![g.hole[0][0], g.hole[0][1], g.hole[1][0], g.hole[1][1]] + g.deck_remaining@.take(5);
            assert(dealt =~= deck@.take(9));
            assert(rest@ =~= deck@.subrange(4, 9));
            assert(g.deck_remaining@.skip(5) =~= deck_padding(47));
        }
        g
    }

    /// Deals a new hand: nine cards drawn by a partial Fisher-Yates shuffle
    /// of the full deck (two hole cards each, five for the board), blinds 10
    /// and 20 posted, player 0 to act preflop. The indices come from `rng`;
    /// the deal is `deal_from_draws` of them.
    pub fn new_random(rng: &mut SmallRng) -> (g: Self)
        ensures
            exists|draws: Seq<usize>|
                #![trigger swapped_deck(full_deck(), draws, 9)]
                {
                    let d = swapped_deck(full_deck(), draws, 9);
                    &&& draws.len() == 9
                    &&& forall|i: int| 0 <= i < 9 ==> i <= #[trigger] draws[i] < 52
                    &&& g.hole == [[d[0], d[1]], [d[2], d[3]]]
                    &&& g.deck_remaining@ == d.subrange(4, 9) + deck_padding(47)
                },
            g.well_formed(),
            (seq![g.hole[0][0], g.hole[0][1], g.hole[1][0], g.hole[1][1]]
                + g.deck_remaining@.take(5)).no_duplicates(),
            g.deck_remaining@.skip(5) == deck_padding(47),
            g.board@ == Seq::<Card>::empty(),
            g.current_player == 0,
            g.round == 1,
            g.raises_this_round == 0,
            g.contributions[0] == 10,
            g.contributions[1] == 20,
            forall|k: int| 0 <= k < 4 ==> #[trigger] g.history[k]@ == Seq::<u8>::empty(),
            !g.terminal,
            g.returns[0] == 0,
            g.returns[1] == 0,
    {
        let mut draws = [0usize; 9];
        let mut i: usize = 0;
        while i < 9
            invariant
                0 <= i <= 9,
                forall|k: int| 0 <= k < i ==> k <= #[trigger] draws@[k] < 52,
            decreases 9 - i,
        {
            let j = random_index(rng, i, 52);
            draws[i] = j;
            i = i + 1;
        }
        let g = TexasHoldemGame::deal_from_draws(&draws);
        proof {
            assert(g.deck_remaining@.skip(5) =~= deck_padding(47));
            assert(swapped_deck(full_deck(), draws@, 9) == swapped_deck(full_deck(), draws@, 9));
        }
        g
    }

    pub fn is_terminal(&self) -> (t: bool)
        ensures
            t == self.terminal,
    {
        self.terminal
    }

    /// Chips won (positive) or lost (negative) by each player.
    pub fn get_returns(&self) -> (r: [i64; 2])
        ensures
            r == self.returns,
    {
        self.returns
    }

    pub fn current_player(&self) -> (p: usize)
        ensures
            p == self.current_player,
    {
        self.current_player
    }

    /// Writes the legal actions into `out` and returns how many there are;
    /// the rest of `out` is left as it was.
    pub fn legal_actions_buf(&self, out: &mut [u8; 4]) -> (n: usize)
        requires
            self.current_player <= 1,
            self.facing_fits(),
        ensures
            n == self.legal_spec().len(),
            final(out)@.take(n as int) == self.legal_spec(),
            final(out)@.skip(n as int) == old(out)@.skip(n as int),
    {
        if self.terminal {
            assert(out@.take(0) =~= self.legal_spec());
            assert(out@.skip(0) =~= old(out)@.skip(0));
            return 0;
        }
        let opp = 1 - self.current_player;
        let diff = self.contributions[opp] - self.contributions[self.current_player];
        let my_contrib = self.contributions[self.current_player];
        let raise_capped = self.raises_this_round >= 3;

        if my_contrib >= STACK_LIMIT || self.contributions[opp] >= STACK_LIMIT || raise_capped {
            if diff > 0 {
                out[0] = FOLD;
                out[1] = CALL_CHECK;
                assert(out@.take(2) =~= self.legal_spec());
                assert(out@.skip(2) =~= old(out)@.skip(2));
                2
            } else {
                out[0] = CALL_CHECK;
                assert(out@.take(1) =~= self.legal_spec());
                assert(out@.skip(1) =~= old(out)@.skip(1));
                1
            }
        } else if diff > 0 {
            out[0] = FOLD;
            out[1] = CALL_CHECK;
            out[2] = RAISE_MIN;
            out[3] = RAISE_HALF_POT;
            assert(out@.take(4) =~= self.legal_spec());
            assert(out@.skip(4) =~= old(out)@.skip(4));
            4
        } else {
            out[0] = CALL_CHECK;
            out[1] = RAISE_MIN;
            out[2] = RAISE_HALF_POT;
            assert(out@.take(3) =~= self.legal_spec());
            assert(out@.skip(3) =~= old(out)@.skip(3));
            3
        }
    }

    /// The legal actions of the player to act.
    pub fn legal_actions(&self) -> (v: Vec<u8>)
        requires
            self.current_player <= 1,
            self.facing_fits(),
        ensures
            v@ == self.legal_spec(),
    {
        let mut buf = [0u8; 4];
        let n = self.legal_actions_buf(&mut buf);
        let v = vstd::slice::slice_to_vec(vstd::slice::slice_subrange(buf.as_slice(), 0, n));
        v
    }

    /// How `apply_action(action)` leads from this state to `next`.
    pub open spec fn steps_to(self, action: u8, next: TexasHoldemGame) -> bool {
        let r = self.round - 1;
        let cp = self.current_player as int;
        let opp = 1 - cp;
        let h2 = self.round_history_after(action);
        &&& next.hole == self.hole
        &&& next.history[r]@ == h2
        &&& forall|k: int| 0 <= k < 4 && k != r ==> #[trigger] next.history[k]@ == self.history[k]@
        &&& action == FOLD ==> {
            &&& next.terminal
            &&& next.returns[opp] == self.contributions[cp]
            &&& next.returns[cp] == -self.contributions[cp]
            &&& next.contributions == self.contributions
            &&& next.round == self.round
            &&& next.current_player == self.current_player
            &&& next.raises_this_round == self.raises_this_round
            &&& next.board@ == self.board@
            &&& next.deck_remaining@ == self.deck_remaining@
        }
        &&& action != FOLD ==> {
            &&& next.contributions[cp] == paid_after(
                self.contributions[cp] as int,
                self.contributions[opp] as int,
                action,
            )
            &&& next.contributions[opp] == self.contributions[opp]
            &&& if closes_round(h2) {
                &&& next.raises_this_round == 0
                &&& if self.round < 4 {
                    &&& next.round == self.round + 1
                    &&& next.current_player == 0
                    &&& next.board@ == board_after_deal(
                        self.board@,
                        self.deck_remaining@,
                        self.round as int,
                    )
                    &&& next.deck_remaining@ == self.deck_remaining@.skip(
                        cards_dealt_after(self.round as int) as int,
                    )
                    &&& next.terminal == self.terminal
                    &&& next.returns == self.returns
                } else {
                    &&& next.terminal
                    &&& next.round == self.round
                    &&& next.current_player == self.current_player
                    &&& next.board@ == self.board@
                    &&& next.deck_remaining@ == self.deck_remaining@
                    &&& next.returns[0] == showdown_returns(
                        self.hole[0]@,
                        self.hole[1]@,
                        self.board@,
                        next.contributions[0] as int,
                        next.contributions[1] as int,
                    ).0
                    &&& next.returns[1] == showdown_returns(
                        self.hole[0]@,
                        self.hole[1]@,
                        self.board@,
                        next.contributions[0] as int,
                        next.contributions[1] as int,
                    ).1
                }
            } else {
                &&& next.raises_this_round == if action == RAISE_MIN || action == RAISE_HALF_POT {
                    self.raises_this_round + 1
                } else {
                    self.raises_this_round as int
                }
                &&& next.round == self.round
                &&& next.current_player == opp
                &&& next.board@ == self.board@
                &&& next.deck_remaining@ == self.deck_remaining@
                &&& next.terminal == self.terminal
                &&& next.returns == self.returns
            }
        }
    }

    /// Whether `apply_action(action)` can run here without overflow or
    /// panic (see `can_apply`).
    pub fn can_apply_action(&self, action: u8) -> (ok: bool)
        ensures
            ok == self.can_apply(action),
    {
        if self.round < 1 || self.round > 4 || self.current_player > 1 || action > 3 {
            return false;
        }
        let cp = self.current_player;
        let me = self.contributions[cp] as i64;
        let o = self.contributions[1 - cp] as i64;
        let lo = i32::MIN as i64;
        let hi = i32::MAX as i64;
        let pot = me + o;
        if pot < lo || pot > hi {
            return false;
        }
        if action == FOLD {
            return true;
        }
        let diff = o - me;
        if diff < lo || diff > hi {
            return false;
        }
        let called = if diff > 0 {
            me + diff
        } else {
            me
        };
        let extra: i64 = if action == CALL_CHECK {
            0
        } else if action == RAISE_MIN {
            40
        } else if pot >= 82 {
            pot / 2
        } else {
            40
        };
        let total = called + extra;
        if total < lo || total > hi {
            return false;
        }
        if (action == RAISE_MIN || action == RAISE_HALF_POT) && self.raises_this_round >= 255 {
            return false;
        }
        let mut h = self.history[(self.round - 1) as usize];
        h.push(action);
        if round_is_over(&h) {
            let needed: usize = if self.round == 1 {
                3
            } else if self.round <= 3 {
                1
            } else {
                0
            };
            if self.deck_remaining.len() < needed {
                return false;
            }
            if self.round == 4 {
                let paid = if total < STACK_LIMIT as i64 {
                    total
                } else {
                    STACK_LIMIT as i64
                };
                let final_pot = paid + o;
                if final_pot < lo || final_pot > hi {
                    return false;
                }
            }
        }
        true
    }

    /// The state after the player to act takes `action`. A fold ends the hand
    /// (the opponent wins what the folder put in); otherwise the mover pays
    /// per `paid_after`, and a round that closes deals the next street (or,
    /// after the river, goes to showdown).
    pub fn apply_action(&self, action: u8) -> (next: TexasHoldemGame)
        requires
            self.can_apply(action),
        ensures
            self.steps_to(action, next),
            self.returns[0] + self.returns[1] == 0 ==> next.returns[0] + next.returns[1] == 0,
            (self.contributions[0] <= STACK_LIMIT && self.contributions[1] <= STACK_LIMIT)
                ==> (self.contributions[0] <= next.contributions[0] <= STACK_LIMIT
                && self.contributions[1] <= next.contributions[1] <= STACK_LIMIT),
            self.well_formed() && self.legal_spec().contains(action) ==> next.well_formed(),
    {
        let r_idx = (self.round - 1) as usize;
        let mut next = *self;
        let mut hist = next.history[r_idx];
        hist.push(action);
        next.history[r_idx] = hist;
        let cp = next.current_player;
        let opp = 1 - cp;

        if action == FOLD {
            let paid = next.contributions[cp] as i64;
            if opp == 0 {
                next.returns = [paid, -paid];
            } else {
                next.returns = [-paid, paid];
            }
            next.terminal = true;
            proof {
                lemma_step_laws(*self, action, next);
            }
            return next;
        }
        let paid = pay_for_action(next.contributions[cp], next.contributions[opp], action);
        if cp == 0 {
            next.contributions = [paid, next.contributions[1]];
        } else {
            next.contributions = [next.contributions[0], paid];
        }
        if action == RAISE_MIN || action == RAISE_HALF_POT {
            next.raises_this_round = next.raises_this_round + 1;
        }
        let round_over = round_is_over(&next.history[r_idx]);

        if round_over {
            next.raises_this_round = 0;
            if next.round < 4 {
                next = next_street(next);
            } else {
                next.resolve_showdown();
            }
        } else {
            next.current_player = opp;
        }
        proof {
            lemma_step_laws(*self, action, next);
        }
        next
    }

    /// Settles a showdown from the current board and contributions.
    fn resolve_showdown(&mut self)
        requires
            fits_i32(old(self).contributions[0] + old(self).contributions[1]),
        ensures
            final(self).terminal,
            final(self).returns[0] == showdown_returns(
                old(self).hole[0]@,
                old(self).hole[1]@,
                old(self).board@,
                old(self).contributions[0] as int,
                old(self).contributions[1] as int,
            ).0,
            final(self).returns[1] == showdown_returns(
                old(self).hole[0]@,
                old(self).hole[1]@,
                old(self).board@,
                old(self).contributions[0] as int,
                old(self).contributions[1] as int,
            ).1,
            final(self).hole == old(self).hole,
            final(self).board == old(self).board,
            final(self).deck_remaining == old(self).deck_remaining,
            final(self).current_player == old(self).current_player,
            final(self).round == old(self).round,
            final(self).raises_this_round == old(self).raises_this_round,
            final(self).contributions == old(self).contributions,
            final(self).history == old(self).history,
    {
        let score0 = evaluate_7cards(&self.hole[0], self.board.as_slice());
        let score1 = evaluate_7cards(&self.hole[1], self.board.as_slice());

        let pot = self.contributions[0] + self.contributions[1];
        if score0 > score1 {
            self.returns = [(pot - self.contributions[0]) as i64, -(self.contributions[1] as i64)];
        } else if score1 > score0 {
            self.returns = [-(self.contributions[0] as i64), (pot - self.contributions[1]) as i64];
        } else {
            self.returns = [0, 0];
        }
        self.terminal = true;
    }
}


/// What the mover has contributed after a non-fold action.
fn pay_for_action(me: i32, opp: i32, action: u8) -> (paid: i32)
    requires
        fits_i32(me + opp),
        fits_i32(opp - me),
        1 <= action <= 3,
        fits_i32(me + max0(opp - me) + raise_extra(me + opp, action)),
    ensures
        paid == paid_after(me as int, opp as int, action),
{
    let pot = me + opp;
    let diff = if opp - me > 0 {
        opp - me
    } else {
        0
    };
    let raised: i32 = if action == CALL_CHECK {
        me + diff
    } else if action == RAISE_MIN {
        me + diff + 40
    } else {
        let half = pot / 2;
        let raise_amt = if half > 40 {
            half
        } else {
            40
        };
        me + diff + raise_amt
    };
    if raised < STACK_LIMIT {
        raised
    } else {
        STACK_LIMIT
    }
}

/// Whether the recorded actions close the round.
fn round_is_over(h: &RoundHistory) -> (over: bool)
    ensures
        over == closes_round(h@),
{
    let n = h.len();
    let acts = h.as_slice();
    if n >= 2 {
        let last = acts[n - 1];
        let prev = acts[n - 2];
        last == CALL_CHECK && (prev == CALL_CHECK || prev == RAISE_MIN || prev == RAISE_HALF_POT)
    } else {
        false
    }
}

/// Deals the next street and opens its betting round with player 0.
fn next_street(g: TexasHoldemGame) -> (next: TexasHoldemGame)
    requires
        1 <= g.round <= 3,
        g.deck_remaining@.len() >= cards_dealt_after(g.round as int),
    ensures
        next.round == g.round + 1,
        next.current_player == 0,
        next.board@ == board_after_deal(g.board@, g.deck_remaining@, g.round as int),
        next.deck_remaining@ == g.deck_remaining@.skip(cards_dealt_after(g.round as int) as int),
        next.hole == g.hole,
        next.history == g.history,
        next.contributions == g.contributions,
        next.raises_this_round == g.raises_this_round,
        next.terminal == g.terminal,
        next.returns == g.returns,
{
    let mut next = g;
    let mut deck = next.deck_remaining;
    let mut board = next.board;
    if g.round == 1 {
        let c0 = deck.deal_one();
        board.push(c0);
        let c1 = deck.deal_one();
        board.push(c1);
        let c2 = deck.deal_one();
        board.push(c2);
        assert(deck@ =~= g.deck_remaining@.skip(3));
    } else {
        let c0 = deck.deal_one();
        board.push(c0);
        assert(deck@ =~= g.deck_remaining@.skip(1));
    }
    next.deck_remaining = deck;
    next.board = board;
    next.round = g.round + 1;
    next.current_player = 0;
    next
}

/// The laws every step keeps: payoffs stay zero-sum, contributions stay
/// within the stack limit and never shrink, and a legal action from a state
/// reachable by play leads to another such state (board size matching the
/// round, enough cards left for the remaining streets). A hand that such a
/// step finishes has one winner and one loser, or neither.
pub proof fn lemma_step_laws(g: TexasHoldemGame, action: u8, next: TexasHoldemGame)
    requires
        g.can_apply(action),
        g.steps_to(action, next),
    ensures
        g.returns[0] + g.returns[1] == 0 ==> next.returns[0] + next.returns[1] == 0,
        (g.contributions[0] <= STACK_LIMIT && g.contributions[1] <= STACK_LIMIT) ==> (
        g.contributions[0] <= next.contributions[0] <= STACK_LIMIT && g.contributions[1]
            <= next.contributions[1] <= STACK_LIMIT),
        g.well_formed() && g.legal_spec().contains(action) ==> next.well_formed(),
        g.well_formed() && g.legal_spec().contains(action) && next.terminal ==> {
            ||| (next.returns[0] > 0 && next.returns[1] < 0)
            ||| (next.returns[0] < 0 && next.returns[1] > 0)
            ||| (next.returns[0] == 0 && next.returns[1] == 0)
        },
{
    let cp = g.current_player as int;
    let opp = 1 - cp;
    if action != FOLD {
        let me = g.contributions[cp] as int;
        let o = g.contributions[opp] as int;
        assert(paid_after(me, o, action) <= STACK_LIMIT);
    }
    if g.well_formed() && g.legal_spec().contains(action) {
        let h2 = g.round_history_after(action);
        if action != FOLD && closes_round(h2) && g.round < 4 {
            assert(g.board@.len() == board_size(g.round as int));
        }
    }
}

/// What a step does to the bets: a call brings the mover level with the
/// opponent; a minimum raise adds 40 chips on top; a half-pot raise adds
/// half the pot before the action (at least 40) on top; the mover's total
/// never passes 1000 and the opponent's total is unchanged. So the three
/// never decrease in that order, and with a pot of 200 and nothing to call
/// a half-pot raise puts in exactly 100.
pub proof fn lemma_bet_amounts(g: TexasHoldemGame, action: u8, next: TexasHoldemGame)
    requires
        g.can_apply(action),
        g.steps_to(action, next),
        action != FOLD,
    ensures
        ({
            let cp = g.current_player as int;
            let me = g.contributions[cp] as int;
            let o = g.contributions[1 - cp] as int;
            let level = if o > me { o } else { me };
            let raised = if action == CALL_CHECK {
                level
            } else if action == RAISE_MIN {
                level + 40
            } else if (me + o) / 2 > 40 {
                level + (me + o) / 2
            } else {
                level + 40
            };
            &&& next.contributions[cp] == if raised < 1000 { raised } else { 1000 }
            &&& next.contributions[1 - cp] == o
            &&& paid_after(me, o, CALL_CHECK) <= paid_after(me, o, RAISE_MIN) <= paid_after(
                me,
                o,
                RAISE_HALF_POT,
            )
            &&& (me + o == 200 && o <= me && me + 100 <= 1000) ==> paid_after(me, o, RAISE_HALF_POT)
                == me + 100
        }),
{
}

/// A raise never ends a betting round: the round stays, the turn passes to
/// the opponent, and the hand goes on; a fold always ends the hand with the
/// contributions as they were.
pub proof fn lemma_raise_passes_turn(g: TexasHoldemGame, action: u8, next: TexasHoldemGame)
    requires
        g.can_apply(action),
        g.steps_to(action, next),
    ensures
        (action == RAISE_MIN || action == RAISE_HALF_POT) && g.history[g.round - 1]@.len() < 32
            ==> next.round == g.round && next.current_player == 1 - g.current_player
            && next.terminal == g.terminal && next.raises_this_round == g.raises_this_round + 1,
        action == FOLD ==> next.terminal && next.contributions == g.contributions,
{
    if (action == RAISE_MIN || action == RAISE_HALF_POT) && g.history[g.round - 1]@.len() < 32 {
        let h2 = g.round_history_after(action);
        assert(h2[h2.len() - 1] == action);
    }
}

/// A call that closes the river goes to showdown: the player whose cards
/// score higher wins what the other put in, and equal scores split the pot.
pub proof fn lemma_showdown_pays_better_hand(g: TexasHoldemGame, action: u8, next: TexasHoldemGame)
    requires
        g.can_apply(action),
        g.steps_to(action, next),
        action != FOLD,
        g.round == 4,
        closes_round(g.round_history_after(action)),
    ensures
        ({
            let s0 = hand_score(hand_cards(g.hole[0]@, g.board@).to_multiset());
            let s1 = hand_score(hand_cards(g.hole[1]@, g.board@).to_multiset());
            &&& next.terminal
            &&& s0 > s1 ==> next.returns[0] == next.contributions[1] && next.returns[1]
                == -next.contributions[1]
            &&& s1 > s0 ==> next.returns[1] == next.contributions[0] && next.returns[0]
                == -next.contributions[0]
            &&& s0 == s1 ==> next.returns[0] == 0 && next.returns[1] == 0
        }),
{
}

/// In a hand still being played, raising (either size) is allowed exactly
/// while fewer than three raises were made this round and neither player has
/// reached the 1000-chip stack limit; a finished hand allows nothing.
pub proof fn lemma_holdem_raise_rule(g: TexasHoldemGame)
    requires
        g.current_player <= 1,
    ensures
        !g.terminal ==> (g.legal_spec().contains(RAISE_MIN) <==> (g.raises_this_round < 3
            && g.contributions[0] < 1000 && g.contributions[1] < 1000)),
        !g.terminal ==> (g.legal_spec().contains(RAISE_HALF_POT) <==> g.legal_spec().contains(
            RAISE_MIN,
        )),
        g.terminal ==> g.legal_spec().len() == 0,
{
    let l = g.legal_spec();
    if !g.terminal {
        if l.len() <= 2 {
            assert(!l.contains(RAISE_MIN)) by {
                if l.contains(RAISE_MIN) {
                    let i = choose|i: int| 0 <= i < l.len() && l[i] == RAISE_MIN;
                }
            }
            assert(!l.contains(RAISE_HALF_POT)) by {
                if l.contains(RAISE_HALF_POT) {
                    let i = choose|i: int| 0 <= i < l.len() && l[i] == RAISE_HALF_POT;
                }
            }
        } else {
            assert(l[l.len() - 1] == RAISE_HALF_POT);
            assert(l[l.len() - 2] == RAISE_MIN);
        }
    }
}

/// In a hand still being played, the player to act may always check or
/// call, and may fold exactly when facing a bet.
pub proof fn lemma_holdem_call_always_legal(g: TexasHoldemGame)
    requires
        !g.terminal,
        g.current_player <= 1,
    ensures
        g.legal_spec().contains(CALL_CHECK),
        g.legal_spec().contains(FOLD) <==> g.contributions[1 - g.current_player]
            > g.contributions[g.current_player as int],
{
    let l = g.legal_spec();
    if l.len() == 1 {
        assert(l[0] == CALL_CHECK);
    } else {
        assert(l[1] == CALL_CHECK || l[0] == CALL_CHECK);
        if l[0] == CALL_CHECK {
            assert(l[0] != FOLD);
        }
    }
}

} // verus!
