//! The six-card Leduc deck: Jack, Queen and King in clubs and diamonds.

use vstd::prelude::*;
use crate::text::push_char;

verus! {

#[derive(Debug, Clone, Copy, PartialEq, Eq, Hash, Structural)]
pub enum Rank {
    Jack,
    Queen,
    King,
}

#[derive(Debug, Clone, Copy, PartialEq, Eq, Hash, Structural)]
pub enum Suit {
    Club,
    Diamond,
}

#[derive(Debug, Clone, Copy, PartialEq, Eq, Hash, Structural)]
pub struct Card {
    pub rank: Rank,
    pub suit: Suit,
}

/// Jack 0, Queen 1, King 2.
pub open spec fn rank_value(r: Rank) -> int {
    match r {
        Rank::Jack => 0,
        Rank::Queen => 1,
        Rank::King => 2,
    }
}

/// Club 0, Diamond 1.
pub open spec fn suit_value(s: Suit) -> int {
    match s {
        Suit::Club => 0,
        Suit::Diamond => 1,
    }
}

/// The rank letter: J, Q or K.
pub open spec fn rank_letter(r: Rank) -> char {
    match r {
        Rank::Jack => 'J',
        Rank::Queen => 'Q',
        Rank::King => 'K',
    }
}

/// The suit letter: c or d.
pub open spec fn suit_letter(s: Suit) -> char {
    match s {
        Suit::Club => 'c',
        Suit::Diamond => 'd',
    }
}

/// A card's two-letter name, such as "Qd".
pub open spec fn card_name(c: Card) -> Seq<char> {
    seq![rank_letter(c.rank), suit_letter(c.suit)]
}

/// The deck in its fixed order: Jc, Jd, Qc, Qd, Kc, Kd.
pub open spec fn leduc_deck() -> Seq<Card> {
    seq![
        Card { rank: Rank::Jack, suit: Suit::Club },
        Card { rank: Rank::Jack, suit: Suit::Diamond },
        Card { rank: Rank::Queen, suit: Suit::Club },
        Card { rank: Rank::Queen, suit: Suit::Diamond },
        Card { rank: Rank::King, suit: Suit::Club },
        Card { rank: Rank::King, suit: Suit::Diamond },
    ]
}

impl Rank {
    pub fn value(self) -> (v: u8)
        ensures
            v as int == rank_value(self),
    {
        match self {
            Rank::Jack => 0,
            Rank::Queen => 1,
            Rank::King => 2,
        }
    }
}

impl Card {
    pub fn new(rank: Rank, suit: Suit) -> (c: Self)
        ensures
            c.rank == rank,
            c.suit == suit,
    {
        Card { rank, suit }
    }

    /// The card's position (0..5) in the fixed deck order.
    pub fn index(self) -> (i: usize)
        ensures
            i == rank_value(self.rank) * 2 + suit_value(self.suit),
            i < 6,
            leduc_deck()[i as int] == self,
    {
        let r: usize = match self.rank {
            Rank::Jack => 0,
            Rank::Queen => 1,
            Rank::King => 2,
        };
        let s: usize = match self.suit {
            Suit::Club => 0,
            Suit::Diamond => 1,
        };
        r * 2 + s
    }

    /// The card's two-letter name, such as "Jc".
    pub fn name(self) -> (n: &'static str)
        ensures
            n@ == card_name(self),
    {
        match (self.rank, self.suit) {
            (Rank::Jack, Suit::Club) => {
                proof {
                    reveal_strlit("Jc");
                }
                "Jc"
            },
            (Rank::Jack, Suit::Diamond) => {
                proof {
                    reveal_strlit("Jd");
                }
                "Jd"
            },
            (Rank::Queen, Suit::Club) => {
                proof {
                    reveal_strlit("Qc");
                }
                "Qc"
            },
            (Rank::Queen, Suit::Diamond) => {
                proof {
                    reveal_strlit("Qd");
                }
                "Qd"
            },
            (Rank::King, Suit::Club) => {
                proof {
                    reveal_strlit("Kc");
                }
                "Kc"
            },
            (Rank::King, Suit::Diamond) => {
                proof {
                    reveal_strlit("Kd");
                }
                "Kd"
            },
        }
    }
}

/// The full six-card deck in its fixed order.
pub fn all_cards() -> (deck: [Card; 6])
    ensures
        deck@ == leduc_deck(),
{
    let deck = [
        Card { rank: Rank::Jack, suit: Suit::Club },
        Card { rank: Rank::Jack, suit: Suit::Diamond },
        Card { rank: Rank::Queen, suit: Suit::Club },
        Card { rank: Rank::Queen, suit: Suit::Diamond },
        Card { rank: Rank::King, suit: Suit::Club },
        Card { rank: Rank::King, suit: Suit::Diamond },
    ];
    assert(deck@ =~= leduc_deck());
    deck
}

/// No card occurs twice in the deck.
pub proof fn lemma_leduc_deck_distinct()
    ensures
        leduc_deck().no_duplicates(),
{
}

/// The suit sign: clubs or diamonds.
pub open spec fn suit_sign(s: Suit) -> char {
    match s {
        Suit::Club => '\u{2663}',
        Suit::Diamond => '\u{2666}',
    }
}

/// A card as shown on screen, quoted: `'J\u{2663}'`.
pub open spec fn card_display(c: Card) -> Seq<char> {
    seq!['\'', rank_letter(c.rank), suit_sign(c.suit), '\'']
}

/// The card as shown on screen, such as `'K\u{2666}'`.
pub fn format_card(card: Card) -> (text: String)
    ensures
        text@ == card_display(card),
{
    let mut text = String::new();
    push_char(&mut text, '\'');
    let letter = match card.rank {
        Rank::Jack => 'J',
        Rank::Queen => 'Q',
        Rank::King => 'K',
    };
    push_char(&mut text, letter);
    let sign = match card.suit {
        Suit::Club => '\u{2663}',
        Suit::Diamond => '\u{2666}',
    };
    push_char(&mut text, sign);
    push_char(&mut text, '\'');
    assert(text@ =~= card_display(card));
    text
}

} // verus!
