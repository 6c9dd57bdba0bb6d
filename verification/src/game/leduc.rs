//! Leduc Hold'em for two players: one private card each from the six-card
//! deck, one community card revealed after the first betting round, antes of
//! one chip, bets of 2 then 4, at most two raises per round.
//! Actions: 0 fold, 1 call/check, 2 raise.

use vstd::prelude::*;
use rand::rngs::SmallRng;
use crate::game::card::{all_cards, card_name, lemma_leduc_deck_distinct, leduc_deck, rank_value, Card};
use crate::rng::shuffle_in_place;
use crate::text::{push_char, push_chars};

verus! {

broadcast use vstd::seq_lib::group_to_multiset_ensures;

pub const FOLD: u8 = 0;
pub const CALL: u8 = 1;
pub const RAISE: u8 = 2;

pub const NUM_ACTIONS: usize = 3;

/// The payoffs of a finished hand with contributions `c0` and `c1`: one
/// player wins exactly what the other put in and the other loses it, or
/// both get nothing.
pub open spec fn settled(r0: int, r1: int, c0: int, c1: int) -> bool {
    ||| (r0 == c1 && r1 == -c1)
    ||| (r1 == c0 && r0 == -c0)
    ||| (r0 == 0 && r1 == 0)
}

/// The value fits in an `i32`.
pub open spec fn fits_i32(x: int) -> bool {
    i32::MIN <= x <= i32::MAX
}

/// At a showdown with contributions `c0` and `c1`: the pot fits in an `i32`
/// and so does the negated contribution of the loser.
pub open spec fn showdown_fits(hole0: Card, hole1: Card, board: Card, c0: int, c1: int) -> bool {
    &&& fits_i32(c0 + c1)
    &&& match showdown_winner(hole0, hole1, board) {
        Some(w) => (if w == 0 { c1 } else { c0 }) > i32::MIN,
        None => true,
    }
}

/// The letter an action is written with in an information-set key.
pub open spec fn action_letter(a: u8) -> char {
    if a == FOLD {
        'f'
    } else if a == CALL {
        'c'
    } else if a == RAISE {
        'r'
    } else {
        '?'
    }
}

/// A round's actions written as letters.
pub open spec fn actions_text(h: Seq<u8>) -> Seq<char> {
    h.map_values(|a: u8| action_letter(a))
}

fn action_char(a: u8) -> (c: char)
    ensures
        c == action_letter(a),
{
    if a == FOLD {
        'f'
    } else if a == CALL {
        'c'
    } else if a == RAISE {
        'r'
    } else {
        '?'
    }
}

/// A round closes on check-check or on a call of a raise.
pub open spec fn round_closes(h: Seq<u8>) -> bool {
    &&& h.len() >= 2
    &&& h[h.len() - 1] == CALL
    &&& (h[h.len() - 2] == CALL || h[h.len() - 2] == RAISE)
}

/// The bet size in round `round`: 2 in the first round, 4 in the second.
pub open spec fn bet_size(round: int) -> int {
    if round == 1 {
        2
    } else {
        4
    }
}

pub open spec fn max0(x: int) -> int {
    if x > 0 {
        x
    } else {
        0
    }
}

/// The showdown winner: a player pairing the board wins; otherwise the higher
/// card wins; equal cards (or both pairing) tie.
pub open spec fn showdown_winner(hole0: Card, hole1: Card, board: Card) -> Option<int> {
    let pair0 = hole0.rank == board.rank;
    let pair1 = hole1.rank == board.rank;
    if pair0 && !pair1 {
        Some(0)
    } else if pair1 && !pair0 {
        Some(1)
    } else if pair0 && pair1 {
        None
    } else if rank_value(hole0.rank) > rank_value(hole1.rank) {
        Some(0)
    } else if rank_value(hole1.rank) > rank_value(hole0.rank) {
        Some(1)
    } else {
        None
    }
}

#[derive(Debug, Clone)]
pub struct LeducGame {
    pub hole: [Card; 2],
    pub board_card: Card,
    pub board: Option<Card>,
    pub current_player: usize,
    pub round: u8,
    pub raises_this_round: u8,
    pub contributions: [i32; 2],
    pub history: [Vec<u8>; 2],
    pub terminal: bool,
    pub returns: [i32; 2],
}

impl LeducGame {
    /// The community card dealt for this hand (revealed in round 2).
    pub open spec fn community_card(self) -> Card {
        self.board_card
    }


    /// The legal actions: after a raise, fold, call, and raise again while
    /// fewer than two raises were made this round; otherwise call or raise.
    pub open spec fn legal_spec(self) -> Seq<u8> {
        let h = self.history[self.round - 1]@;
        if self.terminal {
            Seq::empty()
        } else if h.len() > 0 && h[h.len() - 1] == RAISE {
            if self.raises_this_round < 2 {
                seq![FOLD, CALL, RAISE]
            } else {
                seq![FOLD, CALL]
            }
        } else {
            seq![CALL, RAISE]
        }
    }

    /// What `apply_action(action)` needs to run without overflow or panic:
    /// on a fold the pot and the folder's negated contribution fit in an
    /// `i32`; otherwise the amount to call and the mover's new total do,
    /// and a showdown's pot and loss.
    pub open spec fn can_apply(self, action: u8) -> bool {
        let cp = self.current_player as int;
        let opp = 1 - cp;
        let me = self.contributions[cp] as int;
        let o = self.contributions[opp] as int;
        let paid = me + max0(o - me);
        &&& 1 <= self.round <= 2
        &&& self.current_player <= 1
        &&& action <= 2
        &&& action == FOLD ==> fits_i32(me + o) && me > i32::MIN
        &&& action != FOLD ==> fits_i32(o - me)
        &&& action == RAISE ==> fits_i32(paid + bet_size(self.round as int))
        &&& action == RAISE ==> self.raises_this_round < 255
        &&& (action == CALL && self.round == 2 && round_closes(self.history[1]@.push(action))) ==> {
            &&& self.board is Some
            &&& showdown_fits(
                self.hole[0],
                self.hole[1],
                self.board->0,
                if cp == 0 { paid } else { o },
                if cp == 0 { o } else { paid },
            )
        }
    }

    /// A state reachable by play from a deal: the community card shows
    /// exactly in round 2, at most two raises a round, the antes stay posted
    /// and contributions are bounded by the raises made, payoffs are
    /// zero-sum, and a finished hand has paid out what one player put in, or
    /// nothing.
    pub open spec fn well_formed(self) -> bool {
        &&& 1 <= self.round <= 2
        &&& self.current_player <= 1
        &&& self.raises_this_round <= 2
        &&& (!self.terminal && self.raises_this_round > 0) ==> {
            let h = self.history[self.round - 1]@;
            h.len() > 0 && h[h.len() - 1] == RAISE
        }
        &&& (self.round == 1 ==> self.board is None)
        &&& (self.round == 2 ==> self.board == Some(self.community_card()))
        &&& 1 <= self.contributions[0]
        &&& 1 <= self.contributions[1]
        &&& (self.round == 1 ==> self.contributions[0] <= 1 + 2 * self.raises_this_round
            && self.contributions[1] <= 1 + 2 * self.raises_this_round)
        &&& (self.round == 2 ==> self.contributions[0] <= 5 + 4 * self.raises_this_round
            && self.contributions[1] <= 5 + 4 * self.raises_this_round)
        &&& self.returns[0] + self.returns[1] == 0
        &&& self.terminal ==> settled(
            self.returns[0] as int,
            self.returns[1] as int,
            self.contributions[0] as int,
            self.contributions[1] as int,
        )
    }

    /// How `apply_action(action)` leads from this state to `next`.
    pub open spec fn steps_to(self, action: u8, next: LeducGame) -> bool {
        let r = self.round - 1;
        let cp = self.current_player as int;
        let opp = 1 - cp;
        let h2 = self.history[r]@.push(action);
        let pot = self.contributions[0] + self.contributions[1];
        let diff = max0(self.contributions[opp] - self.contributions[cp]);
        &&& next.hole == self.hole
        &&& next.community_card() == self.community_card()
        &&& next.history[r]@ == h2
        &&& forall|k: int| 0 <= k < 2 && k != r ==> #[trigger] next.history[k]@ == self.history[k]@
        &&& action == FOLD ==> {
            &&& next.terminal
            &&& next.returns[opp] == pot - self.contributions[opp]
            &&& next.returns[cp] == -self.contributions[cp]
            &&& next.contributions == self.contributions
            &&& next.round == self.round
            &&& next.current_player == self.current_player
            &&& next.raises_this_round == self.raises_this_round
            &&& next.board == self.board
        }
        &&& action == CALL ==> {
            &&& next.contributions[cp] == self.contributions[cp] + diff
            &&& next.contributions[opp] == self.contributions[opp]
            &&& if !round_closes(h2) {
                &&& next.current_player == opp
                &&& next.round == self.round
                &&& next.raises_this_round == self.raises_this_round
                &&& next.board == self.board
                &&& next.terminal == self.terminal
                &&& next.returns == self.returns
            } else if self.round == 1 {
                &&& next.board == Some(self.community_card())
                &&& next.round == 2
                &&& next.raises_this_round == 0
                &&& next.current_player == 0
                &&& next.terminal == self.terminal
                &&& next.returns == self.returns
            } else {
                let c0 = next.contributions[0] as int;
                let c1 = next.contributions[1] as int;
                &&& next.terminal
                &&& next.board == self.board
                &&& next.round == self.round
                &&& next.raises_this_round == self.raises_this_round
                &&& next.current_player == self.current_player
                &&& match showdown_winner(self.hole[0], self.hole[1], self.board->0) {
                    Some(w) => next.returns[w] == c0 + c1 - next.contributions[w]
                        && next.returns[1 - w] == -next.contributions[1 - w],
                    None => next.returns[0] == 0 && next.returns[1] == 0,
                }
            }
        }
        &&& action == RAISE ==> {
            &&& next.contributions[cp] == self.contributions[cp] + diff + bet_size(
                self.round as int,
            )
            &&& next.contributions[opp] == self.contributions[opp]
            &&& next.raises_this_round == self.raises_this_round + 1
            &&& next.current_player == opp
            &&& next.round == self.round
            &&& next.board == self.board
            &&& next.terminal == self.terminal
            &&& next.returns == self.returns
        }
    }

    /// The key of the information set `player` is in: own card, board card
    /// (or `_`), then each round's actions, separated by `/`.
    pub open spec fn key_spec(self, player: int) -> Seq<char> {
        let board = match self.board {
            Some(c) => card_name(c),
            None => seq!['_'],
        };
        card_name(self.hole[player]) + seq!['/'] + board + seq!['/'] + actions_text(
            self.history[0]@,
        ) + seq!['/'] + actions_text(self.history[1]@)
    }

    /// Deals the three cards of `deck` order after a shuffle with `rng`: hole
    /// cards for players 0 and 1, then the community card.
    pub fn new_random(rng: &mut SmallRng) -> (g: Self)
        ensures
            g.well_formed(),
            g.hole[0] != g.hole[1],
            g.hole[0] != g.community_card(),
            g.hole[1] != g.community_card(),
            leduc_deck().contains(g.hole[0]),
            leduc_deck().contains(g.hole[1]),
            leduc_deck().contains(g.community_card()),
            g.board is None,
            g.round == 1,
            g.current_player == 0,
            g.contributions[0] == 1,
            g.contributions[1] == 1,
            g.raises_this_round == 0,
            g.history[0]@ == Seq::<u8>::empty(),
            g.history[1]@ == Seq::<u8>::empty(),
            !g.terminal,
            g.returns[0] == 0,
            g.returns[1] == 0,
    {
        let cards = all_cards();
        let mut deck: Vec<Card> = vstd::slice::slice_to_vec(cards.as_slice());
        let ghost orig = deck@;
        shuffle_in_place(&mut deck, rng);
        proof {
            lemma_leduc_deck_distinct();
            orig.lemma_multiset_has_no_duplicates();
            deck@.lemma_multiset_has_no_duplicates_conv();
            assert(deck@.len() == orig.len()) by {
                assert(deck@.to_multiset().len() == orig.to_multiset().len());
            }
            assert(orig.to_multiset().count(deck@[0]) > 0);
            assert(orig.to_multiset().count(deck@[1]) > 0);
            assert(orig.to_multiset().count(deck@[2]) > 0);
        }
        LeducGame::new_with_cards(deck[0], deck[1], deck[2])
    }

    /// A fresh hand with the given hole cards and community card.
    pub fn new_with_cards(hole0: Card, hole1: Card, board: Card) -> (g: Self)
        ensures
            g.hole[0] == hole0,
            g.hole[1] == hole1,
            g.community_card() == board,
            g.board is None,
            g.current_player == 0,
            g.round == 1,
            g.raises_this_round == 0,
            g.contributions[0] == 1,
            g.contributions[1] == 1,
            g.history[0]@ == Seq::<u8>::empty(),
            g.history[1]@ == Seq::<u8>::empty(),
            !g.terminal,
            g.returns[0] == 0,
            g.returns[1] == 0,
            g.well_formed(),
    {
        LeducGame {
            hole: [hole0, hole1],
            board_card: board,
            board: None,
            current_player: 0,
            round: 1,
            raises_this_round: 0,
            contributions: [1, 1],
            history: [Vec::new(), Vec::new()],
            terminal: false,
            returns: [0, 0],
        }
    }

    pub fn is_terminal(&self) -> (t: bool)
        ensures
            t == self.terminal,
    {
        self.terminal
    }

    /// Chips won (positive) or lost (negative) by each player.
    pub fn get_returns(&self) -> (r: [i32; 2])
        ensures
            r == self.returns,
    {
        self.returns
    }

    pub fn current_player(&self) -> (p: usize)
        ensures
            p == self.current_player,
    {
        self.current_player
    }

    /// The legal actions of the player to act.
    pub fn legal_actions(&self) -> (v: Vec<u8>)
        requires
            1 <= self.round <= 2,
        ensures
            v@ == self.legal_spec(),
    {
        if self.terminal {
            return Vec::new();
        }
        let round_idx = (self.round - 1) as usize;
        let history = &self.history[round_idx];
        let raised = history.len() > 0 && history[history.len() - 1] == RAISE;
        if raised {
            if self.raises_this_round < 2 {
                vec![FOLD, CALL, RAISE]
            } else {
                vec![FOLD, CALL]
            }
        } else {
            vec![CALL, RAISE]
        }
    }

    /// The information-set key of `player`, such as "Kc/Jd/cc/r".
    pub fn infoset_key(&self, player: usize) -> (key: String)
        requires
            player <= 1,
        ensures
            key@ == self.key_spec(player as int),
    {
        let mut key = String::new();
        push_chars(&mut key, self.hole[player].name());
        push_char(&mut key, '/');
        match self.board {
            Some(c) => push_chars(&mut key, c.name()),
            None => push_char(&mut key, '_'),
        }
        push_char(&mut key, '/');
        push_actions(&mut key, &self.history[0]);
        push_char(&mut key, '/');
        push_actions(&mut key, &self.history[1]);
        key
    }

    /// Whether `apply_action(action)` can run here without overflow or
    /// panic (see `can_apply`).
    pub fn can_apply_action(&self, action: u8) -> (ok: bool)
        ensures
            ok == self.can_apply(action),
    {
        if self.round < 1 || self.round > 2 || self.current_player > 1 || action > 2 {
            return false;
        }
        let cp = self.current_player;
        let me = self.contributions[cp] as i64;
        let o = self.contributions[1 - cp] as i64;
        let lo = i32::MIN as i64;
        let hi = i32::MAX as i64;
        if action == FOLD {
            return lo <= me + o && me + o <= hi && me > lo;
        }
        let diff = o - me;
        if diff < lo || diff > hi {
            return false;
        }
        let paid = if diff > 0 {
            o
        } else {
            me
        };
        if action == RAISE {
            let bet: i64 = if self.round == 1 {
                2
            } else {
                4
            };
            return paid + bet <= hi && self.raises_this_round < 255;
        }
        let h = &self.history[1];
        let n = h.len();
        let closes = self.round == 2 && n >= 1 && (h[n - 1] == CALL || h[n - 1] == RAISE);
        proof {
            let h2 = self.history[1]@.push(action);
            assert(h2.len() == n + 1);
            if n >= 1 {
                assert(h2[h2.len() - 2] == self.history[1]@[n - 1]);
            }
        }
        if !closes {
            return true;
        }
        match self.board {
            None => false,
            Some(b) => {
                let c0 = if cp == 0 {
                    paid
                } else {
                    o
                };
                let c1 = if cp == 0 {
                    o
                } else {
                    paid
                };
                if c0 + c1 < lo || c0 + c1 > hi {
                    return false;
                }
                match winner_of(self.hole[0], self.hole[1], b) {
                    Some(w) => (if w == 0 {
                        c1
                    } else {
                        c0
                    }) > lo,
                    None => true,
                }
            },
        }
    }

    /// The state after the player to act takes `action`.
    pub fn apply_action(&self, action: u8) -> (next: LeducGame)
        requires
            self.can_apply(action),
        ensures
            self.steps_to(action, next),
            self.returns[0] + self.returns[1] == 0 ==> next.returns[0] + next.returns[1] == 0,
            next.contributions[0] >= self.contributions[0],
            next.contributions[1] >= self.contributions[1],
            self.well_formed() && self.legal_spec().contains(action) ==> next.well_formed(),
    {
        let round_idx = (self.round - 1) as usize;
        let mut h0 = copy_actions(&self.history[0]);
        let mut h1 = copy_actions(&self.history[1]);
        if round_idx == 0 {
            h0.push(action);
        } else {
            h1.push(action);
        }
        let mut next = LeducGame {
            hole: self.hole,
            board_card: self.board_card,
            board: self.board,
            current_player: self.current_player,
            round: self.round,
            raises_this_round: self.raises_this_round,
            contributions: self.contributions,
            history: [h0, h1],
            terminal: self.terminal,
            returns: self.returns,
        };
        let cp = next.current_player;
        let opp = 1 - cp;
        if action == FOLD {
            let pot = next.contributions[0] + next.contributions[1];
            let won = pot - next.contributions[opp];
            let lost = -next.contributions[cp];
            if opp == 0 {
                next.returns = [won, lost];
            } else {
                next.returns = [lost, won];
            }
            next.terminal = true;
        } else if action == CALL {
            let diff = if next.contributions[opp] - next.contributions[cp] > 0 {
                next.contributions[opp] - next.contributions[cp]
            } else {
                0
            };
            let paid = next.contributions[cp] + diff;
            if cp == 0 {
                next.contributions = [paid, next.contributions[1]];
            } else {
                next.contributions = [next.contributions[0], paid];
            }
            next = next.advance_round_if_done();
        } else {
            let diff = if next.contributions[opp] - next.contributions[cp] > 0 {
                next.contributions[opp] - next.contributions[cp]
            } else {
                0
            };
            let bet: i32 = if next.round == 1 {
                2
            } else {
                4
            };
            let paid = next.contributions[cp] + diff + bet;
            if cp == 0 {
                next.contributions = [paid, next.contributions[1]];
            } else {
                next.contributions = [next.contributions[0], paid];
            }
            next.raises_this_round = next.raises_this_round + 1;
            next.current_player = opp;
        }
        proof {
            lemma_leduc_step_laws(*self, action, next);
        }
        next
    }

    /// Closes the round on check-check or raise-call: after round 1 the
    /// community card is revealed, after round 2 comes the showdown.
    /// Otherwise the turn passes.
    fn advance_round_if_done(self) -> (next: LeducGame)
        requires
            1 <= self.round <= 2,
            self.current_player <= 1,
            self.round == 2 && round_closes(self.history[1]@) ==> self.board is Some
                && showdown_fits(
                self.hole[0],
                self.hole[1],
                self.board->0,
                self.contributions[0] as int,
                self.contributions[1] as int,
            ),
        ensures
            next.hole == self.hole,
            next.community_card() == self.community_card(),
            next.history[0]@ == self.history[0]@,
            next.history[1]@ == self.history[1]@,
            next.contributions == self.contributions,
            if !round_closes(self.history[self.round - 1]@) {
                &&& next.current_player == 1 - self.current_player
                &&& next.round == self.round
                &&& next.raises_this_round == self.raises_this_round
                &&& next.board == self.board
                &&& next.terminal == self.terminal
                &&& next.returns == self.returns
            } else if self.round == 1 {
                &&& next.board == Some(self.community_card())
                &&& next.round == 2
                &&& next.raises_this_round == 0
                &&& next.current_player == 0
                &&& next.terminal == self.terminal
                &&& next.returns == self.returns
            } else {
                let c0 = self.contributions[0] as int;
                let c1 = self.contributions[1] as int;
                &&& next.terminal
                &&& next.board == self.board
                &&& next.round == self.round
                &&& next.raises_this_round == self.raises_this_round
                &&& next.current_player == self.current_player
                &&& match showdown_winner(self.hole[0], self.hole[1], self.board->0) {
                    Some(w) => next.returns[w] == c0 + c1 - self.contributions[w]
                        && next.returns[1 - w] == -self.contributions[1 - w],
                    None => next.returns[0] == 0 && next.returns[1] == 0,
                }
            },
    {
        let mut next = self;
        let round_idx = (next.round - 1) as usize;
        let history = &next.history[round_idx];
        let n = history.len();
        let round_over = n >= 2 && history[n - 1] == CALL && (history[n - 2] == CALL || history[n
            - 2] == RAISE);

        if !round_over {
            next.current_player = 1 - next.current_player;
            return next;
        }
        if next.round == 1 {
            next.board = Some(next.board_card);
            next.round = 2;
            next.raises_this_round = 0;
            next.current_player = 0;
        } else {
            next.resolve_showdown();
        }
        next
    }

    fn resolve_showdown(&mut self)
        requires
            old(self).board is Some,
            showdown_fits(
                old(self).hole[0],
                old(self).hole[1],
                old(self).board->0,
                old(self).contributions[0] as int,
                old(self).contributions[1] as int,
            ),
        ensures
            final(self).terminal,
            match showdown_winner(old(self).hole[0], old(self).hole[1], old(self).board->0) {
                Some(w) => final(self).returns[w] == old(self).contributions[0]
                    + old(self).contributions[1] - old(self).contributions[w]
                    && final(self).returns[1 - w] == -old(self).contributions[1 - w],
                None => final(self).returns[0] == 0 && final(self).returns[1] == 0,
            },
            final(self).hole == old(self).hole,
            final(self).board_card == old(self).board_card,
            final(self).board == old(self).board,
            final(self).current_player == old(self).current_player,
            final(self).round == old(self).round,
            final(self).raises_this_round == old(self).raises_this_round,
            final(self).contributions == old(self).contributions,
            final(self).history == old(self).history,
    {
        let pot = self.contributions[0] + self.contributions[1];
        let board_rank = match self.board {
            Some(c) => c.rank,
            None => self.hole[0].rank,
        };
        let rank0 = self.hole[0].rank;
        let rank1 = self.hole[1].rank;
        let pair0 = rank0 == board_rank;
        let pair1 = rank1 == board_rank;
        let winner: Option<usize> = if pair0 && !pair1 {
            Some(0)
        } else if pair1 && !pair0 {
            Some(1)
        } else if pair0 && pair1 {
            None
        } else if rank0.value() > rank1.value() {
            Some(0)
        } else if rank1.value() > rank0.value() {
            Some(1)
        } else {
            None
        };
        match winner {
            Some(w) => {
                let won = pot - self.contributions[w];
                let lost = -self.contributions[1 - w];
                if w == 0 {
                    self.returns = [won, lost];
                } else {
                    self.returns = [lost, won];
                }
            },
            None => {
                self.returns = [0, 0];
            },
        }
        self.terminal = true;
    }
}

/// An action's name in the step log: FOLD, CALL_CHECK, and a raise as
/// RAISE_MIN preflop or RAISE_HALF_POT after.
pub fn action_rl_name(action: u8, round: u8) -> (name: &'static str)
    ensures
        name@ == if action == FOLD {
            "FOLD"@
        } else if action == CALL {
            "CALL_CHECK"@
        } else if action == RAISE {
            if round == 1 {
                "RAISE_MIN"@
            } else {
                "RAISE_HALF_POT"@
            }
        } else {
            "UNKNOWN"@
        },
{
    if action == FOLD {
        "FOLD"
    } else if action == CALL {
        "CALL_CHECK"
    } else if action == RAISE {
        if round == 1 {
            "RAISE_MIN"
        } else {
            "RAISE_HALF_POT"
        }
    } else {
        "UNKNOWN"
    }
}

/// An action's name as shown to a human player.
pub fn action_name(action: u8) -> (name: &'static str)
    ensures
        name@ == if action == FOLD {
            "FOLD"@
        } else if action == CALL {
            "CALL / CHECK"@
        } else if action == RAISE {
            "RAISE"@
        } else {
            "UNKNOWN"@
        },
{
    if action == FOLD {
        "FOLD"
    } else if action == CALL {
        "CALL / CHECK"
    } else if action == RAISE {
        "RAISE"
    } else {
        "UNKNOWN"
    }
}

/// A copy of a round's actions.
/// Who wins a showdown (see `showdown_winner`).
fn winner_of(hole0: Card, hole1: Card, board: Card) -> (w: Option<usize>)
    ensures
        match w {
            Some(i) => showdown_winner(hole0, hole1, board) == Some(i as int),
            None => showdown_winner(hole0, hole1, board) is None,
        },
{
    let pair0 = hole0.rank == board.rank;
    let pair1 = hole1.rank == board.rank;
    if pair0 && !pair1 {
        Some(0)
    } else if pair1 && !pair0 {
        Some(1)
    } else if pair0 && pair1 {
        None
    } else if hole0.rank.value() > hole1.rank.value() {
        Some(0)
    } else if hole1.rank.value() > hole0.rank.value() {
        Some(1)
    } else {
        None
    }
}

fn copy_actions(h: &Vec<u8>) -> (c: Vec<u8>)
    ensures
        c@ == h@,
{
    let mut c: Vec<u8> = Vec::new();
    let mut i: usize = 0;
    while i < h.len()
        invariant
            0 <= i <= h@.len(),
            c@ == h@.take(i as int),
        decreases h@.len() - i,
    {
        c.push(h[i]);
        assert(h@.take(i as int + 1) =~= h@.take(i as int).push(h@[i as int]));
        i = i + 1;
    }
    assert(h@.take(h@.len() as int) =~= h@);
    c
}

/// Appends a round's actions as letters.
fn push_actions(key: &mut String, h: &Vec<u8>)
    ensures
        final(key)@ == old(key)@ + actions_text(h@),
{
    let mut i: usize = 0;
    while i < h.len()
        invariant
            0 <= i <= h@.len(),
            key@ == old(key)@ + actions_text(h@.take(i as int)),
        decreases h@.len() - i,
    {
        push_char(key, action_char(h[i]));
        assert(actions_text(h@.take(i as int + 1)) =~= actions_text(h@.take(i as int)).push(
            action_letter(h@[i as int]),
        ));
        i = i + 1;
    }
    assert(h@.take(h@.len() as int) =~= h@);
}

/// The laws every step keeps: payoffs stay zero-sum, contributions never
/// shrink, and a legal action from a state reachable by play leads to
/// another such state (so no player ever puts in more than 13 chips). A
/// hand that such a step finishes has one winner and one loser, or neither.
pub proof fn lemma_leduc_step_laws(g: LeducGame, action: u8, next: LeducGame)
    requires
        g.can_apply(action),
        g.steps_to(action, next),
    ensures
        g.returns[0] + g.returns[1] == 0 ==> next.returns[0] + next.returns[1] == 0,
        next.contributions[0] >= g.contributions[0],
        next.contributions[1] >= g.contributions[1],
        g.well_formed() && g.legal_spec().contains(action) ==> next.well_formed(),
        g.well_formed() && g.legal_spec().contains(action) && next.terminal ==> {
            ||| (next.returns[0] > 0 && next.returns[1] < 0)
            ||| (next.returns[0] < 0 && next.returns[1] > 0)
            ||| (next.returns[0] == 0 && next.returns[1] == 0)
        },
{
    if g.well_formed() && g.legal_spec().contains(action) {
        let h2 = g.history[g.round - 1]@.push(action);
        assert(h2[h2.len() - 1] == action);
        if g.raises_this_round > 0 {
            assert(h2[h2.len() - 2] == RAISE);
        }
    }
}

/// The showdown rule: a hole card that pairs the community card beats one
/// that does not; otherwise the higher rank wins and equal ranks split. The
/// rule does not depend on the seats: swapping the hole cards swaps the
/// winner.
pub proof fn lemma_showdown_rule(h0: Card, h1: Card, b: Card)
    ensures
        (h0.rank == b.rank && h1.rank != b.rank) ==> showdown_winner(h0, h1, b) == Some(0int),
        (h1.rank == b.rank && h0.rank != b.rank) ==> showdown_winner(h0, h1, b) == Some(1int),
        (h0.rank != b.rank && h1.rank != b.rank) ==> showdown_winner(h0, h1, b) == if rank_value(
            h0.rank,
        ) > rank_value(h1.rank) {
            Some(0int)
        } else if rank_value(h1.rank) > rank_value(h0.rank) {
            Some(1int)
        } else {
            None
        },
        showdown_winner(h1, h0, b) == match showdown_winner(h0, h1, b) {
            Some(w) => Some(1 - w),
            None => None::<int>,
        },
{
}

/// A hand that goes to showdown from a state reachable by play pays the
/// showdown winner what the loser put in; a split pays nothing.
pub proof fn lemma_showdown_payoff(g: LeducGame, next: LeducGame)
    requires
        g.well_formed(),
        g.legal_spec().contains(CALL),
        g.can_apply(CALL),
        g.steps_to(CALL, next),
        g.round == 2,
        round_closes(g.history[1]@.push(CALL)),
    ensures
        next.terminal,
        match showdown_winner(g.hole[0], g.hole[1], g.community_card()) {
            Some(w) => next.returns[w] == next.contributions[1 - w] && next.returns[w] > 0
                && next.returns[1 - w] == -next.contributions[1 - w],
            None => next.returns[0] == 0 && next.returns[1] == 0,
        },
{
    lemma_leduc_step_laws(g, CALL, next);
}

/// What a step does to the bets: a call brings the mover level with the
/// opponent; a raise adds 2 chips on top in the first round and 4 in the
/// second; the opponent's total is unchanged; a fold pays the opponent what
/// the folder put in.
pub proof fn lemma_leduc_bet_amounts(g: LeducGame, action: u8, next: LeducGame)
    requires
        g.can_apply(action),
        g.steps_to(action, next),
    ensures
        ({
            let cp = g.current_player as int;
            let me = g.contributions[cp] as int;
            let o = g.contributions[1 - cp] as int;
            let level = if o > me { o } else { me };
            &&& action == CALL ==> next.contributions[cp] == level
            &&& action == RAISE ==> next.contributions[cp] == level + if g.round == 1 {
                2int
            } else {
                4int
            }
            &&& action != FOLD ==> next.contributions[1 - cp] == o
            &&& action == FOLD ==> next.terminal && next.returns[1 - cp] == me && next.returns[cp]
                == -me
        }),
{
}

/// In a hand still being played, a raise is allowed exactly while fewer than
/// two raises were made this round, and a fold exactly when the last action
/// of the round was a raise.
pub proof fn lemma_leduc_legal_rule(g: LeducGame)
    requires
        g.well_formed(),
        !g.terminal,
    ensures
        g.legal_spec().contains(RAISE) <==> g.raises_this_round < 2,
        g.legal_spec().contains(FOLD) <==> ({
            let h = g.history[g.round - 1]@;
            h.len() > 0 && h[h.len() - 1] == RAISE
        }),
{
    let l = g.legal_spec();
    let h = g.history[g.round - 1]@;
    if h.len() > 0 && h[h.len() - 1] == RAISE {
        assert(l[0] == FOLD);
        if g.raises_this_round < 2 {
            assert(l[2] == RAISE);
        } else {
            assert(!l.contains(RAISE)) by {
                if l.contains(RAISE) {
                    let i = choose|i: int| 0 <= i < l.len() && l[i] == RAISE;
                }
            }
        }
    } else {
        assert(l[1] == RAISE);
        assert(!l.contains(FOLD)) by {
            if l.contains(FOLD) {
                let i = choose|i: int| 0 <= i < l.len() && l[i] == FOLD;
            }
        }
    }
}

proof fn lemma_split_at_slash(x1: Seq<char>, y1: Seq<char>, x2: Seq<char>, y2: Seq<char>)
    requires
        forall|i: int| 0 <= i < x1.len() ==> #[trigger] x1[i] != '/',
        forall|i: int| 0 <= i < x2.len() ==> #[trigger] x2[i] != '/',
        x1 + seq!['/'] + y1 == x2 + seq!['/'] + y2,
    ensures
        x1 == x2,
        y1 == y2,
{
    let k1 = x1 + seq!['/'] + y1;
    let k2 = x2 + seq!['/'] + y2;
    if x1.len() < x2.len() {
        assert(k1[x1.len() as int] == '/');
        assert(k2[x1.len() as int] == x2[x1.len() as int]);
    } else if x2.len() < x1.len() {
        assert(k2[x2.len() as int] == '/');
        assert(k1[x2.len() as int] == x1[x2.len() as int]);
    }
    assert(x1 =~= k1.subrange(0, x1.len() as int));
    assert(x2 =~= k2.subrange(0, x2.len() as int));
    assert(y1 =~= k1.skip(x1.len() as int + 1));
    assert(y2 =~= k2.skip(x2.len() as int + 1));
}

proof fn lemma_leduc_actions_injective(a1: Seq<u8>, a2: Seq<u8>)
    requires
        forall|i: int| 0 <= i < a1.len() ==> #[trigger] a1[i] <= 2,
        forall|i: int| 0 <= i < a2.len() ==> #[trigger] a2[i] <= 2,
        actions_text(a1) == actions_text(a2),
    ensures
        a1 == a2,
{
    assert(a1.len() == actions_text(a1).len());
    assert forall|i: int| 0 <= i < a1.len() implies a1[i] == a2[i] by {
        assert(actions_text(a1)[i] == action_letter(a1[i]));
        assert(actions_text(a2)[i] == action_letter(a2[i]));
    }
    assert(a1 =~= a2);
}

/// A key tells apart what it records: two players whose keys are equal hold
/// the same card, see the same board, and have seen the same actions in
/// both rounds (codes 0 to 2).
#[verifier::spinoff_prover]
#[verifier::rlimit(60)]
pub proof fn lemma_leduc_key_decodes(g1: LeducGame, p1: int, g2: LeducGame, p2: int)
    requires
        0 <= p1 <= 1,
        0 <= p2 <= 1,
        forall|k: int, i: int|
            0 <= k < 2 && 0 <= i < g1.history[k]@.len() ==> #[trigger] g1.history[k]@[i] <= 2,
        forall|k: int, i: int|
            0 <= k < 2 && 0 <= i < g2.history[k]@.len() ==> #[trigger] g2.history[k]@[i] <= 2,
        g1.key_spec(p1) == g2.key_spec(p2),
    ensures
        g1.hole[p1] == g2.hole[p2],
        g1.board == g2.board,
        g1.history[0]@ == g2.history[0]@,
        g1.history[1]@ == g2.history[1]@,
{
    let bd1 = match g1.board {
        Some(c) => card_name(c),
        None => seq!['_'],
    };
    let bd2 = match g2.board {
        Some(c) => card_name(c),
        None => seq!['_'],
    };
    let t0a = actions_text(g1.history[0]@);
    let t1a = actions_text(g1.history[1]@);
    let t0b = actions_text(g2.history[0]@);
    let t1b = actions_text(g2.history[1]@);
    assert(forall|i: int| 0 <= i < t0a.len() ==> #[trigger] t0a[i] != '/');
    assert(forall|i: int| 0 <= i < t0b.len() ==> #[trigger] t0b[i] != '/');
    let na = card_name(g1.hole[p1]);
    let nb = card_name(g2.hole[p2]);
    assert(g1.key_spec(p1) =~= na + seq!['/'] + (bd1 + seq!['/'] + (t0a + seq!['/'] + t1a)));
    assert(g2.key_spec(p2) =~= nb + seq!['/'] + (bd2 + seq!['/'] + (t0b + seq!['/'] + t1b)));
    lemma_split_at_slash(na, bd1 + seq!['/'] + (t0a + seq!['/'] + t1a), nb, bd2 + seq!['/'] + (t0b
        + seq!['/'] + t1b));
    lemma_split_at_slash(bd1, t0a + seq!['/'] + t1a, bd2, t0b + seq!['/'] + t1b);
    lemma_split_at_slash(t0a, t1a, t0b, t1b);
    assert(na[0] == nb[0] && na[1] == nb[1]);
    if g1.board is Some {
        assert(bd1.len() == 2);
        assert(bd2.len() == 2);
        assert(bd1[0] == bd2[0] && bd1[1] == bd2[1]);
    } else {
        assert(bd1.len() == 1);
        assert(bd2.len() == 1);
    }
    assert forall|i: int| 0 <= i < g1.history[0]@.len() implies #[trigger] g1.history[0]@[i] <= 2 by {}
    assert forall|i: int| 0 <= i < g1.history[1]@.len() implies #[trigger] g1.history[1]@[i] <= 2 by {}
    assert forall|i: int| 0 <= i < g2.history[0]@.len() implies #[trigger] g2.history[0]@[i] <= 2 by {}
    assert forall|i: int| 0 <= i < g2.history[1]@.len() implies #[trigger] g2.history[1]@[i] <= 2 by {}
    lemma_leduc_actions_injective(g1.history[0]@, g2.history[0]@);
    lemma_leduc_actions_injective(g1.history[1]@, g2.history[1]@);
}

/// In a state reachable by play, no player has put in more than 13 chips.
pub proof fn lemma_leduc_contribution_cap(g: LeducGame)
    requires
        g.well_formed(),
    ensures
        g.contributions[0] <= 13,
        g.contributions[1] <= 13,
{
}

/// A player's information-set key does not depend on the opponent's card
/// or on the community card before it is revealed.
pub proof fn lemma_key_hides_private_cards(g1: LeducGame, g2: LeducGame, player: int)
    requires
        0 <= player <= 1,
        g1.hole[player] == g2.hole[player],
        g1.board == g2.board,
        g1.history[0]@ == g2.history[0]@,
        g1.history[1]@ == g2.history[1]@,
    ensures
        g1.key_spec(player) == g2.key_spec(player),
{
}

/// In a hand still being played, the player to act may always call (or
/// check), and has at least two actions.
pub proof fn lemma_leduc_call_always_legal(g: LeducGame)
    requires
        g.well_formed(),
        !g.terminal,
    ensures
        g.legal_spec().contains(CALL),
        g.legal_spec().len() >= 2,
{
    let h = g.history[g.round - 1]@;
    if h.len() > 0 && h[h.len() - 1] == RAISE {
        if g.raises_this_round < 2 {
            assert(g.legal_spec()[1] == CALL);
        } else {
            assert(g.legal_spec()[1] == CALL);
        }
    } else {
        assert(g.legal_spec()[0] == CALL);
    }
}

} // verus!
