use lil_poker_mccfr::cfr::abstraction::{
    equity_seed, equity_tally, get_holdem_infoset_key, postflop_equity_bucket, preflop_bucket, rollout,
};
use lil_poker_mccfr::cfr::node::{InfosetNode, SCALE};
use lil_poker_mccfr::cfr::opponent_model::OpponentTracker;
use lil_poker_mccfr::cfr::subgame::SubgameSolver;
use lil_poker_mccfr::game::card;
use lil_poker_mccfr::game::holdem::{
    all_52_cards, evaluate_7cards, Board, Card, DeckRemaining, Rank, RoundHistory, Suit,
    TexasHoldemGame, CALL_CHECK, FOLD, RAISE_HALF_POT, RAISE_MIN,
};
use lil_poker_mccfr::game::leduc::{self, LeducGame};
use lil_poker_mccfr::live::{
    amount_to_call, classify_update, contains_text, eq_ignore_ascii_case, fallback_action,
    map_action_index, parse_card_str, retry_as_call, round_for_board, table_max_bet, TableStep,
};
use lil_poker_mccfr::game::card::Rank as LR;
use lil_poker_mccfr::game::card::Suit as LS;
use lil_poker_mccfr::game::holdem::Rank::{
    Ace, Eight, Five, Four, Jack, King, Nine, Queen, Seven, Six, Ten, Three, Two,
};
use lil_poker_mccfr::game::holdem::Suit::{Clubs, Diamonds, Hearts, Spades};
use rand::rngs::SmallRng;
use rand::SeedableRng;

fn c(rank: Rank, suit: Suit) -> Card {
    Card { rank, suit }
}

fn lc(rank: card::Rank, suit: card::Suit) -> card::Card {
    card::Card { rank, suit }
}

fn strings(v: &[&str]) -> Vec<String> {
    v.iter().map(|s| s.to_string()).collect()
}

#[test]
fn score_fields_of_each_category() {
    let sf = evaluate_7cards(
        &[c(Ace, Hearts), c(King, Hearts)],
        &[c(Queen, Hearts), c(Jack, Hearts), c(Ten, Hearts), c(Nine, Clubs), c(Two, Diamonds)],
    );
    assert_eq!(sf, (8 << 32) | 12);
    let quads = evaluate_7cards(
        &[c(Nine, Spades), c(Nine, Hearts)],
        &[c(Nine, Diamonds), c(Nine, Clubs), c(King, Clubs), c(Two, Hearts), c(Three, Diamonds)],
    );
    assert_eq!(quads, (7 << 32) | (7 << 16) | 11);
    let fh = evaluate_7cards(
        &[c(King, Spades), c(King, Hearts)],
        &[c(King, Diamonds), c(Four, Clubs), c(Four, Hearts), c(Two, Diamonds), c(Eight, Clubs)],
    );
    assert_eq!(fh, (6 << 32) | (11 << 16) | 2);
    let flush = evaluate_7cards(
        &[c(Ace, Spades), c(Ten, Spades)],
        &[c(Eight, Spades), c(Six, Spades), c(Two, Spades), c(King, Hearts), c(Queen, Diamonds)],
    );
    assert_eq!(flush, (5 << 32) | (12 << 16) | (8 << 12) | (6 << 8) | (4 << 4));
    let wheel = evaluate_7cards(
        &[c(Ace, Spades), c(Two, Hearts)],
        &[c(Three, Diamonds), c(Four, Clubs), c(Five, Spades), c(King, Hearts), c(Eight, Diamonds)],
    );
    assert_eq!(wheel, (4 << 32) | 3);
    let trips = evaluate_7cards(
        &[c(Queen, Spades), c(Queen, Hearts)],
        &[c(Queen, Diamonds), c(Nine, Clubs), c(Seven, Hearts), c(Four, Diamonds), c(Two, Clubs)],
    );
    assert_eq!(trips, (3 << 32) | (10 << 16) | (7 << 8) | 5);
    let two_pair = evaluate_7cards(
        &[c(Jack, Spades), c(Jack, Hearts)],
        &[c(Eight, Diamonds), c(Eight, Clubs), c(Ace, Clubs), c(Four, Diamonds), c(Two, Hearts)],
    );
    assert_eq!(two_pair, (2 << 32) | (9 << 16) | (6 << 8) | 12);
    let pair = evaluate_7cards(
        &[c(Ten, Spades), c(Ten, Hearts)],
        &[c(Ace, Diamonds), c(Eight, Clubs), c(Six, Clubs), c(Four, Diamonds), c(Two, Hearts)],
    );
    assert_eq!(pair, (1 << 32) | (8 << 16) | (12 << 8) | 6);
    let high = evaluate_7cards(
        &[c(Ace, Spades), c(King, Hearts)],
        &[c(Jack, Diamonds), c(Eight, Clubs), c(Six, Clubs), c(Four, Diamonds), c(Two, Hearts)],
    );
    assert_eq!(high, (12 << 16) | (11 << 12) | (9 << 8) | (6 << 4) | 4);
}

#[test]
fn two_trips_make_a_full_house_and_pocket_pairs_score_preflop() {
    let two_trips = evaluate_7cards(
        &[c(King, Spades), c(King, Hearts)],
        &[c(King, Diamonds), c(Four, Clubs), c(Four, Hearts), c(Four, Diamonds), c(Eight, Clubs)],
    );
    assert_eq!(two_trips, (6 << 32) | (11 << 16) | 2);
    let pocket = evaluate_7cards(&[c(Seven, Clubs), c(Seven, Diamonds)], &[]);
    assert_eq!(pocket, (1 << 32) | (5 << 16));
    let only_first_five = evaluate_7cards(
        &[c(Two, Clubs), c(Three, Diamonds)],
        &[
            c(Nine, Hearts),
            c(Jack, Spades),
            c(Queen, Clubs),
            c(King, Hearts),
            c(Five, Spades),
            c(Ace, Hearts),
        ],
    );
    assert_eq!(only_first_five >> 32, 0);
}

#[test]
fn score_ignores_card_order() {
    let board = [c(Ace, Spades), c(Seven, Diamonds), c(Nine, Clubs), c(Two, Hearts)];
    let a = evaluate_7cards(&[c(Ace, Hearts), c(Nine, Spades)], &board);
    let b = evaluate_7cards(&[c(Nine, Spades), c(Ace, Hearts)], &board);
    assert_eq!(a, b);
    assert_eq!(a >> 32, 2);
}

#[test]
fn postflop_buckets_by_category_and_rank() {
    let b_aces = postflop_equity_bucket(
        &[c(Ace, Hearts), c(Two, Clubs)],
        &[c(Ace, Spades), c(Seven, Diamonds), c(Nine, Clubs)],
    );
    let b_twos = postflop_equity_bucket(
        &[c(Two, Hearts), c(Three, Clubs)],
        &[c(Two, Spades), c(Seven, Diamonds), c(Nine, Clubs)],
    );
    assert_eq!(b_aces, 19);
    assert_eq!(b_twos, 10);
    assert!(b_aces > b_twos);
    let flush_draw = postflop_equity_bucket(
        &[c(Ace, Spades), c(Four, Spades)],
        &[c(King, Spades), c(Eight, Spades), c(Two, Diamonds)],
    );
    assert_eq!(flush_draw, 9);
    let quads = postflop_equity_bucket(
        &[c(Nine, Spades), c(Nine, Hearts)],
        &[c(Nine, Diamonds), c(Nine, Clubs), c(King, Clubs)],
    );
    assert_eq!(quads, 48);
    let sf = postflop_equity_bucket(
        &[c(Ace, Hearts), c(King, Hearts)],
        &[c(Queen, Hearts), c(Jack, Hearts), c(Ten, Hearts)],
    );
    assert_eq!(sf, 49);
    let wheel = postflop_equity_bucket(
        &[c(Ace, Spades), c(Two, Hearts)],
        &[c(Three, Diamonds), c(Four, Clubs), c(Five, Spades)],
    );
    assert_eq!(wheel, 38);
}

#[test]
fn preflop_classes() {
    assert_eq!(preflop_bucket(c(Ace, Spades), c(Ace, Hearts)), (0, "AA"));
    assert_eq!(preflop_bucket(c(King, Spades), c(King, Hearts)), (1, "KK"));
    assert_eq!(preflop_bucket(c(Two, Spades), c(Two, Hearts)), (12, "22"));
    assert_eq!(preflop_bucket(c(Ace, Spades), c(King, Spades)), (13, "AKs"));
    assert_eq!(preflop_bucket(c(Two, Clubs), c(Three, Clubs)), (90, "32s"));
    assert_eq!(preflop_bucket(c(King, Hearts), c(Ace, Spades)), (91, "AKo"));
    assert_eq!(preflop_bucket(c(Three, Hearts), c(Two, Spades)), (168, "32o"));
    assert_eq!(preflop_bucket(c(Ten, Hearts), c(Nine, Hearts)), preflop_bucket(c(Nine, Hearts), c(Ten, Hearts)));
    let mut seen = std::collections::HashSet::new();
    let deck = all_52_cards();
    for a in deck.iter() {
        for b in deck.iter() {
            if a != b {
                let (idx, name) = preflop_bucket(*a, *b);
                assert!(idx < 169);
                seen.insert((idx, name));
            }
        }
    }
    assert_eq!(seen.len(), 169);
}

#[test]
fn abstract_keys() {
    let hole = [c(Ace, Spades), c(King, Spades)];
    let board = [c(Queen, Hearts), c(Jack, Hearts), c(Ten, Clubs)];
    let history = [vec![1u8, 2u8], vec![3u8, 0u8, 9u8], vec![], vec![]];
    assert_eq!(get_holdem_infoset_key(&hole, &[], 1, &history), "P:AKs/cr");
    assert_eq!(get_holdem_infoset_key(&hole, &board, 2, &history), "F:B39/hfx");
    let swapped = [c(King, Spades), c(Ace, Spades)];
    assert_eq!(
        get_holdem_infoset_key(&swapped, &board, 2, &history),
        get_holdem_infoset_key(&hole, &board, 2, &history)
    );
    let low = [c(Two, Hearts), c(Seven, Clubs)];
    let board5 = [c(Ace, Spades), c(King, Diamonds), c(Nine, Clubs), c(Four, Hearts), c(Jack, Spades)];
    assert_eq!(get_holdem_infoset_key(&low, &board5, 4, &history), "R:B09/");
    assert_eq!(get_holdem_infoset_key(&low, &board5[..4], 3, &history), "T:B09/");
}

#[test]
fn equity_tallies() {
    let hole = [c(Ace, Spades), c(Ace, Hearts)];
    let river = [c(Ace, Diamonds), c(King, Clubs), c(Seven, Hearts), c(Four, Spades), c(Two, Diamonds)];
    let (points, matchups) = equity_tally(&hole, &river);
    assert_eq!(matchups, 45 * 44 / 2);
    assert!(points <= 2 * matchups);
    assert!(points > matchups);
    let (p4, n4) = equity_tally(&hole, &river[..4]);
    assert_eq!(n4, 120);
    assert!(p4 <= 240);
    let (p3, n3) = equity_tally(&hole, &river[..3]);
    assert_eq!(n3, 80);
    assert!(p3 <= 160);
}

#[test]
fn board_history_and_deck_buffers() {
    let mut b = Board::new();
    assert!(b.is_empty());
    for r in [Two, Three, Four, Five, Six, Seven] {
        b.push(c(r, Hearts));
    }
    assert_eq!(b.len(), 5);
    assert_eq!(b.as_slice()[4], c(Six, Hearts));
    let b2 = Board::from_slice(&[c(Ace, Clubs), c(King, Clubs)]);
    assert_eq!(b2.as_slice(), &[c(Ace, Clubs), c(King, Clubs)]);

    let actions: Vec<u8> = (0..40).map(|i| (i % 4) as u8).collect();
    let h = RoundHistory::from_slice(&actions);
    assert_eq!(h.len(), 32);
    assert_eq!(h.as_slice(), &actions[..32]);
    let mut h2 = RoundHistory::new();
    h2.push(2);
    assert_eq!(h2.as_slice(), &[2]);
    assert!(!h2.is_empty());

    let mut d = DeckRemaining::default();
    assert_eq!(d.len(), 52);
    assert_eq!(d.deal_one(), c(Two, Clubs));
    assert_eq!(d.deal_one(), c(Three, Clubs));
    assert_eq!(d.len(), 50);
    let mut short = DeckRemaining::from_slice(&[c(Ace, Spades)]);
    assert_eq!(short.len(), 52);
    assert_eq!(short.deal_one(), c(Ace, Spades));
    assert_eq!(short.deal_one(), c(Two, Clubs));
    let deck = all_52_cards();
    assert_eq!(deck[13], c(Two, Diamonds));
    assert_eq!(deck[51], c(Ace, Spades));
}

fn river_game(hole: [[Card; 2]; 2], board: &[Card], contributions: [i32; 2]) -> TexasHoldemGame {
    TexasHoldemGame {
        hole,
        board: Board::from_slice(board),
        deck_remaining: DeckRemaining::from_slice(&[]),
        current_player: 0,
        round: 4,
        raises_this_round: 0,
        contributions,
        history: [RoundHistory::new(); 4],
        terminal: false,
        returns: [0, 0],
    }
}

#[test]
fn holdem_betting_and_payoffs() {
    let mut rng = SmallRng::seed_from_u64(7);
    let g = TexasHoldemGame::new_random(&mut rng);
    assert_eq!(g.contributions, [10, 20]);
    assert_eq!(g.legal_actions(), vec![FOLD, CALL_CHECK, RAISE_MIN, RAISE_HALF_POT]);
    let g = g.apply_action(RAISE_MIN);
    assert_eq!(g.contributions, [60, 20]);
    assert_eq!(g.current_player, 1);
    let g = g.apply_action(RAISE_HALF_POT);
    assert_eq!(g.contributions, [60, 100]);
    let g = g.apply_action(RAISE_MIN);
    assert_eq!(g.contributions, [140, 100]);
    assert_eq!(g.raises_this_round, 3);
    assert_eq!(g.legal_actions(), vec![FOLD, CALL_CHECK]);
    let mut buf = [9u8; 4];
    assert_eq!(g.legal_actions_buf(&mut buf), 2);
    assert_eq!(buf, [FOLD, CALL_CHECK, 9, 9]);
    let g = g.apply_action(FOLD);
    assert!(g.is_terminal());
    assert_eq!(g.get_returns(), [100, -100]);
    assert!(g.legal_actions().is_empty());
}

#[test]
fn holdem_showdown_and_stack_limit() {
    let board = [c(King, Clubs), c(Nine, Diamonds), c(Four, Hearts), c(Jack, Spades), c(Three, Clubs)];
    let g = river_game([[c(Ace, Spades), c(Ace, Hearts)], [c(Two, Clubs), c(Seven, Diamonds)]], &board, [20, 20]);
    let g = g.apply_action(CALL_CHECK).apply_action(CALL_CHECK);
    assert!(g.is_terminal());
    assert_eq!(g.get_returns(), [20, -20]);
    let tie = river_game([[c(Two, Spades), c(Five, Hearts)], [c(Two, Clubs), c(Five, Diamonds)]], &board, [30, 30]);
    let tie = tie.apply_action(CALL_CHECK).apply_action(CALL_CHECK);
    assert_eq!(tie.get_returns(), [0, 0]);

    let mut capped = river_game([[c(Ace, Spades), c(Ace, Hearts)], [c(Two, Clubs), c(Seven, Diamonds)]], &board, [990, 1000]);
    assert_eq!(capped.legal_actions(), vec![FOLD, CALL_CHECK]);
    capped = capped.apply_action(RAISE_HALF_POT);
    assert_eq!(capped.contributions, [1000, 1000]);
    assert_eq!(capped.legal_actions(), vec![CALL_CHECK]);
}

#[test]
fn holdem_deal_uses_distinct_cards() {
    for seed in 0..20u64 {
        let mut rng = SmallRng::seed_from_u64(seed);
        let mut g = TexasHoldemGame::new_random(&mut rng);
        for _ in 0..8 {
            g = g.apply_action(CALL_CHECK);
        }
        assert!(g.is_terminal());
        assert_eq!(g.get_returns()[0] + g.get_returns()[1], 0);
        let mut all: Vec<Card> = vec![g.hole[0][0], g.hole[0][1], g.hole[1][0], g.hole[1][1]];
        all.extend_from_slice(g.board.as_slice());
        for i in 0..all.len() {
            for j in (i + 1)..all.len() {
                assert_ne!(all[i], all[j]);
            }
        }
    }
}

#[test]
fn leduc_rounds_keys_and_payoffs() {
    let g = LeducGame::new_with_cards(lc(LR::King, LS::Club), lc(LR::Jack, LS::Diamond), lc(LR::Queen, LS::Club));
    assert_eq!(g.legal_actions(), vec![leduc::CALL, leduc::RAISE]);
    let g = g.apply_action(leduc::CALL).apply_action(leduc::CALL);
    assert_eq!(g.round, 2);
    assert_eq!(g.board, Some(lc(LR::Queen, LS::Club)));
    assert_eq!(g.infoset_key(0), "Kc/Qc/cc/");
    let g = g.apply_action(leduc::RAISE);
    assert_eq!(g.contributions, [5, 1]);
    assert_eq!(g.infoset_key(1), "Jd/Qc/cc/r");
    assert_eq!(g.legal_actions(), vec![leduc::FOLD, leduc::CALL, leduc::RAISE]);
    let g = g.apply_action(leduc::CALL);
    assert!(g.is_terminal());
    assert_eq!(g.get_returns(), [5, -5]);

    let f = LeducGame::new_with_cards(lc(LR::Jack, LS::Club), lc(LR::Queen, LS::Diamond), lc(LR::King, LS::Club));
    assert_eq!(f.infoset_key(1), "Qd/_//");
    let f = f.apply_action(leduc::RAISE).apply_action(leduc::FOLD);
    assert_eq!(f.get_returns(), [1, -1]);

    let p = LeducGame::new_with_cards(lc(LR::Jack, LS::Club), lc(LR::King, LS::Diamond), lc(LR::Jack, LS::Diamond));
    let p = p.apply_action(leduc::CALL).apply_action(leduc::CALL);
    let p = p.apply_action(leduc::CALL).apply_action(leduc::CALL);
    assert_eq!(p.get_returns(), [1, -1]);
}

#[test]
fn leduc_contributions_stay_within_thirteen() {
    let mut g = LeducGame::new_with_cards(lc(LR::Queen, LS::Club), lc(LR::Queen, LS::Diamond), lc(LR::King, LS::Club));
    for a in [leduc::RAISE, leduc::RAISE] {
        g = g.apply_action(a);
    }
    assert_eq!(g.legal_actions(), vec![leduc::FOLD, leduc::CALL]);
    g = g.apply_action(leduc::CALL);
    assert_eq!(g.contributions, [5, 5]);
    for a in [leduc::RAISE, leduc::RAISE, leduc::CALL] {
        g = g.apply_action(a);
    }
    assert_eq!(g.contributions, [13, 13]);
    assert!(g.is_terminal());
    assert_eq!(g.get_returns(), [0, 0]);
}

#[test]
fn leduc_deal_uses_distinct_cards() {
    for seed in 0..20u64 {
        let mut rng = SmallRng::seed_from_u64(seed);
        let g = LeducGame::new_random(&mut rng);
        assert_ne!(g.hole[0], g.hole[1]);
        assert_ne!(g.hole[0], g.board_card);
        assert_ne!(g.hole[1], g.board_card);
        assert_eq!(g.contributions, [1, 1]);
        assert!(g.board.is_none());
    }
}

#[test]
fn card_names_and_display() {
    assert_eq!(lc(LR::Queen, LS::Diamond).name(), "Qd");
    assert_eq!(lc(LR::King, LS::Club).index(), 4);
    assert_eq!(card::format_card(lc(LR::Jack, LS::Club)), "'J\u{2663}'");
    assert_eq!(card::all_cards()[5], lc(LR::King, LS::Diamond));
    assert_eq!(c(Rank::Ten, Suit::Hearts).to_display_string(), "'10\u{2665}'");
    assert_eq!(c(Rank::Ace, Suit::Spades).to_display_string(), "'A\u{2660}'");
    assert_eq!(leduc::action_rl_name(leduc::RAISE, 1), "RAISE_MIN");
    assert_eq!(leduc::action_rl_name(leduc::RAISE, 2), "RAISE_HALF_POT");
    assert_eq!(leduc::action_rl_name(7, 2), "UNKNOWN");
    assert_eq!(leduc::action_name(leduc::CALL), "CALL / CHECK");
}

#[test]
fn infoset_node_sums() {
    let mut node = InfosetNode::new(3);
    assert_eq!(node.num_actions(), 3);
    assert_eq!(node.get_strategy_weights(), vec![0, 0, 0]);
    node.update_regrets_cfr_plus(&[5 * SCALE, -2 * SCALE, 1, 99]);
    assert_eq!(node.get_strategy_weights(), vec![5 * SCALE, 0, 1]);
    node.update_regrets_cfr_plus(&[-3 * SCALE]);
    assert_eq!(node.get_strategy_weights(), vec![2 * SCALE, 0, 1]);
    node.accumulate_strategy(&[7, -4, 2, 100]);
    assert_eq!(node.get_average_weights(), vec![7, 0, 2]);
    node.accumulate_strategy(&[i64::MAX, 0, 0]);
    assert_eq!(node.get_average_weights(), vec![0, 0, 2]);
}

#[test]
fn opponent_counts() {
    let mut t = OpponentTracker::new();
    t.record_action(0, true);
    t.record_action(1, true);
    t.record_action(3, false);
    t.record_action(2, true);
    t.record_action(9, true);
    assert_eq!(t.fold_count, 1);
    assert_eq!(t.call_count, 1);
    assert_eq!(t.raise_count, 2);
    assert_eq!(t.vpip_hands, 2);
    assert_eq!(t.total_actions(), 4);
    t.end_hand();
    assert_eq!(t.total_hands, 1);
    assert_eq!(OpponentTracker::default().total_actions(), 0);
    assert_eq!(SubgameSolver::new(1500).num_iterations, 1500);
}

#[test]
fn live_move_mapping() {
    let legal = strings(&["Check", "FOLD", "raise"]);
    assert_eq!(map_action_index(0, &legal, 0), Some(("check".to_string(), 0)));
    assert_eq!(map_action_index(0, &legal, 5), Some(("fold".to_string(), 0)));
    assert_eq!(map_action_index(1, &legal, 5), Some(("check".to_string(), 0)));
    assert_eq!(map_action_index(2, &legal, 0), Some(("raise".to_string(), 40)));
    assert_eq!(map_action_index(3, &legal, 0), Some(("raise".to_string(), 80)));
    assert_eq!(map_action_index(7, &legal, 0), None);
    let allin = strings(&["allin", "call"]);
    assert_eq!(map_action_index(2, &allin, 10), Some(("allin".to_string(), 0)));
    assert_eq!(map_action_index(1, &allin, 10), Some(("call".to_string(), 0)));
    let call_only = strings(&["call"]);
    assert_eq!(map_action_index(3, &call_only, 5), Some(("call".to_string(), 0)));
    assert_eq!(map_action_index(0, &call_only, 5), None);
    assert_eq!(map_action_index(0, &[], 0), None);
    let bet = strings(&["BET", "check"]);
    assert_eq!(map_action_index(2, &bet, 0), Some(("bet".to_string(), 40)));
    assert!(eq_ignore_ascii_case("RaIsE", "raise"));
    assert!(!eq_ignore_ascii_case("raise", "raised"));
    assert!(!eq_ignore_ascii_case("\u{e9}", "\u{c9}"));
    assert_eq!(round_for_board(0), 1);
    assert_eq!(round_for_board(3), 2);
    assert_eq!(round_for_board(4), 3);
    assert_eq!(round_for_board(5), 4);
}

#[test]
fn live_fallback_rule() {
    let aces = [c(Ace, Spades), c(Ace, Hearts)];
    let legal = strings(&["fold", "call", "raise"]);
    assert_eq!(fallback_action(&aces, &[], &legal, 20), ("raise".to_string(), 40));
    let trash = [c(Seven, Spades), c(Two, Hearts)];
    assert_eq!(fallback_action(&trash, &[], &legal, 20), ("call".to_string(), 0));
    let checks = strings(&["check", "fold"]);
    assert_eq!(fallback_action(&trash, &[], &checks, 0), ("check".to_string(), 0));
    let folds = strings(&["fold"]);
    assert_eq!(fallback_action(&trash, &[], &folds, 10), ("fold".to_string(), 0));
    let board = [c(King, Clubs), c(Nine, Diamonds), c(Four, Hearts)];
    assert_eq!(fallback_action(&trash, &board, &checks, 0), ("check".to_string(), 0));
    let set = [c(King, Spades), c(King, Hearts)];
    assert_eq!(fallback_action(&set, &board, &legal, 10), ("raise".to_string(), 40));
}

#[test]
fn live_card_strings() {
    assert_eq!(parse_card_str("As"), Some(c(Ace, Spades)));
    assert_eq!(parse_card_str("'10c'"), Some(c(Ten, Clubs)));
    assert_eq!(parse_card_str(" Td "), Some(c(Ten, Diamonds)));
    assert_eq!(parse_card_str("A\u{2660}"), Some(c(Ace, Spades)));
    assert_eq!(parse_card_str("K\u{2666}"), Some(c(King, Diamonds)));
    assert_eq!(parse_card_str("'  Qh  '"), Some(c(Queen, Hearts)));
    assert_eq!(parse_card_str(" 'Qh' "), None);
    assert_eq!(parse_card_str("1"), None);
    assert_eq!(parse_card_str(""), None);
    assert_eq!(parse_card_str("Xs"), None);
    assert_eq!(parse_card_str("10"), None);
    assert_eq!(parse_card_str("Ax"), None);
}

#[test]
fn deals_vary_with_the_generator() {
    let mut holdem_first = std::collections::HashSet::new();
    let mut leduc_first = std::collections::HashSet::new();
    for seed in 0..30u64 {
        let mut rng = SmallRng::seed_from_u64(seed);
        let g = TexasHoldemGame::new_random(&mut rng);
        holdem_first.insert((g.hole[0][0], g.hole[1][1]));
        let mut rng = SmallRng::seed_from_u64(seed);
        let l = LeducGame::new_random(&mut rng);
        leduc_first.insert((l.hole[0], l.hole[1], l.board_card));
    }
    assert!(holdem_first.len() > 1);
    assert!(leduc_first.len() > 1);
}

#[test]
fn live_table_updates() {
    assert_eq!(classify_update("SHOWDOWN", 1, "x", "me", 0), TableStep::EndHand { start_next: false });
    assert_eq!(classify_update("waiting", 2, "me", "me", 2), TableStep::EndHand { start_next: true });
    assert_eq!(classify_update("Waiting", 1, "me", "me", 2), TableStep::EndHand { start_next: false });
    assert_eq!(classify_update("Flop", 3, "other", "me", 2), TableStep::Wait);
    assert_eq!(classify_update("Flop", 3, "ME", "me", 1), TableStep::Wait);
    assert_eq!(classify_update("Flop", 3, "ME", "me", 2), TableStep::Act);
}

#[test]
fn live_bets_and_retries() {
    assert_eq!(table_max_bet(&[]), 0);
    assert_eq!(table_max_bet(&[-5, -1]), 0);
    assert_eq!(table_max_bet(&[10, 40, 20]), 40);
    assert_eq!(amount_to_call(40, 20, 10), 30);
    assert_eq!(amount_to_call(20, 60, 10), 50);
    assert_eq!(amount_to_call(20, 0, 20), 0);
    assert_eq!(amount_to_call(20, 0, 30), 0);
    assert!(contains_text("player cannot check now", "cannot check"));
    assert!(contains_text("abc", ""));
    assert!(!contains_text("ab", "abc"));
    assert!(!contains_text("Call", "call"));
    assert!(retry_as_call("check", "you cannot check here"));
    assert!(retry_as_call("check", "must call"));
    assert!(!retry_as_call("check", "not your turn"));
    assert!(!retry_as_call("fold", "must call"));
    assert!(!retry_as_call("Check", "must call"));
}

#[test]
fn rollouts_score_one_deal() {
    let aces = [c(Ace, Hearts), c(Ace, Spades)];
    let turn_board = [c(Two, Clubs), c(Seven, Diamonds), c(Nine, Hearts), c(Jack, Spades)];
    assert_eq!(rollout(&aces, &turn_board, &[c(King, Clubs), c(King, Diamonds), c(Three, Spades)]), 2);
    assert_eq!(rollout(&aces, &turn_board, &[c(Jack, Hearts), c(Jack, Diamonds), c(Three, Spades)]), 0);
    let low = [c(Two, Hearts), c(Three, Hearts)];
    let broadway = [c(Ace, Clubs), c(King, Diamonds), c(Queen, Hearts), c(Jack, Spades)];
    assert_eq!(rollout(&low, &broadway, &[c(Four, Clubs), c(Five, Diamonds), c(Ten, Spades)]), 1);
    let flop = [c(Two, Clubs), c(Seven, Diamonds), c(Nine, Hearts)];
    let deal = [c(King, Clubs), c(Queen, Diamonds), c(King, Spades), c(Queen, Hearts), c(Three, Clubs)];
    assert_eq!(rollout(&aces, &flop, &deal), 0);
    let (points, matchups) = equity_tally(&aces, &flop);
    assert_eq!(matchups, 80);
    assert!(points <= 160);
}

#[test]
fn large_contributions_and_board_round_trip() {
    let board = [c(King, Clubs), c(Nine, Diamonds), c(Four, Hearts), c(Jack, Spades), c(Three, Clubs)];
    let hole = [[c(Ace, Spades), c(Ace, Hearts)], [c(Two, Clubs), c(Seven, Diamonds)]];
    let big = river_game(hole, &board, [500_000_000, 0]);
    assert_eq!(big.legal_actions(), vec![CALL_CHECK]);
    let low = river_game(hole, &board, [-500_000_000, 20]);
    assert_eq!(low.legal_actions(), vec![FOLD, CALL_CHECK, RAISE_MIN, RAISE_HALF_POT]);
    let called = low.apply_action(CALL_CHECK);
    assert_eq!(called.contributions, [20, 20]);
    let raised = low.apply_action(RAISE_MIN);
    assert_eq!(raised.contributions, [60, 20]);
    let folded = low.apply_action(FOLD);
    assert_eq!(folded.get_returns(), [500_000_000, -500_000_000]);

    let b = Board::from_slice(&board[..3]);
    assert_eq!(Board::from_slice(b.as_slice()), b);
    let mut pushed = Board::new();
    pushed.push(board[0]);
    pushed.push(board[1]);
    pushed.push(board[2]);
    assert_eq!(pushed, b);
    assert_eq!(Board::from_slice(&board), Board::from_slice(&[board, board].concat()));
    let h = RoundHistory::from_slice(&[1, 2, 1]);
    assert_eq!(RoundHistory::from_slice(h.as_slice()), h);
}

#[test]
fn deal_from_fixed_draws() {
    let g = TexasHoldemGame::deal_from_draws(&[0, 1, 2, 3, 4, 5, 6, 7, 8]);
    assert_eq!(g.hole, [[c(Two, Clubs), c(Three, Clubs)], [c(Four, Clubs), c(Five, Clubs)]]);
    let mut d = g.deck_remaining;
    assert_eq!(d.len(), 52);
    assert_eq!(d.deal_one(), c(Six, Clubs));
    assert_eq!(d.deal_one(), c(Seven, Clubs));
    assert_eq!(g.contributions, [10, 20]);
    assert_eq!(g.round, 1);
    let g = TexasHoldemGame::deal_from_draws(&[51, 51, 2, 3, 4, 5, 6, 7, 8]);
    assert_eq!(g.hole[0], [c(Ace, Spades), c(Two, Clubs)]);
}

#[test]
fn rollout_seeds() {
    assert_eq!(equity_seed(&[c(Two, Clubs), c(Three, Clubs)], 3), (1u64 << 24) ^ 3 ^ 0xDEAD_BEEF_CAFE_BABE);
    assert_eq!(
        equity_seed(&[c(Ace, Spades), c(Two, Diamonds)], 4),
        (51u64 << 32) ^ (13u64 << 24) ^ 4 ^ 0xDEAD_BEEF_CAFE_BABE
    );
}

#[test]
fn scores_ignore_suit_names() {
    let hole = [c(Ace, Hearts), c(King, Hearts)];
    let board = [c(Two, Hearts), c(Nine, Hearts), c(Jack, Hearts), c(Four, Clubs), c(Four, Spades)];
    let swap = |card: Card| {
        let suit = match card.suit {
            Hearts => Spades,
            Spades => Hearts,
            Clubs => Diamonds,
            Diamonds => Clubs,
        };
        c(card.rank, suit)
    };
    let hole2 = [swap(hole[0]), swap(hole[1])];
    let board2: Vec<Card> = board.iter().map(|&x| swap(x)).collect();
    assert_eq!(evaluate_7cards(&hole, &board), evaluate_7cards(&hole2, &board2));
    assert_eq!(evaluate_7cards(&hole, &board) >> 32, 5);
}

#[test]
fn buckets_follow_scores() {
    let board = [c(Two, Clubs), c(Seven, Diamonds), c(Nine, Hearts)];
    let hands = [
        [c(Three, Spades), c(Four, Hearts)],
        [c(Ace, Spades), c(King, Hearts)],
        [c(Two, Spades), c(Four, Hearts)],
        [c(Nine, Spades), c(Four, Hearts)],
        [c(Nine, Spades), c(Two, Hearts)],
        [c(Seven, Spades), c(Seven, Hearts)],
        [c(Eight, Spades), c(Ten, Hearts)],
    ];
    let mut scored: Vec<(u64, usize)> = hands
        .iter()
        .map(|h| (evaluate_7cards(h, &board), postflop_equity_bucket(h, &board)))
        .collect();
    scored.sort();
    for w in scored.windows(2) {
        assert!(w[0].1 <= w[1].1);
    }
}

#[test]
fn opponent_counts_over_a_run() {
    let mut t = OpponentTracker::new();
    let run: [(u8, bool); 6] = [(1, true), (2, true), (0, false), (7, true), (3, false), (1, false)];
    for &(a, p) in run.iter() {
        t.record_action(a, p);
    }
    t.end_hand();
    t.end_hand();
    assert_eq!(t.total_actions(), 5);
    assert_eq!(t.vpip_hands, 2);
    assert_eq!(t.total_hands, 2);
}

#[test]
fn applicability_checks() {
    let board = [c(King, Clubs), c(Nine, Diamonds), c(Four, Hearts), c(Jack, Spades), c(Three, Clubs)];
    let hole = [[c(Ace, Spades), c(Ace, Hearts)], [c(Two, Clubs), c(Seven, Diamonds)]];
    let g = river_game(hole, &board, [20, 20]);
    assert!(g.can_apply_action(FOLD));
    assert!(g.can_apply_action(RAISE_HALF_POT));
    assert!(!g.can_apply_action(4));
    let huge = river_game(hole, &board, [i32::MAX, 1]);
    assert!(!huge.can_apply_action(FOLD));
    let wide = river_game(hole, &board, [i32::MIN + 5, 10]);
    assert!(wide.can_apply_action(FOLD));
    assert!(!wide.can_apply_action(CALL_CHECK));

    let l = LeducGame::new_with_cards(lc(LR::King, LS::Club), lc(LR::Jack, LS::Diamond), lc(LR::Queen, LS::Club));
    assert!(l.can_apply_action(leduc::FOLD));
    assert!(l.can_apply_action(leduc::RAISE));
    assert!(!l.can_apply_action(3));
    let mut rng = SmallRng::seed_from_u64(3);
    let fresh = LeducGame::new_random(&mut rng);
    assert_eq!(fresh.raises_this_round, 0);
    assert!(fresh.history[0].is_empty() && fresh.history[1].is_empty());
    assert_eq!(fresh.get_returns(), [0, 0]);
}
