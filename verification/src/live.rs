//! Playing on a live table: reading cards written by the table server,
//! deciding what a table update calls for, the amount to call, turning an
//! abstract action (0 fold, 1 call/check, 2 minimum raise, 3 half-pot raise)
//! into one of the moves the server offers, and when to retry a rejected
//! check as a call.

use vstd::prelude::*;
use crate::cfr::abstraction::{
    bucket_of_score, postflop_equity_bucket, preflop_bucket, preflop_index, rank_symbol,
};
use crate::game::eval::{hand_cards, hand_score};
use crate::game::holdem::{card_display, rank_label, suit_sign, suit_value, Card, Rank, Suit};

verus! {

/// A character with ASCII capitals folded to lower case.
pub open spec fn ascii_lower(c: char) -> char {
    if 'A' <= c && c <= 'Z' {
        ((c as u32) + 32) as char
    } else {
        c
    }
}

/// Two texts are equal up to the case of ASCII letters.
pub open spec fn same_text_ci(a: Seq<char>, b: Seq<char>) -> bool {
    &&& a.len() == b.len()
    &&& forall|i: int| 0 <= i < a.len() ==> #[trigger] ascii_lower(a[i]) == ascii_lower(b[i])
}

fn same_char_ci(a: char, b: char) -> (r: bool)
    ensures
        r == (ascii_lower(a) == ascii_lower(b)),
{
    let ua = a as u32;
    let ub = b as u32;
    let a_up = 65 <= ua && ua <= 90;
    let b_up = 65 <= ub && ub <= 90;
    ua == ub || (a_up && ua + 32 == ub) || (b_up && ub + 32 == ua)
}

/// Compares two texts ignoring the case of ASCII letters, as
/// `str::eq_ignore_ascii_case` does.
pub fn eq_ignore_ascii_case(a: &str, b: &str) -> (r: bool)
    ensures
        r == same_text_ci(a@, b@),
{
    let n = a.unicode_len();
    let m = b.unicode_len();
    if n != m {
        return false;
    }
    let mut i: usize = 0;
    while i < n
        invariant
            n == a@.len(),
            m == b@.len(),
            n == m,
            0 <= i <= n,
            forall|k: int| 0 <= k < i ==> #[trigger] ascii_lower(a@[k]) == ascii_lower(b@[k]),
        decreases n - i,
    {
        if !same_char_ci(a.get_char(i), b.get_char(i)) {
            return false;
        }
        i = i + 1;
    }
    true
}

/// The server offers the move `name` (up to ASCII case).
pub open spec fn offers(legal: Seq<String>, name: Seq<char>) -> bool {
    exists|i: int| 0 <= i < legal.len() && same_text_ci(#[trigger] legal[i]@, name)
}

/// Whether the server offers the move `name`.
pub fn has_move(legal: &[String], name: &str) -> (r: bool)
    ensures
        r == offers(legal@, name@),
{
    let mut i: usize = 0;
    while i < legal.len()
        invariant
            0 <= i <= legal@.len(),
            forall|k: int| 0 <= k < i ==> !same_text_ci(#[trigger] legal@[k]@, name@),
        decreases legal@.len() - i,
    {
        if eq_ignore_ascii_case(legal[i].as_str(), name) {
            return true;
        }
        i = i + 1;
    }
    false
}

pub open spec fn word_check() -> Seq<char> {
    seq!['c', 'h', 'e', 'c', 'k']
}

pub open spec fn word_fold() -> Seq<char> {
    seq!['f', 'o', 'l', 'd']
}

pub open spec fn word_call() -> Seq<char> {
    seq!['c', 'a', 'l', 'l']
}

pub open spec fn word_raise() -> Seq<char> {
    seq!['r', 'a', 'i', 's', 'e']
}

pub open spec fn word_bet() -> Seq<char> {
    seq!['b', 'e', 't']
}

pub open spec fn word_allin() -> Seq<char> {
    seq!['a', 'l', 'l', 'i', 'n']
}

/// The server move for abstract action `idx`: fold prefers a free check,
/// call/check prefers a call when facing a bet, and a raise falls back from
/// raise to bet, all-in, call and check. Raise amounts: 40 for the minimum
/// raise, 80 for the half-pot raise.
pub open spec fn mapped_action(idx: int, legal: Seq<String>, to_call: int) -> Option<(Seq<char>, int)> {
    if idx == 0 {
        if to_call == 0 && offers(legal, word_check()) {
            Some((word_check(), 0))
        } else if offers(legal, word_fold()) {
            Some((word_fold(), 0))
        } else if offers(legal, word_check()) {
            Some((word_check(), 0))
        } else {
            None
        }
    } else if idx == 1 {
        if to_call > 0 && offers(legal, word_call()) {
            Some((word_call(), 0))
        } else if offers(legal, word_check()) {
            Some((word_check(), 0))
        } else if offers(legal, word_call()) {
            Some((word_call(), 0))
        } else {
            None
        }
    } else if idx == 2 || idx == 3 {
        let amt = if idx == 3 {
            80int
        } else {
            40int
        };
        if offers(legal, word_raise()) {
            Some((word_raise(), amt))
        } else if offers(legal, word_bet()) {
            Some((word_bet(), amt))
        } else if offers(legal, word_allin()) {
            Some((word_allin(), 0))
        } else if to_call > 0 && offers(legal, word_call()) {
            Some((word_call(), 0))
        } else if offers(legal, word_check()) {
            Some((word_check(), 0))
        } else {
            None
        }
    } else {
        None
    }
}

/// Every mapped move is one the server offers, with a non-negative amount;
/// only a raise (abstract 2 or 3) carries an amount; a fold is never chosen
/// when checking is free; and whenever checking is offered, every abstract
/// action maps to some move.
pub proof fn lemma_moves_are_offered(idx: int, legal: Seq<String>, to_call: int)
    ensures
        mapped_action(idx, legal, to_call) matches Some((n, a)) ==> offers(legal, n) && 0 <= a
            && (a > 0 ==> (idx == 2 || idx == 3)),
        (to_call == 0 && offers(legal, word_check())) ==> mapped_action(0, legal, to_call) == Some(
            (word_check(), 0int),
        ),
        (0 <= idx <= 3 && offers(legal, word_check())) ==> mapped_action(idx, legal, to_call) is Some,
{
}

/// A move's text and amount matches a specified move.
pub open spec fn is_move(m: (String, i32), s: (Seq<char>, int)) -> bool {
    m.0@ == s.0 && m.1 == s.1
}

/// An optional move matches a specified optional move.
pub open spec fn is_move_opt(m: Option<(String, i32)>, s: Option<(Seq<char>, int)>) -> bool {
    match (m, s) {
        (Some(a), Some(b)) => is_move(a, b),
        (None, None) => true,
        _ => false,
    }
}

fn move_of(name: &str, amount: i32) -> (m: (String, i32))
    ensures
        m.0@ == name@,
        m.1 == amount,
{
    (name.to_owned(), amount)
}

fn check_move() -> (m: (String, i32))
    ensures
        is_move(m, (word_check(), 0)),
{
    proof {
        reveal_strlit("check");
        assert("check"@ =~= word_check());
    }
    move_of("check", 0)
}

fn fold_move() -> (m: (String, i32))
    ensures
        is_move(m, (word_fold(), 0)),
{
    proof {
        reveal_strlit("fold");
        assert("fold"@ =~= word_fold());
    }
    move_of("fold", 0)
}

fn call_move() -> (m: (String, i32))
    ensures
        is_move(m, (word_call(), 0)),
{
    proof {
        reveal_strlit("call");
        assert("call"@ =~= word_call());
    }
    move_of("call", 0)
}

/// Maps abstract action `idx` to a move the server offers, if any.
pub fn map_action_index(idx: usize, legal: &[String], to_call: i32) -> (m: Option<(String, i32)>)
    ensures
        is_move_opt(m, mapped_action(idx as int, legal@, to_call as int)),
{
    proof {
        reveal_strlit("check");
        reveal_strlit("fold");
        reveal_strlit("call");
        reveal_strlit("raise");
        reveal_strlit("bet");
        reveal_strlit("allin");
        assert("check"@ =~= word_check());
        assert("fold"@ =~= word_fold());
        assert("call"@ =~= word_call());
        assert("raise"@ =~= word_raise());
        assert("bet"@ =~= word_bet());
        assert("allin"@ =~= word_allin());
    }
    let has_check = has_move(legal, "check");
    let has_fold = has_move(legal, "fold");
    let has_call = has_move(legal, "call");
    if idx == 0 {
        if to_call == 0 && has_check {
            Some(check_move())
        } else if has_fold {
            Some(fold_move())
        } else if has_check {
            Some(check_move())
        } else {
            None
        }
    } else if idx == 1 {
        if to_call > 0 && has_call {
            Some(call_move())
        } else if has_check {
            Some(check_move())
        } else if has_call {
            Some(call_move())
        } else {
            None
        }
    } else if idx == 2 || idx == 3 {
        let amt: i32 = if idx == 3 {
            80
        } else {
            40
        };
        if has_move(legal, "raise") {
            Some(move_of("raise", amt))
        } else if has_move(legal, "bet") {
            Some(move_of("bet", amt))
        } else if has_move(legal, "allin") {
            Some(move_of("allin", 0))
        } else if to_call > 0 && has_call {
            Some(call_move())
        } else if has_check {
            Some(check_move())
        } else {
            None
        }
    } else {
        None
    }
}

/// The betting round implied by the board size: preflop with no cards,
/// flop with three, turn with four, river otherwise.
pub open spec fn round_of_board(n: int) -> int {
    if n == 0 {
        1
    } else if n == 3 {
        2
    } else if n == 4 {
        3
    } else {
        4
    }
}

pub fn round_for_board(n: usize) -> (round: u8)
    ensures
        round == round_of_board(n as int),
{
    if n == 0 {
        1
    } else if n == 3 {
        2
    } else if n == 4 {
        3
    } else {
        4
    }
}

/// The move of last resort: check when it is free, else call, else check,
/// else fold.
pub open spec fn safe_default(legal: Seq<String>, to_call: int) -> (Seq<char>, int) {
    if to_call == 0 && offers(legal, word_check()) {
        (word_check(), 0)
    } else if offers(legal, word_call()) {
        (word_call(), 0)
    } else if offers(legal, word_check()) {
        (word_check(), 0)
    } else {
        (word_fold(), 0)
    }
}

/// The hand-strength rule used when no strategy applies: preflop, raise
/// with the 40 strongest classes and call with the next 70; postflop, raise
/// with bucket 30 or above and call with bucket 12 or above; else the safe
/// default.
pub open spec fn fallback_spec(hole: Seq<Card>, board: Seq<Card>, legal: Seq<String>, to_call: int) -> (
    Seq<char>,
    int,
) {
    let wanted: int = if board.len() == 0 {
        let idx = preflop_index(hole[0], hole[1]);
        if idx < 40 {
            2
        } else if idx < 110 {
            1
        } else {
            -1
        }
    } else {
        let b = bucket_of_score(hand_score(hand_cards(hole, board).to_multiset()));
        if b >= 30 {
            2
        } else if b >= 12 {
            1
        } else {
            -1
        }
    };
    if wanted >= 0 && mapped_action(wanted, legal, to_call) is Some {
        mapped_action(wanted, legal, to_call)->0
    } else {
        safe_default(legal, to_call)
    }
}

/// Chooses a move by hand strength alone (see `fallback_spec`).
pub fn fallback_action(hole: &[Card; 2], board: &[Card], legal: &[String], to_call: i32) -> (m: (
    String,
    i32,
))
    ensures
        is_move(m, fallback_spec(hole@, board@, legal@, to_call as int)),
{
    let wanted: usize = if board.len() == 0 {
        let (pf_idx, _) = preflop_bucket(hole[0], hole[1]);
        if pf_idx < 40 {
            2
        } else if pf_idx < 110 {
            1
        } else {
            4
        }
    } else {
        let bucket = postflop_equity_bucket(hole, board);
        if bucket >= 30 {
            2
        } else if bucket >= 12 {
            1
        } else {
            4
        }
    };
    if wanted < 4 {
        if let Some(m) = map_action_index(wanted, legal, to_call) {
            return m;
        }
    }
    proof {
        reveal_strlit("check");
        reveal_strlit("call");
        assert("check"@ =~= word_check());
        assert("call"@ =~= word_call());
    }
    let has_check = has_move(legal, "check");
    let has_call = has_move(legal, "call");
    if to_call == 0 && has_check {
        check_move()
    } else if has_call {
        call_move()
    } else if has_check {
        check_move()
    } else {
        fold_move()
    }
}

/// The Unicode White_Space characters, which `str::trim` removes.
pub open spec fn is_white_space(c: char) -> bool {
    let u = c as u32;
    ||| 0x9 <= u && u <= 0xD
    ||| u == 0x20
    ||| u == 0x85
    ||| u == 0xA0
    ||| u == 0x1680
    ||| 0x2000 <= u && u <= 0x200A
    ||| u == 0x2028
    ||| u == 0x2029
    ||| u == 0x202F
    ||| u == 0x205F
    ||| u == 0x3000
}

/// The characters one trimming pass removes: white space, or apostrophes.
pub open spec fn trimmed_char(c: char, ws: bool) -> bool {
    if ws {
        is_white_space(c)
    } else {
        c == '\''
    }
}

pub open spec fn trim_front(s: Seq<char>, ws: bool) -> Seq<char>
    decreases s.len(),
{
    if s.len() > 0 && trimmed_char(s[0], ws) {
        trim_front(s.drop_first(), ws)
    } else {
        s
    }
}

pub open spec fn trim_back(s: Seq<char>, ws: bool) -> Seq<char>
    decreases s.len(),
{
    if s.len() > 0 && trimmed_char(s[s.len() - 1], ws) {
        trim_back(s.drop_last(), ws)
    } else {
        s
    }
}

/// The card text proper: apostrophes stripped from both ends, then white
/// space.
pub open spec fn card_text(s: Seq<char>) -> Seq<char> {
    trim_back(trim_front(trim_back(trim_front(s, false), false), true), true)
}

/// The text takes fewer than two bytes in UTF-8.
pub open spec fn under_two_bytes(t: Seq<char>) -> bool {
    t.len() == 0 || (t.len() == 1 && (t[0] as u32) < 0x80)
}

pub open spec fn starts_with_ten(t: Seq<char>) -> bool {
    t.len() >= 2 && t[0] == '1' && t[1] == '0'
}

/// The rank a one-character symbol names: 2..9, T, J, Q, K, A.
pub open spec fn rank_of_symbol(c: char) -> Option<Rank> {
    if c == '2' {
        Some(Rank::Two)
    } else if c == '3' {
        Some(Rank::Three)
    } else if c == '4' {
        Some(Rank::Four)
    } else if c == '5' {
        Some(Rank::Five)
    } else if c == '6' {
        Some(Rank::Six)
    } else if c == '7' {
        Some(Rank::Seven)
    } else if c == '8' {
        Some(Rank::Eight)
    } else if c == '9' {
        Some(Rank::Nine)
    } else if c == 'T' {
        Some(Rank::Ten)
    } else if c == 'J' {
        Some(Rank::Jack)
    } else if c == 'Q' {
        Some(Rank::Queen)
    } else if c == 'K' {
        Some(Rank::King)
    } else if c == 'A' {
        Some(Rank::Ace)
    } else {
        None
    }
}

/// The suit a symbol names: a letter in either case or the suit sign.
pub open spec fn suit_of_symbol(c: char) -> Option<Suit> {
    if c == 'c' || c == 'C' || c == '\u{2663}' {
        Some(Suit::Clubs)
    } else if c == 'd' || c == 'D' || c == '\u{2666}' {
        Some(Suit::Diamonds)
    } else if c == 'h' || c == 'H' || c == '\u{2665}' {
        Some(Suit::Hearts)
    } else if c == 's' || c == 'S' || c == '\u{2660}' {
        Some(Suit::Spades)
    } else {
        None
    }
}

/// The card a server card string names ("As", "Ah", "A\u{2660}", "10c", ...).
pub open spec fn parsed_card(s: Seq<char>) -> Option<Card> {
    let t = card_text(s);
    if under_two_bytes(t) {
        None
    } else if starts_with_ten(t) {
        if t.len() > 2 {
            match suit_of_symbol(t[2]) {
                Some(su) => Some(Card { rank: Rank::Ten, suit: su }),
                None => None,
            }
        } else {
            None
        }
    } else {
        match rank_of_symbol(t[0]) {
            Some(r) => match suit_of_symbol(t[1]) {
                Some(su) => Some(Card { rank: r, suit: su }),
                None => None,
            },
            None => None,
        }
    }
}

/// Two characters no trimming pass removes stay as they are.
proof fn lemma_card_text_plain(t: Seq<char>)
    requires
        t.len() >= 2,
        !trimmed_char(t[0], false),
        !trimmed_char(t[0], true),
        !trimmed_char(t[t.len() - 1], false),
        !trimmed_char(t[t.len() - 1], true),
    ensures
        card_text(t) == t,
{
    assert(trim_front(t, false) == t);
    assert(trim_back(t, false) == t);
    assert(trim_front(t, true) == t);
    assert(trim_back(t, true) == t);
}

/// Every card's one-symbol rank (2..9, T, J, Q, K, A) followed by its suit,
/// written as a lower- or upper-case letter or as the suit sign, reads as
/// that card.
pub proof fn lemma_symbol_text_reads(r: Rank, s: Suit)
    ensures
        parsed_card(seq![rank_symbol(r), seq!['c', 'd', 'h', 's'][suit_value(s)]]) == Some(
            Card { rank: r, suit: s },
        ),
        parsed_card(seq![rank_symbol(r), seq!['C', 'D', 'H', 'S'][suit_value(s)]]) == Some(
            Card { rank: r, suit: s },
        ),
        parsed_card(seq![rank_symbol(r), suit_sign(s)]) == Some(Card { rank: r, suit: s }),
{
    let l = seq!['c', 'd', 'h', 's'][suit_value(s)];
    let u = seq!['C', 'D', 'H', 'S'][suit_value(s)];
    lemma_card_text_plain(seq![rank_symbol(r), l]);
    lemma_card_text_plain(seq![rank_symbol(r), u]);
    lemma_card_text_plain(seq![rank_symbol(r), suit_sign(s)]);
}

/// A card as shown on screen (quoted, "10" for a ten, the suit sign) reads
/// back as the same card.
pub proof fn lemma_display_reads_back(c: Card)
    ensures
        parsed_card(card_display(c)) == Some(c),
{
    let d = card_display(c);
    let inner = rank_label(c.rank) + seq![suit_sign(c.suit)];
    assert(d.drop_first() =~= inner + seq!['\'']);
    assert(trim_front(inner + seq!['\''], false) == inner + seq!['\'']);
    assert(trim_front(d, false) == inner + seq!['\'']);
    assert((inner + seq!['\'']).drop_last() =~= inner);
    assert(trim_back(inner, false) == inner);
    assert(trim_back(inner + seq!['\''], false) == inner);
    lemma_card_text_plain(inner);
    assert(trim_front(inner, true) == inner);
    assert(trim_back(inner, true) == inner);
    assert(card_text(d) == inner);
}

/// The inputs a card string can be read from without slicing inside a
/// character: a card text of two or more bytes not starting with "10" must
/// start with a one-byte character.
pub open spec fn card_text_sliceable(s: Seq<char>) -> bool {
    let t = card_text(s);
    (!under_two_bytes(t) && !starts_with_ten(t)) ==> (t[0] as u32) < 0x80
}

fn is_white_space_char(c: char) -> (r: bool)
    ensures
        r == is_white_space(c),
{
    let u = c as u32;
    (0x9 <= u && u <= 0xD) || u == 0x20 || u == 0x85 || u == 0xA0 || u == 0x1680 || (0x2000 <= u
        && u <= 0x200A) || u == 0x2028 || u == 0x2029 || u == 0x202F || u == 0x205F || u == 0x3000
}

fn is_trimmed_char(c: char, ws: bool) -> (r: bool)
    ensures
        r == trimmed_char(c, ws),
{
    if ws {
        is_white_space_char(c)
    } else {
        c == '\''
    }
}

/// Trims `chars[lo..hi]` from both ends; returns the bounds of what is left.
fn trim_range(chars: &Vec<char>, lo: usize, hi: usize, ws: bool) -> (r: (usize, usize))
    requires
        lo <= hi <= chars@.len(),
    ensures
        lo <= r.0 <= r.1 <= hi,
        chars@.subrange(r.0 as int, r.1 as int) == trim_back(
            trim_front(chars@.subrange(lo as int, hi as int), ws),
            ws,
        ),
{
    let mut i = lo;
    while i < hi && is_trimmed_char(chars[i], ws)
        invariant
            lo <= i <= hi <= chars@.len(),
            trim_front(chars@.subrange(lo as int, hi as int), ws) == trim_front(
                chars@.subrange(i as int, hi as int),
                ws,
            ),
        decreases hi - i,
    {
        assert(chars@.subrange(i as int, hi as int).drop_first() =~= chars@.subrange(
            i as int + 1,
            hi as int,
        ));
        i = i + 1;
    }
    let mut j = hi;
    while j > i && is_trimmed_char(chars[j - 1], ws)
        invariant
            lo <= i <= j <= hi <= chars@.len(),
            trim_front(chars@.subrange(lo as int, hi as int), ws) == chars@.subrange(
                i as int,
                hi as int,
            ),
            trim_back(chars@.subrange(i as int, hi as int), ws) == trim_back(
                chars@.subrange(i as int, j as int),
                ws,
            ),
        decreases j - i,
    {
        assert(chars@.subrange(i as int, j as int).drop_last() =~= chars@.subrange(
            i as int,
            j as int - 1,
        ));
        j = j - 1;
    }
    (i, j)
}

/// Reads a card written by the table server: "As", "Ah", "A\u{2660}", "10c",
/// "Td", optionally quoted with apostrophes and padded with white space.
pub fn parse_card_str(s: &str) -> (card: Option<Card>)
    requires
        card_text_sliceable(s@),
    ensures
        card == parsed_card(s@),
{
    let n = s.unicode_len();
    let mut chars: Vec<char> = Vec::new();
    let mut k: usize = 0;
    while k < n
        invariant
            n == s@.len(),
            0 <= k <= n,
            chars@ == s@.take(k as int),
        decreases n - k,
    {
        chars.push(s.get_char(k));
        assert(s@.take(k as int + 1) =~= s@.take(k as int).push(s@[k as int]));
        k = k + 1;
    }
    assert(chars@ =~= s@);
    assert(chars@.subrange(0, n as int) =~= s@);
    let (a, b) = trim_range(&chars, 0, n, false);
    let (lo, hi) = trim_range(&chars, a, b, true);
    let ghost t = chars@.subrange(lo as int, hi as int);
    assert(t == card_text(s@));
    let len = hi - lo;
    if len == 0 || (len == 1 && (chars[lo] as u32) < 0x80) {
        return None;
    }
    let (rank, suit_char) = if len >= 2 && chars[lo] == '1' && chars[lo + 1] == '0' {
        if len > 2 {
            (Some(Rank::Ten), chars[lo + 2])
        } else {
            return None;
        }
    } else {
        let c = chars[lo];
        let r = if c == '2' {
            Some(Rank::Two)
        } else if c == '3' {
            Some(Rank::Three)
        } else if c == '4' {
            Some(Rank::Four)
        } else if c == '5' {
            Some(Rank::Five)
        } else if c == '6' {
            Some(Rank::Six)
        } else if c == '7' {
            Some(Rank::Seven)
        } else if c == '8' {
            Some(Rank::Eight)
        } else if c == '9' {
            Some(Rank::Nine)
        } else if c == 'T' {
            Some(Rank::Ten)
        } else if c == 'J' {
            Some(Rank::Jack)
        } else if c == 'Q' {
            Some(Rank::Queen)
        } else if c == 'K' {
            Some(Rank::King)
        } else if c == 'A' {
            Some(Rank::Ace)
        } else {
            None
        };
        (r, chars[lo + 1])
    };
    let rank = match rank {
        Some(r) => r,
        None => {
            return None;
        },
    };
    let suit = if suit_char == 'c' || suit_char == 'C' || suit_char == '\u{2663}' {
        Suit::Clubs
    } else if suit_char == 'd' || suit_char == 'D' || suit_char == '\u{2666}' {
        Suit::Diamonds
    } else if suit_char == 'h' || suit_char == 'H' || suit_char == '\u{2665}' {
        Suit::Hearts
    } else if suit_char == 's' || suit_char == 'S' || suit_char == '\u{2660}' {
        Suit::Spades
    } else {
        return None;
    };
    Some(Card { rank, suit })
}

/// What the client does with a table update before deciding anything.
#[derive(Debug, Clone, Copy, PartialEq, Eq, Structural)]
pub enum TableStep {
    /// The hand is over (showdown or waiting): count it, and ask the server
    /// to start the next one when the table waits with two or more players.
    EndHand { start_next: bool },
    /// Not this client's turn, or its hole cards are not known yet.
    Wait,
    /// This client is to act.
    Act,
}

pub open spec fn word_showdown() -> Seq<char> {
    seq!['s', 'h', 'o', 'w', 'd', 'o', 'w', 'n']
}

pub open spec fn word_waiting() -> Seq<char> {
    seq!['w', 'a', 'i', 't', 'i', 'n', 'g']
}

/// The step a table update calls for.
pub open spec fn step_spec(
    phase: Seq<char>,
    player_count: int,
    active_id: Seq<char>,
    player_id: Seq<char>,
    hole_cards: int,
) -> TableStep {
    if same_text_ci(phase, word_showdown()) || same_text_ci(phase, word_waiting()) {
        TableStep::EndHand { start_next: same_text_ci(phase, word_waiting()) && player_count >= 2 }
    } else if !same_text_ci(active_id, player_id) {
        TableStep::Wait
    } else if hole_cards < 2 {
        TableStep::Wait
    } else {
        TableStep::Act
    }
}

/// Classifies a table update: the phase, how many players sit at the table
/// (0 when the update lists none), whose turn it is, and how many of this
/// client's hole cards could be read.
pub fn classify_update(
    phase: &str,
    player_count: usize,
    active_id: &str,
    player_id: &str,
    hole_cards: usize,
) -> (step: TableStep)
    ensures
        step == step_spec(phase@, player_count as int, active_id@, player_id@, hole_cards as int),
{
    proof {
        reveal_strlit("Showdown");
        reveal_strlit("Waiting");
        assert forall|t: Seq<char>| same_text_ci(t, "Showdown"@) == same_text_ci(t, word_showdown()) by {
            if same_text_ci(t, "Showdown"@) {
                assert(forall|i: int| 0 <= i < t.len() ==> #[trigger] ascii_lower(t[i]) == ascii_lower("Showdown"@[i]));
            }
        }
        assert forall|t: Seq<char>| same_text_ci(t, "Waiting"@) == same_text_ci(t, word_waiting()) by {
            if same_text_ci(t, "Waiting"@) {
                assert(forall|i: int| 0 <= i < t.len() ==> #[trigger] ascii_lower(t[i]) == ascii_lower("Waiting"@[i]));
            }
        }
    }
    let showdown = eq_ignore_ascii_case(phase, "Showdown");
    let waiting = eq_ignore_ascii_case(phase, "Waiting");
    if showdown || waiting {
        TableStep::EndHand { start_next: waiting && player_count >= 2 }
    } else if !eq_ignore_ascii_case(active_id, player_id) {
        TableStep::Wait
    } else if hole_cards < 2 {
        TableStep::Wait
    } else {
        TableStep::Act
    }
}

/// The largest bet on the table, counting from zero.
pub open spec fn max_bet_spec(bets: Seq<i32>) -> int
    decreases bets.len(),
{
    if bets.len() == 0 {
        0
    } else {
        let rest = max_bet_spec(bets.drop_last());
        if bets[bets.len() - 1] > rest {
            bets[bets.len() - 1] as int
        } else {
            rest
        }
    }
}

/// The largest of the players' bets, or 0 when none is positive.
pub fn table_max_bet(bets: &[i32]) -> (m: i32)
    ensures
        m == max_bet_spec(bets@),
{
    let mut m: i32 = 0;
    let mut i: usize = 0;
    while i < bets.len()
        invariant
            0 <= i <= bets@.len(),
            m == max_bet_spec(bets@.take(i as int)),
        decreases bets@.len() - i,
    {
        assert(bets@.take(i as int + 1).drop_last() =~= bets@.take(i as int));
        if bets[i] > m {
            m = bets[i];
        }
        i = i + 1;
    }
    assert(bets@.take(bets@.len() as int) =~= bets@);
    m
}

/// What this client must add to call: the current bet (the larger of the
/// table's highest bet and the bet the server reports) less its own bet,
/// never below zero.
pub fn amount_to_call(max_bet_on_table: i32, state_bet: i32, my_bet: i32) -> (to_call: i32)
    requires
        i32::MIN <= (if max_bet_on_table > state_bet {
            max_bet_on_table
        } else {
            state_bet
        }) - my_bet <= i32::MAX,
    ensures
        ({
            let current = if max_bet_on_table > state_bet {
                max_bet_on_table as int
            } else {
                state_bet as int
            };
            to_call == if current - my_bet > 0 {
                current - my_bet
            } else {
                0
            }
        }),
{
    let current = if max_bet_on_table > state_bet {
        max_bet_on_table
    } else {
        state_bet
    };
    let diff = current - my_bet;
    if diff > 0 {
        diff
    } else {
        0
    }
}

/// `needle` occurs in `hay` starting at position `i`.
pub open spec fn occurs_at(hay: Seq<char>, needle: Seq<char>, i: int) -> bool {
    0 <= i && i + needle.len() <= hay.len() && hay.subrange(i, i + needle.len()) == needle
}

/// `needle` occurs somewhere in `hay`.
pub open spec fn text_contains(hay: Seq<char>, needle: Seq<char>) -> bool {
    exists|i: int| #[trigger] occurs_at(hay, needle, i)
}

/// Whether `needle` occurs in `hay`, as `str::contains` with a text pattern.
pub fn contains_text(hay: &str, needle: &str) -> (r: bool)
    ensures
        r == text_contains(hay@, needle@),
{
    let n = hay.unicode_len();
    let m = needle.unicode_len();
    if m > n {
        assert forall|i: int| !#[trigger] occurs_at(hay@, needle@, i) by {}
        return false;
    }
    let mut i: usize = 0;
    while i <= n - m
        invariant
            n == hay@.len(),
            m == needle@.len(),
            m <= n,
            0 <= i <= n - m + 1,
            forall|k: int| 0 <= k < i ==> !#[trigger] occurs_at(hay@, needle@, k),
        decreases n - m + 1 - i,
    {
        let mut j: usize = 0;
        let mut same = true;
        while j < m
            invariant
                n == hay@.len(),
                m == needle@.len(),
                i + m <= n,
                0 <= j <= m,
                same == (forall|k: int| 0 <= k < j ==> hay@[i + k] == needle@[k]),
            decreases m - j,
        {
            if hay.get_char(i + j) != needle.get_char(j) {
                same = false;
            }
            j = j + 1;
        }
        if same {
            assert(hay@.subrange(i as int, i + m) =~= needle@);
            assert(occurs_at(hay@, needle@, i as int));
            return true;
        }
        assert(!occurs_at(hay@, needle@, i as int)) by {
            if hay@.subrange(i as int, i + m) == needle@ {
                assert forall|k: int| 0 <= k < m implies hay@[i + k] == needle@[k] by {
                    assert(hay@.subrange(i as int, i + m)[k] == hay@[i + k]);
                }
            }
        }
        i = i + 1;
    }
    assert forall|i: int| !#[trigger] occurs_at(hay@, needle@, i) by {}
    false
}

pub open spec fn phrase_cannot_check() -> Seq<char> {
    seq!['c', 'a', 'n', 'n', 'o', 't', ' ', 'c', 'h', 'e', 'c', 'k']
}

/// After the server rejects a move: retry as a call when the rejected move
/// was a check and the server's reply mentions "cannot check" or "call".
pub fn retry_as_call(chosen: &str, err_text: &str) -> (retry: bool)
    ensures
        retry == (chosen@ == word_check() && (text_contains(err_text@, phrase_cannot_check())
            || text_contains(err_text@, word_call()))),
{
    proof {
        reveal_strlit("check");
        reveal_strlit("cannot check");
        reveal_strlit("call");
        assert("check"@ =~= word_check());
        assert("cannot check"@ =~= phrase_cannot_check());
        assert("call"@ =~= word_call());
    }
    let is_check = same_text(chosen, "check");
    is_check && (contains_text(err_text, "cannot check") || contains_text(err_text, "call"))
}

/// Whether two texts are equal.
fn same_text(a: &str, b: &str) -> (r: bool)
    ensures
        r == (a@ == b@),
{
    let n = a.unicode_len();
    if n != b.unicode_len() {
        return false;
    }
    let mut i: usize = 0;
    while i < n
        invariant
            n == a@.len(),
            n == b@.len(),
            0 <= i <= n,
            forall|k: int| 0 <= k < i ==> a@[k] == b@[k],
        decreases n - i,
    {
        if a.get_char(i) != b.get_char(i) {
            return false;
        }
        i = i + 1;
    }
    assert(a@ =~= b@);
    true
}

} // verus!
