//! The Hold'em room: membership, the event fold, and action validation.
//!
//! Money is `i64` as in the events; a step whose arithmetic would leave
//! `i64` (or a hand number that would leave `u32`) is outside what the room
//! handles, and the contracts say exactly which steps those are.
use vstd::prelude::*;
use crate::lobby::{
    chat_verdict, clone_players, event, find_player, fold_host_changed, fold_joined, fold_left,
    append_events, index_of, join_verdict, leave_verdict, lobby_host_changed, lobby_joined,
    lobby_left,
    start_check, start_refusal, validate_chat, validate_join, validate_leave, verdict_view,
    EventView, Lobby, RoomSnapshot, VerdictView,
};
use crate::poker::{
    card_name, card_of, card_to_str, deal_deck, dealt, evaluate, hand_seed, hand_value,
    law_dealt_is_deck, parse_card, seed_for_hand,
};
use crate::text::{
    dec, int_dec, parse_signed, parse_unsigned, push_dec, push_int, push_str, str_is, string_of,
    tokens, trim, word_i64, word_is, word_string, word_unsigned, words_of, words_view,
};

verus! {

pub const MAX_PLAYERS: usize = 2;

pub const DEFAULT_HANDS: u32 = 10;

pub const DEFAULT_STACK: i64 = 1000;

pub const DEFAULT_SMALL_BLIND: i64 = 10;

#[derive(Debug, Clone, Copy, PartialEq, Eq, Structural)]
pub enum Phase {
    Lobby,
    Playing,
    Finished,
}

#[derive(Debug, Clone, Copy, PartialEq, Eq, Structural)]
pub enum Street {
    Preflop,
    Flop,
    Turn,
    River,
    /// The hand is over; the next `HAND_STARTED` opens another.
    Settled,
}

#[derive(Debug, Clone)]
pub struct State {
    pub phase: Phase,
    pub players: Vec<String>,
    pub host: Option<String>,
    pub num_hands: u32,
    pub starting_stack: i64,
    pub small_blind: i64,
    pub stacks: [i64; 2],
    pub hand_no: u32,
    pub dealer: u8,
    pub street: Street,
    /// Each player's two hole cards.
    pub hole: [Option<(u8, u8)>; 2],
    /// Community cards dealt so far.
    pub board: Vec<u8>,
    /// What each player has put in on this street.
    pub bet_in_street: [i64; 2],
    /// What each player has put in this hand.
    pub committed: [i64; 2],
    pub folded: [bool; 2],
    pub all_in: [bool; 2],
    /// Whether each player has acted on this street since the last raise.
    pub acted_this_street: [bool; 2],
    /// The last raise increment on this street (the minimum next raise).
    pub last_raise_size: i64,
    /// Whose turn it is on the current street.
    pub to_act: u8,
    /// Grows with every hand, so that each hand gets a fresh deck.
    pub seed_salt: u64,
}

pub struct Poker;

pub struct StateView {
    pub phase: Phase,
    pub players: Seq<Seq<char>>,
    pub host: Option<Seq<char>>,
    pub num_hands: u32,
    pub starting_stack: i64,
    pub small_blind: i64,
    pub stacks: Seq<i64>,
    pub hand_no: u32,
    pub dealer: u8,
    pub street: Street,
    pub hole: Seq<Option<(u8, u8)>>,
    pub board: Seq<u8>,
    pub bet: Seq<i64>,
    pub committed: Seq<i64>,
    pub folded: Seq<bool>,
    pub all_in: Seq<bool>,
    pub acted: Seq<bool>,
    pub last_raise: i64,
    pub to_act: u8,
    pub seed_salt: u64,
}

impl View for State {
    type V = StateView;

    open spec fn view(&self) -> StateView {
        StateView {
            phase: self.phase,
            players: self.players.deep_view(),
            host: self.host.deep_view(),
            num_hands: self.num_hands,
            starting_stack: self.starting_stack,
            small_blind: self.small_blind,
            stacks: self.stacks@,
            hand_no: self.hand_no,
            dealer: self.dealer,
            street: self.street,
            hole: self.hole@,
            board: self.board@,
            bet: self.bet_in_street@,
            committed: self.committed@,
            folded: self.folded@,
            all_in: self.all_in@,
            acted: self.acted_this_street@,
            last_raise: self.last_raise_size,
            to_act: self.to_act,
            seed_salt: self.seed_salt,
        }
    }
}

impl StateView {
    pub open spec fn lobby(self) -> Lobby {
        Lobby { players: self.players, host: self.host }
    }

    pub open spec fn with_lobby(self, l: Lobby) -> StateView {
        StateView { players: l.players, host: l.host, ..self }
    }

    pub open spec fn pot(self) -> int {
        self.committed[0] + self.committed[1]
    }

    pub open spec fn bb(self) -> int {
        self.small_blind * 2
    }

    pub open spec fn max_bet(self) -> int {
        if self.bet[0] >= self.bet[1] {
            self.bet[0] as int
        } else {
            self.bet[1] as int
        }
    }
}

pub open spec fn fits(x: int) -> bool {
    i64::MIN <= x <= i64::MAX
}

pub open spec fn min(a: int, b: int) -> int {
    if a <= b {
        a
    } else {
        b
    }
}

pub open spec fn max(a: int, b: int) -> int {
    if a >= b {
        a
    } else {
        b
    }
}

pub open spec fn no2() -> Seq<bool> {
    seq![false, false]
}

pub open spec fn zero2() -> Seq<i64> {
    seq![0i64, 0i64]
}

pub open spec fn initial_state() -> StateView {
    StateView {
        phase: Phase::Lobby,
        players: seq![],
        host: None,
        num_hands: DEFAULT_HANDS,
        starting_stack: DEFAULT_STACK,
        small_blind: DEFAULT_SMALL_BLIND,
        stacks: seq![DEFAULT_STACK, DEFAULT_STACK],
        hand_no: 0,
        dealer: 0,
        street: Street::Settled,
        hole: seq![None, None],
        board: seq![],
        bet: zero2(),
        committed: zero2(),
        folded: no2(),
        all_in: no2(),
        acted: no2(),
        last_raise: 0,
        to_act: 0,
        seed_salt: 0,
    }
}

/// At most two members; every card on the board or in a hand is a card.
pub open spec fn well_formed(s: StateView) -> bool {
    &&& s.players.len() <= MAX_PLAYERS
    &&& forall|i: int| 0 <= i < s.board.len() ==> #[trigger] s.board[i] < 52
    &&& forall|i: int|
        0 <= i < 2 ==> (#[trigger] s.hole[i] matches Some((a, b)) ==> a < 52 && b < 52)
}

// ---------------------------------------------------------------------------
// The fold
// ---------------------------------------------------------------------------

/// `START` parameters: hands, stack and small blind, each with its default
/// when missing or unreadable, then raised to at least 1, 2 and 1.
pub open spec fn start_params(payload: Seq<char>) -> (u32, i64, i64) {
    let parts = tokens(payload);
    let n = if parts.len() > 0 {
        match parse_unsigned(parts[0], u32::MAX as nat) {
            Some(v) => v as int,
            None => DEFAULT_HANDS as int,
        }
    } else {
        DEFAULT_HANDS as int
    };
    let stack = if parts.len() > 1 {
        match parse_signed(parts[1], i64::MIN as int, i64::MAX as int) {
            Some(v) => v,
            None => DEFAULT_STACK as int,
        }
    } else {
        DEFAULT_STACK as int
    };
    let sb = if parts.len() > 2 {
        match parse_signed(parts[2], i64::MIN as int, i64::MAX as int) {
            Some(v) => v,
            None => DEFAULT_SMALL_BLIND as int,
        }
    } else {
        DEFAULT_SMALL_BLIND as int
    };
    (max(n, 1) as u32, max(stack, 2) as i64, max(sb, 1) as i64)
}

pub open spec fn started_spec(s: StateView, payload: Seq<char>) -> StateView {
    let (n, stack, sb) = start_params(payload);
    StateView {
        num_hands: n,
        starting_stack: stack,
        small_blind: sb,
        stacks: seq![stack, stack],
        phase: Phase::Playing,
        hand_no: 0,
        dealer: 0,
        street: Street::Settled,
        seed_salt: 0,
        ..s
    }
}

/// `a + b` wrapping around at 2^64.
pub open spec fn wrap_add(a: u64, b: int) -> u64 {
    if a + b > u64::MAX {
        (a + b - 0x1_0000_0000_0000_0000) as u64
    } else {
        (a + b) as u64
    }
}

/// A fresh hand: nothing bet, nothing on the board, the dealer to act.
pub open spec fn hand_reset(s: StateView, hand_no: u32, dealer: u8) -> StateView {
    StateView {
        hand_no,
        dealer,
        seed_salt: wrap_add(s.seed_salt, hand_no as int),
        street: Street::Preflop,
        board: seq![],
        bet: zero2(),
        committed: zero2(),
        folded: no2(),
        all_in: no2(),
        acted: no2(),
        last_raise: 0,
        ..s
    }
}

/// `HAND_STARTED <hand> <dealer> <c0a> <c0b> <c1a> <c1b>`: a new hand; each
/// player's hole cards are replaced when both of them read as cards.
pub open spec fn hand_started_spec(s: StateView, payload: Seq<char>) -> StateView {
    let parts = tokens(payload);
    if parts.len() < 6 {
        s
    } else {
        let hand_no = match parse_unsigned(parts[0], u32::MAX as nat) {
            Some(v) => v as u32,
            None => 0u32,
        };
        let dealer = match parse_unsigned(parts[1], u8::MAX as nat) {
            Some(v) => v as u8,
            None => 0u8,
        };
        let r = hand_reset(s, hand_no, dealer);
        let h0 = match (card_of(parts[2]), card_of(parts[3])) {
            (Some(a), Some(b)) => Some((a, b)),
            _ => s.hole[0],
        };
        let h1 = match (card_of(parts[4]), card_of(parts[5])) {
            (Some(a), Some(b)) => Some((a, b)),
            _ => s.hole[1],
        };
        StateView { hole: seq![h0, h1], to_act: dealer, ..r }
    }
}

/// The cards among `words` (other words are skipped).
pub open spec fn cards_in(words: Seq<Seq<char>>) -> Seq<u8>
    decreases words.len(),
{
    if words.len() == 0 {
        seq![]
    } else {
        cards_in(words.drop_last()) + match card_of(words.last()) {
            Some(c) => seq![c],
            None => seq![],
        }
    }
}

pub open spec fn street_named(w: Seq<char>) -> Option<Street> {
    if w == "flop"@ {
        Some(Street::Flop)
    } else if w == "turn"@ {
        Some(Street::Turn)
    } else if w == "river"@ {
        Some(Street::River)
    } else {
        None
    }
}

/// `STREET <flop|turn|river> <cards>`: the cards join the board, bets reset,
/// and the player after the dealer acts first.
pub open spec fn street_spec(s: StateView, payload: Seq<char>) -> StateView {
    let parts = tokens(payload);
    if parts.len() == 0 {
        s
    } else {
        match street_named(parts[0]) {
            None => s,
            Some(st) => StateView {
                street: st,
                board: s.board + cards_in(parts.drop_first()),
                bet: zero2(),
                acted: no2(),
                last_raise: 0,
                to_act: (1 - s.dealer) as u8,
                ..s
            },
        }
    }
}

/// The fold's `STREET` step needs a dealer that is 0 or 1.
pub open spec fn street_ok(s: StateView, payload: Seq<char>) -> bool {
    let parts = tokens(payload);
    parts.len() > 0 && street_named(parts[0]) is Some ==> s.dealer <= 1
}

/// Player `i` pays `pay` into the pot on this street.
pub open spec fn pay_in(s: StateView, i: int, pay: int) -> StateView {
    let st = s.stacks[i] - pay;
    StateView {
        stacks: s.stacks.update(i, st as i64),
        committed: s.committed.update(i, (s.committed[i] + pay) as i64),
        bet: s.bet.update(i, (s.bet[i] + pay) as i64),
        all_in: if st == 0 {
            s.all_in.update(i, true)
        } else {
            s.all_in
        },
        ..s
    }
}

pub open spec fn pay_in_ok(s: StateView, i: int, pay: int) -> bool {
    fits(s.stacks[i] - pay) && fits(s.committed[i] + pay) && fits(s.bet[i] + pay)
}

/// One player's betting action `verb` with `amount`.
pub open spec fn verb_spec(s: StateView, i: int, verb: Seq<char>, amount: int) -> StateView {
    let other = (1 - i) as u8;
    if verb == "POST"@ {
        if s.committed[i] == 0 {
            let pay = min(amount, s.stacks[i] as int);
            let st = s.stacks[i] - pay;
            let s1 = StateView {
                stacks: s.stacks.update(i, st as i64),
                committed: s.committed.update(i, pay as i64),
                bet: s.bet.update(i, pay as i64),
                all_in: if st == 0 {
                    s.all_in.update(i, true)
                } else {
                    s.all_in
                },
                ..s
            };
            StateView {
                last_raise: if pay > s.last_raise {
                    s.bb() as i64
                } else {
                    s.last_raise
                },
                to_act: s.dealer,
                ..s1
            }
        } else {
            s
        }
    } else if verb == "FOLD"@ {
        StateView { folded: s.folded.update(i, true), acted: s.acted.update(i, true), ..s }
    } else if verb == "CHECK"@ {
        StateView { acted: s.acted.update(i, true), to_act: other, ..s }
    } else if verb == "CALL"@ {
        let s1 = pay_in(s, i, min(amount, s.stacks[i] as int));
        StateView { acted: s.acted.update(i, true), to_act: other, ..s1 }
    } else if verb == "BET"@ {
        let pay = min(amount, s.stacks[i] as int);
        let s1 = pay_in(s, i, pay);
        StateView { last_raise: pay as i64, acted: no2().update(i, true), to_act: other, ..s1 }
    } else if verb == "RAISE"@ {
        let pay = min(max(amount - s.bet[i], 0), s.stacks[i] as int);
        let s1 = pay_in(s, i, pay);
        let inc = s1.bet[i] - s.max_bet();
        let reopen = inc >= s.last_raise;
        StateView {
            last_raise: if reopen {
                inc as i64
            } else {
                s.last_raise
            },
            acted: if reopen {
                no2().update(i, true)
            } else {
                s.acted.update(i, true)
            },
            to_act: other,
            ..s1
        }
    } else if verb == "ALLIN"@ {
        let pay = min(amount, s.stacks[i] as int);
        let s1 = pay_in(s, i, pay);
        let inc = s1.bet[i] - s.max_bet();
        let reopen = inc > 0 && inc >= s.last_raise;
        StateView {
            last_raise: if reopen {
                inc as i64
            } else {
                s.last_raise
            },
            acted: if reopen {
                no2().update(i, true)
            } else {
                s.acted.update(i, true)
            },
            all_in: s1.all_in.update(i, true),
            to_act: other,
            ..s1
        }
    } else {
        s
    }
}

/// Where the action's arithmetic stays within `i64`.
pub open spec fn verb_ok(s: StateView, i: int, verb: Seq<char>, amount: int) -> bool {
    let pay = min(amount, s.stacks[i] as int);
    if verb == "POST"@ {
        s.committed[i] == 0 ==> fits(s.stacks[i] - pay) && (pay > s.last_raise ==> fits(s.bb()))
    } else if verb == "CALL"@ || verb == "BET"@ {
        pay_in_ok(s, i, pay)
    } else if verb == "RAISE"@ {
        fits(amount - s.bet[i]) && {
            let p = min(max(amount - s.bet[i], 0), s.stacks[i] as int);
            pay_in_ok(s, i, p) && fits(s.bet[i] + p - s.max_bet())
        }
    } else if verb == "ALLIN"@ {
        pay_in_ok(s, i, pay) && fits(s.bet[i] + pay - s.max_bet())
    } else {
        true
    }
}

/// The amount word of an action: the third word as an `i64`, else 0.
pub open spec fn amount_of(parts: Seq<Seq<char>>) -> int {
    if parts.len() > 2 {
        match parse_signed(parts[2], i64::MIN as int, i64::MAX as int) {
            Some(a) => a,
            None => 0,
        }
    } else {
        0
    }
}

/// `ACTION <pid> <verb> [amount]`.
pub open spec fn action_spec(s: StateView, payload: Seq<char>) -> StateView {
    let parts = tokens(payload);
    if parts.len() < 2 {
        s
    } else {
        match index_of(s.players, parts[0]) {
            None => s,
            Some(i) => verb_spec(s, i as int, parts[1], amount_of(parts)),
        }
    }
}

pub open spec fn action_ok(s: StateView, payload: Seq<char>) -> bool {
    let parts = tokens(payload);
    parts.len() >= 2 ==> match index_of(s.players, parts[0]) {
        None => true,
        Some(i) => verb_ok(s, i as int, parts[1], amount_of(parts)),
    }
}

/// `HAND_END <winner> <chips0> <chips1> <reason>`: the chip counts (when both
/// read) become the stacks and the hand is cleared.
pub open spec fn hand_end_spec(s: StateView, payload: Seq<char>) -> StateView {
    let parts = tokens(payload);
    if parts.len() < 3 {
        s
    } else {
        let stacks = match (
            parse_signed(parts[1], i64::MIN as int, i64::MAX as int),
            parse_signed(parts[2], i64::MIN as int, i64::MAX as int),
        ) {
            (Some(c0), Some(c1)) => seq![c0 as i64, c1 as i64],
            _ => s.stacks,
        };
        StateView {
            stacks,
            street: Street::Settled,
            committed: zero2(),
            bet: zero2(),
            folded: no2(),
            all_in: no2(),
            acted: no2(),
            board: seq![],
            last_raise: 0,
            ..s
        }
    }
}

/// `GAME_END <chips0> <chips1>`: the match is over.
pub open spec fn game_end_spec(s: StateView, payload: Seq<char>) -> StateView {
    let parts = tokens(payload);
    let stacks = if parts.len() == 2 {
        match (
            parse_signed(parts[0], i64::MIN as int, i64::MAX as int),
            parse_signed(parts[1], i64::MIN as int, i64::MAX as int),
        ) {
            (Some(c0), Some(c1)) => seq![c0 as i64, c1 as i64],
            _ => s.stacks,
        }
    } else {
        s.stacks
    };
    StateView { stacks, phase: Phase::Finished, ..s }
}

pub open spec fn fold_spec(s: StateView, kind: Seq<char>, payload: Seq<char>) -> StateView {
    if kind == "PLAYER_JOINED"@ {
        s.with_lobby(lobby_joined(s.lobby(), payload, MAX_PLAYERS as nat))
    } else if kind == "PLAYER_LEFT"@ {
        s.with_lobby(lobby_left(s.lobby(), payload))
    } else if kind == "HOST_CHANGED"@ {
        s.with_lobby(lobby_host_changed(s.lobby(), payload))
    } else if kind == "GAME_STARTED"@ {
        started_spec(s, payload)
    } else if kind == "HAND_STARTED"@ {
        hand_started_spec(s, payload)
    } else if kind == "STREET"@ {
        street_spec(s, payload)
    } else if kind == "ACTION"@ {
        action_spec(s, payload)
    } else if kind == "HAND_END"@ {
        hand_end_spec(s, payload)
    } else if kind == "GAME_END"@ {
        game_end_spec(s, payload)
    } else if kind == "WINNER"@ || kind == "DRAW"@ {
        StateView { phase: Phase::Finished, ..s }
    } else {
        s
    }
}

/// The events the fold takes without leaving `i64` or dividing by a
/// dealer that is no side.
pub open spec fn fold_ok(s: StateView, kind: Seq<char>, payload: Seq<char>) -> bool {
    if kind == "STREET"@ {
        street_ok(s, payload)
    } else if kind == "ACTION"@ {
        action_ok(s, payload)
    } else {
        true
    }
}


// ---------------------------------------------------------------------------
// Dealing hands and streets
// ---------------------------------------------------------------------------

pub open spec fn next_dealer(s: StateView) -> u8 {
    if s.hand_no == 0 {
        0
    } else {
        (1 - s.dealer) as u8
    }
}

/// The deck of the hand that follows `s`.
pub open spec fn next_deck(s: StateView) -> Seq<u8> {
    let next = (s.hand_no + 1) as u32;
    dealt(hand_seed(s.players, next, wrap_add(s.seed_salt, next as int)))
}

/// `HAND_STARTED` for the hand after `s`: its number, its dealer and the
/// four hole cards (the first four cards of its deck).
pub open spec fn hand_started_event(s: StateView) -> EventView {
    let d = next_deck(s);
    (
        "HAND_STARTED"@,
        dec((s.hand_no + 1) as nat) + " "@ + dec(next_dealer(s) as nat) + " "@ + card_name(d[0] as int)
            + " "@ + card_name(d[1] as int) + " "@ + card_name(d[2] as int) + " "@ + card_name(
            d[3] as int,
        ),
    )
}

pub open spec fn next_hand_ok(s: StateView) -> bool {
    s.hand_no < u32::MAX && (s.hand_no != 0 ==> s.dealer <= 1)
}

/// The state once the next hand has started and both blinds are posted:
/// the dealer posts the small blind and the other player the big blind, each
/// at most their stack, and the dealer acts first.
pub open spec fn blinds_state(s: StateView) -> StateView {
    let next = (s.hand_no + 1) as u32;
    let nd = next_dealer(s);
    let r = hand_reset(s, next, nd);
    let d = next_deck(s);
    let sbp = min(s.small_blind as int, s.stacks[nd as int] as int);
    let bbi = 1 - nd;
    let bba = min(s.bb(), s.stacks[bbi] as int);
    let st_sb = s.stacks[nd as int] - sbp;
    let st_bb = s.stacks[bbi] - bba;
    StateView {
        hole: seq![Some((d[0], d[1])), Some((d[2], d[3]))],
        stacks: s.stacks.update(nd as int, st_sb as i64).update(bbi, st_bb as i64),
        committed: zero2().update(nd as int, sbp as i64).update(bbi, bba as i64),
        bet: zero2().update(nd as int, sbp as i64).update(bbi, bba as i64),
        last_raise: s.bb() as i64,
        all_in: no2().update(nd as int, st_sb == 0).update(bbi, st_bb == 0),
        to_act: nd,
        ..r
    }
}

/// The blind postings and the pot that follow `HAND_STARTED`.
pub open spec fn blinds_events(s: StateView) -> Seq<EventView> {
    let nd = next_dealer(s) as int;
    let sbp = min(s.small_blind as int, s.stacks[nd] as int);
    let bba = min(s.bb(), s.stacks[1 - nd] as int);
    seq![
        ("ACTION"@, s.players[nd] + " POST "@ + int_dec(sbp)),
        ("ACTION"@, s.players[1 - nd] + " POST "@ + int_dec(bba)),
        ("POT"@, int_dec(sbp + bba)),
    ]
}

pub open spec fn blinds_ok(s: StateView) -> bool {
    let nd = next_dealer(s) as int;
    let sbp = min(s.small_blind as int, s.stacks[nd] as int);
    let bba = min(s.bb(), s.stacks[1 - nd] as int);
    &&& next_hand_ok(s)
    &&& s.players.len() >= 2
    &&& fits(s.bb())
    &&& fits(s.stacks[nd] - sbp)
    &&& fits(s.stacks[1 - nd] - bba)
    &&& fits(sbp + bba)
}

/// The community cards that open `st`, from the current hand's deck:
/// the flop is cards 5-7, the turn card 9 and the river card 11.
pub open spec fn street_cards(s: StateView, st: Street) -> Seq<u8> {
    let d = dealt(hand_seed(s.players, s.hand_no, s.seed_salt));
    match st {
        Street::Flop => seq![d[5], d[6], d[7]],
        Street::Turn => seq![d[9]],
        _ => seq![d[11]],
    }
}

pub open spec fn street_word(st: Street) -> Seq<char> {
    match st {
        Street::Flop => "flop"@,
        Street::Turn => "turn"@,
        _ => "river"@,
    }
}

/// Card names separated by single spaces, each preceded by one.
pub open spec fn card_list(cs: Seq<u8>) -> Seq<char>
    decreases cs.len(),
{
    if cs.len() == 0 {
        seq![]
    } else {
        card_list(cs.drop_last()) + " "@ + card_name(cs.last() as int)
    }
}

pub open spec fn street_event(s: StateView, st: Street) -> EventView {
    ("STREET"@, street_word(st) + card_list(street_cards(s, st)))
}

// ---------------------------------------------------------------------------
// Settling hands
// ---------------------------------------------------------------------------

/// `pot / 2` rounded toward zero, as `i64` division does.
pub open spec fn half(pot: int) -> int {
    if pot >= 0 {
        pot / 2
    } else {
        -((-pot) / 2)
    }
}

/// The stacks after the pot goes to `winner`, or is split.
pub open spec fn paid_stacks(s: StateView, winner: Option<u8>) -> Seq<i64> {
    let pot = s.pot();
    match winner {
        Some(w) => s.stacks.update(w as int, (s.stacks[w as int] + pot) as i64),
        None => seq![(s.stacks[0] + half(pot)) as i64, (s.stacks[1] + (pot - half(pot))) as i64],
    }
}

pub open spec fn paid_ok(s: StateView, winner: Option<u8>) -> bool {
    let pot = s.pot();
    fits(pot) && match winner {
        Some(w) => fits(s.stacks[w as int] + pot),
        None => fits(s.stacks[0] + half(pot)) && fits(pot - half(pot)) && fits(
            s.stacks[1] + (pot - half(pot)),
        ),
    }
}

/// The hand is over: pot paid out, bets cleared.
pub open spec fn settled_state(s: StateView, winner: Option<u8>) -> StateView {
    StateView {
        stacks: paid_stacks(s, winner),
        street: Street::Settled,
        committed: zero2(),
        bet: zero2(),
        ..s
    }
}

/// The match is over when a player is bust or the last hand is played.
pub open spec fn match_over(s: StateView) -> bool {
    s.stacks[0] == 0 || s.stacks[1] == 0 || s.hand_no >= s.num_hands
}

/// `GAME_END` with the final stacks, then `WINNER` for the larger stack or
/// `DRAW` for equal stacks.
pub open spec fn game_end_events(s: StateView) -> Seq<EventView> {
    seq![("GAME_END"@, int_dec(s.stacks[0] as int) + " "@ + int_dec(s.stacks[1] as int))] + if s.stacks[0]
        > s.stacks[1] {
        seq![("WINNER"@, "0"@)]
    } else if s.stacks[1] > s.stacks[0] {
        seq![("WINNER"@, "1"@)]
    } else {
        seq![("DRAW"@, Seq::<char>::empty())]
    }
}

/// What follows a settled hand: the end of the match, or the next hand.
pub open spec fn after_hand(s: StateView) -> Seq<EventView> {
    if match_over(s) {
        game_end_events(s)
    } else {
        seq![hand_started_event(s)] + blinds_events(s)
    }
}

pub open spec fn after_hand_ok(s: StateView) -> bool {
    !match_over(s) ==> blinds_ok(s)
}

pub open spec fn winner_word(winner: Option<u8>) -> Seq<char> {
    match winner {
        Some(w) => dec(w as nat),
        None => "-1"@,
    }
}

/// `HAND_END <winner|-1> <chips0> <chips1> <reason>` and what follows it.
pub open spec fn settle_events(s: StateView, winner: Option<u8>, reason: Seq<char>) -> Seq<EventView> {
    let t = settled_state(s, winner);
    seq![
        (
            "HAND_END"@,
            winner_word(winner) + " "@ + int_dec(t.stacks[0] as int) + " "@ + int_dec(
                t.stacks[1] as int,
            ) + " "@ + reason,
        ),
    ] + after_hand(t)
}

pub open spec fn settle_ok(s: StateView, winner: Option<u8>) -> bool {
    paid_ok(s, winner) && after_hand_ok(settled_state(s, winner))
}

/// A player's seven (or fewer) cards: hole cards, then the board.
pub open spec fn cards_of(s: StateView, i: int) -> Seq<u8> {
    match s.hole[i] {
        Some((a, b)) => seq![a, b] + s.board,
        None => s.board,
    }
}

pub open spec fn showdown_value(cs: Seq<u8>) -> int {
    if cs.len() >= 5 {
        hand_value(cs)
    } else {
        0
    }
}

/// The better hand takes the pot; equal hands split it.
pub open spec fn showdown_winner(s: StateView) -> Option<u8> {
    let r0 = showdown_value(cards_of(s, 0));
    let r1 = showdown_value(cards_of(s, 1));
    if r0 > r1 {
        Some(0)
    } else if r1 > r0 {
        Some(1)
    } else {
        None
    }
}

pub open spec fn showdown_events(s: StateView) -> Seq<EventView> {
    let w = showdown_winner(s);
    settle_events(s, w, if w is Some { "SHOWDOWN"@ } else { "SPLIT"@ })
}

/// A hand can be evaluated when it has at most seven cards.
pub open spec fn showdown_ok(s: StateView) -> bool {
    &&& (cards_of(s, 0).len() >= 5 ==> cards_of(s, 0).len() <= 7)
    &&& (cards_of(s, 1).len() >= 5 ==> cards_of(s, 1).len() <= 7)
    &&& settle_ok(s, showdown_winner(s))
}

// ---------------------------------------------------------------------------
// After an action
// ---------------------------------------------------------------------------

/// The betting round is closed: a player folded, both are all in, or the
/// bets match and (unless one player is all in) both have acted.
pub open spec fn round_closed(s: StateView) -> bool {
    let both_matched = s.bet[0] == s.max_bet() && s.bet[1] == s.max_bet();
    if s.folded[0] || s.folded[1] {
        true
    } else if s.all_in[0] && s.all_in[1] {
        true
    } else if s.all_in[0] || s.all_in[1] {
        both_matched
    } else {
        both_matched && s.acted[0] && s.acted[1]
    }
}

pub open spec fn next_street(st: Street) -> Street {
    match st {
        Street::Preflop => Street::Flop,
        Street::Flop => Street::Turn,
        _ => Street::River,
    }
}

/// The state once the next street is dealt.
pub open spec fn dealt_street(s: StateView) -> StateView {
    let st = next_street(s.street);
    StateView {
        street: st,
        board: s.board + street_cards(s, st),
        bet: zero2(),
        acted: no2(),
        last_raise: 0,
        ..s
    }
}

/// The events that follow an action, for at most `fuel` more betting rounds:
/// a fold settles the hand; a closed round deals the next street (and a
/// closed river goes to showdown); with both players all in the streets run
/// out to showdown.
pub open spec fn resolve_events(s: StateView, fuel: nat) -> Seq<EventView>
    decreases fuel,
{
    if fuel == 0 {
        seq![]
    } else if s.folded[0] || s.folded[1] {
        settle_events(s, Some(if s.folded[0] { 1u8 } else { 0u8 }), "FOLD"@)
    } else if !round_closed(s) {
        seq![]
    } else {
        let s1 = StateView { bet: zero2(), acted: no2(), last_raise: 0, ..s };
        match s.street {
            Street::River => showdown_events(s1),
            Street::Settled => seq![],
            _ => {
                let s3 = dealt_street(s1);
                let evs = seq![street_event(s1, s3.street), ("POT"@, int_dec(s3.pot()))];
                if s.all_in[0] && s.all_in[1] {
                    evs + resolve_events(s3, (fuel - 1) as nat)
                } else {
                    evs
                }
            },
        }
    }
}

pub open spec fn resolve_ok(s: StateView, fuel: nat) -> bool
    decreases fuel,
{
    if fuel == 0 {
        true
    } else if s.folded[0] || s.folded[1] {
        settle_ok(s, Some(if s.folded[0] { 1u8 } else { 0u8 }))
    } else if !round_closed(s) {
        true
    } else {
        let s1 = StateView { bet: zero2(), acted: no2(), last_raise: 0, ..s };
        match s.street {
            Street::River => showdown_ok(s1),
            Street::Settled => true,
            _ => {
                let s3 = dealt_street(s1);
                &&& fits(s3.pot())
                &&& if s.all_in[0] && s.all_in[1] {
                    resolve_ok(s3, (fuel - 1) as nat)
                } else {
                    s.dealer <= 1
                }
            },
        }
    }
}

// ---------------------------------------------------------------------------
// Validation
// ---------------------------------------------------------------------------

pub open spec fn is_poker_action(kind: Seq<char>) -> bool {
    kind == "FOLD"@ || kind == "CHECK"@ || kind == "CALL"@ || kind == "BET"@ || kind == "RAISE"@
        || kind == "ALLIN"@
}

/// The `ACTION` payload for player `i`'s `kind`, or the refusal.
pub open spec fn action_check(s: StateView, i: int, kind: Seq<char>, payload: Seq<char>) -> Result<
    Seq<char>,
    Seq<char>,
> {
    if s.phase != Phase::Playing {
        Err("not playing"@)
    } else if s.street == Street::Settled {
        Err("between hands"@)
    } else if s.to_act != i {
        Err("not your turn"@)
    } else if s.folded[i] {
        Err("you have folded"@)
    } else if s.all_in[i] {
        Err("you are all-in"@)
    } else {
        let pid = s.players[i];
        let to_call = s.max_bet() - s.bet[i];
        let stack = s.stacks[i] as int;
        if kind == "FOLD"@ {
            Ok(pid + " FOLD"@)
        } else if kind == "CHECK"@ {
            if to_call != 0 {
                Err("cannot check, there is a bet to call"@)
            } else {
                Ok(pid + " CHECK"@)
            }
        } else if kind == "CALL"@ {
            if to_call == 0 {
                Err("nothing to call"@)
            } else {
                Ok(pid + " CALL "@ + int_dec(min(to_call, stack)))
            }
        } else if kind == "BET"@ {
            if s.max_bet() != 0 {
                Err("there is already a bet; use RAISE"@)
            } else {
                match parse_signed(trim(payload), i64::MIN as int, i64::MAX as int) {
                    None => Err("bad bet amount"@),
                    Some(amt) => if amt < s.bb() {
                        Err("bet must be at least the big blind"@)
                    } else if amt > stack {
                        Err("bet exceeds stack"@)
                    } else {
                        Ok(pid + " BET "@ + int_dec(amt))
                    },
                }
            }
        } else if kind == "RAISE"@ {
            if s.max_bet() == 0 {
                Err("nothing to raise; use BET"@)
            } else {
                match parse_signed(trim(payload), i64::MIN as int, i64::MAX as int) {
                    None => Err("bad raise amount"@),
                    Some(to_amt) => {
                        let min_inc = max(s.last_raise as int, s.bb());
                        if to_amt - s.max_bet() < min_inc {
                            Err("raise must be at least to "@ + int_dec(s.max_bet() + min_inc))
                        } else if to_amt - s.bet[i] > stack {
                            Err("raise exceeds stack; use ALLIN"@)
                        } else {
                            Ok(pid + " RAISE "@ + int_dec(to_amt))
                        }
                    },
                }
            }
        } else {
            if stack == 0 {
                Err("no chips to push"@)
            } else {
                Ok(pid + " ALLIN "@ + int_dec(stack))
            }
        }
    }
}

pub open spec fn action_check_ok(s: StateView, i: int, kind: Seq<char>, payload: Seq<char>) -> bool {
    let open = s.phase == Phase::Playing && s.street != Street::Settled && s.to_act == i && !s.folded[i]
        && !s.all_in[i];
    open ==> {
        &&& fits(s.max_bet() - s.bet[i])
        &&& (kind == "BET"@ && s.max_bet() == 0 && parse_signed(
            trim(payload),
            i64::MIN as int,
            i64::MAX as int,
        ) is Some ==> fits(s.bb()))
        &&& (kind == "RAISE"@ && s.max_bet() != 0 ==> match parse_signed(
            trim(payload),
            i64::MIN as int,
            i64::MAX as int,
        ) {
            None => true,
            Some(to_amt) => {
                let min_inc = max(s.last_raise as int, s.bb());
                &&& fits(to_amt - s.max_bet())
                &&& fits(s.bb())
                &&& (to_amt - s.max_bet() < min_inc ==> fits(s.max_bet() + min_inc))
                &&& (to_amt - s.max_bet() >= min_inc ==> fits(to_amt - s.bet[i]))
            },
        })
    }
}

/// `FOLD`, `CHECK`, `CALL`, `BET <amount>`, `RAISE <to>`, `ALLIN`: the
/// `ACTION`, the pot after it, and what the action sets off.
pub open spec fn poker_verdict(s: StateView, player: Seq<char>, kind: Seq<char>, payload: Seq<char>) -> VerdictView {
    match index_of(s.players, player) {
        None => Err("not in room"@),
        Some(i) => match action_check(s, i as int, kind, payload) {
            Err(e) => Err(e),
            Ok(p) => {
                let t = action_spec(s, p);
                Ok(seq![("ACTION"@, p), ("POT"@, int_dec(t.pot()))] + resolve_events(t, 16))
            },
        },
    }
}

pub open spec fn poker_ok(s: StateView, player: Seq<char>, kind: Seq<char>, payload: Seq<char>) -> bool {
    match index_of(s.players, player) {
        None => true,
        Some(i) => action_check_ok(s, i as int, kind, payload) && match action_check(
            s,
            i as int,
            kind,
            payload,
        ) {
            Err(_) => true,
            Ok(p) => {
                let t = action_spec(s, p);
                action_ok(s, p) && fits(t.pot()) && resolve_ok(t, 16)
            },
        },
    }
}

/// The state the first hand is dealt from after `START`.
pub open spec fn start_scratch(s: StateView, payload: Seq<char>) -> StateView {
    started_spec(s, payload)
}

pub open spec fn validate_spec(s: StateView, player: Seq<char>, kind: Seq<char>, payload: Seq<char>) -> VerdictView {
    if kind == "JOIN"@ {
        join_verdict(
            Lobby { players: s.players, host: None },
            s.phase == Phase::Lobby,
            player,
            MAX_PLAYERS as nat,
        )
    } else if kind == "LEAVE"@ {
        leave_verdict(s.lobby(), player)
    } else if kind == "CHAT"@ {
        chat_verdict(player, payload)
    } else if kind == "START"@ {
        match start_refusal(s.lobby(), s.phase == Phase::Lobby, player) {
            Some(e) => Err(e),
            None => {
                let (n, stack, sb) = start_params(payload);
                let t = start_scratch(s, payload);
                Ok(
                    seq![
                        ("GAME_STARTED"@, dec(n as nat) + " "@ + int_dec(stack as int) + " "@ + int_dec(
                            sb as int,
                        )),
                        hand_started_event(t),
                    ] + blinds_events(t),
                )
            },
        }
    } else if is_poker_action(kind) {
        poker_verdict(s, player, kind, payload)
    } else {
        Err("unknown action: "@ + kind)
    }
}

/// The actions whose handling stays within `i64` and `u32`, deals a next
/// hand only to two members, and evaluates hands of at most seven cards.
pub open spec fn validate_ok(s: StateView, player: Seq<char>, kind: Seq<char>, payload: Seq<char>) -> bool {
    if kind == "START"@ {
        start_refusal(s.lobby(), s.phase == Phase::Lobby, player) is None ==> blinds_ok(
            start_scratch(s, payload),
        )
    } else if is_poker_action(kind) {
        poker_ok(s, player, kind, payload)
    } else {
        true
    }
}


// ---------------------------------------------------------------------------
// Executable fold
// ---------------------------------------------------------------------------

impl Default for State {
    fn default() -> (s: State)
        ensures
            s@ == initial_state(),
    {
        let s = State {
            phase: Phase::Lobby,
            players: Vec::new(),
            host: None,
            num_hands: DEFAULT_HANDS,
            starting_stack: DEFAULT_STACK,
            small_blind: DEFAULT_SMALL_BLIND,
            stacks: [DEFAULT_STACK, DEFAULT_STACK],
            hand_no: 0,
            dealer: 0,
            street: Street::Settled,
            hole: [None, None],
            board: Vec::new(),
            bet_in_street: [0, 0],
            committed: [0, 0],
            folded: [false, false],
            all_in: [false, false],
            acted_this_street: [false, false],
            last_raise_size: 0,
            to_act: 0,
            seed_salt: 0,
        };
        proof {
            assert(s.players.deep_view() =~= Seq::<Seq<char>>::empty());
            assert(s@ =~= initial_state());
        }
        s
    }
}

/// Hands, stack and small blind from a `START` payload.
pub fn parse_start_params(payload: &str) -> (r: (u32, i64, i64))
    ensures
        r == start_params(payload@),
{
    let parts = words_of(payload);
    let n: u64 = if parts.len() > 0 {
        match word_unsigned(&parts, 0, u32::MAX as u64) {
            Some(v) => v,
            None => DEFAULT_HANDS as u64,
        }
    } else {
        DEFAULT_HANDS as u64
    };
    let stack: i64 = if parts.len() > 1 {
        match word_i64(&parts, 1) {
            Some(v) => v,
            None => DEFAULT_STACK,
        }
    } else {
        DEFAULT_STACK
    };
    let sb: i64 = if parts.len() > 2 {
        match word_i64(&parts, 2) {
            Some(v) => v,
            None => DEFAULT_SMALL_BLIND,
        }
    } else {
        DEFAULT_SMALL_BLIND
    };
    let n1: u32 = if n >= 1 {
        n as u32
    } else {
        1
    };
    let stack1: i64 = if stack >= 2 {
        stack
    } else {
        2
    };
    let sb1: i64 = if sb >= 1 {
        sb
    } else {
        1
    };
    (n1, stack1, sb1)
}

fn word_card(parts: &Vec<Vec<char>>, i: usize) -> (r: Option<u8>)
    requires
        i < parts.len(),
    ensures
        r == card_of(words_view(*parts)[i as int]),
{
    let w = word_string(parts, i);
    parse_card(w.as_str())
}

fn fold_started(state: &mut State, payload: &str)
    ensures
        final(state)@ == started_spec(old(state)@, payload@),
{
    let (n, stack, sb) = parse_start_params(payload);
    state.num_hands = n;
    state.starting_stack = stack;
    state.small_blind = sb;
    state.stacks = [stack, stack];
    state.phase = Phase::Playing;
    state.hand_no = 0;
    state.dealer = 0;
    state.street = Street::Settled;
    state.seed_salt = 0;
    proof {
        assert(state@ =~= started_spec(old(state)@, payload@));
    }
}

/// Clears the hand for `hand_no` dealt by `dealer`.
fn reset_hand(state: &mut State, hand_no: u32, dealer: u8)
    ensures
        final(state)@ == hand_reset(old(state)@, hand_no, dealer),
{
    state.hand_no = hand_no;
    state.dealer = dealer;
    state.seed_salt = state.seed_salt.wrapping_add(hand_no as u64);
    state.street = Street::Preflop;
    state.board = Vec::new();
    state.bet_in_street = [0, 0];
    state.committed = [0, 0];
    state.folded = [false, false];
    state.all_in = [false, false];
    state.acted_this_street = [false, false];
    state.last_raise_size = 0;
    proof {
        assert(state@ =~= hand_reset(old(state)@, hand_no, dealer));
    }
}

fn fold_hand_started(state: &mut State, payload: &str)
    requires
        well_formed(old(state)@),
    ensures
        final(state)@ == hand_started_spec(old(state)@, payload@),
        well_formed(final(state)@),
{
    let parts = words_of(payload);
    if parts.len() < 6 {
        return;
    }
    let hand_no: u32 = match word_unsigned(&parts, 0, u32::MAX as u64) {
        Some(v) => v as u32,
        None => 0,
    };
    let dealer: u8 = match word_unsigned(&parts, 1, u8::MAX as u64) {
        Some(v) => v as u8,
        None => 0,
    };
    let h0a = word_card(&parts, 2);
    let h0b = word_card(&parts, 3);
    let h1a = word_card(&parts, 4);
    let h1b = word_card(&parts, 5);
    reset_hand(state, hand_no, dealer);
    match (h0a, h0b) {
        (Some(a), Some(b)) => {
            state.hole[0] = Some((a, b));
        },
        _ => {},
    }
    match (h1a, h1b) {
        (Some(a), Some(b)) => {
            state.hole[1] = Some((a, b));
        },
        _ => {},
    }
    state.to_act = dealer;
    proof {
        assert(state.hole@ =~= hand_started_spec(old(state)@, payload@).hole);
        assert(state@ =~= hand_started_spec(old(state)@, payload@));
        if let Some(c) = card_of(words_view(parts)[2]) {
            crate::poker::law_card_names_unique(words_view(parts)[2]);
        }
        if let Some(c) = card_of(words_view(parts)[3]) {
            crate::poker::law_card_names_unique(words_view(parts)[3]);
        }
        if let Some(c) = card_of(words_view(parts)[4]) {
            crate::poker::law_card_names_unique(words_view(parts)[4]);
        }
        if let Some(c) = card_of(words_view(parts)[5]) {
            crate::poker::law_card_names_unique(words_view(parts)[5]);
        }
    }
}

#[verifier::loop_isolation(false)]
fn fold_street(state: &mut State, payload: &str)
    requires
        well_formed(old(state)@),
        street_ok(old(state)@, payload@),
    ensures
        final(state)@ == street_spec(old(state)@, payload@),
        well_formed(final(state)@),
{
    let parts = words_of(payload);
    if parts.len() == 0 {
        return;
    }
    let next = if word_is(&parts, 0, "flop") {
        Street::Flop
    } else if word_is(&parts, 0, "turn") {
        Street::Turn
    } else if word_is(&parts, 0, "river") {
        Street::River
    } else {
        return;
    };
    state.street = next;
    let ghost b0 = state.board@;
    let ghost mid = state@;
    let ghost ws = words_view(parts).drop_first();
    let mut k: usize = 1;
    while k < parts.len()
        invariant
            1 <= k <= parts.len(),
            state@ == (StateView { board: state.board@, ..mid }),
            ws == words_view(parts).drop_first(),
            state.board@ == b0 + cards_in(ws.take(k - 1)),
            forall|i: int| 0 <= i < state.board@.len() ==> #[trigger] state.board@[i] < 52,
        decreases parts.len() - k,
    {
        let c = word_card(&parts, k);
        proof {
            assert(ws.take(k as int).drop_last() =~= ws.take(k - 1));
            assert(ws.take(k as int).last() == words_view(parts)[k as int]);
        }
        match c {
            Some(card) => {
                proof {
                    crate::poker::law_card_names_unique(words_view(parts)[k as int]);
                }
                state.board.push(card);
            },
            None => {},
        }
        proof {
            assert(state.board@ =~= b0 + cards_in(ws.take(k as int)));
        }
        k += 1;
    }
    proof {
        assert(ws.take(k - 1) =~= ws);
    }
    state.bet_in_street = [0, 0];
    state.acted_this_street = [false, false];
    state.last_raise_size = 0;
    state.to_act = 1 - state.dealer;
    proof {
        assert(state@ =~= street_spec(old(state)@, payload@));
    }
}

/// Player `i` pays `pay` on this street.
fn pay(state: &mut State, i: usize, amount: i64)
    requires
        i < 2,
        pay_in_ok(old(state)@, i as int, amount as int),
    ensures
        final(state)@ == pay_in(old(state)@, i as int, amount as int),
{
    state.stacks[i] = state.stacks[i] - amount;
    state.committed[i] = state.committed[i] + amount;
    state.bet_in_street[i] = state.bet_in_street[i] + amount;
    if state.stacks[i] == 0 {
        state.all_in[i] = true;
    }
    proof {
        assert(state@ =~= pay_in(old(state)@, i as int, amount as int));
    }
}

fn max_bet_of(state: &State) -> (m: i64)
    ensures
        m == state@.max_bet(),
{
    if state.bet_in_street[0] >= state.bet_in_street[1] {
        state.bet_in_street[0]
    } else {
        state.bet_in_street[1]
    }
}

fn min64(a: i64, b: i64) -> (m: i64)
    ensures
        m == min(a as int, b as int),
{
    if a <= b {
        a
    } else {
        b
    }
}

fn fold_verb(state: &mut State, i: usize, parts: &Vec<Vec<char>>, amount: i64)
    requires
        i < 2,
        parts.len() >= 2,
        verb_ok(old(state)@, i as int, words_view(*parts)[1], amount as int),
    ensures
        final(state)@ == verb_spec(old(state)@, i as int, words_view(*parts)[1], amount as int),
{
    let other: u8 = 1 - i as u8;
    if word_is(parts, 1, "POST") {
        if state.committed[i] == 0 {
            let p = min64(amount, state.stacks[i]);
            state.stacks[i] = state.stacks[i] - p;
            state.committed[i] = p;
            state.bet_in_street[i] = p;
            if state.stacks[i] == 0 {
                state.all_in[i] = true;
            }
            if state.bet_in_street[i] > state.last_raise_size {
                state.last_raise_size = state.small_blind * 2;
            }
            state.to_act = state.dealer;
        }
    } else if word_is(parts, 1, "FOLD") {
        state.folded[i] = true;
        state.acted_this_street[i] = true;
    } else if word_is(parts, 1, "CHECK") {
        state.acted_this_street[i] = true;
        state.to_act = other;
    } else if word_is(parts, 1, "CALL") {
        let p = min64(amount, state.stacks[i]);
        pay(state, i, p);
        state.acted_this_street[i] = true;
        state.to_act = other;
    } else if word_is(parts, 1, "BET") {
        let p = min64(amount, state.stacks[i]);
        pay(state, i, p);
        state.last_raise_size = p;
        state.acted_this_street = [false, false];
        state.acted_this_street[i] = true;
        state.to_act = other;
    } else if word_is(parts, 1, "RAISE") {
        let need0 = amount - state.bet_in_street[i];
        let need = if need0 >= 0 {
            need0
        } else {
            0
        };
        let p = min64(need, state.stacks[i]);
        let prev_max = max_bet_of(state);
        pay(state, i, p);
        let increment = state.bet_in_street[i] - prev_max;
        if increment >= state.last_raise_size {
            state.last_raise_size = increment;
            state.acted_this_street = [false, false];
        }
        state.acted_this_street[i] = true;
        state.to_act = other;
    } else if word_is(parts, 1, "ALLIN") {
        let p = min64(amount, state.stacks[i]);
        let prev_max = max_bet_of(state);
        pay(state, i, p);
        let increment = state.bet_in_street[i] - prev_max;
        if increment > 0 && increment >= state.last_raise_size {
            state.last_raise_size = increment;
            state.acted_this_street = [false, false];
        }
        state.all_in[i] = true;
        state.acted_this_street[i] = true;
        state.to_act = other;
    }
    proof {
        assert(state.acted_this_street@ =~= verb_spec(old(state)@, i as int, words_view(*parts)[1], amount as int).acted);
        assert(state.all_in@ =~= verb_spec(old(state)@, i as int, words_view(*parts)[1], amount as int).all_in);
        assert(state@ =~= verb_spec(old(state)@, i as int, words_view(*parts)[1], amount as int));
    }
}

#[verifier::rlimit(40)]
fn fold_action(state: &mut State, payload: &str)
    requires
        well_formed(old(state)@),
        action_ok(old(state)@, payload@),
    ensures
        final(state)@ == action_spec(old(state)@, payload@),
        well_formed(final(state)@),
{
    let parts = words_of(payload);
    if parts.len() < 2 {
        return;
    }
    let amount: i64 = if parts.len() > 2 {
        match word_i64(&parts, 2) {
            Some(a) => a,
            None => 0,
        }
    } else {
        0
    };
    let pid = word_string(&parts, 0);
    let i = match find_player(&state.players, pid.as_str()) {
        Some(i) => i,
        None => {
            return;
        },
    };
    proof {
        crate::lobby::lemma_index_of(state.players.deep_view(), pid@);
    }
    fold_verb(state, i, &parts, amount);
}

fn fold_hand_end(state: &mut State, payload: &str)
    ensures
        final(state)@ == hand_end_spec(old(state)@, payload@),
{
    let parts = words_of(payload);
    if parts.len() < 3 {
        return;
    }
    match (word_i64(&parts, 1), word_i64(&parts, 2)) {
        (Some(c0), Some(c1)) => {
            state.stacks = [c0, c1];
        },
        _ => {},
    }
    state.street = Street::Settled;
    state.committed = [0, 0];
    state.bet_in_street = [0, 0];
    state.folded = [false, false];
    state.all_in = [false, false];
    state.acted_this_street = [false, false];
    state.board = Vec::new();
    state.last_raise_size = 0;
    proof {
        assert(state.stacks@ =~= hand_end_spec(old(state)@, payload@).stacks);
        assert(state@ =~= hand_end_spec(old(state)@, payload@));
    }
}

fn fold_game_end(state: &mut State, payload: &str)
    ensures
        final(state)@ == game_end_spec(old(state)@, payload@),
{
    let parts = words_of(payload);
    if parts.len() == 2 {
        match (word_i64(&parts, 0), word_i64(&parts, 1)) {
            (Some(c0), Some(c1)) => {
                state.stacks = [c0, c1];
            },
            _ => {},
        }
    }
    state.phase = Phase::Finished;
    proof {
        assert(state.stacks@ =~= game_end_spec(old(state)@, payload@).stacks);
        assert(state@ =~= game_end_spec(old(state)@, payload@));
    }
}

impl Poker {
    pub fn fold(state: &mut State, kind: &str, payload: &str)
        requires
            well_formed(old(state)@),
            fold_ok(old(state)@, kind@, payload@),
        ensures
            final(state)@ == fold_spec(old(state)@, kind@, payload@),
            well_formed(final(state)@),
    {
        if str_is(kind, "PLAYER_JOINED") {
            fold_joined(&mut state.players, &mut state.host, payload, MAX_PLAYERS);
        } else if str_is(kind, "PLAYER_LEFT") {
            fold_left(&mut state.players, &mut state.host, payload);
            proof {
                crate::lobby::lemma_left_len(old(state)@.lobby(), payload@);
            }
        } else if str_is(kind, "HOST_CHANGED") {
            fold_host_changed(&mut state.host, payload);
        } else if str_is(kind, "GAME_STARTED") {
            fold_started(state, payload);
        } else if str_is(kind, "HAND_STARTED") {
            fold_hand_started(state, payload);
        } else if str_is(kind, "STREET") {
            fold_street(state, payload);
        } else if str_is(kind, "ACTION") {
            fold_action(state, payload);
        } else if str_is(kind, "HAND_END") {
            fold_hand_end(state, payload);
        } else if str_is(kind, "GAME_END") {
            fold_game_end(state, payload);
        } else if str_is(kind, "WINNER") || str_is(kind, "DRAW") {
            state.phase = Phase::Finished;
        }
    }
}


// ---------------------------------------------------------------------------
// Executable dealing and settling
// ---------------------------------------------------------------------------

/// The state after a hand is settled and what follows it has been emitted.
pub open spec fn settle_state(s: StateView, winner: Option<u8>) -> StateView {
    let t = settled_state(s, winner);
    if match_over(t) {
        StateView { phase: Phase::Finished, ..t }
    } else {
        blinds_state(t)
    }
}

fn copy_state(s: &State) -> (r: State)
    ensures
        r@ == s@,
{
    let mut board: Vec<u8> = Vec::new();
    let mut k: usize = 0;
    while k < s.board.len()
        invariant
            k <= s.board.len(),
            board@ == s.board@.take(k as int),
        decreases s.board.len() - k,
    {
        board.push(s.board[k]);
        proof {
            assert(board@ =~= s.board@.take(k + 1));
        }
        k += 1;
    }
    proof {
        assert(board@ =~= s.board@);
    }
    State {
        phase: s.phase,
        players: clone_players(&s.players),
        host: s.host.clone(),
        num_hands: s.num_hands,
        starting_stack: s.starting_stack,
        small_blind: s.small_blind,
        stacks: s.stacks,
        hand_no: s.hand_no,
        dealer: s.dealer,
        street: s.street,
        hole: s.hole,
        board,
        bet_in_street: s.bet_in_street,
        committed: s.committed,
        folded: s.folded,
        all_in: s.all_in,
        acted_this_street: s.acted_this_street,
        last_raise_size: s.last_raise_size,
        to_act: s.to_act,
        seed_salt: s.seed_salt,
    }
}

fn push_card(v: &mut Vec<char>, card: u8)
    requires
        card < 52,
    ensures
        final(v)@ == old(v)@ + " "@ + card_name(card as int),
{
    push_str(v, " ");
    let n = card_to_str(card);
    push_str(v, n.as_str());
}

fn two_events(a: (String, String), b: (String, String)) -> (v: Vec<(String, String)>)
    ensures
        v.deep_view() == seq![(a.0@, a.1@), (b.0@, b.1@)],
{
    let mut v: Vec<(String, String)> = Vec::new();
    v.push(a);
    v.push(b);
    proof {
        assert(v.deep_view() =~= seq![(a.0@, a.1@), (b.0@, b.1@)]);
    }
    v
}

fn one_event(a: (String, String)) -> (v: Vec<(String, String)>)
    ensures
        v.deep_view() == seq![(a.0@, a.1@)],
{
    let mut v: Vec<(String, String)> = Vec::new();
    v.push(a);
    proof {
        assert(v.deep_view() =~= seq![(a.0@, a.1@)]);
    }
    v
}

impl Poker {
    /// `HAND_STARTED` for the hand after this one, with its hole cards.
    pub fn build_hand_started(state: &State) -> (e: (String, String))
        requires
            next_hand_ok(state@),
        ensures
            (e.0@, e.1@) == hand_started_event(state@),
    {
        let next = state.hand_no + 1;
        let nd: u8 = if state.hand_no == 0 {
            0
        } else {
            1 - state.dealer
        };
        let salt = state.seed_salt.wrapping_add(next as u64);
        let seed = seed_for_hand(&state.players, next, salt);
        let deck = deal_deck(seed);
        proof {
            law_dealt_is_deck(seed);
        }
        let mut v: Vec<char> = Vec::new();
        push_dec(&mut v, next as u64);
        push_str(&mut v, " ");
        push_dec(&mut v, nd as u64);
        push_card(&mut v, deck[0]);
        push_card(&mut v, deck[1]);
        push_card(&mut v, deck[2]);
        push_card(&mut v, deck[3]);
        proof {
            assert(v@ =~= hand_started_event(state@).1);
        }
        event("HAND_STARTED", string_of(&v))
    }

    /// Starts the next hand on `s`: hole cards from its deck, blinds posted,
    /// the dealer to act; emits the two postings and the pot.
    pub fn collect_blinds_after_start(out: &mut Vec<(String, String)>, s: &mut State)
        requires
            well_formed(old(s)@),
            blinds_ok(old(s)@),
        ensures
            final(s)@ == blinds_state(old(s)@),
            final(out).deep_view() == old(out).deep_view() + blinds_events(old(s)@),
            well_formed(final(s)@),
    {
        let ghost s0 = s@;
        let prev = s.hand_no;
        let next = prev + 1;
        let nd: u8 = if prev == 0 {
            0
        } else {
            1 - s.dealer
        };
        let bbi: u8 = 1 - nd;
        let sb = min64(s.small_blind, s.stacks[nd as usize]);
        let bb = s.small_blind * 2;
        let bba = min64(bb, s.stacks[bbi as usize]);
        reset_hand(s, next, nd);
        let seed = seed_for_hand(&s.players, next, s.seed_salt);
        let deck = deal_deck(seed);
        proof {
            law_dealt_is_deck(seed);
        }
        s.hole[0] = Some((deck[0], deck[1]));
        s.hole[1] = Some((deck[2], deck[3]));
        s.stacks[nd as usize] = s.stacks[nd as usize] - sb;
        s.stacks[bbi as usize] = s.stacks[bbi as usize] - bba;
        s.committed[nd as usize] = sb;
        s.committed[bbi as usize] = bba;
        s.bet_in_street[nd as usize] = sb;
        s.bet_in_street[bbi as usize] = bba;
        s.last_raise_size = bb;
        if s.stacks[nd as usize] == 0 {
            s.all_in[nd as usize] = true;
        }
        if s.stacks[bbi as usize] == 0 {
            s.all_in[bbi as usize] = true;
        }
        s.to_act = nd;
        let mut a: Vec<char> = Vec::new();
        push_str(&mut a, s.players[nd as usize].as_str());
        push_str(&mut a, " POST ");
        push_int(&mut a, sb);
        let mut b: Vec<char> = Vec::new();
        push_str(&mut b, s.players[bbi as usize].as_str());
        push_str(&mut b, " POST ");
        push_int(&mut b, bba);
        let mut p: Vec<char> = Vec::new();
        push_int(&mut p, sb + bba);
        let ghost o = out.deep_view();
        out.push(event("ACTION", string_of(&a)));
        out.push(event("ACTION", string_of(&b)));
        out.push(event("POT", string_of(&p)));
        proof {
            assert(out.deep_view() =~= o + blinds_events(s0));
            assert(s.hole@ =~= blinds_state(s0).hole);
            assert(s.stacks@ =~= blinds_state(s0).stacks);
            assert(s.committed@ =~= blinds_state(s0).committed);
            assert(s.bet_in_street@ =~= blinds_state(s0).bet);
            assert(s.all_in@ =~= blinds_state(s0).all_in);
            assert(s@ =~= blinds_state(s0));
        }
    }

    /// The `STREET` event that opens `street`, from the hand's deck.
    fn build_street(state: &State, street: Street) -> (r: Option<(String, String)>)
        ensures
            match street {
                Street::Flop | Street::Turn | Street::River => r matches Some(e) && (e.0@, e.1@)
                    == street_event(state@, street),
                _ => r is None,
            },
    {
        let seed = seed_for_hand(&state.players, state.hand_no, state.seed_salt);
        let deck = deal_deck(seed);
        proof {
            law_dealt_is_deck(seed);
        }
        let mut v: Vec<char> = Vec::new();
        match street {
            Street::Flop => {
                push_str(&mut v, "flop");
                push_card(&mut v, deck[5]);
                push_card(&mut v, deck[6]);
                push_card(&mut v, deck[7]);
            },
            Street::Turn => {
                push_str(&mut v, "turn");
                push_card(&mut v, deck[9]);
            },
            Street::River => {
                push_str(&mut v, "river");
                push_card(&mut v, deck[11]);
            },
            _ => {
                return None;
            },
        }
        proof {
            let cs = street_cards(state@, street);
            if street == Street::Flop {
                let c1 = seq![cs[0]];
                let c2 = seq![cs[0], cs[1]];
                assert(c1.drop_last() =~= Seq::<u8>::empty());
                assert(c2.drop_last() =~= c1);
                assert(cs.drop_last() =~= c2);
                assert(card_list(Seq::<u8>::empty()) == Seq::<char>::empty());
                assert(Seq::<char>::empty() + " "@ + card_name(cs[0] as int) =~= " "@ + card_name(
                    cs[0] as int,
                ));
                assert(card_list(c1) == " "@ + card_name(cs[0] as int));
                assert(card_list(c2) == card_list(c1) + " "@ + card_name(cs[1] as int));
                assert(card_list(cs) == card_list(c2) + " "@ + card_name(cs[2] as int));
            } else {
                assert(cs.drop_last() =~= Seq::<u8>::empty());
                assert(card_list(Seq::<u8>::empty()) == Seq::<char>::empty());
                assert(Seq::<char>::empty() + " "@ + card_name(cs[0] as int) =~= " "@ + card_name(
                    cs[0] as int,
                ));
                assert(card_list(cs) == " "@ + card_name(cs[0] as int));
            }
            assert(v@ =~= street_event(state@, street).1);
        }
        Some(event("STREET", string_of(&v)))
    }

    /// Deals the next street onto the board of `s`.
    fn deal_street(s: &mut State)
        requires
            well_formed(old(s)@),
        ensures
            final(s)@ == dealt_street(old(s)@),
            well_formed(final(s)@),
    {
        let st = match s.street {
            Street::Preflop => Street::Flop,
            Street::Flop => Street::Turn,
            _ => Street::River,
        };
        let seed = seed_for_hand(&s.players, s.hand_no, s.seed_salt);
        let deck = deal_deck(seed);
        proof {
            law_dealt_is_deck(seed);
        }
        let ghost b0 = s.board@;
        match st {
            Street::Flop => {
                s.board.push(deck[5]);
                s.board.push(deck[6]);
                s.board.push(deck[7]);
            },
            Street::Turn => {
                s.board.push(deck[9]);
            },
            _ => {
                s.board.push(deck[11]);
            },
        }
        s.street = st;
        s.bet_in_street = [0, 0];
        s.acted_this_street = [false, false];
        s.last_raise_size = 0;
        proof {
            assert(s.board@ =~= b0 + street_cards(old(s)@, st));
            assert(s@ =~= dealt_street(old(s)@));
        }
    }

    fn round_closed(s: &State) -> (b: bool)
        ensures
            b == round_closed(s@),
    {
        if s.folded[0] || s.folded[1] {
            return true;
        }
        let max = max_bet_of(s);
        let both_matched = s.bet_in_street[0] == max && s.bet_in_street[1] == max;
        let both_acted = s.acted_this_street[0] && s.acted_this_street[1];
        if s.all_in[0] && s.all_in[1] {
            return true;
        }
        if s.all_in[0] || s.all_in[1] {
            return both_matched;
        }
        both_matched && both_acted
    }

    /// Ends the match: `GAME_END`, then `WINNER` or `DRAW`.
    fn game_end_events(s: &mut State) -> (out: Vec<(String, String)>)
        ensures
            final(s)@ == (StateView { phase: Phase::Finished, ..old(s)@ }),
            out.deep_view() == game_end_events(old(s)@),
    {
        s.phase = Phase::Finished;
        let mut g: Vec<char> = Vec::new();
        push_int(&mut g, s.stacks[0]);
        push_str(&mut g, " ");
        push_int(&mut g, s.stacks[1]);
        let first = event("GAME_END", string_of(&g));
        let second = if s.stacks[0] > s.stacks[1] {
            event("WINNER", String::from_str("0"))
        } else if s.stacks[1] > s.stacks[0] {
            event("WINNER", String::from_str("1"))
        } else {
            event("DRAW", String::new())
        };
        let out = two_events(first, second);
        proof {
            assert(out.deep_view() =~= game_end_events(old(s)@));
        }
        out
    }

    /// Pays the pot out (to `winner`, or split), emits `HAND_END`, and then
    /// either ends the match or starts the next hand.
    fn settle_hand(s: &mut State, winner: Option<u8>, reason: &str) -> (out: Vec<(String, String)>)
        requires
            well_formed(old(s)@),
            winner matches Some(w) ==> w <= 1,
            settle_ok(old(s)@, winner),
        ensures
            out.deep_view() == settle_events(old(s)@, winner, reason@),
            final(s)@ == settle_state(old(s)@, winner),
            well_formed(final(s)@),
    {
        let ghost s0 = s@;
        let pot = s.committed[0] + s.committed[1];
        let mut w: Vec<char> = Vec::new();
        match winner {
            Some(i) => {
                s.stacks[i as usize] = s.stacks[i as usize] + pot;
                push_dec(&mut w, i as u64);
            },
            None => {
                let h = pot / 2;
                s.stacks[0] = s.stacks[0] + h;
                s.stacks[1] = s.stacks[1] + (pot - h);
                push_str(&mut w, "-1");
            },
        }
        push_str(&mut w, " ");
        push_int(&mut w, s.stacks[0]);
        push_str(&mut w, " ");
        push_int(&mut w, s.stacks[1]);
        push_str(&mut w, " ");
        push_str(&mut w, reason);
        s.street = Street::Settled;
        s.committed = [0, 0];
        s.bet_in_street = [0, 0];
        proof {
            assert(s.stacks@ =~= paid_stacks(s0, winner));
            assert(s@ =~= settled_state(s0, winner));
        }
        let mut out = one_event(event("HAND_END", string_of(&w)));
        if s.stacks[0] == 0 || s.stacks[1] == 0 || s.hand_no >= s.num_hands {
            let rest = Self::game_end_events(s);
            append_events(&mut out, rest);
        } else {
            let hs = Self::build_hand_started(s);
            out.push(hs);
            Self::collect_blinds_after_start(&mut out, s);
        }
        proof {
            assert(out.deep_view() =~= settle_events(s0, winner, reason@));
        }
        out
    }

    /// The better of the two hands wins the pot; equal hands split it.
    fn settle_showdown(s: &mut State) -> (out: Vec<(String, String)>)
        requires
            well_formed(old(s)@),
            showdown_ok(old(s)@),
        ensures
            out.deep_view() == showdown_events(old(s)@),
            well_formed(final(s)@),
    {
        let r0 = Self::hand_rank(s, 0);
        let r1 = Self::hand_rank(s, 1);
        if r0 > r1 {
            Self::settle_hand(s, Some(0), "SHOWDOWN")
        } else if r1 > r0 {
            Self::settle_hand(s, Some(1), "SHOWDOWN")
        } else {
            Self::settle_hand(s, None, "SPLIT")
        }
    }

    /// Player `i`'s showdown value (0 with fewer than five cards).
    fn hand_rank(s: &State, i: usize) -> (r: u64)
        requires
            i < 2,
            well_formed(s@),
            cards_of(s@, i as int).len() >= 5 ==> cards_of(s@, i as int).len() <= 7,
        ensures
            r as int == showdown_value(cards_of(s@, i as int)),
    {
        let mut set: Vec<u8> = Vec::new();
        match s.hole[i] {
            Some((a, b)) => {
                set.push(a);
                set.push(b);
            },
            None => {},
        }
        let ghost head = set@;
        let mut k: usize = 0;
        while k < s.board.len()
            invariant
                k <= s.board.len(),
                set@ == head + s.board@.take(k as int),
            decreases s.board.len() - k,
        {
            set.push(s.board[k]);
            proof {
                assert(set@ =~= head + s.board@.take(k + 1));
            }
            k += 1;
        }
        proof {
            assert(s.board@.take(k as int) =~= s.board@);
            assert(set@ =~= cards_of(s@, i as int));
        }
        if set.len() >= 5 {
            proof {
                assert forall|j: int| 0 <= j < set@.len() implies set@[j] < 52 by {
                    if j >= head.len() {
                        assert(set@[j] == s.board@[j - head.len()]);
                    }
                }
            }
            evaluate(set.as_slice())
        } else {
            0
        }
    }
}


// ---------------------------------------------------------------------------
// Executable validation
// ---------------------------------------------------------------------------

/// Whom the room waits on: the player to act, unless folded or all in.
pub open spec fn pending_spec(s: StateView) -> Seq<Seq<char>> {
    let i = s.to_act as int;
    if s.phase != Phase::Playing || s.street == Street::Settled {
        seq![]
    } else if s.folded[i] || s.all_in[i] {
        seq![]
    } else if i < s.players.len() {
        seq![s.players[i]]
    } else {
        seq![]
    }
}

pub open spec fn phase_name(p: Phase) -> Seq<char> {
    match p {
        Phase::Lobby => "lobby"@,
        Phase::Playing => "playing"@,
        Phase::Finished => "finished"@,
    }
}

pub fn phase_str(phase: &Phase) -> (s: String)
    ensures
        s@ == phase_name(*phase),
{
    match phase {
        Phase::Lobby => String::from_str("lobby"),
        Phase::Playing => String::from_str("playing"),
        Phase::Finished => String::from_str("finished"),
    }
}

fn action_event(pid: &String, verb: &str, amount: Option<i64>) -> (e: (String, String))
    ensures
        e.0@ == "ACTION"@,
        e.1@ == match amount {
            Some(a) => pid@ + verb@ + int_dec(a as int),
            None => pid@ + verb@,
        },
{
    let mut v: Vec<char> = Vec::new();
    push_str(&mut v, pid.as_str());
    push_str(&mut v, verb);
    match amount {
        Some(a) => {
            push_int(&mut v, a);
        },
        None => {},
    }
    event("ACTION", string_of(&v))
}

fn trimmed_i64(payload: &str) -> (r: Option<i64>)
    ensures
        match parse_signed(trim(payload@), i64::MIN as int, i64::MAX as int) {
            Some(n) => r == Some(n as i64),
            None => r is None,
        },
{
    let v = crate::text::chars_of(payload);
    proof {
        assert(v@.subrange(0, v@.len() as int) =~= v@);
    }
    let (a, b) = crate::text::trim_range(&v, 0, v.len());
    crate::text::parse_signed_range(&v, a, b, i64::MIN, i64::MAX)
}

impl Poker {
    /// Checks a betting action of player `idx` and gives its `ACTION` event.
    fn validate_poker_action(state: &State, idx: u8, kind: &str, payload: &str) -> (r: Result<
        (String, String),
        String,
    >)
        requires
            well_formed(state@),
            (idx as int) < state@.players.len(),
            action_check_ok(state@, idx as int, kind@, payload@),
            is_poker_action(kind@),
        ensures
            match action_check(state@, idx as int, kind@, payload@) {
                Ok(p) => r matches Ok(e) && e.0@ == "ACTION"@ && e.1@ == p,
                Err(m) => r matches Err(e) && e@ == m,
            },
    {
        if state.phase != Phase::Playing {
            return Err(String::from_str("not playing"));
        }
        if state.street == Street::Settled {
            return Err(String::from_str("between hands"));
        }
        if state.to_act != idx {
            return Err(String::from_str("not your turn"));
        }
        let i = idx as usize;
        if state.folded[i] {
            return Err(String::from_str("you have folded"));
        }
        if state.all_in[i] {
            return Err(String::from_str("you are all-in"));
        }
        let pid = &state.players[i];
        let max_bet = max_bet_of(state);
        let to_call = max_bet - state.bet_in_street[i];
        let stack = state.stacks[i];
        if str_is(kind, "FOLD") {
            Ok(action_event(pid, " FOLD", None))
        } else if str_is(kind, "CHECK") {
            if to_call != 0 {
                return Err(String::from_str("cannot check, there is a bet to call"));
            }
            Ok(action_event(pid, " CHECK", None))
        } else if str_is(kind, "CALL") {
            if to_call == 0 {
                return Err(String::from_str("nothing to call"));
            }
            Ok(action_event(pid, " CALL ", Some(min64(to_call, stack))))
        } else if str_is(kind, "BET") {
            if max_bet != 0 {
                return Err(String::from_str("there is already a bet; use RAISE"));
            }
            let amt = match trimmed_i64(payload) {
                Some(a) => a,
                None => {
                    return Err(String::from_str("bad bet amount"));
                },
            };
            if amt < state.small_blind * 2 {
                return Err(String::from_str("bet must be at least the big blind"));
            }
            if amt > stack {
                return Err(String::from_str("bet exceeds stack"));
            }
            Ok(action_event(pid, " BET ", Some(amt)))
        } else if str_is(kind, "RAISE") {
            if max_bet == 0 {
                return Err(String::from_str("nothing to raise; use BET"));
            }
            let to_amt = match trimmed_i64(payload) {
                Some(a) => a,
                None => {
                    return Err(String::from_str("bad raise amount"));
                },
            };
            let increment = to_amt - max_bet;
            let bb = state.small_blind * 2;
            let min_increment = if state.last_raise_size >= bb {
                state.last_raise_size
            } else {
                bb
            };
            if increment < min_increment {
                let mut m: Vec<char> = Vec::new();
                push_str(&mut m, "raise must be at least to ");
                push_int(&mut m, max_bet + min_increment);
                return Err(string_of(&m));
            }
            let need = to_amt - state.bet_in_street[i];
            if need > stack {
                return Err(String::from_str("raise exceeds stack; use ALLIN"));
            }
            Ok(action_event(pid, " RAISE ", Some(to_amt)))
        } else {
            if stack == 0 {
                return Err(String::from_str("no chips to push"));
            }
            Ok(action_event(pid, " ALLIN ", Some(stack)))
        }
    }

    /// The events that follow an action on `state`: streets dealt as betting
    /// rounds close, then the hand's settlement.
    fn resolve_after_action(state: &State) -> (out: Vec<(String, String)>)
        requires
            well_formed(state@),
            resolve_ok(state@, 16),
        ensures
            out.deep_view() == resolve_events(state@, 16),
    {
        let mut s = copy_state(state);
        let mut out: Vec<(String, String)> = Vec::new();
        let mut fuel: usize = 16;
        proof {
            assert(out.deep_view() + resolve_events(s@, 16) =~= resolve_events(state@, 16));
        }
        while fuel > 0
            invariant
                fuel <= 16,
                well_formed(s@),
                resolve_ok(s@, fuel as nat),
                out.deep_view() + resolve_events(s@, fuel as nat) == resolve_events(state@, 16),
            decreases fuel,
        {
            let ghost s0 = s@;
            let ghost o0 = out.deep_view();
            if s.folded[0] || s.folded[1] {
                let w: u8 = if s.folded[0] {
                    1
                } else {
                    0
                };
                let evs = Self::settle_hand(&mut s, Some(w), "FOLD");
                append_events(&mut out, evs);
                return out;
            }
            if !Self::round_closed(&s) {
                proof {
                    assert(out.deep_view() =~= o0 + resolve_events(s0, fuel as nat));
                }
                return out;
            }
            s.bet_in_street = [0, 0];
            s.acted_this_street = [false, false];
            s.last_raise_size = 0;
            proof {
                assert(s@ =~= (StateView { bet: zero2(), acted: no2(), last_raise: 0, ..s0 }));
            }
            match s.street {
                Street::River => {
                    let evs = Self::settle_showdown(&mut s);
                    append_events(&mut out, evs);
                    return out;
                },
                Street::Settled => {
                    proof {
                        assert(out.deep_view() =~= o0 + resolve_events(s0, fuel as nat));
                    }
                    return out;
                },
                _ => {},
            }
            let next = match s.street {
                Street::Preflop => Street::Flop,
                Street::Flop => Street::Turn,
                _ => Street::River,
            };
            let ev = match Self::build_street(&s, next) {
                Some(e) => e,
                None => {
                    return out;
                },
            };
            Self::deal_street(&mut s);
            out.push(ev);
            let mut p: Vec<char> = Vec::new();
            push_int(&mut p, s.committed[0] + s.committed[1]);
            out.push(event("POT", string_of(&p)));
            let ghost evs = seq![street_event(s0, next), ("POT"@, int_dec(s@.pot()))];
            proof {
                assert(out.deep_view() =~= o0 + evs);
            }
            if s.all_in[0] && s.all_in[1] {
                proof {
                    assert(out.deep_view() + resolve_events(s@, (fuel - 1) as nat) =~= o0 + (evs
                        + resolve_events(s@, (fuel - 1) as nat)));
                }
                fuel -= 1;
                continue;
            }
            s.to_act = 1 - s.dealer;
            if s.all_in[s.to_act as usize] && s.all_in[(1 - s.to_act) as usize] {
                fuel -= 1;
                continue;
            }
            proof {
                assert(out.deep_view() =~= o0 + resolve_events(s0, fuel as nat));
            }
            return out;
        }
        proof {
            assert(out.deep_view() =~= out.deep_view() + resolve_events(s@, 0));
        }
        out
    }

    pub fn validate(state: &State, player: &str, kind: &str, payload: &str) -> (r: Result<
        Vec<(String, String)>,
        String,
    >)
        requires
            well_formed(state@),
            validate_ok(state@, player@, kind@, payload@),
        ensures
            verdict_view(r) == validate_spec(state@, player@, kind@, payload@),
    {
        if str_is(kind, "JOIN") {
            validate_join(&state.players, state.phase == Phase::Lobby, player, MAX_PLAYERS)
        } else if str_is(kind, "LEAVE") {
            validate_leave(&state.players, &state.host, player)
        } else if str_is(kind, "CHAT") {
            validate_chat(player, payload)
        } else if str_is(kind, "START") {
            match start_check(&state.players, &state.host, state.phase == Phase::Lobby, player) {
                Some(e) => Err(e),
                None => {
                    let (n, stack, sb) = parse_start_params(payload);
                    let mut g: Vec<char> = Vec::new();
                    push_dec(&mut g, n as u64);
                    push_str(&mut g, " ");
                    push_int(&mut g, stack);
                    push_str(&mut g, " ");
                    push_int(&mut g, sb);
                    let mut scratch = copy_state(state);
                    fold_started(&mut scratch, payload);
                    let hs = Self::build_hand_started(&scratch);
                    let mut out = two_events(event("GAME_STARTED", string_of(&g)), hs);
                    Self::collect_blinds_after_start(&mut out, &mut scratch);
                    Ok(out)
                },
            }
        } else if str_is(kind, "FOLD") || str_is(kind, "CHECK") || str_is(kind, "CALL") || str_is(
            kind,
            "BET",
        ) || str_is(kind, "RAISE") || str_is(kind, "ALLIN") {
            let idx = match find_player(&state.players, player) {
                Some(i) => i,
                None => {
                    return Err(String::from_str("not in room"));
                },
            };
            proof {
                crate::lobby::lemma_index_of(state.players.deep_view(), player@);
            }
            let ev = match Self::validate_poker_action(state, idx as u8, kind, payload) {
                Ok(e) => e,
                Err(m) => {
                    return Err(m);
                },
            };
            let mut scratch = copy_state(state);
            fold_action(&mut scratch, ev.1.as_str());
            let mut p: Vec<char> = Vec::new();
            push_int(&mut p, scratch.committed[0] + scratch.committed[1]);
            let mut out = two_events(ev, event("POT", string_of(&p)));
            let rest = Self::resolve_after_action(&scratch);
            append_events(&mut out, rest);
            Ok(out)
        } else {
            let mut m: Vec<char> = Vec::new();
            push_str(&mut m, "unknown action: ");
            push_str(&mut m, kind);
            Err(string_of(&m))
        }
    }

    pub fn max_players() -> (n: usize)
        ensures
            n == MAX_PLAYERS,
    {
        MAX_PLAYERS
    }

    pub fn game_id() -> (s: &'static str)
        ensures
            s@ == "poker"@,
    {
        "poker"
    }

    /// Whom the room waits on.
    pub fn pending_players(state: &State) -> (r: Vec<String>)
        requires
            state@.phase == Phase::Playing && state@.street != Street::Settled ==> state.to_act < 2,
        ensures
            r.deep_view() == pending_spec(state@),
    {
        let mut r: Vec<String> = Vec::new();
        if state.phase != Phase::Playing || state.street == Street::Settled {
            proof {
                assert(r.deep_view() =~= pending_spec(state@));
            }
            return r;
        }
        let i = state.to_act as usize;
        if state.folded[i] || state.all_in[i] {
            proof {
                assert(r.deep_view() =~= pending_spec(state@));
            }
            return r;
        }
        if i < state.players.len() {
            r.push(state.players[i].clone());
        }
        proof {
            assert(r.deep_view() =~= pending_spec(state@));
        }
        r
    }

    pub fn snapshot(state: &State) -> (r: RoomSnapshot)
        ensures
            r.phase@ == phase_name(state.phase),
            r.host.deep_view() == state@.host,
            r.players.deep_view() == state@.players,
    {
        RoomSnapshot {
            phase: phase_str(&state.phase),
            host: state.host.clone(),
            players: clone_players(&state.players),
        }
    }
}


/// Law: at showdown the stronger hand takes the pot. When one player's
/// seven cards (hole cards and board) are worth strictly more than the
/// other's, the hand is settled as a `SHOWDOWN` won by that player, who
/// receives the whole pot while the other stack stays as it was; equal
/// hands settle as a `SPLIT`.
pub proof fn law_showdown_pays_better_hand(s: StateView)
    requires
        s.stacks.len() == 2,
        cards_of(s, 0).len() >= 5,
        cards_of(s, 1).len() >= 5,
    ensures
        hand_value(cards_of(s, 0)) > hand_value(cards_of(s, 1)) ==> showdown_events(s) == settle_events(
            s,
            Some(0u8),
            "SHOWDOWN"@,
        ) && settled_state(s, Some(0u8)).stacks == seq![(s.stacks[0] + s.pot()) as i64, s.stacks[1]],
        hand_value(cards_of(s, 1)) > hand_value(cards_of(s, 0)) ==> showdown_events(s) == settle_events(
            s,
            Some(1u8),
            "SHOWDOWN"@,
        ) && settled_state(s, Some(1u8)).stacks == seq![s.stacks[0], (s.stacks[1] + s.pot()) as i64],
        hand_value(cards_of(s, 0)) == hand_value(cards_of(s, 1)) ==> showdown_events(s) == settle_events(
            s,
            None,
            "SPLIT"@,
        ),
{
    assert(settled_state(s, Some(0u8)).stacks =~= seq![(s.stacks[0] + s.pot()) as i64, s.stacks[1]]);
    assert(settled_state(s, Some(1u8)).stacks =~= seq![s.stacks[0], (s.stacks[1] + s.pot()) as i64]);
}

/// The chips in play: both stacks and the pot.
pub open spec fn chips(s: StateView) -> int {
    s.stacks[0] + s.stacks[1] + s.pot()
}

/// Betting never makes or loses a chip: whatever a player posts, checks,
/// calls, bets, raises, folds or shoves, what leaves a stack enters the pot.
pub proof fn law_betting_keeps_chips(s: StateView, payload: Seq<char>)
    requires
        well_formed(s),
        s.stacks.len() == 2,
        s.committed.len() == 2,
        s.bet.len() == 2,
        s.all_in.len() == 2,
        s.acted.len() == 2,
        s.folded.len() == 2,
        action_ok(s, payload),
    ensures
        chips(fold_spec(s, "ACTION"@, payload)) == chips(s),
{
    reveal_strlit("ACTION");
    reveal_strlit("PLAYER_JOINED");
    reveal_strlit("PLAYER_LEFT");
    reveal_strlit("HOST_CHANGED");
    reveal_strlit("GAME_STARTED");
    reveal_strlit("HAND_STARTED");
    reveal_strlit("STREET");
    assert("ACTION"@[0] != "STREET"@[0]);
    assert(fold_spec(s, "ACTION"@, payload) == action_spec(s, payload));
    let parts = tokens(payload);
    if parts.len() >= 2 {
        crate::lobby::lemma_index_of(s.players, parts[0]);
    }
}

/// Settling a hand never makes or loses a chip: the pot goes whole to the
/// winner, or is split between the two stacks.
pub proof fn law_settling_keeps_chips(s: StateView, winner: Option<u8>)
    requires
        s.stacks.len() == 2,
        s.committed.len() == 2,
        winner matches Some(w) ==> w < 2,
        paid_ok(s, winner),
    ensures
        chips(settled_state(s, winner)) == chips(s),
{
}


} // verus!
