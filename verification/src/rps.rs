//! Rock-paper-scissors as an event-sourced room.
//!
//! Two players, a fixed number of rounds (5 when started by the host). Each
//! round both players move; the second move completes the round and emits
//! `ROUND_RESULT <round> <m0> <m1> <s0> <s1>`, and after the last round
//! `GAME_END <s0> <s1>`. The state is a projection of the event log.
use vstd::prelude::*;
use crate::lobby::{
    chat_verdict, event, find_player, fold_host_changed, fold_joined, fold_left, index_of,
    join_verdict, leave_verdict, lobby_host_changed, lobby_joined, lobby_left, start_check,
    start_refusal, validate_chat, validate_join, validate_leave, verdict_view, EventView, Lobby,
    RoomSnapshot, VerdictView,
};
use crate::text::{
    chars_of, dec, int_dec, parse_signed, parse_signed_range, parse_unsigned, parse_unsigned_range,
    push_dec, push_int, push_str, range_is_upper, split_at_space, split_space_range, split_tokens,
    str_is, string_of, tokens, trim, trim_range, upper_is,
};

verus! {

pub const DEFAULT_ROUNDS: u32 = 5;

pub const MAX_PLAYERS: usize = 2;

#[derive(Debug, Clone, Copy, PartialEq, Eq, Structural)]
pub enum Choice {
    Rock,
    Paper,
    Scissors,
}

#[derive(Debug, Clone, Copy, PartialEq, Eq, Structural)]
pub enum Phase {
    Lobby,
    Playing,
    Finished,
}

#[derive(Debug, Clone)]
pub struct State {
    pub phase: Phase,
    pub players: Vec<String>,
    pub host: Option<String>,
    pub total_rounds: u32,
    pub current_round: u32,
    pub pending_move: [Option<Choice>; 2],
    pub scores: [i32; 2],
}

pub struct Rps;

/// The abstract state: members as character sequences, pairs as tuples.
pub struct StateView {
    pub phase: Phase,
    pub players: Seq<Seq<char>>,
    pub host: Option<Seq<char>>,
    pub total_rounds: u32,
    pub current_round: u32,
    pub pending: (Option<Choice>, Option<Choice>),
    pub scores: (i32, i32),
}

impl View for State {
    type V = StateView;

    open spec fn view(&self) -> StateView {
        StateView {
            phase: self.phase,
            players: self.players.deep_view(),
            host: self.host.deep_view(),
            total_rounds: self.total_rounds,
            current_round: self.current_round,
            pending: (self.pending_move@[0], self.pending_move@[1]),
            scores: (self.scores@[0], self.scores@[1]),
        }
    }
}

impl StateView {
    pub open spec fn lobby(self) -> Lobby {
        Lobby { players: self.players, host: self.host }
    }

    pub open spec fn with_lobby(self, l: Lobby) -> StateView {
        StateView { players: l.players, host: l.host, ..self }
    }

    pub open spec fn pending_of(self, i: nat) -> Option<Choice> {
        if i == 0 {
            self.pending.0
        } else {
            self.pending.1
        }
    }
}

/// The state of a fresh room.
pub open spec fn initial_state() -> StateView {
    StateView {
        phase: Phase::Lobby,
        players: seq![],
        host: None,
        total_rounds: DEFAULT_ROUNDS,
        current_round: 0,
        pending: (None, None),
        scores: (0, 0),
    }
}

impl Default for State {
    fn default() -> (s: Self)
        ensures
            s@ == initial_state(),
    {
        let s = State {
            phase: Phase::Lobby,
            players: Vec::new(),
            host: None,
            total_rounds: DEFAULT_ROUNDS,
            current_round: 0,
            pending_move: [None, None],
            scores: [0, 0],
        };
        proof {
            assert(s.players.deep_view() =~= Seq::<Seq<char>>::empty());
        }
        s
    }
}

// ---------------------------------------------------------------------------
// Choices
// ---------------------------------------------------------------------------

/// `ROCK`/`R`, `PAPER`/`P`, `SCISSORS`/`S`, ignoring ASCII case and
/// surrounding whitespace.
pub open spec fn choice_of(s: Seq<char>) -> Option<Choice> {
    let t = trim(s);
    if upper_is(t, "ROCK"@) || upper_is(t, "R"@) {
        Some(Choice::Rock)
    } else if upper_is(t, "PAPER"@) || upper_is(t, "P"@) {
        Some(Choice::Paper)
    } else if upper_is(t, "SCISSORS"@) || upper_is(t, "S"@) {
        Some(Choice::Scissors)
    } else {
        None
    }
}

pub open spec fn choice_name(c: Choice) -> Seq<char> {
    match c {
        Choice::Rock => "ROCK"@,
        Choice::Paper => "PAPER"@,
        Choice::Scissors => "SCISSORS"@,
    }
}

/// Who wins a round: `Some(0)` for `a`, `Some(1)` for `b`, `None` on a draw.
pub open spec fn round_winner(a: Choice, b: Choice) -> Option<nat> {
    if a == b {
        None
    } else if (a == Choice::Rock && b == Choice::Scissors) || (a == Choice::Paper && b
        == Choice::Rock) || (a == Choice::Scissors && b == Choice::Paper) {
        Some(0)
    } else {
        Some(1)
    }
}

impl Choice {
    pub fn parse(s: &str) -> (r: Option<Choice>)
        ensures
            r == choice_of(s@),
    {
        let v = chars_of(s);
        proof {
            assert(v@.subrange(0, v@.len() as int) =~= v@);
        }
        Self::parse_range(&v, 0, v.len())
    }

    pub fn parse_range(v: &Vec<char>, lo: usize, hi: usize) -> (r: Option<Choice>)
        requires
            lo <= hi <= v.len(),
        ensures
            r == choice_of(v@.subrange(lo as int, hi as int)),
    {
        let (a, b) = trim_range(v, lo, hi);
        if range_is_upper(v, a, b, "ROCK") || range_is_upper(v, a, b, "R") {
            Some(Choice::Rock)
        } else if range_is_upper(v, a, b, "PAPER") || range_is_upper(v, a, b, "P") {
            Some(Choice::Paper)
        } else if range_is_upper(v, a, b, "SCISSORS") || range_is_upper(v, a, b, "S") {
            Some(Choice::Scissors)
        } else {
            None
        }
    }

    pub fn as_str(&self) -> (s: &'static str)
        ensures
            s@ == choice_name(*self),
    {
        match self {
            Choice::Rock => "ROCK",
            Choice::Paper => "PAPER",
            Choice::Scissors => "SCISSORS",
        }
    }

    /// Returns `Some(0)` when `a` wins, `Some(1)` when `b` wins, `None` on a draw.
    pub fn winner(a: Choice, b: Choice) -> (r: Option<usize>)
        ensures
            match round_winner(a, b) {
                Some(w) => r == Some(w as usize),
                None => r is None,
            },
    {
        if a == b {
            return None;
        }
        let a_wins = match (a, b) {
            (Choice::Rock, Choice::Scissors) => true,
            (Choice::Paper, Choice::Rock) => true,
            (Choice::Scissors, Choice::Paper) => true,
            _ => false,
        };
        Some(
            if a_wins {
                0
            } else {
                1
            },
        )
    }
}

/// Law: exactly one side wins a round between different choices, and
/// swapping the sides swaps the winner.
pub proof fn law_winner_antisymmetric(a: Choice, b: Choice)
    ensures
        round_winner(a, b) is None <==> a == b,
        a != b ==> round_winner(b, a) == Some((1 - round_winner(a, b)->0) as nat),
{
}

/// Law: the first choice wins exactly when rock meets scissors, paper meets
/// rock, or scissors meet paper; so each choice beats exactly one other
/// choice and loses to exactly one, and the relation is a cycle of three.
pub proof fn law_rps_cycle(a: Choice, b: Choice)
    ensures
        round_winner(a, b) == Some(0nat) <==> ((a == Choice::Rock && b == Choice::Scissors) || (a
            == Choice::Paper && b == Choice::Rock) || (a == Choice::Scissors && b == Choice::Paper)),
        round_winner(a, b) == Some(1nat) <==> round_winner(b, a) == Some(0nat),
        exists|c: Choice| #[trigger] round_winner(a, c) == Some(0nat),
        forall|c: Choice, d: Choice|
            round_winner(a, c) == Some(0nat) && round_winner(a, d) == Some(0nat) ==> c == d,
{
    let c = if a == Choice::Rock {
        Choice::Scissors
    } else if a == Choice::Paper {
        Choice::Rock
    } else {
        Choice::Paper
    };
    assert(round_winner(a, c) == Some(0nat));
}

// ---------------------------------------------------------------------------
// Folding events
// ---------------------------------------------------------------------------

/// Scores carried by a `ROUND_RESULT` (5 words) or `GAME_END` (2 words)
/// payload, when the named words parse as `i32`.
pub open spec fn scores_from(parts: Seq<Seq<char>>, n: nat, i: int, old: (i32, i32)) -> (i32, i32) {
    if parts.len() == n && parse_signed(parts[i], i32::MIN as int, i32::MAX as int) is Some
        && parse_signed(parts[i + 1], i32::MIN as int, i32::MAX as int) is Some {
        (
            parse_signed(parts[i], i32::MIN as int, i32::MAX as int)->0 as i32,
            parse_signed(parts[i + 1], i32::MIN as int, i32::MAX as int)->0 as i32,
        )
    } else {
        old
    }
}

/// `GAME_STARTED [rounds]`: play starts; a readable round count replaces the
/// configured one.
pub open spec fn started_spec(s: StateView, payload: Seq<char>) -> StateView {
    StateView {
        total_rounds: match parse_unsigned(trim(payload), u32::MAX as nat) {
            Some(n) => n as u32,
            None => s.total_rounds,
        },
        phase: Phase::Playing,
        current_round: 1,
        pending: (None, None),
        scores: (0, 0),
        ..s
    }
}

/// `MOVE <pid> <choice>`: records a member's choice for the round while playing.
pub open spec fn move_spec(s: StateView, payload: Seq<char>) -> StateView {
    let (pid, rest) = split_at_space(payload);
    match (index_of(s.players, pid), rest) {
        (Some(i), Some(r)) => match choice_of(r) {
            Some(c) => if s.phase == Phase::Playing {
                StateView {
                    pending: if i == 0 {
                        (Some(c), s.pending.1)
                    } else {
                        (s.pending.0, Some(c))
                    },
                    ..s
                }
            } else {
                s
            },
            None => s,
        },
        _ => s,
    }
}

/// `ROUND_RESULT <round> <m0> <m1> <s0> <s1>`: scores are taken over, the
/// round's moves cleared, and the round counter advanced up to the total.
pub open spec fn round_result_spec(s: StateView, payload: Seq<char>) -> StateView {
    StateView {
        scores: scores_from(tokens(payload), 5, 3, s.scores),
        pending: (None, None),
        current_round: if s.current_round < s.total_rounds {
            (s.current_round + 1) as u32
        } else {
            s.current_round
        },
        ..s
    }
}

/// `GAME_END <s0> <s1>`: final scores, and the game is over.
pub open spec fn game_end_spec(s: StateView, payload: Seq<char>) -> StateView {
    StateView { scores: scores_from(tokens(payload), 2, 0, s.scores), phase: Phase::Finished, ..s }
}

/// The state after one event; unknown kinds (and `CHAT`) change nothing.
pub open spec fn fold_spec(s: StateView, kind: Seq<char>, payload: Seq<char>) -> StateView {
    if kind == "PLAYER_JOINED"@ {
        s.with_lobby(lobby_joined(s.lobby(), payload, MAX_PLAYERS as nat))
    } else if kind == "PLAYER_LEFT"@ {
        s.with_lobby(lobby_left(s.lobby(), payload))
    } else if kind == "HOST_CHANGED"@ {
        s.with_lobby(lobby_host_changed(s.lobby(), payload))
    } else if kind == "GAME_STARTED"@ {
        started_spec(s, payload)
    } else if kind == "MOVE"@ {
        move_spec(s, payload)
    } else if kind == "ROUND_RESULT"@ {
        round_result_spec(s, payload)
    } else if kind == "GAME_END"@ {
        game_end_spec(s, payload)
    } else {
        s
    }
}

/// Members never exceed the room size.
pub open spec fn well_formed(s: StateView) -> bool {
    s.players.len() <= MAX_PLAYERS
}

/// Reads the scores at words `i` and `i + 1` when there are exactly `n` words.
fn scores_from_exec(payload: &str, n: usize, i: usize, old: [i32; 2]) -> (r: [i32; 2])
    requires
        i + 1 < n,
    ensures
        (r@[0], r@[1]) == scores_from(tokens(payload@), n as nat, i as int, (old@[0], old@[1])),
        r@.len() == 2,
{
    let v = chars_of(payload);
    proof {
        assert(v@.subrange(0, v@.len() as int) =~= v@);
    }
    let parts = split_tokens(&v, 0, v.len());
    if parts.len() == n {
        let p = &parts[i];
        let q = &parts[i + 1];
        proof {
            assert(p@.subrange(0, p@.len() as int) =~= p@);
            assert(q@.subrange(0, q@.len() as int) =~= q@);
        }
        let a = parse_signed_range(p, 0, p.len(), i32::MIN as i64, i32::MAX as i64);
        let b = parse_signed_range(q, 0, q.len(), i32::MIN as i64, i32::MAX as i64);
        match (a, b) {
            (Some(x), Some(y)) => {
                return [x as i32, y as i32];
            },
            _ => {},
        }
    }
    old
}

impl Rps {
    pub fn fold(state: &mut State, kind: &str, payload: &str)
        requires
            well_formed(old(state)@),
        ensures
            final(state)@ == fold_spec(old(state)@, kind@, payload@),
            well_formed(final(state)@),
    {
        if str_is(kind, "PLAYER_JOINED") {
            fold_joined(&mut state.players, &mut state.host, payload, MAX_PLAYERS);
        } else if str_is(kind, "PLAYER_LEFT") {
            fold_left(&mut state.players, &mut state.host, payload);
            proof {
                crate::lobby::lemma_left_len(old(state)@.lobby(), payload@);
            }
        } else if str_is(kind, "HOST_CHANGED") {
            fold_host_changed(&mut state.host, payload);
        } else if str_is(kind, "GAME_STARTED") {
            fold_started(state, payload);
        } else if str_is(kind, "MOVE") {
            fold_move(state, payload);
        } else if str_is(kind, "ROUND_RESULT") {
            state.scores = scores_from_exec(payload, 5, 3, state.scores);
            state.pending_move = [None, None];
            if state.current_round < state.total_rounds {
                state.current_round = state.current_round + 1;
            }
        } else if str_is(kind, "GAME_END") {
            state.scores = scores_from_exec(payload, 2, 0, state.scores);
            state.phase = Phase::Finished;
        }
    }
}

fn fold_started(state: &mut State, payload: &str)
    ensures
        final(state)@ == started_spec(old(state)@, payload@),
{
    let v = chars_of(payload);
    proof {
        assert(v@.subrange(0, v@.len() as int) =~= v@);
    }
    let (a, b) = trim_range(&v, 0, v.len());
    match parse_unsigned_range(&v, a, b, u32::MAX as u64) {
        Some(n) => {
            state.total_rounds = n as u32;
        },
        None => {},
    }
    state.phase = Phase::Playing;
    state.current_round = 1;
    state.pending_move = [None, None];
    state.scores = [0, 0];
}

fn fold_move(state: &mut State, payload: &str)
    requires
        well_formed(old(state)@),
    ensures
        final(state)@ == move_spec(old(state)@, payload@),
{
    let v = chars_of(payload);
    let (pe, rs) = split_space_range(&v);
    let pid = string_of_prefix(&v, pe);
    let idx = find_player(&state.players, pid.as_str());
    proof {
        crate::lobby::lemma_index_of(state.players.deep_view(), pid@);
    }
    match (idx, rs) {
        (Some(i), Some(r)) => {
            match Choice::parse_range(&v, r, v.len()) {
                Some(c) => {
                    if state.phase == Phase::Playing {
                        if i == 0 {
                            state.pending_move = [Some(c), state.pending_move[1]];
                        } else {
                            state.pending_move = [state.pending_move[0], Some(c)];
                        }
                    }
                },
                None => {},
            }
        },
        _ => {},
    }
}

// ---------------------------------------------------------------------------
// Validating actions
// ---------------------------------------------------------------------------

/// Scores after a round won by `w` (if anyone).
pub open spec fn scores_after(sc: (i32, i32), w: Option<nat>) -> (int, int) {
    match w {
        Some(k) => if k == 0 {
            (sc.0 + 1, sc.1 as int)
        } else {
            (sc.0 as int, sc.1 + 1)
        },
        None => (sc.0 as int, sc.1 as int),
    }
}

/// `MOVE <choice>`: only while playing, only members, once per round. The
/// second move of a round also emits the round result, and after the last
/// round the game end.
pub open spec fn move_verdict(s: StateView, player: Seq<char>, payload: Seq<char>) -> VerdictView {
    if s.phase != Phase::Playing {
        Err("not playing"@)
    } else {
        match index_of(s.players, player) {
            None => Err("not in room"@),
            Some(i) => if s.pending_of(i) is Some {
                Err("already moved this round"@)
            } else {
                match choice_of(payload) {
                    None => Err("bad choice"@),
                    Some(c) => {
                        let mv = ("MOVE"@, player + " "@ + choice_name(c));
                        match s.pending_of((1 - i) as nat) {
                            None => Ok(seq![mv]),
                            Some(oc) => {
                                let m0 = if i == 0 {
                                    c
                                } else {
                                    oc
                                };
                                let m1 = if i == 0 {
                                    oc
                                } else {
                                    c
                                };
                                let sc = scores_after(s.scores, round_winner(m0, m1));
                                let tail = int_dec(sc.0) + " "@ + int_dec(sc.1);
                                let rr = (
                                    "ROUND_RESULT"@,
                                    dec(s.current_round as nat) + " "@ + choice_name(m0) + " "@
                                        + choice_name(m1) + " "@ + tail,
                                );
                                if s.current_round >= s.total_rounds {
                                    Ok(seq![mv, rr, ("GAME_END"@, tail)])
                                } else {
                                    Ok(seq![mv, rr])
                                }
                            },
                        }
                    },
                }
            },
        }
    }
}

/// The answer to an action by `player`.
pub open spec fn validate_spec(s: StateView, player: Seq<char>, kind: Seq<char>, payload: Seq<
    char,
>) -> VerdictView {
    if kind == "JOIN"@ {
        join_verdict(
            Lobby { players: s.players, host: None },
            s.phase == Phase::Lobby,
            player,
            MAX_PLAYERS as nat,
        )
    } else if kind == "LEAVE"@ {
        leave_verdict(s.lobby(), player)
    } else if kind == "CHAT"@ {
        chat_verdict(player, payload)
    } else if kind == "START"@ {
        match start_refusal(s.lobby(), s.phase == Phase::Lobby, player) {
            Some(e) => Err(e),
            None => Ok(seq![("GAME_STARTED"@, dec(DEFAULT_ROUNDS as nat))]),
        }
    } else if kind == "MOVE"@ {
        move_verdict(s, player, payload)
    } else {
        Err("unknown action: "@ + kind)
    }
}

/// Scores stay clear of the `i32` limit, so a won round can be counted.
pub open spec fn scores_fit(s: StateView) -> bool {
    s.scores.0 < i32::MAX && s.scores.1 < i32::MAX
}

fn validate_move(state: &State, player: &str, payload: &str) -> (r: Result<Vec<(String, String)>, String>)
    requires
        well_formed(state@),
        scores_fit(state@),
    ensures
        verdict_view(r) == move_verdict(state@, player@, payload@),
{
    if state.phase != Phase::Playing {
        return Err(String::from_str("not playing"));
    }
    let idx = match find_player(&state.players, player) {
        Some(i) => i,
        None => {
            return Err(String::from_str("not in room"));
        },
    };
    proof {
        crate::lobby::lemma_index_of(state.players.deep_view(), player@);
    }
    if state.pending_move[idx].is_some() {
        return Err(String::from_str("already moved this round"));
    }
    let choice = match Choice::parse(payload) {
        Some(c) => c,
        None => {
            return Err(String::from_str("bad choice"));
        },
    };
    let mut events: Vec<(String, String)> = Vec::new();
    let mut mv: Vec<char> = Vec::new();
    push_str(&mut mv, player);
    push_str(&mut mv, " ");
    push_str(&mut mv, choice.as_str());
    events.push(event("MOVE", string_of(&mv)));
    let other = 1 - idx;
    match state.pending_move[other] {
        None => {
            proof {
                assert(events.deep_view() =~= seq![("MOVE"@, mv@)]);
            }
            Ok(events)
        },
        Some(other_choice) => {
            let (m0, m1) = if idx == 0 {
                (choice, other_choice)
            } else {
                (other_choice, choice)
            };
            let mut sc = state.scores;
            match Choice::winner(m0, m1) {
                Some(w) => {
                    if w == 0 {
                        sc = [sc[0] + 1, sc[1]];
                    } else {
                        sc = [sc[0], sc[1] + 1];
                    }
                },
                None => {},
            }
            let mut tail: Vec<char> = Vec::new();
            push_int(&mut tail, sc[0] as i64);
            push_str(&mut tail, " ");
            push_int(&mut tail, sc[1] as i64);
            let mut rr: Vec<char> = Vec::new();
            push_dec(&mut rr, state.current_round as u64);
            push_str(&mut rr, " ");
            push_str(&mut rr, m0.as_str());
            push_str(&mut rr, " ");
            push_str(&mut rr, m1.as_str());
            push_str(&mut rr, " ");
            crate::text::push_all(&mut rr, &tail);
            events.push(event("ROUND_RESULT", string_of(&rr)));
            if state.current_round >= state.total_rounds {
                events.push(event("GAME_END", string_of(&tail)));
            }
            proof {
                let sv = state@;
                let sa = scores_after(sv.scores, round_winner(m0, m1));
                assert(sc@[0] as int == sa.0 && sc@[1] as int == sa.1);
                let t = int_dec(sa.0) + " "@ + int_dec(sa.1);
                assert(tail@ =~= t);
                assert(rr@ =~= dec(sv.current_round as nat) + " "@ + choice_name(m0) + " "@
                    + choice_name(m1) + " "@ + t);
                if sv.current_round >= sv.total_rounds {
                    assert(events.deep_view() =~= seq![
                        ("MOVE"@, mv@),
                        ("ROUND_RESULT"@, rr@),
                        ("GAME_END"@, tail@),
                    ]);
                } else {
                    assert(events.deep_view() =~= seq![("MOVE"@, mv@), ("ROUND_RESULT"@, rr@)]);
                }
            }
            Ok(events)
        },
    }
}

impl Rps {
    pub fn validate(state: &State, player: &str, kind: &str, payload: &str) -> (r: Result<
        Vec<(String, String)>,
        String,
    >)
        requires
            well_formed(state@),
            scores_fit(state@),
        ensures
            verdict_view(r) == validate_spec(state@, player@, kind@, payload@),
    {
        if str_is(kind, "JOIN") {
            validate_join(&state.players, state.phase == Phase::Lobby, player, MAX_PLAYERS)
        } else if str_is(kind, "LEAVE") {
            validate_leave(&state.players, &state.host, player)
        } else if str_is(kind, "CHAT") {
            validate_chat(player, payload)
        } else if str_is(kind, "START") {
            match start_check(&state.players, &state.host, state.phase == Phase::Lobby, player) {
                Some(e) => Err(e),
                None => {
                    let mut n: Vec<char> = Vec::new();
                    push_dec(&mut n, DEFAULT_ROUNDS as u64);
                    let mut v: Vec<(String, String)> = Vec::new();
                    v.push(event("GAME_STARTED", string_of(&n)));
                    proof {
                        assert(v.deep_view() =~= seq![("GAME_STARTED"@, n@)]);
                    }
                    Ok(v)
                },
            }
        } else if str_is(kind, "MOVE") {
            validate_move(state, player, payload)
        } else {
            let mut m: Vec<char> = Vec::new();
            push_str(&mut m, "unknown action: ");
            push_str(&mut m, kind);
            Err(string_of(&m))
        }
    }

    pub fn max_players() -> (n: usize)
        ensures
            n == MAX_PLAYERS,
    {
        MAX_PLAYERS
    }

    pub fn game_id() -> (s: &'static str)
        ensures
            s@ == "rock-paper-scissors"@,
    {
        "rock-paper-scissors"
    }

    pub fn snapshot(state: &State) -> (r: RoomSnapshot)
        ensures
            r.phase@ == phase_name(state.phase),
            r.host.deep_view() == state@.host,
            r.players.deep_view() == state@.players,
    {
        RoomSnapshot {
            phase: phase_str(&state.phase),
            host: state.host.clone(),
            players: crate::lobby::clone_players(&state.players),
        }
    }
}

pub open spec fn phase_name(p: Phase) -> Seq<char> {
    match p {
        Phase::Lobby => "lobby"@,
        Phase::Playing => "playing"@,
        Phase::Finished => "finished"@,
    }
}

pub fn phase_str(phase: &Phase) -> (s: String)
    ensures
        s@ == phase_name(*phase),
{
    match phase {
        Phase::Lobby => String::from_str("lobby"),
        Phase::Playing => String::from_str("playing"),
        Phase::Finished => String::from_str("finished"),
    }
}

/// `v[..e]` as a `String`.
fn string_of_prefix(v: &Vec<char>, e: usize) -> (s: String)
    requires
        e <= v.len(),
    ensures
        s@ == v@.subrange(0, e as int),
{
    crate::text::string_of_range(v, 0, e)
}

} // verus!
