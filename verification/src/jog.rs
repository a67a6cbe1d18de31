//! Jar of greed as an event-sourced room.
//!
//! Two to eight players. Each round every player secretly puts some of their
//! coins into a shared jar; once everyone has, the jar is multiplied and the
//! result, rounded down, is split evenly between all players (again rounded
//! down). The richest player after the configured number of rounds wins.
//!
//! The multiplier is a decimal number: reading it, rendering it, drawing a
//! random one and multiplying the jar by it are floating-point work that the
//! caller does. The room keeps the multiplier as the host wrote it, and
//! `validate` takes the rendered multiplier and the multiplied jar as a
//! [`JarTerms`]; [`Jog::round_jar`] says which jar needs multiplying.
use vstd::prelude::*;
use vstd::std_specs::hash::DefaultHasherAdditionalSpecFns;
use vstd::string::StringSliceAdditionalSpecFns;
use std::collections::hash_map::DefaultHasher;
use std::hash::Hasher;
use crate::lobby::{
    chat_verdict, clone_players, event, find_player, fold_host_changed, fold_joined, fold_left,
    host_is, index_of, join_verdict, lemma_index_of, leave_verdict, lobby_host_changed,
    lobby_joined, lobby_left, validate_chat, validate_join, validate_leave, verdict_view, EventView,
    Lobby, RoomSnapshot, VerdictView,
};
use crate::poker::{le_bytes, le_bytes_exec, name_writes};
use crate::text::{
    chars_of, dec, int_dec, parse_signed, parse_signed_range, parse_unsigned, push_all, push_dec,
    push_int, push_str, split_at_space, split_space_range, str_is, string_of, string_of_range,
    tokens, trim, trim_range, word_i64, word_string, word_unsigned, words_of, words_view,
};

verus! {

pub const MAX_PLAYERS: usize = 8;

pub const MIN_PLAYERS_TO_START: usize = 2;

pub const DEFAULT_STARTING_COINS: i64 = 10;

pub const DEFAULT_ROUNDS: u32 = 5;

pub const MIN_STARTING_COINS: i64 = 1;

pub const MAX_STARTING_COINS: i64 = 1_000_000;

pub const MIN_ROUNDS: u32 = 1;

pub const MAX_ROUNDS: u32 = 1000;

#[derive(Debug, Clone, Copy, PartialEq, Eq, Structural)]
pub enum Phase {
    Lobby,
    Playing,
    Finished,
}

#[derive(Debug, Clone)]
pub struct State {
    pub phase: Phase,
    pub players: Vec<String>,
    pub host: Option<String>,
    pub starting_coins: i64,
    pub total_rounds: u32,
    /// The multiplier as the game was started with it, the fourth word of
    /// `GAME_STARTED`; `None` stands for the default of 2.
    pub multiplier: Option<String>,
    pub random: bool,
    /// When set, `ROUND_RESULT` hides the players' balances until `GAME_END`.
    pub blind: bool,
    pub current_round: u32,
    /// The roster as it was when the game started.
    pub started_players: Vec<String>,
    /// Each started player's coins.
    pub coins: Vec<i64>,
    /// Each started player's contribution to the current round, once made.
    pub pending_contrib: Vec<Option<i64>>,
}

pub struct Jog;

pub struct StateView {
    pub phase: Phase,
    pub players: Seq<Seq<char>>,
    pub host: Option<Seq<char>>,
    pub starting_coins: i64,
    pub total_rounds: u32,
    pub multiplier: Option<Seq<char>>,
    pub random: bool,
    pub blind: bool,
    pub current_round: u32,
    pub started_players: Seq<Seq<char>>,
    pub coins: Seq<i64>,
    pub pending: Seq<Option<i64>>,
}

impl View for State {
    type V = StateView;

    open spec fn view(&self) -> StateView {
        StateView {
            phase: self.phase,
            players: self.players.deep_view(),
            host: self.host.deep_view(),
            starting_coins: self.starting_coins,
            total_rounds: self.total_rounds,
            multiplier: self.multiplier.deep_view(),
            random: self.random,
            blind: self.blind,
            current_round: self.current_round,
            started_players: self.started_players.deep_view(),
            coins: self.coins@,
            pending: self.pending_contrib@,
        }
    }
}

impl StateView {
    pub open spec fn lobby(self) -> Lobby {
        Lobby { players: self.players, host: self.host }
    }

    pub open spec fn with_lobby(self, l: Lobby) -> StateView {
        StateView { players: l.players, host: l.host, ..self }
    }
}

pub open spec fn initial_state() -> StateView {
    StateView {
        phase: Phase::Lobby,
        players: seq![],
        host: None,
        starting_coins: DEFAULT_STARTING_COINS,
        total_rounds: DEFAULT_ROUNDS,
        multiplier: None,
        random: false,
        blind: true,
        current_round: 0,
        started_players: seq![],
        coins: seq![],
        pending: seq![],
    }
}

impl Default for State {
    fn default() -> (s: Self)
        ensures
            s@ == initial_state(),
    {
        let s = State {
            phase: Phase::Lobby,
            players: Vec::new(),
            host: None,
            starting_coins: DEFAULT_STARTING_COINS,
            total_rounds: DEFAULT_ROUNDS,
            multiplier: None,
            random: false,
            blind: true,
            current_round: 0,
            started_players: Vec::new(),
            coins: Vec::new(),
            pending_contrib: Vec::new(),
        };
        proof {
            assert(s.players.deep_view() =~= Seq::<Seq<char>>::empty());
            assert(s.started_players.deep_view() =~= Seq::<Seq<char>>::empty());
            assert(s.coins@ =~= Seq::<i64>::empty());
            assert(s.pending_contrib@ =~= Seq::<Option<i64>>::empty());
            assert(s@ =~= initial_state());
        }
        s
    }
}

/// The room's invariant: at most eight members, one balance and one
/// contribution slot per started player, and contributions never negative.
pub open spec fn well_formed(s: StateView) -> bool {
    &&& s.players.len() <= MAX_PLAYERS
    &&& s.coins.len() <= MAX_PLAYERS
    &&& s.coins.len() == s.pending.len()
    &&& forall|k: int| 0 <= k < s.pending.len() ==> (#[trigger] s.pending[k] matches Some(a) ==> a >= 0)
}

// ---------------------------------------------------------------------------
// Start parameters
// ---------------------------------------------------------------------------

pub open spec fn clamp(v: int, lo: int, hi: int) -> int {
    if v < lo {
        lo
    } else if v > hi {
        hi
    } else {
        v
    }
}

/// The configuration of a game.
pub struct StartParams {
    pub coins: i64,
    pub rounds: u32,
    pub random: bool,
    pub multiplier: Option<Seq<char>>,
    pub blind: bool,
}

/// A flag word: a number, set when not 0; `dflt` when absent or unreadable.
pub open spec fn flag_word(t: Seq<Seq<char>>, i: int, dflt: bool) -> bool {
    if i < t.len() {
        match parse_unsigned(t[i], u32::MAX as nat) {
            Some(n) => n != 0,
            None => dflt,
        }
    } else {
        dflt
    }
}

/// `<coins> <rounds> <random> <multiplier> <blind>`, each optional: coins
/// (default 10) clamped to 1..=1000000, rounds (default 5) clamped to
/// 1..=1000, the random flag (default off), the multiplier word, and the
/// blind flag (default on).
pub open spec fn start_params(payload: Seq<char>) -> StartParams {
    let t = tokens(payload);
    let c: int = if t.len() > 0 {
        match parse_signed(t[0], i64::MIN as int, i64::MAX as int) {
            Some(v) => v,
            None => DEFAULT_STARTING_COINS as int,
        }
    } else {
        DEFAULT_STARTING_COINS as int
    };
    let r: int = if t.len() > 1 {
        match parse_unsigned(t[1], u32::MAX as nat) {
            Some(v) => v as int,
            None => DEFAULT_ROUNDS as int,
        }
    } else {
        DEFAULT_ROUNDS as int
    };
    StartParams {
        coins: clamp(c, MIN_STARTING_COINS as int, MAX_STARTING_COINS as int) as i64,
        rounds: clamp(r, MIN_ROUNDS as int, MAX_ROUNDS as int) as u32,
        random: flag_word(t, 2, false),
        multiplier: if t.len() > 3 {
            Some(t[3])
        } else {
            None
        },
        blind: flag_word(t, 4, true),
    }
}

fn flag_word_exec(parts: &Vec<Vec<char>>, i: usize, dflt: bool) -> (b: bool)
    ensures
        b == flag_word(words_view(*parts), i as int, dflt),
{
    if i < parts.len() {
        match word_unsigned(parts, i, u32::MAX as u64) {
            Some(n) => n != 0,
            None => dflt,
        }
    } else {
        dflt
    }
}

pub struct StartParamsExec {
    pub coins: i64,
    pub rounds: u32,
    pub random: bool,
    pub multiplier: Option<String>,
    pub blind: bool,
}

fn parse_start_params(payload: &str) -> (p: StartParamsExec)
    ensures
        p.coins == start_params(payload@).coins,
        p.rounds == start_params(payload@).rounds,
        p.random == start_params(payload@).random,
        p.multiplier.deep_view() == start_params(payload@).multiplier,
        p.blind == start_params(payload@).blind,
{
    let parts = words_of(payload);
    let c: i64 = if parts.len() > 0 {
        match word_i64(&parts, 0) {
            Some(v) => v,
            None => DEFAULT_STARTING_COINS,
        }
    } else {
        DEFAULT_STARTING_COINS
    };
    let coins = if c < MIN_STARTING_COINS {
        MIN_STARTING_COINS
    } else if c > MAX_STARTING_COINS {
        MAX_STARTING_COINS
    } else {
        c
    };
    let r: u32 = if parts.len() > 1 {
        match word_unsigned(&parts, 1, u32::MAX as u64) {
            Some(v) => v as u32,
            None => DEFAULT_ROUNDS,
        }
    } else {
        DEFAULT_ROUNDS
    };
    let rounds = if r < MIN_ROUNDS {
        MIN_ROUNDS
    } else if r > MAX_ROUNDS {
        MAX_ROUNDS
    } else {
        r
    };
    let multiplier = if parts.len() > 3 {
        Some(word_string(&parts, 3))
    } else {
        None
    };
    StartParamsExec {
        coins,
        rounds,
        random: flag_word_exec(&parts, 2, false),
        multiplier,
        blind: flag_word_exec(&parts, 4, true),
    }
}

// ---------------------------------------------------------------------------
// Folding events
// ---------------------------------------------------------------------------

/// `GAME_STARTED <params>`: the roster is fixed, everyone gets the starting
/// coins, and round 1 begins.
pub open spec fn started_spec(s: StateView, payload: Seq<char>) -> StateView {
    let p = start_params(payload);
    StateView {
        starting_coins: p.coins,
        total_rounds: p.rounds,
        multiplier: p.multiplier,
        random: p.random,
        blind: p.blind,
        phase: Phase::Playing,
        current_round: 1,
        started_players: s.players,
        coins: Seq::new(s.players.len(), |k: int| p.coins),
        pending: Seq::new(s.players.len(), |k: int| None::<i64>),
        ..s
    }
}

/// The amount of a `CONTRIBUTE <pid> <amount>` payload.
pub open spec fn contributed(rest: Option<Seq<char>>) -> Option<int> {
    match rest {
        Some(r) => parse_signed(trim(r), i64::MIN as int, i64::MAX as int),
        None => None,
    }
}

/// `CONTRIBUTE <pid> <amount>`: a started player who has not contributed
/// this round moves the amount, if they have it, from their coins into the
/// jar.
pub open spec fn contribute_spec(s: StateView, payload: Seq<char>) -> StateView {
    let (pid, rest) = split_at_space(payload);
    match (index_of(s.started_players, pid), contributed(rest)) {
        (Some(i), Some(a)) => if s.phase == Phase::Playing && i < s.pending.len()
            && s.pending[i as int] is None && a >= 0 && a <= s.coins[i as int] {
            StateView {
                pending: s.pending.update(i as int, Some(a as i64)),
                coins: s.coins.update(i as int, (s.coins[i as int] - a) as i64),
                ..s
            }
        } else {
            s
        },
        _ => s,
    }
}

/// All words read as `i64`.
pub open spec fn all_i64(ws: Seq<Seq<char>>) -> bool {
    forall|k: int| 0 <= k < ws.len() ==> (#[trigger] parse_signed(ws[k], i64::MIN as int, i64::MAX as int)) is Some
}

pub open spec fn i64_values(ws: Seq<Seq<char>>) -> Seq<i64> {
    Seq::new(ws.len(), |k: int| parse_signed(ws[k], i64::MIN as int, i64::MAX as int)->0 as i64)
}

/// The balances carried by words `lo..lo + n`, or `old` unless all read.
pub open spec fn balances_from(t: Seq<Seq<char>>, lo: int, old: Seq<i64>) -> Seq<i64> {
    let ws = t.subrange(lo, lo + old.len());
    if all_i64(ws) {
        i64_values(ws)
    } else {
        old
    }
}

/// `ROUND_RESULT <round> <mult> <jar> <payout> [balances]`: with the balance
/// tail the balances are taken over; with the four words alone the payout
/// is added to everyone. The contributions are cleared and the round
/// counter advances up to the total.
pub open spec fn round_result_spec(s: StateView, payload: Seq<char>) -> StateView {
    let t = tokens(payload);
    let n = s.coins.len();
    let coins = if t.len() == 4 + n {
        balances_from(t, 4, s.coins)
    } else if t.len() == 4 {
        match parse_signed(t[3], i64::MIN as int, i64::MAX as int) {
            Some(p) => Seq::new(n, |k: int| (s.coins[k] + p) as i64),
            None => s.coins,
        }
    } else {
        s.coins
    };
    StateView {
        coins,
        pending: Seq::new(n, |k: int| None::<i64>),
        current_round: if s.current_round < s.total_rounds {
            (s.current_round + 1) as u32
        } else {
            s.current_round
        },
        ..s
    }
}

/// `GAME_END <balances>`: the final balances, when there is one per player
/// and all read; the game is over.
pub open spec fn game_end_spec(s: StateView, payload: Seq<char>) -> StateView {
    let t = tokens(payload);
    StateView {
        coins: if t.len() == s.coins.len() {
            balances_from(t, 0, s.coins)
        } else {
            s.coins
        },
        phase: Phase::Finished,
        ..s
    }
}

pub open spec fn fold_spec(s: StateView, kind: Seq<char>, payload: Seq<char>) -> StateView {
    if kind == "PLAYER_JOINED"@ {
        if s.phase == Phase::Lobby {
            s.with_lobby(lobby_joined(s.lobby(), payload, MAX_PLAYERS as nat))
        } else {
            s
        }
    } else if kind == "PLAYER_LEFT"@ {
        s.with_lobby(lobby_left(s.lobby(), payload))
    } else if kind == "HOST_CHANGED"@ {
        s.with_lobby(lobby_host_changed(s.lobby(), payload))
    } else if kind == "GAME_STARTED"@ {
        started_spec(s, payload)
    } else if kind == "CONTRIBUTE"@ {
        contribute_spec(s, payload)
    } else if kind == "ROUND_RESULT"@ {
        round_result_spec(s, payload)
    } else if kind == "GAME_END"@ {
        game_end_spec(s, payload)
    } else {
        s
    }
}

/// The events that fold without overflow: a payout added to every balance
/// keeps each within `i64`.
pub open spec fn fold_ok(s: StateView, kind: Seq<char>, payload: Seq<char>) -> bool {
    kind == "ROUND_RESULT"@ ==> {
        let t = tokens(payload);
        t.len() == 4 && t.len() != 4 + s.coins.len() ==> match parse_signed(
            t[3],
            i64::MIN as int,
            i64::MAX as int,
        ) {
            Some(p) => forall|k: int|
                0 <= k < s.coins.len() ==> i64::MIN <= #[trigger] s.coins[k] + p <= i64::MAX,
            None => true,
        }
    }
}

/// Reads words `lo..lo + n` of `parts` as `i64`, all or nothing.
fn balances_exec(parts: &Vec<Vec<char>>, lo: usize, old: &Vec<i64>) -> (r: Vec<i64>)
    requires
        lo + old@.len() <= parts@.len(),
    ensures
        r@ == balances_from(words_view(*parts), lo as int, old@),
{
    let ghost ws = words_view(*parts).subrange(lo as int, lo + old@.len());
    let n = old.len();
    let np = parts.len();
    let mut out: Vec<i64> = Vec::new();
    let mut k: usize = 0;
    while k < n
        invariant
            n == old@.len(),
            np == parts@.len(),
            lo + n <= parts@.len(),
            ws == words_view(*parts).subrange(lo as int, lo + n),
            k <= n,
            out@.len() == k,
            forall|j: int| 0 <= j < k ==> (#[trigger] parse_signed(ws[j], i64::MIN as int, i64::MAX as int)) is Some,
            forall|j: int| 0 <= j < k ==> out@[j] == parse_signed(ws[j], i64::MIN as int, i64::MAX as int)->0 as i64,
        decreases n - k,
    {
        assert(ws[k as int] == words_view(*parts)[lo + k]);
        match word_i64(parts, lo + k) {
            Some(v) => {
                out.push(v);
            },
            None => {
                proof {
                    assert(!all_i64(ws));
                }
                let mut same: Vec<i64> = Vec::new();
                let mut j: usize = 0;
                while j < n
                    invariant
                        n == old@.len(),
                        j <= n,
                        same@ == old@.subrange(0, j as int),
                    decreases n - j,
                {
                    same.push(old[j]);
                    proof {
                        assert(same@ =~= old@.subrange(0, j + 1));
                    }
                    j += 1;
                }
                proof {
                    assert(same@ =~= old@);
                }
                return same;
            },
        }
        k += 1;
    }
    proof {
        assert(all_i64(ws));
        assert(out@ =~= i64_values(ws));
    }
    out
}

fn fold_started(state: &mut State, payload: &str)
    ensures
        final(state)@ == started_spec(old(state)@, payload@),
{
    let p = parse_start_params(payload);
    state.starting_coins = p.coins;
    state.total_rounds = p.rounds;
    state.multiplier = p.multiplier;
    state.random = p.random;
    state.blind = p.blind;
    state.phase = Phase::Playing;
    state.current_round = 1;
    state.started_players = clone_players(&state.players);
    let n = state.started_players.len();
    let mut coins: Vec<i64> = Vec::new();
    let mut pend: Vec<Option<i64>> = Vec::new();
    let mut k: usize = 0;
    while k < n
        invariant
            k <= n,
            coins@ == Seq::new(k as nat, |j: int| p.coins),
            pend@ == Seq::new(k as nat, |j: int| None::<i64>),
        decreases n - k,
    {
        coins.push(p.coins);
        pend.push(None);
        proof {
            assert(coins@ =~= Seq::new((k + 1) as nat, |j: int| p.coins));
            assert(pend@ =~= Seq::new((k + 1) as nat, |j: int| None::<i64>));
        }
        k += 1;
    }
    state.coins = coins;
    state.pending_contrib = pend;
    proof {
        assert(state@.started_players.len() == old(state)@.players.len());
        assert(state@ =~= started_spec(old(state)@, payload@));
    }
}

fn fold_contribute(state: &mut State, payload: &str)
    requires
        well_formed(old(state)@),
    ensures
        final(state)@ == contribute_spec(old(state)@, payload@),
{
    let v = chars_of(payload);
    let (pe, rs) = split_space_range(&v);
    let pid = string_of_range(&v, 0, pe);
    let amt: Option<i64> = match rs {
        Some(r) => {
            let (a, b) = trim_range(&v, r, v.len());
            proof {
                assert(v@.subrange(r as int, v@.len() as int).subrange((a - r) as int, (b - r) as int)
                    =~= v@.subrange(a as int, b as int));
            }
            parse_signed_range(&v, a, b, i64::MIN, i64::MAX)
        },
        None => None,
    };
    proof {
        lemma_index_of(state.started_players.deep_view(), pid@);
        assert(state.started_players.deep_view().len() == state.started_players.len());
    }
    match (find_player(&state.started_players, pid.as_str()), amt) {
        (Some(i), Some(a)) => {
            if state.phase == Phase::Playing && i < state.pending_contrib.len()
                && state.pending_contrib[i].is_none() && a >= 0 && a <= state.coins[i] {
                state.pending_contrib.set(i, Some(a));
                let c = state.coins[i] - a;
                state.coins.set(i, c);
            }
        },
        _ => {},
    }
}

/// Adds `p` to every balance.
fn add_payout(coins: &mut Vec<i64>, p: i64)
    requires
        forall|j: int| 0 <= j < old(coins)@.len() ==> i64::MIN <= #[trigger] old(coins)@[j] + p <= i64::MAX,
    ensures
        final(coins)@ == Seq::new(old(coins)@.len(), |j: int| (old(coins)@[j] + p) as i64),
{
    let ghost before = coins@;
    let n = coins.len();
    let mut k: usize = 0;
    while k < n
        invariant
            n == before.len(),
            coins@.len() == n,
            k <= n,
            forall|j: int| 0 <= j < k ==> coins@[j] == (before[j] + p) as i64,
            forall|j: int| k <= j < n ==> coins@[j] == before[j],
            forall|j: int| 0 <= j < n ==> i64::MIN <= #[trigger] before[j] + p <= i64::MAX,
        decreases n - k,
    {
        assert(coins@[k as int] == before[k as int]);
        assert(i64::MIN <= before[k as int] + p <= i64::MAX);
        let c = coins[k] + p;
        coins.set(k, c);
        k += 1;
    }
    proof {
        assert(coins@ =~= Seq::new(n as nat, |j: int| (before[j] + p) as i64));
    }
}

fn fold_round_result(state: &mut State, payload: &str)
    requires
        well_formed(old(state)@),
        fold_ok(old(state)@, "ROUND_RESULT"@, payload@),
    ensures
        final(state)@ == round_result_spec(old(state)@, payload@),
{
    let parts = words_of(payload);
    let n = state.coins.len();
    if parts.len() == 4 + n {
        state.coins = balances_exec(&parts, 4, &state.coins);
    } else if parts.len() == 4 {
        match word_i64(&parts, 3) {
            Some(p) => {
                proof {
                    assert(words_view(parts) == tokens(payload@));
                }
                add_payout(&mut state.coins, p);
            },
            None => {},
        }
    }
    let mut pend: Vec<Option<i64>> = Vec::new();
    let mut k: usize = 0;
    while k < n
        invariant
            k <= n,
            pend@ == Seq::new(k as nat, |j: int| None::<i64>),
        decreases n - k,
    {
        pend.push(None);
        proof {
            assert(pend@ =~= Seq::new((k + 1) as nat, |j: int| None::<i64>));
        }
        k += 1;
    }
    state.pending_contrib = pend;
    if state.current_round < state.total_rounds {
        state.current_round = state.current_round + 1;
    }
    proof {
        assert(state@ =~= round_result_spec(old(state)@, payload@));
    }
}

fn fold_game_end(state: &mut State, payload: &str)
    ensures
        final(state)@ == game_end_spec(old(state)@, payload@),
{
    let parts = words_of(payload);
    if parts.len() == state.coins.len() {
        state.coins = balances_exec(&parts, 0, &state.coins);
    }
    state.phase = Phase::Finished;
}

impl Jog {
    pub fn fold(state: &mut State, kind: &str, payload: &str)
        requires
            well_formed(old(state)@),
            fold_ok(old(state)@, kind@, payload@),
        ensures
            final(state)@ == fold_spec(old(state)@, kind@, payload@),
            well_formed(final(state)@),
    {
        if str_is(kind, "PLAYER_JOINED") {
            if state.phase == Phase::Lobby {
                fold_joined(&mut state.players, &mut state.host, payload, MAX_PLAYERS);
            }
        } else if str_is(kind, "PLAYER_LEFT") {
            fold_left(&mut state.players, &mut state.host, payload);
            proof {
                crate::lobby::lemma_left_len(old(state)@.lobby(), payload@);
            }
        } else if str_is(kind, "HOST_CHANGED") {
            fold_host_changed(&mut state.host, payload);
        } else if str_is(kind, "GAME_STARTED") {
            fold_started(state, payload);
        } else if str_is(kind, "CONTRIBUTE") {
            fold_contribute(state, payload);
        } else if str_is(kind, "ROUND_RESULT") {
            fold_round_result(state, payload);
        } else if str_is(kind, "GAME_END") {
            fold_game_end(state, payload);
        }
    }
}

// ---------------------------------------------------------------------------
// Validating actions
// ---------------------------------------------------------------------------

/// The floating-point side of an action, worked out by the caller: the
/// multiplier as `GAME_STARTED` or `ROUND_RESULT` shows it (at most two
/// decimals, trailing zeros dropped), and, for a contribution that completes
/// a round, the jar multiplied and rounded down.
pub struct JarTerms {
    pub multiplier: String,
    pub pot: i64,
}

pub open spec fn sum_of(v: Seq<int>) -> int
    decreases v.len(),
{
    if v.len() == 0 {
        0
    } else {
        sum_of(v.drop_last()) + v.last()
    }
}

/// Everyone but `i` has contributed this round.
pub open spec fn others_in(pend: Seq<Option<i64>>, i: int) -> bool {
    forall|k: int| 0 <= k < pend.len() && k != i ==> (#[trigger] pend[k]) is Some
}

/// The round's contributions when `i` puts in `a`.
pub open spec fn round_contribs(s: StateView, i: int, a: int) -> Seq<int> {
    Seq::new(
        s.coins.len(),
        |k: int|
            if k == i {
                a
            } else {
                match s.pending[k] {
                    Some(x) => x as int,
                    None => 0,
                }
            },
    )
}

/// Integer division rounding toward zero.
pub open spec fn tdiv(a: int, n: int) -> int {
    if a >= 0 {
        a / n
    } else {
        -((-a) / n)
    }
}

/// The balances after the round: `i` pays `a`, and everyone receives the
/// payout.
pub open spec fn final_balances(s: StateView, i: int, a: int, payout: int) -> Seq<int> {
    Seq::new(s.coins.len(), |k: int| s.coins[k] - (if k == i { a } else { 0 }) + payout)
}

/// Each number preceded by a space.
pub open spec fn tail_ints(v: Seq<int>) -> Seq<char>
    decreases v.len(),
{
    if v.len() == 0 {
        seq![]
    } else {
        tail_ints(v.drop_last()) + " "@ + int_dec(v.last())
    }
}

/// The numbers separated by single spaces.
pub open spec fn joined_ints(v: Seq<int>) -> Seq<char> {
    if v.len() == 0 {
        seq![]
    } else {
        tail_ints(v).drop_first()
    }
}

/// The largest of a non-empty sequence.
pub open spec fn seq_max(v: Seq<int>) -> int
    decreases v.len(),
{
    if v.len() <= 1 {
        if v.len() == 1 {
            v[0]
        } else {
            0
        }
    } else {
        let m = seq_max(v.drop_last());
        if v.last() > m {
            v.last()
        } else {
            m
        }
    }
}

/// How many entries equal `m`.
pub open spec fn count_eq(v: Seq<int>, m: int) -> nat
    decreases v.len(),
{
    if v.len() == 0 {
        0
    } else {
        count_eq(v.drop_last(), m) + if v.last() == m {
            1nat
        } else {
            0nat
        }
    }
}

/// The first index holding `m`.
pub open spec fn first_eq(v: Seq<int>, m: int) -> int
    decreases v.len(),
{
    if v.len() == 0 {
        0
    } else if count_eq(v.drop_last(), m) > 0 {
        first_eq(v.drop_last(), m)
    } else {
        (v.len() - 1) as int
    }
}

/// `WINNER <index>` when one balance is the largest, `DRAW` otherwise.
pub open spec fn outcome_event(v: Seq<int>) -> EventView {
    let m = seq_max(v);
    if count_eq(v, m) == 1 {
        ("WINNER"@, dec(first_eq(v, m) as nat))
    } else {
        ("DRAW"@, seq![])
    }
}

/// Who contributes what, or why the contribution is refused: only while
/// playing, only started players, once per round, a readable amount that
/// is neither negative nor more than the player has.
pub open spec fn contribution(s: StateView, player: Seq<char>, payload: Seq<char>) -> Result<(int, int), Seq<char>> {
    if s.phase != Phase::Playing {
        Err("not playing"@)
    } else {
        match index_of(s.started_players, player) {
            None => Err("not in game"@),
            Some(i) => if i >= s.pending.len() {
                Err("not in game"@)
            } else if s.pending[i as int] is Some {
                Err("already contributed this round"@)
            } else {
                match parse_signed(trim(payload), i64::MIN as int, i64::MAX as int) {
                    None => Err("bad amount"@),
                    Some(a) => if a < 0 {
                        Err("amount must be non-negative"@)
                    } else if a > s.coins[i as int] {
                        Err("amount exceeds coins"@)
                    } else {
                        Ok((i as int, a))
                    },
                }
            },
        }
    }
}

/// The jar of the round that this action completes, if it completes one.
pub open spec fn round_jar_spec(s: StateView, player: Seq<char>, kind: Seq<char>, payload: Seq<char>) -> Option<int> {
    if kind == "CONTRIBUTE"@ {
        match contribution(s, player, payload) {
            Ok((i, a)) => if others_in(s.pending, i) {
                Some(sum_of(round_contribs(s, i, a)))
            } else {
                None
            },
            Err(_) => None,
        }
    } else {
        None
    }
}

/// `CONTRIBUTE <amount>`: the contribution, and, when it completes the
/// round, the round result (with the balances unless blind) and after the
/// last round the final balances and the winner or a draw. The payout is
/// the multiplied jar `pot` split evenly, rounded toward zero.
pub open spec fn contribute_verdict(s: StateView, player: Seq<char>, payload: Seq<char>, mult: Seq<char>, pot: int) -> VerdictView {
    match contribution(s, player, payload) {
        Err(e) => Err(e),
        Ok((i, a)) => {
            let ev = ("CONTRIBUTE"@, player + " "@ + int_dec(a));
            if !others_in(s.pending, i) {
                Ok(seq![ev])
            } else {
                let n = s.coins.len();
                let jar = sum_of(round_contribs(s, i, a));
                let payout = tdiv(pot, n as int);
                let fin = final_balances(s, i, a, payout);
                let rr = (
                    "ROUND_RESULT"@,
                    dec(s.current_round as nat) + " "@ + mult + " "@ + int_dec(jar) + " "@ + int_dec(
                        payout,
                    ) + if s.blind {
                        seq![]
                    } else {
                        tail_ints(fin)
                    },
                );
                if s.current_round >= s.total_rounds {
                    Ok(seq![ev, rr, ("GAME_END"@, joined_ints(fin)), outcome_event(fin)])
                } else {
                    Ok(seq![ev, rr])
                }
            }
        },
    }
}

pub open spec fn bit(b: bool) -> Seq<char> {
    if b {
        "1"@
    } else {
        "0"@
    }
}

/// `START`: only the host, only in the lobby, only with two players; the
/// configuration is echoed with the multiplier as the caller renders it.
pub open spec fn start_verdict(s: StateView, player: Seq<char>, payload: Seq<char>, mult: Seq<char>) -> VerdictView {
    if s.host != Some(player) {
        Err("only host may start"@)
    } else if s.phase != Phase::Lobby {
        Err("already started"@)
    } else if s.players.len() < MIN_PLAYERS_TO_START {
        Err("need at least 2 players"@)
    } else {
        let p = start_params(payload);
        Ok(
            seq![
                (
                    "GAME_STARTED"@,
                    int_dec(p.coins as int) + " "@ + dec(p.rounds as nat) + " "@ + bit(p.random)
                        + " "@ + mult + " "@ + bit(p.blind),
                ),
            ],
        )
    }
}

pub open spec fn validate_spec(s: StateView, player: Seq<char>, kind: Seq<char>, payload: Seq<char>, mult: Seq<char>, pot: int) -> VerdictView {
    if kind == "JOIN"@ {
        join_verdict(
            Lobby { players: s.players, host: None },
            s.phase == Phase::Lobby,
            player,
            MAX_PLAYERS as nat,
        )
    } else if kind == "LEAVE"@ {
        leave_verdict(s.lobby(), player)
    } else if kind == "CHAT"@ {
        chat_verdict(player, payload)
    } else if kind == "START"@ {
        start_verdict(s, player, payload, mult)
    } else if kind == "CONTRIBUTE"@ {
        contribute_verdict(s, player, payload, mult, pot)
    } else {
        Err("unknown action: "@ + kind)
    }
}

/// The actions that validate without overflow: the jar of a completed round
/// and every balance after it fit in an `i64`.
pub open spec fn validate_ok(s: StateView, player: Seq<char>, kind: Seq<char>, payload: Seq<char>, pot: int) -> bool {
    kind == "CONTRIBUTE"@ ==> match contribution(s, player, payload) {
        Ok((i, a)) => others_in(s.pending, i) ==> {
            &&& sum_of(round_contribs(s, i, a)) <= i64::MAX
            &&& forall|k: int|
                0 <= k < s.coins.len() ==> i64::MIN <= #[trigger] final_balances(
                    s,
                    i,
                    a,
                    tdiv(pot, s.coins.len() as int),
                )[k] <= i64::MAX
        },
        Err(_) => true,
    }
}

fn contribution_exec(state: &State, player: &str, payload: &str) -> (r: Result<(usize, i64), String>)
    requires
        well_formed(state@),
    ensures
        match r {
            Ok((i, a)) => contribution(state@, player@, payload@) == Ok::<(int, int), Seq<char>>(
                (i as int, a as int),
            ),
            Err(e) => contribution(state@, player@, payload@) == Err::<(int, int), Seq<char>>(e@),
        },
{
    if state.phase != Phase::Playing {
        return Err(String::from_str("not playing"));
    }
    proof {
        lemma_index_of(state.started_players.deep_view(), player@);
        assert(state.started_players.deep_view().len() == state.started_players.len());
    }
    let i = match find_player(&state.started_players, player) {
        Some(i) => i,
        None => {
            return Err(String::from_str("not in game"));
        },
    };
    if i >= state.pending_contrib.len() {
        return Err(String::from_str("not in game"));
    }
    if state.pending_contrib[i].is_some() {
        return Err(String::from_str("already contributed this round"));
    }
    let v = chars_of(payload);
    proof {
        assert(v@.subrange(0, v@.len() as int) =~= v@);
    }
    let (lo, hi) = trim_range(&v, 0, v.len());
    let amt = match parse_signed_range(&v, lo, hi, i64::MIN, i64::MAX) {
        Some(a) => a,
        None => {
            return Err(String::from_str("bad amount"));
        },
    };
    if amt < 0 {
        return Err(String::from_str("amount must be non-negative"));
    }
    if amt > state.coins[i] {
        return Err(String::from_str("amount exceeds coins"));
    }
    Ok((i, amt))
}

fn others_in_exec(pend: &Vec<Option<i64>>, i: usize) -> (b: bool)
    ensures
        b == others_in(pend@, i as int),
{
    let mut k: usize = 0;
    while k < pend.len()
        invariant
            k <= pend@.len(),
            forall|j: int| 0 <= j < k && j != i ==> (#[trigger] pend@[j]) is Some,
        decreases pend.len() - k,
    {
        if k != i && pend[k].is_none() {
            return false;
        }
        k += 1;
    }
    true
}

proof fn lemma_sum_take(v: Seq<int>, k: int)
    requires
        0 <= k < v.len(),
    ensures
        sum_of(v.take(k + 1)) == sum_of(v.take(k)) + v[k],
{
    assert(v.take(k + 1).drop_last() =~= v.take(k));
}

/// The jar: the round's contributions added up, computed wide enough that
/// it cannot overflow.
fn jar_exec(state: &State, i: usize, a: i64) -> (jar: i128)
    requires
        well_formed(state@),
    ensures
        jar == sum_of(round_contribs(state@, i as int, a as int)),
{
    let ghost c = round_contribs(state@, i as int, a as int);
    let n = state.coins.len();
    let mut total: i128 = 0;
    let mut k: usize = 0;
    while k < n
        invariant
            n == state.coins@.len(),
            n == state.pending_contrib@.len(),
            n <= MAX_PLAYERS,
            c == round_contribs(state@, i as int, a as int),
            k <= n,
            total == sum_of(c.take(k as int)),
            -(k as int) * 0x8000_0000_0000_0000 <= total <= (k as int) * 0x8000_0000_0000_0000,
        decreases n - k,
    {
        let x: i64 = if k == i {
            a
        } else {
            match state.pending_contrib[k] {
                Some(x) => x,
                None => 0,
            }
        };
        proof {
            lemma_sum_take(c, k as int);
            assert(c[k as int] == x as int);
            assert((k + 1) as int * 0x8000_0000_0000_0000 == (k as int) * 0x8000_0000_0000_0000 + 0x8000_0000_0000_0000) by (nonlinear_arith);
            assert(-((k + 1) as int) * 0x8000_0000_0000_0000 == -(k as int) * 0x8000_0000_0000_0000 - 0x8000_0000_0000_0000) by (nonlinear_arith);
            assert((k as int) * 0x8000_0000_0000_0000 <= 8 * 0x8000_0000_0000_0000) by (nonlinear_arith)
                requires k <= 8;
        }
        total = total + x as i128;
        k += 1;
    }
    proof {
        assert(c.take(n as int) =~= c);
    }
    total
}

/// `a / n` rounded toward zero, for a positive `n`.
fn tdiv_exec(a: i64, n: i64) -> (q: i64)
    requires
        n > 0,
    ensures
        q == tdiv(a as int, n as int),
{
    let w = a as i128;
    let d = n as i128;
    let t: i128 = if w >= 0 {
        w / d
    } else {
        -((-w) / d)
    };
    proof {
        if w >= 0 {
            assert(0 <= w / d <= w) by (nonlinear_arith)
                requires w >= 0, d > 0;
        } else {
            let nw: int = -(w as int);
            let dd: int = d as int;
            assert(0 <= nw / dd <= nw) by (nonlinear_arith)
                requires nw > 0, dd > 0;
        }
    }
    t as i64
}

pub open spec fn ints(v: Seq<i64>) -> Seq<int> {
    Seq::new(v.len(), |k: int| v[k] as int)
}

/// The balances after a completed round.
fn finals_exec(state: &State, i: usize, a: i64, payout: i64) -> (r: Vec<i64>)
    requires
        well_formed(state@),
        forall|k: int|
            0 <= k < state@.coins.len() ==> i64::MIN <= #[trigger] final_balances(
                state@,
                i as int,
                a as int,
                payout as int,
            )[k] <= i64::MAX,
    ensures
        ints(r@) == final_balances(state@, i as int, a as int, payout as int),
{
    let ghost f = final_balances(state@, i as int, a as int, payout as int);
    let n = state.coins.len();
    let mut out: Vec<i64> = Vec::new();
    let mut k: usize = 0;
    while k < n
        invariant
            n == state.coins@.len(),
            f == final_balances(state@, i as int, a as int, payout as int),
            forall|j: int| 0 <= j < n ==> i64::MIN <= #[trigger] f[j] <= i64::MAX,
            k <= n,
            out@.len() == k,
            forall|j: int| 0 <= j < k ==> out@[j] as int == f[j],
        decreases n - k,
    {
        assert(i64::MIN <= f[k as int] <= i64::MAX);
        let paid: i128 = if k == i {
            a as i128
        } else {
            0
        };
        let b: i128 = state.coins[k] as i128 - paid + payout as i128;
        out.push(b as i64);
        k += 1;
    }
    proof {
        assert(ints(out@) =~= f);
    }
    out
}

/// Each balance preceded by a space.
fn tail_exec(v: &Vec<i64>) -> (r: Vec<char>)
    ensures
        r@ == tail_ints(ints(v@)),
{
    let mut out: Vec<char> = Vec::new();
    let mut k: usize = 0;
    while k < v.len()
        invariant
            k <= v@.len(),
            out@ == tail_ints(ints(v@).take(k as int)),
        decreases v.len() - k,
    {
        out.push(' ');
        push_int(&mut out, v[k]);
        proof {
            let w = ints(v@).take(k + 1);
            assert(w.drop_last() =~= ints(v@).take(k as int));
            reveal_strlit(" ");
            assert(out@ =~= tail_ints(w));
        }
        k += 1;
    }
    proof {
        assert(ints(v@).take(k as int) =~= ints(v@));
    }
    out
}

/// `WINNER <index>` or `DRAW` for the final balances.
fn outcome_exec(v: &Vec<i64>) -> (e: (String, String))
    requires
        v@.len() > 0,
    ensures
        (e.0@, e.1@) == outcome_event(ints(v@)),
{
    let ghost w = ints(v@);
    let mut m = v[0];
    let mut k: usize = 1;
    proof {
        assert(w.take(1).len() == 1);
    }
    while k < v.len()
        invariant
            w == ints(v@),
            1 <= k <= v@.len(),
            m as int == seq_max(w.take(k as int)),
        decreases v.len() - k,
    {
        proof {
            assert(w.take(k + 1).drop_last() =~= w.take(k as int));
        }
        if v[k] > m {
            m = v[k];
        }
        k += 1;
    }
    proof {
        assert(w.take(v@.len() as int) =~= w);
    }
    let mut cnt: usize = 0;
    let mut first: usize = 0;
    let mut j: usize = 0;
    while j < v.len()
        invariant
            w == ints(v@),
            j <= v@.len(),
            cnt == count_eq(w.take(j as int), m as int),
            cnt <= j,
            cnt > 0 ==> first as int == first_eq(w.take(j as int), m as int),
        decreases v.len() - j,
    {
        proof {
            assert(w.take(j + 1).drop_last() =~= w.take(j as int));
        }
        if v[j] == m {
            if cnt == 0 {
                first = j;
            }
            cnt += 1;
        }
        j += 1;
    }
    proof {
        assert(w.take(v@.len() as int) =~= w);
    }
    if cnt == 1 {
        let mut d: Vec<char> = Vec::new();
        push_dec(&mut d, first as u64);
        event("WINNER", string_of(&d))
    } else {
        proof {
            reveal_strlit("");
        }
        event("DRAW", String::new())
    }
}

proof fn lemma_sum_nonneg(v: Seq<int>)
    requires
        forall|k: int| 0 <= k < v.len() ==> v[k] >= 0,
    ensures
        sum_of(v) >= 0,
    decreases v.len(),
{
    if v.len() > 0 {
        lemma_sum_nonneg(v.drop_last());
    }
}

fn validate_contribute(state: &State, player: &str, payload: &str, terms: &JarTerms) -> (r: Result<
    Vec<(String, String)>,
    String,
>)
    requires
        well_formed(state@),
        validate_ok(state@, player@, "CONTRIBUTE"@, payload@, terms.pot as int),
    ensures
        verdict_view(r) == contribute_verdict(state@, player@, payload@, terms.multiplier@, terms.pot as int),
{
    let (i, a) = match contribution_exec(state, player, payload) {
        Ok(c) => c,
        Err(e) => {
            return Err(e);
        },
    };
    let mut cv: Vec<char> = Vec::new();
    push_str(&mut cv, player);
    push_str(&mut cv, " ");
    push_int(&mut cv, a);
    let ev = event("CONTRIBUTE", string_of(&cv));
    let mut out: Vec<(String, String)> = Vec::new();
    out.push(ev);
    if !others_in_exec(&state.pending_contrib, i) {
        proof {
            assert(out.deep_view() =~= seq![("CONTRIBUTE"@, player@ + " "@ + int_dec(a as int))]);
        }
        return Ok(out);
    }
    let n = state.coins.len();
    proof {
        let c = round_contribs(state@, i as int, a as int);
        assert forall|k: int| 0 <= k < c.len() implies c[k] >= 0 by {
            if k != i {
                assert(state@.pending[k] matches Some(x) ==> x >= 0);
            }
        }
        lemma_sum_nonneg(c);
    }
    let jar = jar_exec(state, i, a) as i64;
    let payout = tdiv_exec(terms.pot, n as i64);
    let fin = finals_exec(state, i, a, payout);
    let mut rv: Vec<char> = Vec::new();
    push_dec(&mut rv, state.current_round as u64);
    push_str(&mut rv, " ");
    push_str(&mut rv, terms.multiplier.as_str());
    push_str(&mut rv, " ");
    push_int(&mut rv, jar);
    push_str(&mut rv, " ");
    push_int(&mut rv, payout);
    let tail = tail_exec(&fin);
    if !state.blind {
        push_all(&mut rv, &tail);
    }
    out.push(event("ROUND_RESULT", string_of(&rv)));
    proof {
        reveal_strlit(" ");
        let sv = state@;
        let fw = final_balances(sv, i as int, a as int, payout as int);
        assert(rv@ =~= dec(sv.current_round as nat) + " "@ + terms.multiplier@ + " "@ + int_dec(
            jar as int,
        ) + " "@ + int_dec(payout as int) + if sv.blind {
            seq![]
        } else {
            tail_ints(fw)
        });
    }
    let ghost head = seq![
        ("CONTRIBUTE"@, player@ + " "@ + int_dec(a as int)),
        ("ROUND_RESULT"@, rv@),
    ];
    proof {
        reveal_strlit(" ");
        assert(cv@ =~= player@ + " "@ + int_dec(a as int));
        assert(out.deep_view() =~= head);
    }
    if state.current_round >= state.total_rounds {
        let end = if tail.len() > 0 {
            string_of_range(&tail, 1, tail.len())
        } else {
            String::new()
        };
        out.push(event("GAME_END", end));
        let oc = outcome_exec(&fin);
        out.push(oc);
        proof {
            let w = ints(fin@);
            if w.len() > 0 {
                assert(tail@.subrange(1, tail@.len() as int) =~= tail_ints(w).drop_first());
            }
            assert(end@ =~= joined_ints(w));
            assert(out.deep_view() =~= head + seq![("GAME_END"@, end@), (oc.0@, oc.1@)]);
        }
    }
    proof {
        let sv = state@;
        assert(contribution(sv, player@, payload@) == Ok::<(int, int), Seq<char>>((i as int, a as int)));
        assert(others_in(sv.pending, i as int));
        assert(sum_of(round_contribs(sv, i as int, a as int)) == jar as int);
        assert(tdiv(terms.pot as int, sv.coins.len() as int) == payout as int);
        assert(ints(fin@) == final_balances(sv, i as int, a as int, payout as int));
        let cvv = contribute_verdict(sv, player@, payload@, terms.multiplier@, terms.pot as int);
        if sv.current_round >= sv.total_rounds {
            assert(cvv->Ok_0[2] == out.deep_view()[2]);
            assert(cvv->Ok_0[3] == out.deep_view()[3]);
            assert(cvv->Ok_0 =~= out.deep_view());
        } else {
            assert(cvv->Ok_0 =~= out.deep_view());
        }
    }
    Ok(out)
}

fn bit_str(b: bool) -> (s: &'static str)
    ensures
        s@ == bit(b),
{
    if b {
        "1"
    } else {
        "0"
    }
}

impl Jog {
    pub fn validate(state: &State, player: &str, kind: &str, payload: &str, terms: &JarTerms) -> (r: Result<
        Vec<(String, String)>,
        String,
    >)
        requires
            well_formed(state@),
            validate_ok(state@, player@, kind@, payload@, terms.pot as int),
        ensures
            verdict_view(r) == validate_spec(
                state@,
                player@,
                kind@,
                payload@,
                terms.multiplier@,
                terms.pot as int,
            ),
    {
        if str_is(kind, "JOIN") {
            validate_join(&state.players, state.phase == Phase::Lobby, player, MAX_PLAYERS)
        } else if str_is(kind, "LEAVE") {
            validate_leave(&state.players, &state.host, player)
        } else if str_is(kind, "CHAT") {
            validate_chat(player, payload)
        } else if str_is(kind, "START") {
            if !host_is(&state.host, player) {
                return Err(String::from_str("only host may start"));
            }
            if state.phase != Phase::Lobby {
                return Err(String::from_str("already started"));
            }
            if state.players.len() < MIN_PLAYERS_TO_START {
                return Err(String::from_str("need at least 2 players"));
            }
            let p = parse_start_params(payload);
            let mut v: Vec<char> = Vec::new();
            push_int(&mut v, p.coins);
            push_str(&mut v, " ");
            push_dec(&mut v, p.rounds as u64);
            push_str(&mut v, " ");
            push_str(&mut v, bit_str(p.random));
            push_str(&mut v, " ");
            push_str(&mut v, terms.multiplier.as_str());
            push_str(&mut v, " ");
            push_str(&mut v, bit_str(p.blind));
            let mut out: Vec<(String, String)> = Vec::new();
            out.push(event("GAME_STARTED", string_of(&v)));
            proof {
                assert(out.deep_view() =~= seq![("GAME_STARTED"@, v@)]);
            }
            Ok(out)
        } else if str_is(kind, "CONTRIBUTE") {
            validate_contribute(state, player, payload, terms)
        } else {
            let mut m: Vec<char> = Vec::new();
            push_str(&mut m, "unknown action: ");
            push_str(&mut m, kind);
            Err(string_of(&m))
        }
    }
}

// ---------------------------------------------------------------------------
// Around validation
// ---------------------------------------------------------------------------

/// Whether the action validates without overflow.
fn validate_ok_exec(state: &State, player: &str, kind: &str, payload: &str, pot: i64) -> (b: bool)
    requires
        well_formed(state@),
    ensures
        b == validate_ok(state@, player@, kind@, payload@, pot as int),
{
    if !str_is(kind, "CONTRIBUTE") {
        return true;
    }
    let (i, a) = match contribution_exec(state, player, payload) {
        Ok(c) => c,
        Err(_) => {
            return true;
        },
    };
    if !others_in_exec(&state.pending_contrib, i) {
        return true;
    }
    let jar = jar_exec(state, i, a);
    if jar > i64::MAX as i128 {
        return false;
    }
    let n = state.coins.len();
    let payout = tdiv_exec(pot, n as i64);
    finals_fit(state, i, a, payout)
}

/// Whether every balance after the round stays within `i64`.
fn finals_fit(state: &State, i: usize, a: i64, payout: i64) -> (b: bool)
    requires
        well_formed(state@),
    ensures
        b == forall|k: int|
            0 <= k < state@.coins.len() ==> i64::MIN <= #[trigger] final_balances(
                state@,
                i as int,
                a as int,
                payout as int,
            )[k] <= i64::MAX,
{
    let n = state.coins.len();
    let ghost f = final_balances(state@, i as int, a as int, payout as int);
    let mut k: usize = 0;
    while k < n
        invariant
            n == state.coins@.len(),
            f == final_balances(state@, i as int, a as int, payout as int),
            k <= n,
            forall|j: int| 0 <= j < k ==> i64::MIN <= #[trigger] f[j] <= i64::MAX,
        decreases n - k,
    {
        let paid: i128 = if k == i {
            a as i128
        } else {
            0
        };
        let b: i128 = state.coins[k] as i128 - paid + payout as i128;
        if b < i64::MIN as i128 || b > i64::MAX as i128 {
            assert(!(i64::MIN <= f[k as int] <= i64::MAX));
            return false;
        }
        k += 1;
    }
    true
}

impl Jog {
    /// The jar of the round that this action would complete, if it completes
    /// one: what the caller multiplies to fill in [`JarTerms::pot`].
    pub fn round_jar(state: &State, player: &str, kind: &str, payload: &str) -> (r: Option<i128>)
        requires
            well_formed(state@),
        ensures
            match round_jar_spec(state@, player@, kind@, payload@) {
                Some(j) => r == Some(j as i128),
                None => r is None,
            },
    {
        if !str_is(kind, "CONTRIBUTE") {
            return None;
        }
        let (i, a) = match contribution_exec(state, player, payload) {
            Ok(c) => c,
            Err(_) => {
                return None;
            },
        };
        if !others_in_exec(&state.pending_contrib, i) {
            return None;
        }
        Some(jar_exec(state, i, a))
    }

    /// `validate` where it computes without overflow; `None` where the jar
    /// or a balance would leave the `i64` range.
    pub fn validate_checked(state: &State, player: &str, kind: &str, payload: &str, terms: &JarTerms) -> (r:
        Option<Result<Vec<(String, String)>, String>>)
        requires
            well_formed(state@),
        ensures
            r is None <==> !validate_ok(state@, player@, kind@, payload@, terms.pot as int),
            r matches Some(v) ==> verdict_view(v) == validate_spec(
                state@,
                player@,
                kind@,
                payload@,
                terms.multiplier@,
                terms.pot as int,
            ),
    {
        if validate_ok_exec(state, player, kind, payload, terms.pot) {
            Some(Self::validate(state, player, kind, payload, terms))
        } else {
            None
        }
    }

    pub fn max_players() -> (n: usize)
        ensures
            n == MAX_PLAYERS,
    {
        MAX_PLAYERS
    }

    pub fn game_id() -> (s: &'static str)
        ensures
            s@ == "jar-of-greed"@,
    {
        "jar-of-greed"
    }

    /// The started players who have not contributed to the current round;
    /// nobody outside play.
    pub fn pending_players(state: &State) -> (r: Vec<String>)
        ensures
            r.deep_view() == if state.phase == Phase::Playing {
                waiting(state@.started_players, state@.pending)
            } else {
                seq![]
            },
    {
        let mut out: Vec<String> = Vec::new();
        if state.phase != Phase::Playing {
            proof {
                assert(out.deep_view() =~= Seq::<Seq<char>>::empty());
            }
            return out;
        }
        let ghost ps = state@.started_players;
        let mut k: usize = 0;
        while k < state.started_players.len()
            invariant
                ps == state@.started_players,
                k <= ps.len(),
                ps.len() == state.started_players@.len(),
                out.deep_view() == waiting(ps.take(k as int), state@.pending),
            decreases state.started_players.len() - k,
        {
            let open = if k < state.pending_contrib.len() {
                state.pending_contrib[k].is_none()
            } else {
                true
            };
            let ghost before = out.deep_view();
            proof {
                assert(ps.take(k + 1).drop_last() =~= ps.take(k as int));
                assert(ps[k as int] == state.started_players[k as int]@);
            }
            if open {
                out.push(state.started_players[k].clone());
                proof {
                    assert(out.deep_view() =~= before.push(ps[k as int]));
                }
            }
            k += 1;
        }
        proof {
            assert(ps.take(ps.len() as int) =~= ps);
        }
        out
    }

    pub fn snapshot(state: &State) -> (r: RoomSnapshot)
        ensures
            r.phase@ == phase_name(state.phase),
            r.host.deep_view() == state@.host,
            r.players.deep_view() == if state.phase == Phase::Lobby {
                state@.players
            } else {
                state@.started_players
            },
    {
        let players = if state.phase == Phase::Lobby {
            clone_players(&state.players)
        } else {
            clone_players(&state.started_players)
        };
        RoomSnapshot { phase: phase_str(&state.phase), host: state.host.clone(), players }
    }
}

/// The members of `ps` whose slot in `pend` is empty or missing, in order.
pub open spec fn waiting(ps: Seq<Seq<char>>, pend: Seq<Option<i64>>) -> Seq<Seq<char>>
    decreases ps.len(),
{
    if ps.len() == 0 {
        seq![]
    } else {
        let k = ps.len() - 1;
        let rest = waiting(ps.drop_last(), pend);
        if k >= pend.len() || pend[k] is None {
            rest.push(ps.last())
        } else {
            rest
        }
    }
}

pub open spec fn phase_name(p: Phase) -> Seq<char> {
    match p {
        Phase::Lobby => "lobby"@,
        Phase::Playing => "playing"@,
        Phase::Finished => "finished"@,
    }
}

pub fn phase_str(phase: &Phase) -> (s: String)
    ensures
        s@ == phase_name(*phase),
{
    match phase {
        Phase::Lobby => String::from_str("lobby"),
        Phase::Playing => String::from_str("playing"),
        Phase::Finished => String::from_str("finished"),
    }
}

// ---------------------------------------------------------------------------
// The random multiplier's draw
// ---------------------------------------------------------------------------

/// What a round's draw hashes: `"jar-of-greed"`, each started player's name
/// and the round number, fed as `Hash` feeds strings and integers.
pub open spec fn roll_writes(players: Seq<Seq<char>>, round: u32) -> Seq<Seq<u8>> {
    seq![vstd::utf8::encode_utf8("jar-of-greed"@), seq![0xffu8]] + name_writes(players) + seq![
        le_bytes(round as int, 4),
    ]
}

pub open spec fn round_roll(players: Seq<Seq<char>>, round: u32) -> int {
    DefaultHasher::spec_finish(roll_writes(players, round)) as int % 10_000
}

/// The draw of round `round` in `0..10000`, from which the caller scales a
/// random multiplier: `DefaultHasher` over the game's name, the players and
/// the round.
pub fn random_roll(players: &Vec<String>, round: u32) -> (r: u64)
    ensures
        r == round_roll(players.deep_view(), round),
{
    let mut h = DefaultHasher::new();
    let ff: [u8; 1] = [0xffu8];
    proof {
        assert(ff@ =~= seq![0xffu8]);
    }
    h.write("jar-of-greed".as_bytes());
    h.write(ff.as_slice());
    let ghost head = seq![vstd::utf8::encode_utf8("jar-of-greed"@), seq![0xffu8]];
    assert(h@ =~= head);
    let mut k: usize = 0;
    while k < players.len()
        invariant
            k <= players.len(),
            ff@ == seq![0xffu8],
            h@ == head + name_writes(players.deep_view().take(k as int)),
        decreases players.len() - k,
    {
        let p = players[k].as_str();
        h.write(p.as_bytes());
        h.write(ff.as_slice());
        proof {
            let ps = players.deep_view().take(k + 1);
            assert(ps.drop_last() =~= players.deep_view().take(k as int));
            assert(ps.last() == players[k as int]@);
            assert(h@ =~= head + name_writes(ps));
        }
        k += 1;
    }
    proof {
        assert(players.deep_view().take(players.len() as int) =~= players.deep_view());
    }
    let rb = le_bytes_exec(round as u64, 4);
    h.write(rb.as_slice());
    proof {
        assert(h@ =~= roll_writes(players.deep_view(), round));
    }
    h.finish() % 10_000
}

// ---------------------------------------------------------------------------
// Laws
// ---------------------------------------------------------------------------

proof fn lemma_seq_max(v: Seq<int>)
    requires
        v.len() > 0,
    ensures
        forall|k: int| 0 <= k < v.len() ==> v[k] <= seq_max(v),
        exists|k: int| 0 <= k < v.len() && v[k] == seq_max(v),
    decreases v.len(),
{
    if v.len() == 1 {
        assert(v[0] == seq_max(v));
    } else {
        let t = v.drop_last();
        lemma_seq_max(t);
        assert forall|k: int| 0 <= k < v.len() implies v[k] <= seq_max(v) by {
            if k < t.len() {
                assert(v[k] == t[k]);
            }
        }
        if v.last() > seq_max(t) {
            assert(v[v.len() - 1] == seq_max(v));
        } else {
            let k = choose|k: int| 0 <= k < t.len() && t[k] == seq_max(t);
            assert(v[k] == seq_max(v));
        }
    }
}

proof fn lemma_count_eq(v: Seq<int>, m: int)
    ensures
        count_eq(v, m) == 0 <==> forall|k: int| 0 <= k < v.len() ==> v[k] != m,
        count_eq(v, m) > 0 ==> {
            let f = first_eq(v, m);
            &&& 0 <= f < v.len()
            &&& v[f] == m
        },
        count_eq(v, m) == 1 ==> forall|k: int| 0 <= k < v.len() && k != first_eq(v, m) ==> v[k] != m,
    decreases v.len(),
{
    if v.len() > 0 {
        let t = v.drop_last();
        lemma_count_eq(t, m);
        assert forall|k: int| 0 <= k < t.len() implies t[k] == v[k] by {}
        if count_eq(t, m) == 0 && v.last() != m {
            assert forall|k: int| 0 <= k < v.len() implies v[k] != m by {
                if k < t.len() {
                    assert(t[k] == v[k]);
                }
            }
        }
        if count_eq(v, m) == 0 {
            assert(v[v.len() - 1] != m);
        }
    }
}

/// The game's winner is its richest player: when one balance is strictly
/// the largest, `WINNER` names that player.
pub proof fn law_winner_is_richest(v: Seq<int>)
    requires
        v.len() > 0,
        count_eq(v, seq_max(v)) == 1,
    ensures
        ({
            let i = first_eq(v, seq_max(v));
            &&& 0 <= i < v.len()
            &&& forall|k: int| 0 <= k < v.len() && k != i ==> v[k] < v[i]
            &&& outcome_event(v) == ("WINNER"@, dec(i as nat))
        }),
{
    lemma_seq_max(v);
    lemma_count_eq(v, seq_max(v));
}

/// Ties for the largest balance end in a draw.
pub proof fn law_tie_is_draw(v: Seq<int>, a: int, b: int)
    requires
        0 <= a < b < v.len(),
        v[a] == v[b],
        forall|k: int| 0 <= k < v.len() ==> v[k] <= v[a],
    ensures
        outcome_event(v) == ("DRAW"@, Seq::<char>::empty()),
{
    lemma_seq_max(v);
    let m = seq_max(v);
    let w = choose|k: int| 0 <= k < v.len() && v[k] == m;
    assert(v[w] <= v[a] && v[a] <= m);
    lemma_count_eq(v, m);
    if count_eq(v, m) == 1 {
        let f = first_eq(v, m);
        assert(a == f || v[a] != m);
        assert(b == f || v[b] != m);
    }
}

} // verus!
