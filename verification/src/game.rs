//! What a match between submitted programs reports for each player, and
//! the registry of the games the server runs.
use vstd::prelude::*;
use rand::Rng;
use crate::text::str_is;

verus! {

/// Result of a player's performance in a match.
#[derive(Debug, Clone, Copy, PartialEq, Eq, Structural)]
pub enum GameResult {
    /// The player finished; the score it earned.
    Accepted(i32),
    TimeLimitExceeded,
    WrongAnswer,
    RuntimeError,
}

/// The results when player `i` of two stops the match with `r` and the
/// other is credited with `other`.
pub open spec fn stopped_by(i: usize, r: GameResult, other: GameResult) -> Seq<GameResult> {
    if i == 0 {
        seq![r, other]
    } else {
        seq![other, r]
    }
}

pub fn results_stopped_by(i: usize, r: GameResult, other: GameResult) -> (v: Vec<GameResult>)
    ensures
        v@ == stopped_by(i, r, other),
{
    let mut v: Vec<GameResult> = Vec::new();
    if i == 0 {
        v.push(r);
        v.push(other);
    } else {
        v.push(other);
        v.push(r);
    }
    proof {
        assert(v@ =~= stopped_by(i, r, other));
    }
    v
}

/// A match that cannot be played with this many players: every player gets
/// a runtime error.
pub fn runtime_errors(n: usize) -> (v: Vec<GameResult>)
    ensures
        v@ == Seq::new(n as nat, |k: int| GameResult::RuntimeError),
{
    let mut v: Vec<GameResult> = Vec::new();
    let mut k: usize = 0;
    while k < n
        invariant
            k <= n,
            v@ == Seq::new(k as nat, |j: int| GameResult::RuntimeError),
        decreases n - k,
    {
        v.push(GameResult::RuntimeError);
        proof {
            assert(v@ =~= Seq::new((k + 1) as nat, |j: int| GameResult::RuntimeError));
        }
        k += 1;
    }
    v
}

/// `Rng::random_range(lo..=hi)` on the thread-local generator of `rand`:
/// some number in the range, by chance; it panics on an empty range, which
/// `requires` rules out.
#[verifier::external_body]
fn random_in(lo: u32, hi: u32) -> (r: u32)
    requires
        lo <= hi,
    ensures
        lo <= r <= hi,
{
    rand::rng().random_range(lo..=hi)
}

/// A round count drawn at random within `var` of `base`.
pub fn draw_rounds(base: u32, var: u32) -> (r: u32)
    requires
        var <= base,
        base + var <= u32::MAX,
    ensures
        base - var <= r <= base + var,
{
    random_in(base - var, base + var)
}

/// `str::to_uppercase`: the Unicode upper-case mapping of every character.
pub uninterp spec fn uppercase(s: Seq<char>) -> Seq<char>;

/// `str::to_uppercase`, which maps each character to its Unicode upper case
/// (some to more than one character); the mapping is named, not stated.
#[verifier::external_body]
fn to_uppercase(s: &str) -> (r: String)
    ensures
        r@ == uppercase(s@),
{
    s.to_uppercase()
}

/// A program's message trimmed and upper-cased, as the matches read moves.
pub fn read_word(msg: &str) -> (r: String)
    ensures
        r@ == uppercase(crate::text::trim(msg@)),
{
    let t = crate::text::trimmed_string(msg);
    to_uppercase(t.as_str())
}


/// What the server knows of each game it runs: its id and description,
/// the match format, and the time and memory limits of its players (the
/// CPU share, a fraction, is kept by the server itself).
pub struct GameMetadata {
    pub id: &'static str,
    pub name: &'static str,
    pub description: &'static str,
    pub rounds_per_match: u32,
    pub repetitions: u32,
    pub bot_timeout_ms: u32,
    pub human_timeout_ms: u32,
    pub bot_turn_timeout_ms: u64,
    pub human_turn_timeout_ms: u64,
    pub memory_limit_mb: u64,
}

pub struct GameMetadataView {
    pub id: Seq<char>,
    pub name: Seq<char>,
    pub description: Seq<char>,
    pub rounds_per_match: u32,
    pub repetitions: u32,
    pub bot_timeout_ms: u32,
    pub human_timeout_ms: u32,
    pub bot_turn_timeout_ms: u64,
    pub human_turn_timeout_ms: u64,
    pub memory_limit_mb: u64,
}

impl View for GameMetadata {
    type V = GameMetadataView;

    open spec fn view(&self) -> GameMetadataView {
        GameMetadataView {
            id: self.id@,
            name: self.name@,
            description: self.description@,
            rounds_per_match: self.rounds_per_match,
            repetitions: self.repetitions,
            bot_timeout_ms: self.bot_timeout_ms,
            human_timeout_ms: self.human_timeout_ms,
            bot_turn_timeout_ms: self.bot_turn_timeout_ms,
            human_turn_timeout_ms: self.human_turn_timeout_ms,
            memory_limit_mb: self.memory_limit_mb,
        }
    }
}

/// The registry: rock-paper-scissors, prisoner's dilemma and tic-tac-toe.
pub open spec fn game_registry(id: Seq<char>) -> Option<GameMetadataView> {
    if id == "rock-paper-scissors"@ {
        Some(GameMetadataView {
            id: "rock-paper-scissors"@,
            name: "Rock Paper Scissors"@,
            description: "Classic rock-paper-scissors game for 2 players"@,
            rounds_per_match: 100,
            repetitions: 1,
            bot_timeout_ms: 5000,
            human_timeout_ms: 30000,
            bot_turn_timeout_ms: 2000,
            human_turn_timeout_ms: 10000,
            memory_limit_mb: 64,
        })
    } else if id == "prisoners-dilemma"@ {
        Some(GameMetadataView {
            id: "prisoners-dilemma"@,
            name: "Prisoner's Dilemma"@,
            description: "Classic game theory prisoner's dilemma"@,
            rounds_per_match: 100,
            repetitions: 1,
            bot_timeout_ms: 5000,
            human_timeout_ms: 30000,
            bot_turn_timeout_ms: 2000,
            human_turn_timeout_ms: 10000,
            memory_limit_mb: 64,
        })
    } else if id == "tic-tac-toe"@ {
        Some(GameMetadataView {
            id: "tic-tac-toe"@,
            name: "Tic Tac Toe"@,
            description: "Classic tic-tac-toe game for 2 players"@,
            rounds_per_match: 1,
            repetitions: 1,
            bot_timeout_ms: 60000,
            human_timeout_ms: 120000,
            bot_turn_timeout_ms: 30000,
            human_turn_timeout_ms: 60000,
            memory_limit_mb: 64,
        })
    } else {
        None
    }
}

/// The registered game with id `id`, if there is one.
pub fn find_game_by_id(id: &str) -> (r: Option<GameMetadata>)
    ensures
        match game_registry(id@) {
            Some(g) => r matches Some(m) && m@ == g,
            None => r is None,
        },
{
    if str_is(id, "rock-paper-scissors") {
        Some(GameMetadata {
            id: "rock-paper-scissors",
            name: "Rock Paper Scissors",
            description: "Classic rock-paper-scissors game for 2 players",
            rounds_per_match: 100,
            repetitions: 1,
            bot_timeout_ms: 5000,
            human_timeout_ms: 30000,
            bot_turn_timeout_ms: 2000,
            human_turn_timeout_ms: 10000,
            memory_limit_mb: 64,
        })
    } else if str_is(id, "prisoners-dilemma") {
        Some(GameMetadata {
            id: "prisoners-dilemma",
            name: "Prisoner's Dilemma",
            description: "Classic game theory prisoner's dilemma",
            rounds_per_match: 100,
            repetitions: 1,
            bot_timeout_ms: 5000,
            human_timeout_ms: 30000,
            bot_turn_timeout_ms: 2000,
            human_turn_timeout_ms: 10000,
            memory_limit_mb: 64,
        })
    } else if str_is(id, "tic-tac-toe") {
        Some(GameMetadata {
            id: "tic-tac-toe",
            name: "Tic Tac Toe",
            description: "Classic tic-tac-toe game for 2 players",
            rounds_per_match: 1,
            repetitions: 1,
            bot_timeout_ms: 60000,
            human_timeout_ms: 120000,
            bot_turn_timeout_ms: 30000,
            human_turn_timeout_ms: 60000,
            memory_limit_mb: 64,
        })
    } else {
        None
    }
}

} // verus!
