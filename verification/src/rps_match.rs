//! Rock-paper-scissors between two submitted programs, over a round count
//! drawn between 3 and 7.
//!
//! The loop that talks to the programs sends `START`, reads one move from
//! each program per round, and answers with the score. Its decisions live
//! here: reading a move, scoring a round, the messages and the results, and
//! what a reconnecting player is sent.
use vstd::prelude::*;
use crate::game::{draw_rounds, read_word, results_stopped_by, stopped_by, uppercase, GameResult};
use crate::text::{dec, int_dec, push_dec, push_int, push_str, str_is, string_of, trim};

verus! {

pub const ROUNDS: u32 = 5;

pub const ROUND_VAR: u32 = 2;

#[derive(Debug, Clone)]
pub struct RockPaperScissors {
    pub game_started: bool,
    pub current_round: u32,
    pub total_rounds: u32,
    pub scores: [i32; 2],
    pub game_finished: bool,
    /// Each finished round's two moves: 0 rock, 1 paper, 2 scissors.
    pub round_history: Vec<[u8; 2]>,
    pub player_ids: Vec<String>,
}

pub struct RpsMatchView {
    pub game_started: bool,
    pub current_round: u32,
    pub total_rounds: u32,
    pub scores: (i32, i32),
    pub game_finished: bool,
    pub round_history: Seq<(u8, u8)>,
    pub player_ids: Seq<Seq<char>>,
}

impl View for RockPaperScissors {
    type V = RpsMatchView;

    open spec fn view(&self) -> RpsMatchView {
        RpsMatchView {
            game_started: self.game_started,
            current_round: self.current_round,
            total_rounds: self.total_rounds,
            scores: (self.scores@[0], self.scores@[1]),
            game_finished: self.game_finished,
            round_history: self.round_history@.map_values(|m: [u8; 2]| (m@[0], m@[1])),
            player_ids: self.player_ids.deep_view(),
        }
    }
}

/// The move an upper-cased message names: 0 rock, 1 paper, 2 scissors.
pub open spec fn rps_code(up: Seq<char>) -> Option<u8> {
    if up == "ROCK"@ {
        Some(0)
    } else if up == "PAPER"@ {
        Some(1)
    } else if up == "SCISSORS"@ {
        Some(2)
    } else {
        None
    }
}

/// Who wins a round: `Some(0)` or `Some(1)`, `None` on a draw.
pub open spec fn beats(a: u8, b: u8) -> Option<usize> {
    if a == b {
        None
    } else if (a == 0 && b == 2) || (a == 1 && b == 0) || (a == 2 && b == 1) {
        Some(0)
    } else {
        Some(1)
    }
}

pub open spec fn move_name(m: u8) -> Seq<char> {
    if m == 0 {
        "rock"@
    } else if m == 1 {
        "paper"@
    } else if m == 2 {
        "scissors"@
    } else {
        "unknown"@
    }
}

/// The scores after a round with the given winner.
pub open spec fn scored(sc: (i32, i32), w: Option<usize>) -> (i32, i32) {
    match w {
        Some(0) => ((sc.0 + 1) as i32, sc.1),
        Some(_) => (sc.0, (sc.1 + 1) as i32),
        None => sc,
    }
}

/// `ROUND <idx> <m0> <m1>` for each finished round.
pub open spec fn history_lines(h: Seq<(u8, u8)>) -> Seq<Seq<char>>
    decreases h.len(),
{
    if h.len() == 0 {
        seq![]
    } else {
        history_lines(h.drop_last()) + seq![
            "ROUND "@ + dec(h.len()) + " "@ + move_name(h.last().0) + " "@ + move_name(h.last().1),
        ]
    }
}

/// What a reconnecting player is sent: `START`, the finished rounds, then
/// the first player's final score and `END`, or the current round's score.
pub open spec fn reconnect_state(v: RpsMatchView) -> Seq<Seq<char>> {
    if !v.game_started {
        seq![]
    } else {
        let head = seq!["START"@] + history_lines(v.round_history);
        if v.game_finished {
            head + seq!["SCORE "@ + int_dec(v.scores.0 as int), "END"@]
        } else if v.current_round > 0 {
            head + seq![
                "ROUND "@ + dec(v.current_round as nat) + " SCORE "@ + int_dec(v.scores.0 as int)
                    + " "@ + int_dec(v.scores.1 as int),
            ]
        } else {
            head
        }
    }
}

impl RockPaperScissors {
    pub fn new() -> (g: RockPaperScissors)
        ensures
            g@ == (RpsMatchView {
                game_started: false,
                current_round: 0,
                total_rounds: 0,
                scores: (0, 0),
                game_finished: false,
                round_history: seq![],
                player_ids: seq![],
            }),
    {
        let g = RockPaperScissors {
            game_started: false,
            current_round: 0,
            total_rounds: 0,
            scores: [0, 0],
            game_finished: false,
            round_history: Vec::new(),
            player_ids: Vec::new(),
        };
        proof {
            assert(g@.round_history =~= Seq::<(u8, u8)>::empty());
            assert(g@.player_ids =~= Seq::<Seq<char>>::empty());
        }
        g
    }

    pub fn game_id(&self) -> (s: &'static str)
        ensures
            s@ == "rock-paper-scissors"@,
    {
        "rock-paper-scissors"
    }

    pub fn max_players(&self) -> (n: usize)
        ensures
            n == 2,
    {
        2
    }

    /// The number of rounds of a match: 3 to 7, by chance.
    pub fn draw_rounds() -> (r: u32)
        ensures
            ROUNDS - ROUND_VAR <= r <= ROUNDS + ROUND_VAR,
    {
        draw_rounds(ROUNDS, ROUND_VAR)
    }

    /// A match of `rounds` rounds between the two players.
    pub fn begin(&mut self, rounds: u32, player_ids: Vec<String>)
        ensures
            final(self)@ == (RpsMatchView {
                game_started: true,
                current_round: 0,
                total_rounds: rounds,
                scores: (0, 0),
                game_finished: false,
                round_history: seq![],
                player_ids: player_ids.deep_view(),
            }),
    {
        self.game_started = true;
        self.current_round = 0;
        self.total_rounds = rounds;
        self.scores = [0, 0];
        self.game_finished = false;
        self.round_history = Vec::new();
        self.player_ids = player_ids;
        proof {
            assert(self@.round_history =~= Seq::<(u8, u8)>::empty());
        }
    }

    pub fn start_round(&mut self, round: u32)
        ensures
            final(self)@ == (RpsMatchView { current_round: round, ..old(self)@ }),
    {
        self.current_round = round;
    }

    /// The move an upper-cased message names.
    pub fn move_code(up: &str) -> (r: Option<u8>)
        ensures
            r == rps_code(up@),
    {
        if str_is(up, "ROCK") {
            Some(0)
        } else if str_is(up, "PAPER") {
            Some(1)
        } else if str_is(up, "SCISSORS") {
            Some(2)
        } else {
            None
        }
    }

    /// The move a program's message names, read trimmed and upper-cased.
    pub fn read_move(msg: &str) -> (r: Option<u8>)
        ensures
            r == rps_code(uppercase(trim(msg@))),
    {
        let w = read_word(msg);
        Self::move_code(w.as_str())
    }

    /// Player `i` timed out or sent something that is not a move: the match
    /// is over, and the other player keeps the score it has.
    pub fn stop(&mut self, i: usize, r: GameResult) -> (v: Vec<GameResult>)
        ensures
            final(self)@ == (RpsMatchView { game_finished: true, ..old(self)@ }),
            v@ == stopped_by(
                i,
                r,
                GameResult::Accepted(if i == 0 {
                    old(self)@.scores.1
                } else {
                    old(self)@.scores.0
                }),
            ),
    {
        self.game_finished = true;
        let other = if i == 0 {
            self.scores[1]
        } else {
            self.scores[0]
        };
        results_stopped_by(i, r, GameResult::Accepted(other))
    }

    pub fn round_winner(a: u8, b: u8) -> (w: Option<usize>)
        ensures
            w == beats(a, b),
    {
        if a == b {
            None
        } else if (a == 0 && b == 2) || (a == 1 && b == 0) || (a == 2 && b == 1) {
            Some(0)
        } else {
            Some(1)
        }
    }

    /// Scores round `round` and records its moves; the message both players
    /// are sent, `ROUND <round> SCORE <s0> <s1>`.
    pub fn finish_round(&mut self, round: u32, moves: [u8; 2]) -> (msg: String)
        requires
            old(self).scores@[0] < i32::MAX,
            old(self).scores@[1] < i32::MAX,
        ensures
            final(self)@ == (RpsMatchView {
                scores: scored(old(self)@.scores, beats(moves@[0], moves@[1])),
                round_history: old(self)@.round_history.push((moves@[0], moves@[1])),
                ..old(self)@
            }),
            msg@ == "ROUND "@ + dec(round as nat) + " SCORE "@ + int_dec(final(self)@.scores.0 as int)
                + " "@ + int_dec(final(self)@.scores.1 as int),
    {
        match Self::round_winner(moves[0], moves[1]) {
            Some(w) => {
                if w == 0 {
                    self.scores[0] = self.scores[0] + 1;
                } else {
                    self.scores[1] = self.scores[1] + 1;
                }
            },
            None => {},
        }
        let ghost before = self.round_history@;
        self.round_history.push(moves);
        proof {
            assert(self@.round_history =~= old(self)@.round_history.push((moves@[0], moves@[1])));
        }
        let mut v: Vec<char> = Vec::new();
        push_str(&mut v, "ROUND ");
        push_dec(&mut v, round as u64);
        push_str(&mut v, " SCORE ");
        push_int(&mut v, self.scores[0] as i64);
        push_str(&mut v, " ");
        push_int(&mut v, self.scores[1] as i64);
        string_of(&v)
    }

    /// The match is over: both players are credited with their scores.
    pub fn finish(&mut self) -> (v: Vec<GameResult>)
        ensures
            final(self)@ == (RpsMatchView { game_finished: true, ..old(self)@ }),
            v@ == seq![
                GameResult::Accepted(old(self)@.scores.0),
                GameResult::Accepted(old(self)@.scores.1),
            ],
    {
        self.game_finished = true;
        let mut v: Vec<GameResult> = Vec::new();
        v.push(GameResult::Accepted(self.scores[0]));
        v.push(GameResult::Accepted(self.scores[1]));
        proof {
            assert(v@ =~= seq![
                GameResult::Accepted(old(self)@.scores.0),
                GameResult::Accepted(old(self)@.scores.1),
            ]);
        }
        v
    }

    /// `SCORE <score>` for player `i`.
    pub fn score_message(&self, i: usize) -> (s: String)
        requires
            i < 2,
        ensures
            s@ == "SCORE "@ + int_dec(if i == 0 {
                self@.scores.0
            } else {
                self@.scores.1
            } as int),
    {
        let mut v: Vec<char> = Vec::new();
        push_str(&mut v, "SCORE ");
        push_int(&mut v, self.scores[i] as i64);
        string_of(&v)
    }

    /// The messages that bring a reconnecting player up to date.
    pub fn get_reconnect_state(&self, player_id: &str) -> (msgs: Vec<String>)
        ensures
            msgs.deep_view() == reconnect_state(self@),
    {
        let mut out: Vec<String> = Vec::new();
        if !self.game_started {
            proof {
                assert(out.deep_view() =~= Seq::<Seq<char>>::empty());
            }
            return out;
        }
        out.push(String::from_str("START"));
        let ghost h = self@.round_history;
        let mut k: usize = 0;
        while k < self.round_history.len()
            invariant
                h == self@.round_history,
                k <= h.len(),
                out.deep_view() == seq!["START"@] + history_lines(h.take(k as int)),
            decreases self.round_history.len() - k,
        {
            let m = self.round_history[k];
            let mut v: Vec<char> = Vec::new();
            push_str(&mut v, "ROUND ");
            push_dec(&mut v, (k + 1) as u64);
            push_str(&mut v, " ");
            push_str(&mut v, name_of(m[0]));
            push_str(&mut v, " ");
            push_str(&mut v, name_of(m[1]));
            let ghost before = out.deep_view();
            out.push(string_of(&v));
            proof {
                assert(h.take(k + 1).drop_last() =~= h.take(k as int));
                assert(h[k as int] == (m@[0], m@[1]));
                assert(out.deep_view() =~= before.push(v@));
            }
            k += 1;
        }
        proof {
            assert(h.take(h.len() as int) =~= h);
        }
        let ghost head = out.deep_view();
        if self.game_finished {
            out.push(self.score_message(0));
            out.push(String::from_str("END"));
        } else if self.current_round > 0 {
            let mut v: Vec<char> = Vec::new();
            push_str(&mut v, "ROUND ");
            push_dec(&mut v, self.current_round as u64);
            push_str(&mut v, " SCORE ");
            push_int(&mut v, self.scores[0] as i64);
            push_str(&mut v, " ");
            push_int(&mut v, self.scores[1] as i64);
            out.push(string_of(&v));
        }
        proof {
            assert(out.deep_view() =~= reconnect_state(self@));
        }
        out
    }
}

fn name_of(m: u8) -> (s: &'static str)
    ensures
        s@ == move_name(m),
{
    if m == 0 {
        "rock"
    } else if m == 1 {
        "paper"
    } else if m == 2 {
        "scissors"
    } else {
        "unknown"
    }
}

} // verus!
