//! The iterated prisoner's dilemma between two submitted programs, over a
//! round count drawn between 7 and 13.
//!
//! Each round both programs answer `C` (cooperate) or `D` (defect); mutual
//! cooperation pays 3 each, mutual defection 1 each, and a lone defector 5
//! against 0. Each program is told the round from its own side:
//! `RESULT <their move> <your move> <their score> <your score>`.
use vstd::prelude::*;
use crate::game::{draw_rounds, read_word, results_stopped_by, stopped_by, uppercase, GameResult};
use crate::lobby::{find_player, index_of, lemma_index_of};
use crate::text::{int_dec, push_int, push_str, str_is, string_of, trim};

verus! {

pub const ROUNDS: u32 = 10;

pub const ROUND_VAR: u32 = 3;

#[derive(Debug, Clone)]
pub struct PrisonersDilemma {
    pub game_started: bool,
    pub current_round: u32,
    pub total_rounds: u32,
    pub scores: [i32; 2],
    pub game_finished: bool,
    /// Each finished round's two moves: 0 cooperate, 1 defect.
    pub round_history: Vec<[u8; 2]>,
    pub player_ids: Vec<String>,
}

pub struct PdMatchView {
    pub game_started: bool,
    pub current_round: u32,
    pub total_rounds: u32,
    pub scores: (i32, i32),
    pub game_finished: bool,
    pub round_history: Seq<(u8, u8)>,
    pub player_ids: Seq<Seq<char>>,
}

impl View for PrisonersDilemma {
    type V = PdMatchView;

    open spec fn view(&self) -> PdMatchView {
        PdMatchView {
            game_started: self.game_started,
            current_round: self.current_round,
            total_rounds: self.total_rounds,
            scores: (self.scores@[0], self.scores@[1]),
            game_finished: self.game_finished,
            round_history: self.round_history@.map_values(|m: [u8; 2]| (m@[0], m@[1])),
            player_ids: self.player_ids.deep_view(),
        }
    }
}

/// The recorded moves are cooperations or defections.
pub open spec fn well_formed(v: PdMatchView) -> bool {
    forall|k: int| 0 <= k < v.round_history.len() ==> (#[trigger] v.round_history[k]).0 <= 1
        && v.round_history[k].1 <= 1
}

/// The move an upper-cased message names: 0 cooperate, 1 defect.
pub open spec fn pd_code(up: Seq<char>) -> Option<u8> {
    if up == "C"@ || up == "COOPERATE"@ {
        Some(0)
    } else if up == "D"@ || up == "DEFECT"@ {
        Some(1)
    } else {
        None
    }
}

/// The points of a round: (3, 3), (0, 5), (5, 0) or (1, 1).
pub open spec fn payoff(a: u8, b: u8) -> (int, int) {
    if a == 0 && b == 0 {
        (3, 3)
    } else if a == 0 {
        (0, 5)
    } else if b == 0 {
        (5, 0)
    } else {
        (1, 1)
    }
}

pub open spec fn letter(m: u8) -> Seq<char> {
    if m == 0 {
        "C"@
    } else {
        "D"@
    }
}

/// `RESULT <their move> <your move> <their score> <your score>` for the
/// player whose move is `mine`.
pub open spec fn result_line(theirs: u8, mine: u8, their_score: int, my_score: int) -> Seq<char> {
    "RESULT "@ + letter(theirs) + " "@ + letter(mine) + " "@ + int_dec(their_score) + " "@ + int_dec(
        my_score,
    )
}

/// The running scores after the recorded rounds.
pub open spec fn history_scores(h: Seq<(u8, u8)>) -> (int, int)
    decreases h.len(),
{
    if h.len() == 0 {
        (0, 0)
    } else {
        let (a, b) = history_scores(h.drop_last());
        let (p, q) = payoff(h.last().0, h.last().1);
        (a + p, b + q)
    }
}

/// The round results as player `pn` was sent them.
pub open spec fn history_lines(h: Seq<(u8, u8)>, pn: nat) -> Seq<Seq<char>>
    decreases h.len(),
{
    if h.len() == 0 {
        seq![]
    } else {
        let (a, b) = history_scores(h);
        let m = h.last();
        history_lines(h.drop_last(), pn) + seq![
            if pn == 0 {
                result_line(m.1, m.0, b, a)
            } else {
                result_line(m.0, m.1, a, b)
            },
        ]
    }
}

/// What a reconnecting player is sent: `START`, every round's result from
/// its side, and, once the match is over, its score and `END`.
pub open spec fn reconnect_state(v: PdMatchView, pid: Seq<char>) -> Seq<Seq<char>> {
    if !v.game_started {
        seq![]
    } else {
        let pn: nat = match index_of(v.player_ids, pid) {
            Some(i) => i,
            None => 0,
        };
        let head = seq!["START"@] + history_lines(v.round_history, pn);
        if v.game_finished {
            head + seq![
                "SCORE "@ + int_dec(if pn == 0 {
                    v.scores.0
                } else {
                    v.scores.1
                } as int),
                "END"@,
            ]
        } else {
            head
        }
    }
}

/// Reconnecting computes without a panic: the player is one of the two,
/// and replaying the rounds keeps the scores within `i32`.
pub open spec fn reconnect_ok(v: PdMatchView, pid: Seq<char>) -> bool {
    &&& match index_of(v.player_ids, pid) {
        Some(i) => i < 2,
        None => true,
    }
    &&& history_scores(v.round_history).0 <= i32::MAX
    &&& history_scores(v.round_history).1 <= i32::MAX
}

proof fn lemma_scores_grow(h: Seq<(u8, u8)>, k: int)
    requires
        0 <= k <= h.len(),
    ensures
        0 <= history_scores(h.take(k)).0 <= history_scores(h).0,
        0 <= history_scores(h.take(k)).1 <= history_scores(h).1,
    decreases h.len() - k,
{
    if k < h.len() {
        lemma_scores_grow(h, k + 1);
        assert(h.take(k + 1).drop_last() =~= h.take(k));
        lemma_scores_nonneg(h.take(k));
        let t = h.take(k + 1);
        assert(history_scores(t).0 == history_scores(h.take(k)).0 + payoff(t.last().0, t.last().1).0);
        assert(history_scores(t).1 == history_scores(h.take(k)).1 + payoff(t.last().0, t.last().1).1);
    } else {
        assert(h.take(k) =~= h);
        lemma_scores_nonneg(h);
    }
}

proof fn lemma_scores_nonneg(h: Seq<(u8, u8)>)
    ensures
        history_scores(h).0 >= 0,
        history_scores(h).1 >= 0,
    decreases h.len(),
{
    if h.len() > 0 {
        lemma_scores_nonneg(h.drop_last());
    }
}

impl PrisonersDilemma {
    pub fn new() -> (g: PrisonersDilemma)
        ensures
            g@ == (PdMatchView {
                game_started: false,
                current_round: 0,
                total_rounds: 0,
                scores: (0, 0),
                game_finished: false,
                round_history: seq![],
                player_ids: seq![],
            }),
    {
        let g = PrisonersDilemma {
            game_started: false,
            current_round: 0,
            total_rounds: 0,
            scores: [0, 0],
            game_finished: false,
            round_history: Vec::new(),
            player_ids: Vec::new(),
        };
        proof {
            assert(g@.round_history =~= Seq::<(u8, u8)>::empty());
            assert(g@.player_ids =~= Seq::<Seq<char>>::empty());
        }
        g
    }

    pub fn game_id(&self) -> (s: &'static str)
        ensures
            s@ == "prisoners-dilemma"@,
    {
        "prisoners-dilemma"
    }

    pub fn max_players(&self) -> (n: usize)
        ensures
            n == 2,
    {
        2
    }

    /// The number of rounds of a match: 7 to 13, by chance.
    pub fn draw_rounds() -> (r: u32)
        ensures
            ROUNDS - ROUND_VAR <= r <= ROUNDS + ROUND_VAR,
    {
        draw_rounds(ROUNDS, ROUND_VAR)
    }

    pub fn begin(&mut self, rounds: u32, player_ids: Vec<String>)
        ensures
            final(self)@ == (PdMatchView {
                game_started: true,
                current_round: 0,
                total_rounds: rounds,
                scores: (0, 0),
                game_finished: false,
                round_history: seq![],
                player_ids: player_ids.deep_view(),
            }),
    {
        self.game_started = true;
        self.current_round = 0;
        self.total_rounds = rounds;
        self.scores = [0, 0];
        self.game_finished = false;
        self.round_history = Vec::new();
        self.player_ids = player_ids;
        proof {
            assert(self@.round_history =~= Seq::<(u8, u8)>::empty());
        }
    }

    pub fn start_round(&mut self, round: u32)
        ensures
            final(self)@ == (PdMatchView { current_round: round, ..old(self)@ }),
    {
        self.current_round = round;
    }

    /// The move an upper-cased message names.
    pub fn move_code(up: &str) -> (r: Option<u8>)
        ensures
            r == pd_code(up@),
    {
        if str_is(up, "C") || str_is(up, "COOPERATE") {
            Some(0)
        } else if str_is(up, "D") || str_is(up, "DEFECT") {
            Some(1)
        } else {
            None
        }
    }

    /// The move a program's message names, read trimmed and upper-cased.
    pub fn read_move(msg: &str) -> (r: Option<u8>)
        ensures
            r == pd_code(uppercase(trim(msg@))),
    {
        let w = read_word(msg);
        Self::move_code(w.as_str())
    }

    /// Player `i` timed out or sent something that is not a move: the match
    /// is over, and the other player keeps the score it has.
    pub fn stop(&mut self, i: usize, r: GameResult) -> (v: Vec<GameResult>)
        ensures
            final(self)@ == (PdMatchView { game_finished: true, ..old(self)@ }),
            v@ == stopped_by(
                i,
                r,
                GameResult::Accepted(if i == 0 {
                    old(self)@.scores.1
                } else {
                    old(self)@.scores.0
                }),
            ),
    {
        self.game_finished = true;
        let other = if i == 0 {
            self.scores[1]
        } else {
            self.scores[0]
        };
        results_stopped_by(i, r, GameResult::Accepted(other))
    }

    /// Scores a round and records its moves; the messages for player 0 and
    /// player 1, each from its own side.
    pub fn finish_round(&mut self, moves: [u8; 2]) -> (msgs: (String, String))
        requires
            well_formed(old(self)@),
            moves@[0] <= 1,
            moves@[1] <= 1,
            old(self).scores@[0] <= i32::MAX - 5,
            old(self).scores@[1] <= i32::MAX - 5,
        ensures
            well_formed(final(self)@),
            final(self)@ == (PdMatchView {
                scores: (
                    (old(self)@.scores.0 + payoff(moves@[0], moves@[1]).0) as i32,
                    (old(self)@.scores.1 + payoff(moves@[0], moves@[1]).1) as i32,
                ),
                round_history: old(self)@.round_history.push((moves@[0], moves@[1])),
                ..old(self)@
            }),
            msgs.0@ == result_line(
                moves@[1],
                moves@[0],
                final(self)@.scores.1 as int,
                final(self)@.scores.0 as int,
            ),
            msgs.1@ == result_line(
                moves@[0],
                moves@[1],
                final(self)@.scores.0 as int,
                final(self)@.scores.1 as int,
            ),
    {
        let (p, q): (i32, i32) = if moves[0] == 0 && moves[1] == 0 {
            (3, 3)
        } else if moves[0] == 0 {
            (0, 5)
        } else if moves[1] == 0 {
            (5, 0)
        } else {
            (1, 1)
        };
        self.scores[0] = self.scores[0] + p;
        self.scores[1] = self.scores[1] + q;
        self.round_history.push(moves);
        proof {
            assert(self@.round_history =~= old(self)@.round_history.push((moves@[0], moves@[1])));
        }
        let m0 = result_message(moves[1], moves[0], self.scores[1], self.scores[0]);
        let m1 = result_message(moves[0], moves[1], self.scores[0], self.scores[1]);
        (m0, m1)
    }

    /// The match is over: both players are credited with their scores.
    pub fn finish(&mut self) -> (v: Vec<GameResult>)
        ensures
            final(self)@ == (PdMatchView { game_finished: true, ..old(self)@ }),
            v@ == seq![
                GameResult::Accepted(old(self)@.scores.0),
                GameResult::Accepted(old(self)@.scores.1),
            ],
    {
        self.game_finished = true;
        let mut v: Vec<GameResult> = Vec::new();
        v.push(GameResult::Accepted(self.scores[0]));
        v.push(GameResult::Accepted(self.scores[1]));
        proof {
            assert(v@ =~= seq![
                GameResult::Accepted(old(self)@.scores.0),
                GameResult::Accepted(old(self)@.scores.1),
            ]);
        }
        v
    }

    /// `SCORE <score>` for player `i`.
    pub fn score_message(&self, i: usize) -> (s: String)
        requires
            i < 2,
        ensures
            s@ == "SCORE "@ + int_dec(if i == 0 {
                self@.scores.0
            } else {
                self@.scores.1
            } as int),
    {
        let mut v: Vec<char> = Vec::new();
        push_str(&mut v, "SCORE ");
        push_int(&mut v, self.scores[i] as i64);
        string_of(&v)
    }

    /// The messages that bring a reconnecting player up to date.
    pub fn get_reconnect_state(&self, player_id: &str) -> (msgs: Vec<String>)
        requires
            well_formed(self@),
            reconnect_ok(self@, player_id@),
        ensures
            msgs.deep_view() == reconnect_state(self@, player_id@),
    {
        let mut out: Vec<String> = Vec::new();
        if !self.game_started {
            proof {
                assert(out.deep_view() =~= Seq::<Seq<char>>::empty());
            }
            return out;
        }
        proof {
            lemma_index_of(self.player_ids.deep_view(), player_id@);
            assert(self.player_ids.deep_view().len() == self.player_ids.len());
        }
        let pn: usize = match find_player(&self.player_ids, player_id) {
            Some(i) => i,
            None => 0,
        };
        out.push(String::from_str("START"));
        let ghost h = self@.round_history;
        let mut sc: [i32; 2] = [0, 0];
        let mut k: usize = 0;
        while k < self.round_history.len()
            invariant
                h == self@.round_history,
                well_formed(self@),
                history_scores(h).0 <= i32::MAX,
                history_scores(h).1 <= i32::MAX,
                k <= h.len(),
                (sc@[0] as int, sc@[1] as int) == history_scores(h.take(k as int)),
                out.deep_view() == seq!["START"@] + history_lines(h.take(k as int), pn as nat),
            decreases self.round_history.len() - k,
        {
            let m = self.round_history[k];
            proof {
                assert(h.take(k + 1).drop_last() =~= h.take(k as int));
                assert(h[k as int] == (m@[0], m@[1]));
                assert(h.take(k + 1).last() == h[k as int]);
                lemma_scores_grow(h, k + 1);
            }
            let (p, q): (i32, i32) = if m[0] == 0 && m[1] == 0 {
                (3, 3)
            } else if m[0] == 0 {
                (0, 5)
            } else if m[1] == 0 {
                (5, 0)
            } else {
                (1, 1)
            };
            sc = [sc[0] + p, sc[1] + q];
            let line = if pn == 0 {
                result_message(m[1], m[0], sc[1], sc[0])
            } else {
                result_message(m[0], m[1], sc[0], sc[1])
            };
            let ghost before = out.deep_view();
            out.push(line);
            proof {
                assert(out.deep_view() =~= before.push(line@));
            }
            k += 1;
        }
        proof {
            assert(h.take(h.len() as int) =~= h);
        }
        if self.game_finished {
            out.push(self.score_message(pn));
            out.push(String::from_str("END"));
        }
        proof {
            assert(out.deep_view() =~= reconnect_state(self@, player_id@));
        }
        out
    }
}

fn letter_of(m: u8) -> (s: &'static str)
    ensures
        s@ == letter(m),
{
    if m == 0 {
        "C"
    } else {
        "D"
    }
}

fn result_message(theirs: u8, mine: u8, their_score: i32, my_score: i32) -> (s: String)
    ensures
        s@ == result_line(theirs, mine, their_score as int, my_score as int),
{
    let mut v: Vec<char> = Vec::new();
    push_str(&mut v, "RESULT ");
    push_str(&mut v, letter_of(theirs));
    push_str(&mut v, " ");
    push_str(&mut v, letter_of(mine));
    push_str(&mut v, " ");
    push_int(&mut v, their_score as i64);
    push_str(&mut v, " ");
    push_int(&mut v, my_score as i64);
    string_of(&v)
}

} // verus!
