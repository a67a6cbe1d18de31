//! Deterministic playground bots. A bot reads every event of its room and
//! answers with the action it takes, if any, as `(kind, payload)`. The same
//! log always gives the same answers, so a playground match replays exactly.
use vstd::prelude::*;
use crate::lobby::{event, find_player, index_of, lemma_index_of};
use crate::text::{
    dec, int_dec, parse_signed, parse_unsigned, push_int, word_i64, push_dec, string_of, tokens, trim, trimmed_string, str_is, words_of,
    words_view, word_is, word_string, word_unsigned, word_usize,
};
use crate::ttt::DEFAULT_BOARD_SIZE;

verus! {

/// A bot's answer: the action's kind and payload, if it acts.
pub open spec fn action_view(r: Option<(String, String)>) -> Option<(Seq<char>, Seq<char>)> {
    match r {
        Some(a) => Some((a.0@, a.1@)),
        None => None,
    }
}

/// `PLAYER_JOINED <pid>`: the trimmed id joins the roster unless it is
/// already on it.
pub open spec fn roster_joined(ps: Seq<Seq<char>>, payload: Seq<char>) -> Seq<Seq<char>> {
    let pid = trim(payload);
    if index_of(ps, pid) is Some {
        ps
    } else {
        ps.push(pid)
    }
}

pub fn join_roster(players: &mut Vec<String>, payload: &str)
    ensures
        final(players).deep_view() == roster_joined(old(players).deep_view(), payload@),
{
    let pid = trimmed_string(payload);
    if find_player(players, pid.as_str()).is_none() {
        let ghost before = players.deep_view();
        players.push(pid);
        proof {
            assert(players.deep_view() =~= before.push(trim(payload@)));
        }
    }
}

// ---------------------------------------------------------------------------
// Rock-paper-scissors: cycles ROCK, PAPER, SCISSORS, ROCK, ...
// ---------------------------------------------------------------------------

pub struct RpsStrategy {
    pub move_index: usize,
}

impl Default for RpsStrategy {
    fn default() -> (s: Self)
        ensures
            s.move_index == 0,
    {
        RpsStrategy { move_index: 0 }
    }
}

/// The `i`-th throw of the cycle.
pub open spec fn rps_throw(i: nat) -> Seq<char> {
    if i % 3 == 0 {
        "ROCK"@
    } else if i % 3 == 1 {
        "PAPER"@
    } else {
        "SCISSORS"@
    }
}

/// The events after which the rock-paper-scissors bot throws.
pub open spec fn rps_turn(kind: Seq<char>) -> bool {
    kind == "GAME_STARTED"@ || kind == "ROUND_RESULT"@
}

impl RpsStrategy {
    pub fn react(&mut self, bot_pid: &str, kind: &str, payload: &str) -> (r: Option<(String, String)>)
        requires
            rps_turn(kind@) ==> old(self).move_index < usize::MAX,
        ensures
            rps_turn(kind@) ==> final(self).move_index == old(self).move_index + 1 && action_view(r)
                == Some(("MOVE"@, rps_throw(old(self).move_index as nat))),
            !rps_turn(kind@) ==> *final(self) == *old(self) && r is None,
    {
        if str_is(kind, "GAME_STARTED") || str_is(kind, "ROUND_RESULT") {
            let m: &str = if self.move_index % 3 == 0 {
                "ROCK"
            } else if self.move_index % 3 == 1 {
                "PAPER"
            } else {
                "SCISSORS"
            };
            self.move_index = self.move_index + 1;
            Some(event("MOVE", m.to_owned()))
        } else {
            None
        }
    }
}

// ---------------------------------------------------------------------------
// Prisoner's dilemma: tit-for-tat
// ---------------------------------------------------------------------------

pub struct PdStrategy {
    pub last_opponent: Option<char>,
}

impl Default for PdStrategy {
    fn default() -> (s: Self)
        ensures
            s.last_opponent is None,
    {
        PdStrategy { last_opponent: None }
    }
}

/// Cooperate unless the opponent's last move was a defection.
pub open spec fn pd_reply(last: Option<char>) -> Seq<char> {
    if last == Some('D') {
        "D"@
    } else {
        "C"@
    }
}

/// `MOVE <pid> <move> ...`: the opponent's move is remembered by its first
/// character; the bot's own moves are not.
pub open spec fn pd_seen(last: Option<char>, bot_pid: Seq<char>, payload: Seq<char>) -> Option<char> {
    let t = tokens(payload);
    if t.len() >= 2 && t[1].len() > 0 && t[0] != bot_pid {
        Some(t[1][0])
    } else {
        last
    }
}

impl PdStrategy {
    pub fn react(&mut self, bot_pid: &str, kind: &str, payload: &str) -> (r: Option<(String, String)>)
        ensures
            if kind@ == "GAME_STARTED"@ {
                final(self).last_opponent is None && action_view(r) == Some(("MOVE"@, "C"@))
            } else if kind@ == "ROUND_RESULT"@ {
                *final(self) == *old(self) && action_view(r) == Some(
                    ("MOVE"@, pd_reply(old(self).last_opponent)),
                )
            } else if kind@ == "MOVE"@ {
                r is None && final(self).last_opponent == pd_seen(
                    old(self).last_opponent,
                    bot_pid@,
                    payload@,
                )
            } else {
                *final(self) == *old(self) && r is None
            },
    {
        if str_is(kind, "GAME_STARTED") {
            self.last_opponent = None;
            Some(event("MOVE", "C".to_owned()))
        } else if str_is(kind, "ROUND_RESULT") {
            let next: &str = match self.last_opponent {
                Some(c) => if c == 'D' {
                    "D"
                } else {
                    "C"
                },
                None => "C",
            };
            Some(event("MOVE", next.to_owned()))
        } else if str_is(kind, "MOVE") {
            let parts = words_of(payload);
            if parts.len() >= 2 && parts[1].len() > 0 {
                let m = parts[1][0];
                proof {
                    assert(words_view(parts)[1] == parts@[1]@);
                }
                if !word_is(&parts, 0, bot_pid) {
                    self.last_opponent = Some(m);
                }
            }
            None
        } else {
            None
        }
    }
}

// ---------------------------------------------------------------------------
// Tic-tac-toe: plays the first empty cell
// ---------------------------------------------------------------------------

pub struct TttStrategy {
    pub board: Vec<Option<char>>,
    pub board_size: usize,
    pub bot_mark: Option<char>,
    pub players: Vec<String>,
}

impl Default for TttStrategy {
    fn default() -> (s: Self)
        ensures
            s.board@.len() == 0,
            s.board_size == 0,
            s.bot_mark is None,
            s.players@.len() == 0,
    {
        TttStrategy { board: Vec::new(), board_size: 0, bot_mark: None, players: Vec::new() }
    }
}

/// The mark of a roster member: the first to join plays `X`, anyone else `O`.
pub open spec fn mark_of(ps: Seq<Seq<char>>, pid: Seq<char>) -> Option<char> {
    match index_of(ps, pid) {
        Some(i) => Some(if i == 0 { 'X' } else { 'O' }),
        None => None,
    }
}

/// `GAME_STARTED <size> <chain>`: the board side, 16 when absent or unreadable.
pub open spec fn ttt_size(payload: Seq<char>) -> nat {
    let t = tokens(payload);
    if t.len() > 0 {
        match parse_unsigned(t[0], u32::MAX as nat) {
            Some(n) => n,
            None => DEFAULT_BOARD_SIZE as nat,
        }
    } else {
        DEFAULT_BOARD_SIZE as nat
    }
}

/// The row length used to address cells: the board side, at least 1.
pub open spec fn side_len(size: nat) -> nat {
    if size == 0 {
        1
    } else {
        size
    }
}

pub open spec fn is_first_empty(b: Seq<Option<char>>, i: int) -> bool {
    &&& 0 <= i < b.len()
    &&& b[i] is None
    &&& forall|j: int| 0 <= j < i ==> b[j] is Some
}

/// The first empty cell of the board, if any.
pub open spec fn first_empty(b: Seq<Option<char>>) -> Option<nat> {
    if exists|i: int| is_first_empty(b, i) {
        Some((choose|i: int| is_first_empty(b, i)) as nat)
    } else {
        None
    }
}

/// `MOVE <row> <col>` for cell `i` of a board with side `size`.
pub open spec fn ttt_first_move(b: Seq<Option<char>>, size: nat) -> Option<(Seq<char>, Seq<char>)> {
    match first_empty(b) {
        Some(i) => Some(
            ("MOVE"@, dec(i / side_len(size)) + " "@ + dec(i % side_len(size))),
        ),
        None => None,
    }
}

/// `MOVE <pid> <row> <col>`: the mover and the cell, when all three read.
pub open spec fn ttt_cell(payload: Seq<char>) -> Option<(Seq<char>, nat, nat)> {
    let t = tokens(payload);
    if t.len() >= 3 {
        match (parse_unsigned(t[1], usize::MAX as nat), parse_unsigned(t[2], usize::MAX as nat)) {
            (Some(r), Some(c)) => Some((t[0], r, c)),
            _ => None,
        }
    } else {
        None
    }
}

/// The inputs on which the tic-tac-toe bot computes without overflow: a
/// board whose cell count fits in `usize`, and a cell index that does.
pub open spec fn ttt_react_ok(size: nat, kind: Seq<char>, payload: Seq<char>) -> bool {
    if kind == "GAME_STARTED"@ {
        ttt_size(payload) * ttt_size(payload) <= usize::MAX
    } else if kind == "MOVE"@ {
        match ttt_cell(payload) {
            Some((_, r, c)) => r * side_len(size) + c <= usize::MAX,
            None => true,
        }
    } else {
        true
    }
}

impl TttStrategy {
    pub open spec fn same_but_board(self, other: TttStrategy) -> bool {
        &&& self.board_size == other.board_size
        &&& self.bot_mark == other.bot_mark
        &&& self.players.deep_view() == other.players.deep_view()
    }

    fn first_empty_move(&self) -> (r: Option<(String, String)>)
        ensures
            action_view(r) == ttt_first_move(self.board@, self.board_size as nat),
    {
        let mut i: usize = 0;
        while i < self.board.len()
            invariant
                i <= self.board@.len(),
                forall|j: int| 0 <= j < i ==> self.board@[j] is Some,
            decreases self.board.len() - i,
        {
            if self.board[i].is_none() {
                proof {
                    assert(is_first_empty(self.board@, i as int));
                    let k = choose|k: int| is_first_empty(self.board@, k);
                    assert(k == i) by {
                        if k < i {
                            assert(self.board@[k] is Some);
                        } else if k > i {
                            assert(self.board@[i as int] is Some);
                        }
                    }
                }
                let size: usize = if self.board_size == 0 {
                    1
                } else {
                    self.board_size
                };
                let mut v: Vec<char> = Vec::new();
                push_dec(&mut v, (i / size) as u64);
                v.push(' ');
                push_dec(&mut v, (i % size) as u64);
                proof {
                    assert(v@ =~= dec((i / size) as nat) + " "@ + dec((i % size) as nat)) by {
                        reveal_strlit(" ");
                    }
                }
                return Some(event("MOVE", string_of(&v)));
            }
            i += 1;
        }
        proof {
            assert(!exists|k: int| is_first_empty(self.board@, k));
        }
        None
    }

    pub fn react(&mut self, bot_pid: &str, kind: &str, payload: &str) -> (r: Option<(String, String)>)
        requires
            ttt_react_ok(old(self).board_size as nat, kind@, payload@),
        ensures
            if kind@ == "PLAYER_JOINED"@ {
                &&& r is None
                &&& final(self).players.deep_view() == roster_joined(
                    old(self).players.deep_view(),
                    payload@,
                )
                &&& final(self).board@ == old(self).board@
                &&& final(self).board_size == old(self).board_size
                &&& final(self).bot_mark == old(self).bot_mark
            } else if kind@ == "GAME_STARTED"@ {
                &&& final(self).board_size == ttt_size(payload@)
                &&& final(self).board@ == Seq::new(
                    ttt_size(payload@) * ttt_size(payload@),
                    |i: int| None::<char>,
                )
                &&& final(self).bot_mark == mark_of(old(self).players.deep_view(), bot_pid@)
                &&& final(self).players.deep_view() == old(self).players.deep_view()
                &&& action_view(r) == if final(self).bot_mark == Some('X') {
                    ttt_first_move(final(self).board@, final(self).board_size as nat)
                } else {
                    None
                }
            } else if kind@ == "MOVE"@ {
                &&& final(self).same_but_board(*old(self))
                &&& match ttt_cell(payload@) {
                    Some((pid, row, col)) => match mark_of(old(self).players.deep_view(), pid) {
                        Some(m) => {
                            let idx = row * side_len(old(self).board_size as nat) + col;
                            let b = if idx < old(self).board@.len() {
                                old(self).board@.update(idx as int, Some(m))
                            } else {
                                old(self).board@
                            };
                            &&& final(self).board@ == b
                            &&& action_view(r) == if pid != bot_pid@ {
                                ttt_first_move(b, old(self).board_size as nat)
                            } else {
                                None
                            }
                        },
                        None => final(self).board@ == old(self).board@ && r is None,
                    },
                    None => final(self).board@ == old(self).board@ && r is None,
                }
            } else {
                &&& final(self).board@ == old(self).board@
                &&& final(self).same_but_board(*old(self))
                &&& r is None
            },
    {
        if str_is(kind, "PLAYER_JOINED") {
            join_roster(&mut self.players, payload);
            None
        } else if str_is(kind, "GAME_STARTED") {
            let parts = words_of(payload);
            let size32: u32 = if parts.len() > 0 {
                match word_unsigned(&parts, 0, u32::MAX as u64) {
                    Some(n) => n as u32,
                    None => DEFAULT_BOARD_SIZE,
                }
            } else {
                DEFAULT_BOARD_SIZE
            };
            let size = size32 as usize;
            let cells = size * size;
            let mut board: Vec<Option<char>> = Vec::new();
            let mut k: usize = 0;
            while k < cells
                invariant
                    k <= cells,
                    board@ == Seq::new(k as nat, |i: int| None::<char>),
                decreases cells - k,
            {
                board.push(None);
                proof {
                    assert(board@ =~= Seq::new((k + 1) as nat, |i: int| None::<char>));
                }
                k += 1;
            }
            self.board_size = size;
            self.board = board;
            proof {
                lemma_index_of(self.players.deep_view(), bot_pid@);
                assert(self.players.deep_view().len() == self.players.len());
            }
            let mark: Option<char> = match find_player(&self.players, bot_pid) {
                Some(i) => if i == 0 {
                    Some('X')
                } else {
                    Some('O')
                },
                None => None,
            };
            self.bot_mark = mark;
            if self.bot_mark == Some('X') {
                self.first_empty_move()
            } else {
                None
            }
        } else if str_is(kind, "MOVE") {
            let parts = words_of(payload);
            if parts.len() < 3 {
                return None;
            }
            let row = match word_usize(&parts, 1) {
                Some(n) => n,
                None => {
                    return None;
                },
            };
            let col = match word_usize(&parts, 2) {
                Some(n) => n,
                None => {
                    return None;
                },
            };
            let size: usize = if self.board_size == 0 {
                1
            } else {
                self.board_size
            };
            let idx = row * size + col;
            let pid = word_string(&parts, 0);
            proof {
                lemma_index_of(self.players.deep_view(), pid@);
                assert(self.players.deep_view().len() == self.players.len());
            }
            let mark = match find_player(&self.players, pid.as_str()) {
                Some(i) => if i == 0 {
                    'X'
                } else {
                    'O'
                },
                None => {
                    return None;
                },
            };
            if idx < self.board.len() {
                self.board.set(idx, Some(mark));
            }
            if !word_is(&parts, 0, bot_pid) {
                self.first_empty_move()
            } else {
                None
            }
        } else {
            None
        }
    }
}

// ---------------------------------------------------------------------------
// Jar of greed: contributes a third of its stack each round
// ---------------------------------------------------------------------------

pub struct JogStrategy {
    pub coins: i64,
    pub last_contribution: i64,
}

impl Default for JogStrategy {
    fn default() -> (s: Self)
        ensures
            s.coins == 0,
            s.last_contribution == 0,
    {
        JogStrategy { coins: 0, last_contribution: 0 }
    }
}

/// Integer division by three rounding toward zero, as `i64` division does.
pub open spec fn third(c: int) -> int {
    if c >= 0 {
        c / 3
    } else {
        -((-c) / 3)
    }
}

/// Word `i` of `payload` read as an `i64`, 0 when absent or unreadable.
pub open spec fn word_or_zero(payload: Seq<char>, i: int) -> int {
    let t = tokens(payload);
    if 0 <= i < t.len() {
        match parse_signed(t[i], i64::MIN as int, i64::MAX as int) {
            Some(v) => v,
            None => 0,
        }
    } else {
        0
    }
}

/// The stack does not overflow when the payout of a round is added.
pub open spec fn jog_react_ok(coins: i64, kind: Seq<char>, payload: Seq<char>) -> bool {
    kind == "ROUND_RESULT"@ ==> i64::MIN <= coins + word_or_zero(payload, 3) <= i64::MAX
}

fn word_i64_or_zero(payload: &str, i: usize) -> (r: i64)
    ensures
        r == word_or_zero(payload@, i as int),
{
    let parts = words_of(payload);
    if i < parts.len() {
        match word_i64(&parts, i) {
            Some(v) => v,
            None => 0,
        }
    } else {
        0
    }
}

fn third_of(c: i64) -> (r: i64)
    ensures
        r == third(c as int),
{
    let q = c as i128;
    let t: i128 = if q >= 0 {
        q / 3
    } else {
        -((-q) / 3)
    };
    t as i64
}

impl JogStrategy {
    fn contribute(&mut self) -> (r: Option<(String, String)>)
        ensures
            final(self).last_contribution == third(old(self).coins as int),
            final(self).coins == old(self).coins - third(old(self).coins as int),
            action_view(r) == Some(("CONTRIBUTE"@, int_dec(third(old(self).coins as int)))),
    {
        let amt = third_of(self.coins);
        self.last_contribution = amt;
        self.coins = self.coins - amt;
        let mut v: Vec<char> = Vec::new();
        push_int(&mut v, amt);
        Some(event("CONTRIBUTE", string_of(&v)))
    }

    pub fn react(&mut self, bot_pid: &str, kind: &str, payload: &str) -> (r: Option<(String, String)>)
        requires
            jog_react_ok(old(self).coins, kind@, payload@),
        ensures
            if kind@ == "GAME_STARTED"@ {
                let c = word_or_zero(payload@, 0);
                &&& final(self).last_contribution == third(c)
                &&& final(self).coins == c - third(c)
                &&& action_view(r) == Some(("CONTRIBUTE"@, int_dec(third(c))))
            } else if kind@ == "ROUND_RESULT"@ {
                let c = old(self).coins + word_or_zero(payload@, 3);
                if c <= 0 {
                    &&& final(self).coins == c
                    &&& final(self).last_contribution == 0
                    &&& action_view(r) == Some(("CONTRIBUTE"@, "0"@))
                } else {
                    &&& final(self).last_contribution == third(c)
                    &&& final(self).coins == c - third(c)
                    &&& action_view(r) == Some(("CONTRIBUTE"@, int_dec(third(c))))
                }
            } else {
                *final(self) == *old(self) && r is None
            },
    {
        if str_is(kind, "GAME_STARTED") {
            self.coins = word_i64_or_zero(payload, 0);
            self.contribute()
        } else if str_is(kind, "ROUND_RESULT") {
            let payout = word_i64_or_zero(payload, 3);
            self.coins = self.coins + payout;
            if self.coins <= 0 {
                self.last_contribution = 0;
                return Some(event("CONTRIBUTE", "0".to_owned()));
            }
            self.contribute()
        } else {
            None
        }
    }
}

} // verus!
