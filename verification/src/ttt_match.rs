//! Tic-tac-toe on a 3x3 board between two submitted programs.
//!
//! The match is driven by a loop that talks to the programs: it announces
//! the turn, reads the mover's `MOVE <row> <col>`, and after each placement
//! sends the board. That loop's decisions live here: reading and checking a
//! move, placing it, finding a winner, the messages and the results, and
//! rebuilding the match from its event history so a reconnecting player can
//! be brought up to date.
use vstd::prelude::*;
use crate::game::{results_stopped_by, stopped_by, GameResult};
use crate::lobby::{find_player, index_of, lemma_index_of};
use crate::text::{
    dec, is_word, is_ws, lemma_dec_facts, lemma_parse_dec, lemma_tokens_space, lemma_tokens_word,
    parse_unsigned, push_dec, push_str, string_of, tokens, word_is, word_string, word_usize,
    words_of, words_view,
};

verus! {

pub const CELLS: usize = 9;

#[derive(Debug, Clone)]
pub struct TicTacToe {
    /// `Some(0)` for X, `Some(1)` for O.
    pub board: Vec<Option<usize>>,
    /// The player to move, 0 or 1.
    pub current_turn: usize,
    pub game_started: bool,
    pub game_finished: bool,
    pub winner: Option<usize>,
    /// The players' ids: index 0 plays X, index 1 plays O.
    pub player_ids: Vec<String>,
}

pub struct TicTacToeView {
    pub board: Seq<Option<usize>>,
    pub current_turn: usize,
    pub game_started: bool,
    pub game_finished: bool,
    pub winner: Option<usize>,
    pub player_ids: Seq<Seq<char>>,
}

impl View for TicTacToe {
    type V = TicTacToeView;

    open spec fn view(&self) -> TicTacToeView {
        TicTacToeView {
            board: self.board@,
            current_turn: self.current_turn,
            game_started: self.game_started,
            game_finished: self.game_finished,
            winner: self.winner,
            player_ids: self.player_ids.deep_view(),
        }
    }
}

pub open spec fn empty_board() -> Seq<Option<usize>> {
    Seq::new(9, |k: int| None::<usize>)
}

/// A match that has not begun.
pub open spec fn fresh() -> TicTacToeView {
    TicTacToeView {
        board: empty_board(),
        current_turn: 0,
        game_started: false,
        game_finished: false,
        winner: None,
        player_ids: seq![],
    }
}

/// Nine cells, and the turn is one of the two players.
pub open spec fn well_formed(v: TicTacToeView) -> bool {
    v.board.len() == CELLS && v.current_turn <= 1
}

fn empty_board_exec() -> (b: Vec<Option<usize>>)
    ensures
        b@ == empty_board(),
{
    let mut b: Vec<Option<usize>> = Vec::new();
    let mut k: usize = 0;
    while k < CELLS
        invariant
            k <= CELLS,
            b@ == Seq::new(k as nat, |j: int| None::<usize>),
        decreases CELLS - k,
    {
        b.push(None);
        proof {
            assert(b@ =~= Seq::new((k + 1) as nat, |j: int| None::<usize>));
        }
        k += 1;
    }
    b
}

// ---------------------------------------------------------------------------
// Lines and the winner
// ---------------------------------------------------------------------------

/// The eight lines: rows, columns, then the two diagonals.
pub open spec fn line(k: int) -> (int, int, int) {
    if k == 0 {
        (0, 1, 2)
    } else if k == 1 {
        (3, 4, 5)
    } else if k == 2 {
        (6, 7, 8)
    } else if k == 3 {
        (0, 3, 6)
    } else if k == 4 {
        (1, 4, 7)
    } else if k == 5 {
        (2, 5, 8)
    } else if k == 6 {
        (0, 4, 8)
    } else {
        (2, 4, 6)
    }
}

/// The player holding all three cells of line `k`, if one does.
pub open spec fn line_owner(b: Seq<Option<usize>>, k: int) -> Option<usize> {
    let (x, y, z) = line(k);
    match (b[x], b[y], b[z]) {
        (Some(p), Some(q), Some(r)) => if p == q && q == r {
            Some(p)
        } else {
            None
        },
        _ => None,
    }
}

/// The owner of the first owned line from `k` on.
pub open spec fn owner_from(b: Seq<Option<usize>>, k: int) -> Option<usize>
    decreases 8 - k,
{
    if k >= 8 {
        None
    } else {
        match line_owner(b, k) {
            Some(p) => Some(p),
            None => owner_from(b, k + 1),
        }
    }
}

pub open spec fn board_winner(b: Seq<Option<usize>>) -> Option<usize> {
    owner_from(b, 0)
}

fn line_exec(k: usize) -> (l: (usize, usize, usize))
    requires
        k < 8,
    ensures
        (l.0 as int, l.1 as int, l.2 as int) == line(k as int),
{
    if k == 0 {
        (0, 1, 2)
    } else if k == 1 {
        (3, 4, 5)
    } else if k == 2 {
        (6, 7, 8)
    } else if k == 3 {
        (0, 3, 6)
    } else if k == 4 {
        (1, 4, 7)
    } else if k == 5 {
        (2, 5, 8)
    } else if k == 6 {
        (0, 4, 8)
    } else {
        (2, 4, 6)
    }
}

/// The winner of a board: the holder of the first complete line in the
/// order rows, columns, diagonals.
/// Player `p` holds the cell in row `r`, column `c` of the 3x3 grid.
pub open spec fn holds(b: Seq<Option<usize>>, p: usize, r: int, c: int) -> bool {
    b[r * 3 + c] == Some(p)
}

/// Player `p` holds a whole row, a whole column, or a whole diagonal.
pub open spec fn has_line(b: Seq<Option<usize>>, p: usize) -> bool {
    ||| (exists|r: int| 0 <= r < 3 && #[trigger] holds(b, p, r, 0) && holds(b, p, r, 1) && holds(b, p, r, 2))
    ||| (exists|c: int| 0 <= c < 3 && #[trigger] holds(b, p, 0, c) && holds(b, p, 1, c) && holds(b, p, 2, c))
    ||| holds(b, p, 0, 0) && holds(b, p, 1, 1) && holds(b, p, 2, 2)
    ||| holds(b, p, 0, 2) && holds(b, p, 1, 1) && holds(b, p, 2, 0)
}

proof fn lemma_winner_line(b: Seq<Option<usize>>, p: usize)
    requires
        b.len() == CELLS,
    ensures
        board_winner(b) == Some(p) ==> has_line(b, p),
{
    reveal_with_fuel(owner_from, 9);
    assert(holds(b, p, 0, 0) == (b[0] == Some(p)));
    assert(holds(b, p, 0, 1) == (b[1] == Some(p)));
    assert(holds(b, p, 0, 2) == (b[2] == Some(p)));
    assert(holds(b, p, 1, 0) == (b[3] == Some(p)));
    assert(holds(b, p, 1, 1) == (b[4] == Some(p)));
    assert(holds(b, p, 1, 2) == (b[5] == Some(p)));
    assert(holds(b, p, 2, 0) == (b[6] == Some(p)));
    assert(holds(b, p, 2, 1) == (b[7] == Some(p)));
    assert(holds(b, p, 2, 2) == (b[8] == Some(p)));
    if board_winner(b) == Some(p) {
        if line_owner(b, 0) == Some(p) {
            assert(holds(b, p, 0, 0) && holds(b, p, 0, 1) && holds(b, p, 0, 2));
        } else if line_owner(b, 0) is None && line_owner(b, 1) == Some(p) {
            assert(holds(b, p, 1, 0) && holds(b, p, 1, 1) && holds(b, p, 1, 2));
        } else if line_owner(b, 0) is None && line_owner(b, 1) is None && line_owner(b, 2) == Some(p) {
            assert(holds(b, p, 2, 0) && holds(b, p, 2, 1) && holds(b, p, 2, 2));
        } else if line_owner(b, 3) == Some(p) && owner_from(b, 3) == Some(p) {
            assert(holds(b, p, 0, 0) && holds(b, p, 1, 0) && holds(b, p, 2, 0));
        } else if line_owner(b, 4) == Some(p) && owner_from(b, 4) == Some(p) {
            assert(holds(b, p, 0, 1) && holds(b, p, 1, 1) && holds(b, p, 2, 1));
        } else if line_owner(b, 5) == Some(p) && owner_from(b, 5) == Some(p) {
            assert(holds(b, p, 0, 2) && holds(b, p, 1, 2) && holds(b, p, 2, 2));
        } else if line_owner(b, 6) == Some(p) && owner_from(b, 6) == Some(p) {
            assert(holds(b, p, 0, 0) && holds(b, p, 1, 1) && holds(b, p, 2, 2));
        } else {
            assert(holds(b, p, 0, 2) && holds(b, p, 1, 1) && holds(b, p, 2, 0));
        }
    }
}

proof fn lemma_line_winner(b: Seq<Option<usize>>, p: usize)
    requires
        b.len() == CELLS,
    ensures
        has_line(b, p) ==> board_winner(b) is Some,
{
    reveal_with_fuel(owner_from, 9);
    assert(holds(b, p, 0, 0) == (b[0] == Some(p)));
    assert(holds(b, p, 0, 1) == (b[1] == Some(p)));
    assert(holds(b, p, 0, 2) == (b[2] == Some(p)));
    assert(holds(b, p, 1, 0) == (b[3] == Some(p)));
    assert(holds(b, p, 1, 1) == (b[4] == Some(p)));
    assert(holds(b, p, 1, 2) == (b[5] == Some(p)));
    assert(holds(b, p, 2, 0) == (b[6] == Some(p)));
    assert(holds(b, p, 2, 1) == (b[7] == Some(p)));
    assert(holds(b, p, 2, 2) == (b[8] == Some(p)));
    if has_line(b, p) {
        if exists|r: int| 0 <= r < 3 && #[trigger] holds(b, p, r, 0) && holds(b, p, r, 1) && holds(b, p, r, 2) {
            let r = choose|r: int| 0 <= r < 3 && #[trigger] holds(b, p, r, 0) && holds(b, p, r, 1) && holds(b, p, r, 2);
            assert(line_owner(b, r) == Some(p));
        } else if exists|c: int| 0 <= c < 3 && #[trigger] holds(b, p, 0, c) && holds(b, p, 1, c) && holds(b, p, 2, c) {
            let c = choose|c: int| 0 <= c < 3 && #[trigger] holds(b, p, 0, c) && holds(b, p, 1, c) && holds(b, p, 2, c);
            assert(line_owner(b, 3 + c) == Some(p));
        } else if holds(b, p, 0, 0) && holds(b, p, 1, 1) && holds(b, p, 2, 2) {
            assert(line_owner(b, 6) == Some(p));
        } else {
            assert(holds(b, p, 0, 2) && holds(b, p, 1, 1) && holds(b, p, 2, 0));
            assert(line_owner(b, 7) == Some(p));
        }
    }
}

/// Law: a board has a winner only when that player holds a whole row,
/// column or diagonal, and whenever some player holds one the board has a
/// winner; when only one player holds a line, that player is the winner.
pub proof fn law_winner_holds_line(b: Seq<Option<usize>>, p: usize)
    requires
        b.len() == CELLS,
    ensures
        board_winner(b) == Some(p) ==> has_line(b, p),
        has_line(b, p) ==> board_winner(b) is Some,
        has_line(b, p) && (forall|q: usize| q != p ==> !has_line(b, q)) ==> board_winner(b) == Some(p),
{
    lemma_winner_line(b, p);
    lemma_line_winner(b, p);
    if has_line(b, p) && (forall|q: usize| q != p ==> !has_line(b, q)) {
        let w = board_winner(b)->0;
        lemma_winner_line(b, w);
    }
}

pub fn check_winner(board: &Vec<Option<usize>>) -> (w: Option<usize>)
    requires
        board@.len() == CELLS,
    ensures
        w == board_winner(board@),
{
    let mut k: usize = 0;
    while k < 8
        invariant
            k <= 8,
            board@.len() == CELLS,
            owner_from(board@, 0) == owner_from(board@, k as int),
        decreases 8 - k,
    {
        let (x, y, z) = line_exec(k);
        match (board[x], board[y], board[z]) {
            (Some(p), Some(q), Some(r)) => {
                if p == q && q == r {
                    return Some(p);
                }
            },
            _ => {},
        }
        k += 1;
    }
    None
}

// ---------------------------------------------------------------------------
// Messages
// ---------------------------------------------------------------------------

pub open spec fn symbol(c: Option<usize>) -> char {
    match c {
        Some(p) => if p == 0 {
            'X'
        } else if p == 1 {
            'O'
        } else {
            '.'
        },
        None => '.',
    }
}

/// `BOARD` and the nine cells row by row: `X`, `O` or `.`.
pub open spec fn board_text(b: Seq<Option<usize>>) -> Seq<char> {
    "BOARD "@ + Seq::new(9, |k: int| symbol(b[k]))
}

pub fn board_message(board: &Vec<Option<usize>>) -> (s: String)
    requires
        board@.len() == CELLS,
    ensures
        s@ == board_text(board@),
{
    let mut v: Vec<char> = Vec::new();
    push_str(&mut v, "BOARD ");
    let ghost head = v@;
    let mut k: usize = 0;
    while k < CELLS
        invariant
            k <= CELLS,
            board@.len() == CELLS,
            head == "BOARD "@,
            v@ == head + Seq::new(k as nat, |j: int| symbol(board@[j])),
        decreases CELLS - k,
    {
        let c = match board[k] {
            Some(p) => if p == 0 {
                'X'
            } else if p == 1 {
                'O'
            } else {
                '.'
            },
            None => '.',
        };
        v.push(c);
        proof {
            assert(v@ =~= head + Seq::new((k + 1) as nat, |j: int| symbol(board@[j])));
        }
        k += 1;
    }
    string_of(&v)
}

/// The cell named by a `MOVE <row> <col>` message, each coordinate below 3.
pub open spec fn move_cell(msg: Seq<char>) -> Option<(nat, nat)> {
    let p = tokens(msg);
    if p.len() == 3 && p[0] == "MOVE"@ {
        match (parse_unsigned(p[1], usize::MAX as nat), parse_unsigned(p[2], usize::MAX as nat)) {
            (Some(r), Some(c)) => if r < 3 && c < 3 {
                Some((r, c))
            } else {
                None
            },
            _ => None,
        }
    } else {
        None
    }
}

/// A move that was placed.
#[derive(Debug, Clone, Copy, PartialEq, Eq, Structural)]
pub struct Placed {
    pub mover: usize,
    pub row: usize,
    pub col: usize,
    /// The winner after the move, if it completed a line.
    pub winner: Option<usize>,
}

/// The match after the mover's message, and the placement; `None` (and the
/// match over) when the message is not a move onto an empty cell.
pub open spec fn play_spec(v: TicTacToeView, msg: Seq<char>) -> (TicTacToeView, Option<Placed>) {
    match move_cell(msg) {
        None => (TicTacToeView { game_finished: true, ..v }, None),
        Some((r, c)) => {
            let pos = (r * 3 + c) as int;
            if v.board[pos] is Some {
                (TicTacToeView { game_finished: true, ..v }, None)
            } else {
                let b = v.board.update(pos, Some(v.current_turn));
                let w = board_winner(b);
                (
                    TicTacToeView {
                        board: b,
                        current_turn: (1 - v.current_turn) as usize,
                        game_finished: if w is Some {
                            true
                        } else {
                            v.game_finished
                        },
                        winner: if w is Some {
                            w
                        } else {
                            v.winner
                        },
                        ..v
                    },
                    Some(Placed { mover: v.current_turn, row: r as usize, col: c as usize, winner: w }),
                )
            }
        },
    }
}

// ---------------------------------------------------------------------------
// Replaying the history
// ---------------------------------------------------------------------------

/// One history event: `GAME_INIT <x> <o>`, `MOVE <player> <row> <col>`,
/// `WINNER <player>` or `DRAW`; anything else changes nothing.
pub open spec fn replay_event(v: TicTacToeView, e: Seq<char>) -> TicTacToeView {
    let p = tokens(e);
    if p.len() == 0 {
        v
    } else if p[0] == "GAME_INIT"@ && p.len() >= 3 {
        TicTacToeView { player_ids: seq![p[1], p[2]], game_started: true, ..v }
    } else if p[0] == "MOVE"@ && p.len() >= 4 {
        match (
            parse_unsigned(p[1], usize::MAX as nat),
            parse_unsigned(p[2], usize::MAX as nat),
            parse_unsigned(p[3], usize::MAX as nat),
        ) {
            (Some(n), Some(r), Some(c)) => if r * 3 + c < 9 {
                TicTacToeView {
                    board: v.board.update((r * 3 + c) as int, Some(n as usize)),
                    current_turn: (1 - n) as usize,
                    ..v
                }
            } else {
                v
            },
            _ => v,
        }
    } else if p[0] == "WINNER"@ && p.len() >= 2 {
        match parse_unsigned(p[1], usize::MAX as nat) {
            Some(w) => TicTacToeView { winner: Some(w as usize), game_finished: true, ..v },
            None => v,
        }
    } else if p[0] == "DRAW"@ {
        TicTacToeView { game_finished: true, winner: None, ..v }
    } else {
        v
    }
}

/// An event replays without overflow: a move's cell index fits in `usize`,
/// and a move onto the board is by player 0 or 1.
pub open spec fn replay_ok(e: Seq<char>) -> bool {
    let p = tokens(e);
    (p.len() >= 4 && p[0] == "MOVE"@) ==> match (
        parse_unsigned(p[1], usize::MAX as nat),
        parse_unsigned(p[2], usize::MAX as nat),
        parse_unsigned(p[3], usize::MAX as nat),
    ) {
        (Some(n), Some(r), Some(c)) => r * 3 + c <= usize::MAX && (r * 3 + c < 9 ==> n <= 1),
        _ => true,
    }
}

/// Whether an event of a written history replays without overflow.
pub fn event_replays(e: &str) -> (b: bool)
    ensures
        b == replay_ok(e@),
{
    let p = words_of(e);
    if !(p.len() >= 4 && word_is(&p, 0, "MOVE")) {
        return true;
    }
    match (word_usize(&p, 1), word_usize(&p, 2), word_usize(&p, 3)) {
        (Some(n), Some(r), Some(c)) => {
            if r > (usize::MAX - c) / 3 {
                proof {
                    assert(r * 3 + c > usize::MAX) by (nonlinear_arith)
                        requires
                            r > (usize::MAX - c) / 3,
                            c <= usize::MAX,
                    ;
                }
                false
            } else {
                proof {
                    assert(r * 3 + c <= usize::MAX) by (nonlinear_arith)
                        requires
                            r <= (usize::MAX - c) / 3,
                            c <= usize::MAX,
                    ;
                }
                let pos = r * 3 + c;
                !(pos < 9 && n > 1)
            }
        },
        _ => true,
    }
}

/// Whether a whole written history replays without overflow, as
/// `restore_from_events` asks.
pub fn history_replays(events: &[String]) -> (b: bool)
    ensures
        b == forall|k: int| 0 <= k < events@.len() ==> replay_ok(#[trigger] events@[k]@),
{
    let mut i: usize = 0;
    while i < events.len()
        invariant
            i <= events@.len(),
            forall|k: int| 0 <= k < i ==> replay_ok(#[trigger] events@[k]@),
        decreases events.len() - i,
    {
        if !event_replays(events[i].as_str()) {
            return false;
        }
        i += 1;
    }
    true
}

/// The match rebuilt from its history, starting from a fresh one.
pub open spec fn replayed(events: Seq<Seq<char>>) -> TicTacToeView
    decreases events.len(),
{
    if events.len() == 0 {
        fresh()
    } else {
        replay_event(replayed(events.drop_last()), events.last())
    }
}

// ---------------------------------------------------------------------------
// Reconnecting
// ---------------------------------------------------------------------------

/// What a reconnecting player is sent: its side, the board, and either the
/// turn (and whether it is theirs) or its final score and `END`.
pub open spec fn event_source(v: TicTacToeView, pid: Seq<char>) -> Seq<Seq<char>> {
    if !v.game_started {
        seq![]
    } else {
        let pn: nat = match index_of(v.player_ids, pid) {
            Some(i) => i,
            None => 0,
        };
        let head = seq![
            "START "@ + if pn == 0 {
                "X"@
            } else {
                "O"@
            },
            board_text(v.board),
        ];
        if !v.game_finished {
            head + seq!["TURN "@ + dec(v.current_turn as nat)] + if v.current_turn == pn {
                seq!["YOUR_TURN"@]
            } else {
                seq![]
            }
        } else {
            match v.winner {
                Some(w) => head + seq![
                    "SCORE "@ + if w == pn {
                        "1"@
                    } else {
                        "0"@
                    },
                    "END"@,
                ],
                None => head + seq!["SCORE 0"@, "END"@],
            }
        }
    }
}

// ---------------------------------------------------------------------------
// The match
// ---------------------------------------------------------------------------

impl TicTacToe {
    pub fn new() -> (t: TicTacToe)
        ensures
            t@ == fresh(),
    {
        let t = TicTacToe {
            board: empty_board_exec(),
            current_turn: 0,
            game_started: false,
            game_finished: false,
            winner: None,
            player_ids: Vec::new(),
        };
        proof {
            assert(t.player_ids.deep_view() =~= Seq::<Seq<char>>::empty());
        }
        t
    }

    pub fn max_players(&self) -> (n: usize)
        ensures
            n == 2,
    {
        2
    }

    /// A match with two players: the board cleared and X to move.
    pub fn begin(&mut self, player_ids: Vec<String>)
        ensures
            final(self)@ == (TicTacToeView {
                board: empty_board(),
                current_turn: 0,
                game_started: true,
                game_finished: false,
                winner: None,
                player_ids: player_ids.deep_view(),
            }),
    {
        self.board = empty_board_exec();
        self.current_turn = 0;
        self.game_started = true;
        self.game_finished = false;
        self.winner = None;
        self.player_ids = player_ids;
    }

    /// `GAME_INIT <x> <o>`, the history's first event.
    pub fn init_event(&self) -> (s: String)
        requires
            self.player_ids@.len() >= 2,
        ensures
            s@ == init_line(self@.player_ids[0], self@.player_ids[1]),
    {
        let mut v: Vec<char> = Vec::new();
        push_str(&mut v, "GAME_INIT ");
        push_str(&mut v, self.player_ids[0].as_str());
        push_str(&mut v, " ");
        push_str(&mut v, self.player_ids[1].as_str());
        string_of(&v)
    }

    pub fn format_board_message(&self) -> (s: String)
        requires
            well_formed(self@),
        ensures
            s@ == board_text(self@.board),
    {
        board_message(&self.board)
    }

    /// `TURN <player>`.
    pub fn turn_message(&self) -> (s: String)
        ensures
            s@ == "TURN "@ + dec(self.current_turn as nat),
    {
        let mut v: Vec<char> = Vec::new();
        push_str(&mut v, "TURN ");
        push_dec(&mut v, self.current_turn as u64);
        string_of(&v)
    }

    /// The mover's message: the move placed, or `None` when it is not a
    /// move onto an empty cell, which ends the match.
    pub fn play(&mut self, msg: &str) -> (r: Option<Placed>)
        requires
            well_formed(old(self)@),
        ensures
            (final(self)@, r) == play_spec(old(self)@, msg@),
            well_formed(final(self)@),
    {
        let parts = words_of(msg);
        if parts.len() != 3 || !word_is(&parts, 0, "MOVE") {
            self.game_finished = true;
            return None;
        }
        let row = match word_usize(&parts, 1) {
            Some(r) => r,
            None => {
                self.game_finished = true;
                return None;
            },
        };
        if row >= 3 {
            self.game_finished = true;
            return None;
        }
        let col = match word_usize(&parts, 2) {
            Some(c) => c,
            None => {
                self.game_finished = true;
                return None;
            },
        };
        if col >= 3 {
            self.game_finished = true;
            return None;
        }
        let pos = row * 3 + col;
        if self.board[pos].is_some() {
            self.game_finished = true;
            return None;
        }
        let mover = self.current_turn;
        self.board.set(pos, Some(mover));
        self.current_turn = 1 - mover;
        let w = check_winner(&self.board);
        if w.is_some() {
            self.game_finished = true;
            self.winner = w;
        }
        Some(Placed { mover, row, col, winner: w })
    }

    /// `MOVE <player> <row> <col>` for the history.
    pub fn move_event(m: &Placed) -> (s: String)
        ensures
            s@ == move_line(*m),
    {
        let mut v: Vec<char> = Vec::new();
        push_str(&mut v, "MOVE ");
        push_dec(&mut v, m.mover as u64);
        push_str(&mut v, " ");
        push_dec(&mut v, m.row as u64);
        push_str(&mut v, " ");
        push_dec(&mut v, m.col as u64);
        string_of(&v)
    }

    /// `WINNER <player>` for the history.
    pub fn winner_event(w: usize) -> (s: String)
        ensures
            s@ == winner_line(w),
    {
        let mut v: Vec<char> = Vec::new();
        push_str(&mut v, "WINNER ");
        push_dec(&mut v, w as u64);
        string_of(&v)
    }

    /// `SCORE 1` for the winner, `SCORE 0` for the other player.
    pub fn score_message(winner: usize, player: usize) -> (s: String)
        ensures
            s@ == "SCORE "@ + if winner == player {
                "1"@
            } else {
                "0"@
            },
    {
        let mut v: Vec<char> = Vec::new();
        push_str(&mut v, "SCORE ");
        push_str(&mut v, if winner == player { "1" } else { "0" });
        string_of(&v)
    }

    /// The player to move failed to answer in time or answered wrongly: the
    /// match is over, and the other player is credited with a win.
    pub fn forfeit(&mut self, r: GameResult) -> (v: Vec<GameResult>)
        ensures
            final(self)@ == (TicTacToeView { game_finished: true, ..old(self)@ }),
            v@ == stopped_by(old(self).current_turn, r, GameResult::Accepted(1)),
    {
        self.game_finished = true;
        results_stopped_by(self.current_turn, r, GameResult::Accepted(1))
    }

    /// The results of a won match: 1 for the winner, 0 for the other.
    pub fn won(winner: usize) -> (v: Vec<GameResult>)
        ensures
            v@ == if winner == 0 {
                seq![GameResult::Accepted(1), GameResult::Accepted(0)]
            } else {
                seq![GameResult::Accepted(0), GameResult::Accepted(1)]
            },
    {
        let mut v: Vec<GameResult> = Vec::new();
        if winner == 0 {
            v.push(GameResult::Accepted(1));
            v.push(GameResult::Accepted(0));
        } else {
            v.push(GameResult::Accepted(0));
            v.push(GameResult::Accepted(1));
        }
        proof {
            if winner == 0 {
                assert(v@ =~= seq![GameResult::Accepted(1), GameResult::Accepted(0)]);
            } else {
                assert(v@ =~= seq![GameResult::Accepted(0), GameResult::Accepted(1)]);
            }
        }
        v
    }

    /// Nine moves and no line: the match is drawn and nobody scores.
    /// Whether the match is drawn: every cell is taken and no line was
    /// completed.
    pub fn is_drawn(&self) -> (d: bool)
        ensures
            d == (self@.winner is None && forall|k: int| 0 <= k < self@.board.len() ==> (#[trigger] self@.board[k]) is Some),
    {
        if self.winner.is_some() {
            return false;
        }
        let mut k: usize = 0;
        while k < self.board.len()
            invariant
                k <= self.board@.len(),
                forall|j: int| 0 <= j < k ==> (#[trigger] self@.board[j]) is Some,
            decreases self.board.len() - k,
        {
            if self.board[k].is_none() {
                return false;
            }
            k += 1;
        }
        true
    }

    pub fn drawn(&mut self) -> (v: Vec<GameResult>)
        ensures
            final(self)@ == (TicTacToeView { game_finished: true, ..old(self)@ }),
            v@ == seq![GameResult::Accepted(0), GameResult::Accepted(0)],
    {
        self.game_finished = true;
        let mut v: Vec<GameResult> = Vec::new();
        v.push(GameResult::Accepted(0));
        v.push(GameResult::Accepted(0));
        proof {
            assert(v@ =~= seq![GameResult::Accepted(0), GameResult::Accepted(0)]);
        }
        v
    }

    /// The messages that bring a reconnecting player up to date.
    pub fn get_event_source(&self, player_id: &str) -> (msgs: Vec<String>)
        requires
            well_formed(self@),
        ensures
            msgs.deep_view() == event_source(self@, player_id@),
    {
        let mut out: Vec<String> = Vec::new();
        if !self.game_started {
            proof {
                assert(out.deep_view() =~= Seq::<Seq<char>>::empty());
            }
            return out;
        }
        proof {
            lemma_index_of(self.player_ids.deep_view(), player_id@);
            assert(self.player_ids.deep_view().len() == self.player_ids.len());
        }
        let pn: usize = match find_player(&self.player_ids, player_id) {
            Some(i) => i,
            None => 0,
        };
        let mut st: Vec<char> = Vec::new();
        push_str(&mut st, "START ");
        push_str(&mut st, if pn == 0 { "X" } else { "O" });
        out.push(string_of(&st));
        out.push(board_message(&self.board));
        let ghost head = out.deep_view();
        if !self.game_finished {
            out.push(self.turn_message());
            if self.current_turn == pn {
                out.push(String::from_str("YOUR_TURN"));
            }
        } else {
            match self.winner {
                Some(w) => {
                    out.push(Self::score_message(w, pn));
                    out.push(String::from_str("END"));
                },
                None => {
                    out.push(String::from_str("SCORE 0"));
                    out.push(String::from_str("END"));
                },
            }
        }
        proof {
            let ev = event_source(self@, player_id@);
            assert(out.deep_view() =~= ev);
        }
        out
    }

    /// Rebuilds the match from its history.
    pub fn restore_from_events(&mut self, events: &[String])
        requires
            forall|k: int| 0 <= k < events@.len() ==> replay_ok(#[trigger] events@[k]@),
        ensures
            final(self)@ == replayed(events@.map_values(|e: String| e@)),
            well_formed(final(self)@),
    {
        let ghost es = events@.map_values(|e: String| e@);
        self.board = empty_board_exec();
        self.current_turn = 0;
        self.game_started = false;
        self.game_finished = false;
        self.winner = None;
        self.player_ids = Vec::new();
        proof {
            assert(self.player_ids.deep_view() =~= Seq::<Seq<char>>::empty());
            assert(es.take(0) =~= Seq::<Seq<char>>::empty());
            assert(self@ == replayed(es.take(0)));
        }
        let mut k: usize = 0;
        while k < events.len()
            invariant
                es == events@.map_values(|e: String| e@),
                k <= events@.len(),
                self@ == replayed(es.take(k as int)),
                well_formed(self@),
                forall|j: int| 0 <= j < events@.len() ==> replay_ok(#[trigger] events@[j]@),
            decreases events.len() - k,
        {
            proof {
                assert(es.take(k + 1).drop_last() =~= es.take(k as int));
                assert(es.take(k + 1).last() == events@[k as int]@);
                assert(replay_ok(events@[k as int]@));
            }
            self.replay(events[k].as_str());
            k += 1;
        }
        proof {
            assert(es.take(events@.len() as int) =~= es);
        }
    }

    fn replay(&mut self, e: &str)
        requires
            well_formed(old(self)@),
            replay_ok(e@),
        ensures
            final(self)@ == replay_event(old(self)@, e@),
            well_formed(final(self)@),
    {
        let p = words_of(e);
        if p.len() == 0 {
            return;
        }
        if word_is(&p, 0, "GAME_INIT") && p.len() >= 3 {
            let mut ids: Vec<String> = Vec::new();
            ids.push(word_string(&p, 1));
            ids.push(word_string(&p, 2));
            self.player_ids = ids;
            self.game_started = true;
            proof {
                assert(self.player_ids.deep_view() =~= seq![words_view(p)[1], words_view(p)[2]]);
            }
        } else if word_is(&p, 0, "MOVE") && p.len() >= 4 {
            match (word_usize(&p, 1), word_usize(&p, 2), word_usize(&p, 3)) {
                (Some(n), Some(r), Some(c)) => {
                    let pos = r * 3 + c;
                    if pos < 9 {
                        self.board.set(pos, Some(n));
                        self.current_turn = 1 - n;
                    }
                },
                _ => {},
            }
        } else if word_is(&p, 0, "WINNER") && p.len() >= 2 {
            match word_usize(&p, 1) {
                Some(w) => {
                    self.winner = Some(w);
                    self.game_finished = true;
                },
                None => {},
            }
        } else if word_is(&p, 0, "DRAW") {
            self.game_finished = true;
            self.winner = None;
        }
    }
}

// ---------------------------------------------------------------------------
// The history a match writes
// ---------------------------------------------------------------------------

/// `GAME_INIT <x> <o>`.
pub open spec fn init_line(x: Seq<char>, o: Seq<char>) -> Seq<char> {
    "GAME_INIT "@ + x + " "@ + o
}

/// `MOVE <player> <row> <col>`.
pub open spec fn move_line(m: Placed) -> Seq<char> {
    "MOVE "@ + dec(m.mover as nat) + " "@ + dec(m.row as nat) + " "@ + dec(m.col as nat)
}

/// `WINNER <player>`.
pub open spec fn winner_line(w: usize) -> Seq<char> {
    "WINNER "@ + dec(w as nat)
}

/// A match as `begin` leaves it.
pub open spec fn begun(ids: Seq<Seq<char>>) -> TicTacToeView {
    TicTacToeView {
        board: empty_board(),
        current_turn: 0,
        game_started: true,
        game_finished: false,
        winner: None,
        player_ids: ids,
    }
}

proof fn lemma_keywords()
    ensures
        is_word("MOVE"@),
        is_word("WINNER"@),
        is_word("GAME_INIT"@),
        "MOVE"@ != "GAME_INIT"@,
        "WINNER"@ != "GAME_INIT"@,
        "WINNER"@ != "MOVE"@,
        "DRAW"@ != "GAME_INIT"@,
        "DRAW"@ != "MOVE"@,
        "DRAW"@ != "WINNER"@,
        "MOVE "@ == "MOVE"@ + " "@,
        "WINNER "@ == "WINNER"@ + " "@,
        "GAME_INIT "@ == "GAME_INIT"@ + " "@,
        is_word("DRAW"@),
{
    reveal_strlit("MOVE");
    reveal_strlit("WINNER");
    reveal_strlit("GAME_INIT");
    reveal_strlit("DRAW");
    reveal_strlit("MOVE ");
    reveal_strlit("WINNER ");
    reveal_strlit("GAME_INIT ");
    reveal_strlit(" ");
    assert("MOVE"@.len() != "GAME_INIT"@.len());
    assert("WINNER"@.len() != "GAME_INIT"@.len());
    assert("WINNER"@.len() != "MOVE"@.len());
    assert("DRAW"@.len() != "GAME_INIT"@.len());
    assert("DRAW"@[0] != "MOVE"@[0]);
    assert("DRAW"@.len() != "WINNER"@.len());
    assert("MOVE "@ =~= "MOVE"@ + " "@);
    assert("WINNER "@ =~= "WINNER"@ + " "@);
    assert("GAME_INIT "@ =~= "GAME_INIT"@ + " "@);
}

proof fn lemma_dec_word(n: nat)
    ensures
        is_word(dec(n)),
        !is_ws(dec(n)[0]),
{
    lemma_dec_facts(n);
}

/// The words of a `MOVE` line.
proof fn lemma_move_tokens(m: Placed)
    ensures
        tokens(move_line(m)) == seq![
            "MOVE"@,
            dec(m.mover as nat),
            dec(m.row as nat),
            dec(m.col as nat),
        ],
{
    lemma_keywords();
    let (a, b, c) = (dec(m.mover as nat), dec(m.row as nat), dec(m.col as nat));
    lemma_dec_word(m.mover as nat);
    lemma_dec_word(m.row as nat);
    lemma_dec_word(m.col as nat);
    assert(move_line(m) =~= "MOVE"@ + " "@ + (a + " "@ + (b + " "@ + c)));
    lemma_tokens_word(c);
    lemma_tokens_space(b, c);
    assert((b + " "@ + c)[0] == b[0]);
    lemma_tokens_space(a, b + " "@ + c);
    assert((a + " "@ + (b + " "@ + c))[0] == a[0]);
    lemma_tokens_space("MOVE"@, a + " "@ + (b + " "@ + c));
}

/// Replaying `GAME_INIT <x> <o>` from scratch gives the match that `begin`
/// starts.
pub proof fn law_replay_init(x: Seq<char>, o: Seq<char>)
    requires
        is_word(x),
        is_word(o),
    ensures
        replayed(seq![init_line(x, o)]) == begun(seq![x, o]),
{
    lemma_keywords();
    assert(init_line(x, o) =~= "GAME_INIT"@ + " "@ + (x + " "@ + o));
    lemma_tokens_word(o);
    lemma_tokens_space(x, o);
    assert((x + " "@ + o)[0] == x[0]);
    lemma_tokens_space("GAME_INIT"@, x + " "@ + o);
    let es = seq![init_line(x, o)];
    assert(es.drop_last() =~= Seq::<Seq<char>>::empty());
    assert(es.last() == init_line(x, o));
    assert(replayed(es.drop_last()) == fresh());
    assert(replayed(es) == replay_event(fresh(), init_line(x, o)));
    let t = tokens(init_line(x, o));
    assert(t =~= seq!["GAME_INIT"@, x, o]);
    assert(replay_event(fresh(), init_line(x, o)) =~= begun(seq![x, o]));
}

/// Replaying the line a placed move writes (and its `WINNER` line when it
/// won) turns the match before the move into the match after it: the
/// history a match writes rebuilds it move by move.
pub proof fn law_replay_move(v: TicTacToeView, msg: Seq<char>)
    requires
        well_formed(v),
        play_spec(v, msg).1 is Some,
    ensures
        ({
            let (after, placed) = play_spec(v, msg);
            let m = placed->0;
            let r = replay_event(v, move_line(m));
            &&& replay_ok(move_line(m))
            &&& match m.winner {
                Some(w) => replay_ok(winner_line(w)) && replay_event(r, winner_line(w)) == after,
                None => r == after,
            }
        }),
{
    lemma_keywords();
    let (after, placed) = play_spec(v, msg);
    let m = placed->0;
    lemma_move_tokens(m);
    lemma_parse_dec(m.mover as nat, usize::MAX as nat);
    lemma_parse_dec(m.row as nat, usize::MAX as nat);
    lemma_parse_dec(m.col as nat, usize::MAX as nat);
    let r = replay_event(v, move_line(m));
    assert(r =~= (TicTacToeView {
        board: v.board.update((m.row * 3 + m.col) as int, Some(m.mover)),
        current_turn: (1 - m.mover) as usize,
        ..v
    }));
    match m.winner {
        Some(w) => {
            lemma_dec_word(w as nat);
            assert(winner_line(w) =~= "WINNER"@ + " "@ + dec(w as nat));
            lemma_tokens_word(dec(w as nat));
            lemma_tokens_space("WINNER"@, dec(w as nat));
            lemma_parse_dec(w as nat, usize::MAX as nat);
            assert(tokens(winner_line(w)) =~= seq!["WINNER"@, dec(w as nat)]);
        },
        None => {},
    }
}

/// Replaying `DRAW` marks a match without a winner finished, as a drawn
/// match ends.
pub proof fn law_replay_draw(v: TicTacToeView)
    requires
        v.winner is None,
    ensures
        replay_event(v, "DRAW"@) == (TicTacToeView { game_finished: true, ..v }),
{
    lemma_keywords();
    lemma_tokens_word("DRAW"@);
}

} // verus!
