//! Tic-tac-toe in its m,n,k form as an event-sourced room.
//!
//! The board is `board_size` x `board_size`; the first player to line up
//! `win_chain` marks horizontally, vertically or diagonally wins. Defaults are
//! a 16x16 board and five in a row. Player 0 plays X and moves first. The
//! configuration travels in the `GAME_STARTED` payload (`<size> <chain>`), so a
//! replay of the log rebuilds the same game.
use vstd::prelude::*;
use crate::lobby::{
    chat_verdict, clone_players, event, find_player, fold_host_changed, fold_joined, fold_left,
    index_of, join_verdict, leave_verdict, lobby_host_changed, lobby_joined, lobby_left,
    start_check, start_refusal, validate_chat, validate_join, validate_leave, verdict_view,
    EventView, Lobby, RoomSnapshot, VerdictView,
};
use crate::text::{
    chars_of, dec, parse_unsigned, parse_unsigned_range, push_dec, push_str, split_tokens, str_is,
    string_of, string_of_range, tokens, trim, trim_range, word_string, word_usize, words_of,
    words_view,
};

verus! {

pub const MAX_PLAYERS: usize = 2;

pub const DEFAULT_BOARD_SIZE: u32 = 16;

pub const DEFAULT_WIN_CHAIN: u32 = 5;

pub const MIN_BOARD_SIZE: u32 = 3;

pub const MAX_BOARD_SIZE: u32 = 32;

pub const MIN_WIN_CHAIN: u32 = 3;

#[derive(Debug, Clone, Copy, PartialEq, Eq, Structural)]
pub enum Phase {
    Lobby,
    Playing,
    Finished,
}

#[derive(Debug, Clone)]
pub struct State {
    pub phase: Phase,
    pub players: Vec<String>,
    pub host: Option<String>,
    pub board_size: u32,
    pub win_chain: u32,
    /// `board_size * board_size` cells, row-major; `Some(0)` is X, `Some(1)` is O.
    pub board: Vec<Option<u8>>,
    /// 0 or 1: whose move it is.
    pub turn: u8,
    /// `None` while playing and after a draw.
    pub winner: Option<u8>,
}

pub struct Ttt;

pub struct StateView {
    pub phase: Phase,
    pub players: Seq<Seq<char>>,
    pub host: Option<Seq<char>>,
    pub board_size: u32,
    pub win_chain: u32,
    pub board: Seq<Option<u8>>,
    pub turn: u8,
    pub winner: Option<u8>,
}

impl View for State {
    type V = StateView;

    open spec fn view(&self) -> StateView {
        StateView {
            phase: self.phase,
            players: self.players.deep_view(),
            host: self.host.deep_view(),
            board_size: self.board_size,
            win_chain: self.win_chain,
            board: self.board@,
            turn: self.turn,
            winner: self.winner,
        }
    }
}

impl StateView {
    pub open spec fn lobby(self) -> Lobby {
        Lobby { players: self.players, host: self.host }
    }

    pub open spec fn with_lobby(self, l: Lobby) -> StateView {
        StateView { players: l.players, host: l.host, ..self }
    }
}

pub open spec fn empty_board(n: nat) -> Seq<Option<u8>> {
    Seq::new(n, |i: int| None::<u8>)
}

pub open spec fn initial_state() -> StateView {
    StateView {
        phase: Phase::Lobby,
        players: seq![],
        host: None,
        board_size: DEFAULT_BOARD_SIZE,
        win_chain: DEFAULT_WIN_CHAIN,
        board: empty_board((DEFAULT_BOARD_SIZE * DEFAULT_BOARD_SIZE) as nat),
        turn: 0,
        winner: None,
    }
}

/// Board and membership shapes that the rules rely on.
pub open spec fn well_formed(s: StateView) -> bool {
    &&& s.players.len() <= MAX_PLAYERS
    &&& s.board_size <= MAX_BOARD_SIZE
    &&& s.board.len() == s.board_size * s.board_size
}

fn new_board(n: usize) -> (b: Vec<Option<u8>>)
    ensures
        b@ == empty_board(n as nat),
{
    let mut b: Vec<Option<u8>> = Vec::new();
    let mut i: usize = 0;
    while i < n
        invariant
            i <= n,
            b@ == empty_board(i as nat),
        decreases n - i,
    {
        b.push(None);
        proof {
            assert(b@ =~= empty_board((i + 1) as nat));
        }
        i += 1;
    }
    b
}

impl Default for State {
    fn default() -> (s: Self)
        ensures
            s@ == initial_state(),
    {
        let size = DEFAULT_BOARD_SIZE as usize;
        let s = State {
            phase: Phase::Lobby,
            players: Vec::new(),
            host: None,
            board_size: DEFAULT_BOARD_SIZE,
            win_chain: DEFAULT_WIN_CHAIN,
            board: new_board(size * size),
            turn: 0,
            winner: None,
        };
        proof {
            assert(s.players.deep_view() =~= Seq::<Seq<char>>::empty());
        }
        s
    }
}

// ---------------------------------------------------------------------------
// Configuration
// ---------------------------------------------------------------------------

pub open spec fn clamp(x: nat, lo: nat, hi: nat) -> nat {
    if x < lo {
        lo
    } else if x > hi {
        hi
    } else {
        x
    }
}

/// The word at `i` read as a `u32`, or `dflt`.
pub open spec fn word_u32(parts: Seq<Seq<char>>, i: int, dflt: u32) -> nat {
    if i < parts.len() && parse_unsigned(parts[i], u32::MAX as nat) is Some {
        parse_unsigned(parts[i], u32::MAX as nat)->0
    } else {
        dflt as nat
    }
}

/// `<size> <chain>`: the size is clamped to 3..=32 and the chain to 3..=size;
/// missing or unreadable words take the defaults.
pub open spec fn config_of(payload: Seq<char>) -> (u32, u32) {
    let parts = tokens(payload);
    let size = clamp(word_u32(parts, 0, DEFAULT_BOARD_SIZE), MIN_BOARD_SIZE as nat, MAX_BOARD_SIZE as nat);
    let chain = clamp(word_u32(parts, 1, DEFAULT_WIN_CHAIN), MIN_WIN_CHAIN as nat, size);
    (size as u32, chain as u32)
}

fn word_u32_exec(parts: &Vec<Vec<char>>, i: usize, dflt: u32) -> (r: u32)
    ensures
        r as nat == word_u32(words_view(*parts), i as int, dflt),
{
    if i < parts.len() {
        let w = &parts[i];
        proof {
            assert(w@.subrange(0, w@.len() as int) =~= w@);
        }
        match parse_unsigned_range(w, 0, w.len(), u32::MAX as u64) {
            Some(n) => n as u32,
            None => dflt,
        }
    } else {
        dflt
    }
}

pub fn parse_config(payload: &str) -> (r: (u32, u32))
    ensures
        r == config_of(payload@),
        MIN_BOARD_SIZE <= r.0 <= MAX_BOARD_SIZE,
        MIN_WIN_CHAIN <= r.1 <= r.0,
{
    let v = chars_of(payload);
    proof {
        assert(v@.subrange(0, v@.len() as int) =~= v@);
    }
    let parts = split_tokens(&v, 0, v.len());
    proof {
        assert(words_view(parts) =~= tokens(payload@));
    }
    let size = word_u32_exec(&parts, 0, DEFAULT_BOARD_SIZE);
    let chain = word_u32_exec(&parts, 1, DEFAULT_WIN_CHAIN);
    let size = if size < MIN_BOARD_SIZE {
        MIN_BOARD_SIZE
    } else if size > MAX_BOARD_SIZE {
        MAX_BOARD_SIZE
    } else {
        size
    };
    let chain = if chain < MIN_WIN_CHAIN {
        MIN_WIN_CHAIN
    } else if chain > size {
        size
    } else {
        chain
    };
    (size, chain)
}

// ---------------------------------------------------------------------------
// Lines
// ---------------------------------------------------------------------------

/// How many cells holding `mark` follow `(r, c)` in direction `(dr, dc)`,
/// looking at most `fuel` cells far.
pub open spec fn ray(
    b: Seq<Option<u8>>,
    size: int,
    r: int,
    c: int,
    dr: int,
    dc: int,
    mark: u8,
    fuel: nat,
) -> nat
    decreases fuel,
{
    if fuel == 0 {
        0
    } else {
        let nr = r + dr;
        let nc = c + dc;
        if 0 <= nr < size && 0 <= nc < size && b[nr * size + nc] == Some(mark) {
            1 + ray(b, size, nr, nc, dr, dc, mark, (fuel - 1) as nat)
        } else {
            0
        }
    }
}

/// Length of the line of `mark` through `(row, col)` along `(dr, dc)`.
pub open spec fn line_len(
    b: Seq<Option<u8>>,
    size: int,
    row: int,
    col: int,
    dr: int,
    dc: int,
    mark: u8,
) -> nat {
    1 + ray(b, size, row, col, dr, dc, mark, size as nat) + ray(
        b,
        size,
        row,
        col,
        -dr,
        -dc,
        mark,
        size as nat,
    )
}

/// Whether a line of at least `chain` marks runs through `(row, col)`:
/// horizontally, vertically, or along either diagonal.
pub open spec fn wins_at(
    b: Seq<Option<u8>>,
    size: int,
    chain: int,
    row: int,
    col: int,
    mark: u8,
) -> bool {
    ||| line_len(b, size, row, col, 0, 1, mark) >= chain
    ||| line_len(b, size, row, col, 1, 0, mark) >= chain
    ||| line_len(b, size, row, col, 1, 1, mark) >= chain
    ||| line_len(b, size, row, col, 1, -1, mark) >= chain
}

fn ray_exec(
    board: &Vec<Option<u8>>,
    size: usize,
    row: usize,
    col: usize,
    dr: i64,
    dc: i64,
    mark: u8,
) -> (n: usize)
    requires
        board.len() == size * size,
        row < size,
        col < size,
        -1 <= dr <= 1,
        -1 <= dc <= 1,
        dr != 0 || dc != 0,
    ensures
        n as nat == ray(board@, size as int, row as int, col as int, dr as int, dc as int, mark, size as nat),
        n < size,
{
    let mut r: usize = row;
    let mut c: usize = col;
    let mut k: usize = 0;
    loop
        invariant
            board.len() == size * size,
            row < size,
            col < size,
            -1 <= dr <= 1,
            -1 <= dc <= 1,
            dr != 0 || dc != 0,
            r < size,
            c < size,
            k < size,
            dr == 1 ==> r == row + k,
            dr == -1 ==> r == row - k,
            dr == 0 ==> r == row,
            dc == 1 ==> c == col + k,
            dc == -1 ==> c == col - k,
            dc == 0 ==> c == col,
            ray(board@, size as int, row as int, col as int, dr as int, dc as int, mark, size as nat)
                == k + ray(board@, size as int, r as int, c as int, dr as int, dc as int, mark, (size - k) as nat),
        ensures
            k < size,
            ray(board@, size as int, row as int, col as int, dr as int, dc as int, mark, size as nat) == k,
        decreases size - k,
    {
        let row_ok = if dr > 0 {
            r + 1 < size
        } else if dr < 0 {
            r > 0
        } else {
            true
        };
        let col_ok = if dc > 0 {
            c + 1 < size
        } else if dc < 0 {
            c > 0
        } else {
            true
        };
        if row_ok && col_ok {
            let nr: usize = if dr > 0 {
                r + 1
            } else if dr < 0 {
                r - 1
            } else {
                r
            };
            let nc: usize = if dc > 0 {
                c + 1
            } else if dc < 0 {
                c - 1
            } else {
                c
            };
            proof {
                assert(nr * size + nc < size * size) by (nonlinear_arith)
                    requires
                        nr < size,
                        nc < size,
                ;
            }
            let pos = nr * size + nc;
            if board[pos] == Some(mark) {
                r = nr;
                c = nc;
                k = k + 1;
                continue;
            }
        }
        break;
    }
    k
}

pub fn check_winner_at(
    board: &Vec<Option<u8>>,
    size: usize,
    chain: usize,
    row: usize,
    col: usize,
    mark: u8,
) -> (b: bool)
    requires
        board.len() == size * size,
        row < size,
        col < size,
    ensures
        b == wins_at(board@, size as int, chain as int, row as int, col as int, mark),
{
    proof {
        if size >= 3 {
            assert(2 * size + 1 <= size * size) by (nonlinear_arith)
                requires
                    size >= 3,
            ;
        }
    }
    let h = 1 + ray_exec(board, size, row, col, 0, 1, mark) + ray_exec(board, size, row, col, 0, -1, mark);
    let v = 1 + ray_exec(board, size, row, col, 1, 0, mark) + ray_exec(board, size, row, col, -1, 0, mark);
    let d = 1 + ray_exec(board, size, row, col, 1, 1, mark) + ray_exec(board, size, row, col, -1, -1, mark);
    let a = 1 + ray_exec(board, size, row, col, 1, -1, mark) + ray_exec(board, size, row, col, -1, 1, mark);
    h >= chain || v >= chain || d >= chain || a >= chain
}

pub open spec fn full(b: Seq<Option<u8>>) -> bool {
    forall|k: int| 0 <= k < b.len() ==> (#[trigger] b[k]) is Some
}

pub fn board_full(board: &Vec<Option<u8>>) -> (r: bool)
    ensures
        r == full(board@),
{
    let mut i: usize = 0;
    while i < board.len()
        invariant
            i <= board.len(),
            forall|k: int| 0 <= k < i ==> (#[trigger] board@[k]) is Some,
        decreases board.len() - i,
    {
        if board[i].is_none() {
            return false;
        }
        i += 1;
    }
    true
}

// ---------------------------------------------------------------------------
// Folding events
// ---------------------------------------------------------------------------

/// `GAME_STARTED <size> <chain>`: a fresh board of the configured size.
pub open spec fn started_spec(s: StateView, payload: Seq<char>) -> StateView {
    let (size, chain) = config_of(payload);
    StateView {
        board_size: size,
        win_chain: chain,
        board: empty_board((size * size) as nat),
        phase: Phase::Playing,
        turn: 0,
        winner: None,
        ..s
    }
}

/// `MOVE <pid> <row> <col>`: a member's mark on an empty in-range cell; the
/// turn passes to the other side.
pub open spec fn move_spec(s: StateView, payload: Seq<char>) -> StateView {
    let parts = tokens(payload);
    if parts.len() != 3 {
        s
    } else {
        match (
            parse_unsigned(parts[1], usize::MAX as nat),
            parse_unsigned(parts[2], usize::MAX as nat),
            index_of(s.players, parts[0]),
        ) {
            (Some(r), Some(c), Some(i)) => if r < s.board_size && c < s.board_size {
                let pos = r * s.board_size + c;
                if s.board[pos as int] is None {
                    StateView {
                        board: s.board.update(pos as int, Some(i as u8)),
                        turn: (1 - i) as u8,
                        ..s
                    }
                } else {
                    s
                }
            } else {
                s
            },
            _ => s,
        }
    }
}

/// `WINNER <side>`: the game ends with a winner (an unreadable side is ignored).
pub open spec fn winner_spec(s: StateView, payload: Seq<char>) -> StateView {
    match parse_unsigned(trim(payload), u8::MAX as nat) {
        Some(w) => StateView { winner: Some(w as u8), phase: Phase::Finished, ..s },
        None => s,
    }
}

pub open spec fn fold_spec(s: StateView, kind: Seq<char>, payload: Seq<char>) -> StateView {
    if kind == "PLAYER_JOINED"@ {
        s.with_lobby(lobby_joined(s.lobby(), payload, MAX_PLAYERS as nat))
    } else if kind == "PLAYER_LEFT"@ {
        s.with_lobby(lobby_left(s.lobby(), payload))
    } else if kind == "HOST_CHANGED"@ {
        s.with_lobby(lobby_host_changed(s.lobby(), payload))
    } else if kind == "GAME_STARTED"@ {
        started_spec(s, payload)
    } else if kind == "MOVE"@ {
        move_spec(s, payload)
    } else if kind == "WINNER"@ {
        winner_spec(s, payload)
    } else if kind == "DRAW"@ {
        StateView { winner: None, phase: Phase::Finished, ..s }
    } else {
        s
    }
}

fn fold_started(state: &mut State, payload: &str)
    requires
        well_formed(old(state)@),
    ensures
        final(state)@ == started_spec(old(state)@, payload@),
        well_formed(final(state)@),
{
    let (size, chain) = parse_config(payload);
    proof {
        assert(size * size <= 1024) by (nonlinear_arith)
            requires
                size <= 32,
        ;
    }
    state.board_size = size;
    state.win_chain = chain;
    state.board = new_board((size * size) as usize);
    state.phase = Phase::Playing;
    state.turn = 0;
    state.winner = None;
}

fn fold_move(state: &mut State, payload: &str)
    requires
        well_formed(old(state)@),
    ensures
        final(state)@ == move_spec(old(state)@, payload@),
        well_formed(final(state)@),
{
    let parts = words_of(payload);
    if parts.len() != 3 {
        return;
    }
    let row = match word_usize(&parts, 1) {
        Some(r) => r,
        None => {
            return;
        },
    };
    let col = match word_usize(&parts, 2) {
        Some(c) => c,
        None => {
            return;
        },
    };
    let pid = word_string(&parts, 0);
    let idx = match find_player(&state.players, pid.as_str()) {
        Some(i) => i,
        None => {
            return;
        },
    };
    proof {
        crate::lobby::lemma_index_of(state.players.deep_view(), pid@);
    }
    let size = state.board_size as usize;
    if row < size && col < size {
        proof {
            assert(row * size + col < size * size) by (nonlinear_arith)
                requires
                    row < size,
                    col < size,
            ;
            assert(size * size <= 1024) by (nonlinear_arith)
                requires
                    size <= 32,
            ;
        }
        let pos = row * size + col;
        if state.board[pos].is_none() {
            state.board.set(pos, Some(idx as u8));
            state.turn = 1 - idx as u8;
        }
    }
}

fn fold_winner(state: &mut State, payload: &str)
    ensures
        final(state)@ == winner_spec(old(state)@, payload@),
{
    let v = chars_of(payload);
    proof {
        assert(v@.subrange(0, v@.len() as int) =~= v@);
    }
    let (a, b) = trim_range(&v, 0, v.len());
    match parse_unsigned_range(&v, a, b, u8::MAX as u64) {
        Some(w) => {
            state.winner = Some(w as u8);
            state.phase = Phase::Finished;
        },
        None => {},
    }
}

impl Ttt {
    pub fn fold(state: &mut State, kind: &str, payload: &str)
        requires
            well_formed(old(state)@),
        ensures
            final(state)@ == fold_spec(old(state)@, kind@, payload@),
            well_formed(final(state)@),
    {
        if str_is(kind, "PLAYER_JOINED") {
            fold_joined(&mut state.players, &mut state.host, payload, MAX_PLAYERS);
        } else if str_is(kind, "PLAYER_LEFT") {
            fold_left(&mut state.players, &mut state.host, payload);
            proof {
                crate::lobby::lemma_left_len(old(state)@.lobby(), payload@);
            }
        } else if str_is(kind, "HOST_CHANGED") {
            fold_host_changed(&mut state.host, payload);
        } else if str_is(kind, "GAME_STARTED") {
            fold_started(state, payload);
        } else if str_is(kind, "MOVE") {
            fold_move(state, payload);
        } else if str_is(kind, "WINNER") {
            fold_winner(state, payload);
        } else if str_is(kind, "DRAW") {
            state.winner = None;
            state.phase = Phase::Finished;
        }
    }
}

// ---------------------------------------------------------------------------
// Validating actions
// ---------------------------------------------------------------------------

/// `MOVE <row> <col>`: only while playing, only the member whose turn it is,
/// only on an empty cell of the board. A move that completes a line also
/// emits `WINNER <side>`; one that fills the board without a line, `DRAW`.
pub open spec fn move_verdict(s: StateView, player: Seq<char>, payload: Seq<char>) -> VerdictView {
    if s.phase != Phase::Playing {
        Err("not playing"@)
    } else {
        match index_of(s.players, player) {
            None => Err("not in room"@),
            Some(i) => if s.turn != i {
                Err("not your turn"@)
            } else {
                let parts = tokens(payload);
                if parts.len() != 2 {
                    Err("expected: MOVE <row> <col>"@)
                } else {
                    match parse_unsigned(parts[0], usize::MAX as nat) {
                        None => Err("bad row"@),
                        Some(r) => match parse_unsigned(parts[1], usize::MAX as nat) {
                            None => Err("bad col"@),
                            Some(c) => if r >= s.board_size || c >= s.board_size {
                                Err("out of range"@)
                            } else {
                                let pos = r * s.board_size + c;
                                if s.board[pos as int] is Some {
                                    Err("cell occupied"@)
                                } else {
                                    let mv = ("MOVE"@, player + " "@ + dec(r) + " "@ + dec(c));
                                    let next = s.board.update(pos as int, Some(i as u8));
                                    if wins_at(
                                        next,
                                        s.board_size as int,
                                        s.win_chain as int,
                                        r as int,
                                        c as int,
                                        i as u8,
                                    ) {
                                        Ok(seq![mv, ("WINNER"@, dec(i))])
                                    } else if full(next) {
                                        Ok(seq![mv, ("DRAW"@, Seq::<char>::empty())])
                                    } else {
                                        Ok(seq![mv])
                                    }
                                }
                            },
                        },
                    }
                }
            },
        }
    }
}

pub open spec fn validate_spec(s: StateView, player: Seq<char>, kind: Seq<char>, payload: Seq<
    char,
>) -> VerdictView {
    if kind == "JOIN"@ {
        join_verdict(
            Lobby { players: s.players, host: None },
            s.phase == Phase::Lobby,
            player,
            MAX_PLAYERS as nat,
        )
    } else if kind == "LEAVE"@ {
        leave_verdict(s.lobby(), player)
    } else if kind == "CHAT"@ {
        chat_verdict(player, payload)
    } else if kind == "START"@ {
        match start_refusal(s.lobby(), s.phase == Phase::Lobby, player) {
            Some(e) => Err(e),
            None => Ok(
                seq![
                    ("GAME_STARTED"@, dec(config_of(payload).0 as nat) + " "@ + dec(
                        config_of(payload).1 as nat,
                    )),
                ],
            ),
        }
    } else if kind == "MOVE"@ {
        move_verdict(s, player, payload)
    } else {
        Err("unknown action: "@ + kind)
    }
}

fn validate_move(state: &State, player: &str, payload: &str) -> (r: Result<Vec<(String, String)>, String>)
    requires
        well_formed(state@),
    ensures
        verdict_view(r) == move_verdict(state@, player@, payload@),
{
    if state.phase != Phase::Playing {
        return Err(String::from_str("not playing"));
    }
    let idx = match find_player(&state.players, player) {
        Some(i) => i,
        None => {
            return Err(String::from_str("not in room"));
        },
    };
    proof {
        crate::lobby::lemma_index_of(state.players.deep_view(), player@);
    }
    if state.turn as usize != idx {
        return Err(String::from_str("not your turn"));
    }
    let parts = words_of(payload);
    if parts.len() != 2 {
        return Err(String::from_str("expected: MOVE <row> <col>"));
    }
    let row = match word_usize(&parts, 0) {
        Some(r) => r,
        None => {
            return Err(String::from_str("bad row"));
        },
    };
    let col = match word_usize(&parts, 1) {
        Some(c) => c,
        None => {
            return Err(String::from_str("bad col"));
        },
    };
    let size = state.board_size as usize;
    if row >= size || col >= size {
        return Err(String::from_str("out of range"));
    }
    proof {
        assert(row * size + col < size * size) by (nonlinear_arith)
            requires
                row < size,
                col < size,
        ;
        assert(size * size <= 1024) by (nonlinear_arith)
            requires
                size <= 32,
        ;
    }
    let pos = row * size + col;
    if state.board[pos].is_some() {
        return Err(String::from_str("cell occupied"));
    }
    let mut mv: Vec<char> = Vec::new();
    push_str(&mut mv, player);
    push_str(&mut mv, " ");
    push_dec(&mut mv, row as u64);
    push_str(&mut mv, " ");
    push_dec(&mut mv, col as u64);
    let mut out: Vec<(String, String)> = Vec::new();
    out.push(event("MOVE", string_of(&mv)));
    let mut next = state.board.clone();
    proof {
        assert(next@ =~= state.board@);
    }
    next.set(pos, Some(idx as u8));
    if check_winner_at(&next, size, state.win_chain as usize, row, col, idx as u8) {
        let mut w: Vec<char> = Vec::new();
        push_dec(&mut w, idx as u64);
        out.push(event("WINNER", string_of(&w)));
        proof {
            assert(out.deep_view() =~= seq![("MOVE"@, mv@), ("WINNER"@, w@)]);
        }
    } else if board_full(&next) {
        out.push(event("DRAW", String::new()));
        proof {
            assert(out.deep_view() =~= seq![("MOVE"@, mv@), ("DRAW"@, Seq::<char>::empty())]);
        }
    } else {
        proof {
            assert(out.deep_view() =~= seq![("MOVE"@, mv@)]);
        }
    }
    Ok(out)
}

impl Ttt {
    pub fn validate(state: &State, player: &str, kind: &str, payload: &str) -> (r: Result<
        Vec<(String, String)>,
        String,
    >)
        requires
            well_formed(state@),
        ensures
            verdict_view(r) == validate_spec(state@, player@, kind@, payload@),
    {
        if str_is(kind, "JOIN") {
            validate_join(&state.players, state.phase == Phase::Lobby, player, MAX_PLAYERS)
        } else if str_is(kind, "LEAVE") {
            validate_leave(&state.players, &state.host, player)
        } else if str_is(kind, "CHAT") {
            validate_chat(player, payload)
        } else if str_is(kind, "START") {
            match start_check(&state.players, &state.host, state.phase == Phase::Lobby, player) {
                Some(e) => Err(e),
                None => {
                    let (size, chain) = parse_config(payload);
                    let mut n: Vec<char> = Vec::new();
                    push_dec(&mut n, size as u64);
                    push_str(&mut n, " ");
                    push_dec(&mut n, chain as u64);
                    let mut v: Vec<(String, String)> = Vec::new();
                    v.push(event("GAME_STARTED", string_of(&n)));
                    proof {
                        assert(v.deep_view() =~= seq![("GAME_STARTED"@, n@)]);
                    }
                    Ok(v)
                },
            }
        } else if str_is(kind, "MOVE") {
            validate_move(state, player, payload)
        } else {
            let mut m: Vec<char> = Vec::new();
            push_str(&mut m, "unknown action: ");
            push_str(&mut m, kind);
            Err(string_of(&m))
        }
    }

    pub fn max_players() -> (n: usize)
        ensures
            n == MAX_PLAYERS,
    {
        MAX_PLAYERS
    }

    pub fn game_id() -> (s: &'static str)
        ensures
            s@ == "tic-tac-toe"@,
    {
        "tic-tac-toe"
    }

    /// Who the game waits on: the member whose turn it is, while playing.
    pub fn pending_players(state: &State) -> (r: Vec<String>)
        ensures
            r.deep_view() == (if state@.phase == Phase::Playing && (state.turn as int)
                < state@.players.len() {
                seq![state@.players[state.turn as int]]
            } else {
                Seq::<Seq<char>>::empty()
            }),
    {
        let mut r: Vec<String> = Vec::new();
        if state.phase == Phase::Playing && (state.turn as usize) < state.players.len() {
            r.push(state.players[state.turn as usize].clone());
        }
        proof {
            if state@.phase == Phase::Playing && (state.turn as int) < state@.players.len() {
                assert(r.deep_view() =~= seq![state@.players[state.turn as int]]);
            } else {
                assert(r.deep_view() =~= Seq::<Seq<char>>::empty());
            }
        }
        r
    }

    pub fn snapshot(state: &State) -> (r: RoomSnapshot)
        ensures
            r.phase@ == phase_name(state.phase),
            r.host.deep_view() == state@.host,
            r.players.deep_view() == state@.players,
    {
        RoomSnapshot {
            phase: phase_str(&state.phase),
            host: state.host.clone(),
            players: clone_players(&state.players),
        }
    }
}

pub open spec fn phase_name(p: Phase) -> Seq<char> {
    match p {
        Phase::Lobby => "lobby"@,
        Phase::Playing => "playing"@,
        Phase::Finished => "finished"@,
    }
}

pub fn phase_str(phase: &Phase) -> (s: String)
    ensures
        s@ == phase_name(*phase),
{
    match phase {
        Phase::Lobby => String::from_str("lobby"),
        Phase::Playing => String::from_str("playing"),
        Phase::Finished => String::from_str("finished"),
    }
}

} // verus!
