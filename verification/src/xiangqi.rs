//! Xiangqi (Chinese chess) as an event-sourced room.
//!
//! The board has 9 files (`a`..`i`) and 10 ranks (`0`..`9`). Player 0 is red
//! and owns ranks 0..4, player 1 is black and owns ranks 5..9; red moves
//! first. A move is legal when it follows the piece's movement rule and does
//! not leave the mover's general attacked or facing the other general on an
//! open file. Capturing the general, or leaving the opponent without a legal
//! move, wins.
use vstd::prelude::*;
use crate::lobby::{
    chat_verdict, clone_players, event, find_player, fold_host_changed, fold_joined, fold_left,
    index_of, join_verdict, leave_verdict, lobby_host_changed, lobby_joined, lobby_left,
    start_check, start_refusal, validate_chat, validate_join, validate_leave, verdict_view,
    EventView, Lobby, RoomSnapshot, VerdictView,
};
use crate::text::{
    chars_of, dec, parse_unsigned, parse_unsigned_range, push_dec, push_str, split_tokens, str_is,
    string_of, string_of_range, tokens, trim, trim_range, word_string, words_of, words_view,
};

verus! {

pub const MAX_PLAYERS: usize = 2;

pub const COLS: usize = 9;

pub const ROWS: usize = 10;

pub const CELLS: usize = 90;

#[derive(Debug, Clone, Copy, PartialEq, Eq, Structural)]
pub enum Kind {
    General,
    Advisor,
    Elephant,
    Horse,
    Rook,
    Cannon,
    Pawn,
}

#[derive(Debug, Clone, Copy, PartialEq, Eq, Structural)]
pub struct Piece {
    /// 0 = red, 1 = black.
    pub side: u8,
    pub kind: Kind,
}

// ---------------------------------------------------------------------------
// Geometry
// ---------------------------------------------------------------------------

pub type Board = Seq<Option<Piece>>;

pub open spec fn on_board(r: int, c: int) -> bool {
    0 <= r < ROWS && 0 <= c < COLS
}

/// The piece on `(r, c)`.
pub open spec fn at(b: Board, r: int, c: int) -> Option<Piece> {
    b[r * 9 + c]
}

/// An on-board square that is empty or holds a piece of the other side.
pub open spec fn open_for(b: Board, side: u8, r: int, c: int) -> bool {
    on_board(r, c) && match at(b, r, c) {
        None => true,
        Some(p) => p.side != side,
    }
}

pub open spec fn in_palace(side: u8, r: int, c: int) -> bool {
    3 <= c <= 5 && if side == 0 {
        0 <= r <= 2
    } else {
        7 <= r <= 9
    }
}

pub open spec fn crossed_river(side: u8, r: int) -> bool {
    if side == 0 {
        r >= 5
    } else {
        r <= 4
    }
}

pub open spec fn on_own_side(side: u8, r: int) -> bool {
    if side == 0 {
        r <= 4
    } else {
        r >= 5
    }
}

/// `x` moved `j` steps in direction `d` (which is -1, 0 or 1).
pub open spec fn off(x: int, d: int, j: int) -> int {
    if d > 0 {
        x + j
    } else if d < 0 {
        x - j
    } else {
        x
    }
}

/// A single step `(dr, dc)` from `(fr, fc)` lands on `(tr, tc)`, which is open.
pub open spec fn step_to(b: Board, side: u8, fr: int, fc: int, dr: int, dc: int, tr: int, tc: int) -> bool {
    tr == fr + dr && tc == fc + dc && open_for(b, side, tr, tc)
}

/// How many steps along the straight direction `(dr, dc)` lead from
/// `(fr, fc)` to `(tr, tc)`; 0 when the target is not ahead on that line.
pub open spec fn ray_dist(fr: int, fc: int, dr: int, dc: int, tr: int, tc: int) -> int {
    let k = if dr > 0 {
        tr - fr
    } else if dr < 0 {
        fr - tr
    } else if dc > 0 {
        tc - fc
    } else {
        fc - tc
    };
    if k >= 1 && off(fr, dr, k) == tr && off(fc, dc, k) == tc {
        k
    } else {
        0
    }
}

/// Number of pieces on the squares strictly between `(fr, fc)` and `k` steps
/// along `(dr, dc)`.
pub open spec fn pieces_before(b: Board, fr: int, fc: int, dr: int, dc: int, k: int) -> nat
    decreases k,
{
    if k <= 1 {
        0
    } else {
        pieces_before(b, fr, fc, dr, dc, k - 1) + if at(b, off(fr, dr, k - 1), off(fc, dc, k - 1))
            is Some {
            1nat
        } else {
            0nat
        }
    }
}

/// Rook line: nothing in between, target open.
pub open spec fn rook_ray(b: Board, side: u8, fr: int, fc: int, dr: int, dc: int, tr: int, tc: int) -> bool {
    let k = ray_dist(fr, fc, dr, dc, tr, tc);
    k >= 1 && open_for(b, side, tr, tc) && pieces_before(b, fr, fc, dr, dc, k) == 0
}

/// Cannon line: moves over empty squares, captures over exactly one screen.
pub open spec fn cannon_ray(b: Board, side: u8, fr: int, fc: int, dr: int, dc: int, tr: int, tc: int) -> bool {
    let k = ray_dist(fr, fc, dr, dc, tr, tc);
    k >= 1 && on_board(tr, tc) && match at(b, tr, tc) {
        None => pieces_before(b, fr, fc, dr, dc, k) == 0,
        Some(p) => p.side != side && pieces_before(b, fr, fc, dr, dc, k) == 1,
    }
}

pub open spec fn orth(dr: int, dc: int) -> bool {
    (dr == 1 && dc == 0) || (dr == -1 && dc == 0) || (dr == 0 && dc == 1) || (dr == 0 && dc == -1)
}

/// Where the piece on `(fr, fc)` may go by its movement rule alone (the
/// general's safety is checked separately).
pub open spec fn pseudo_target(b: Board, fr: int, fc: int, tr: int, tc: int) -> bool {
    match at(b, fr, fc) {
        None => false,
        Some(p) => {
            let s = p.side;
            match p.kind {
                Kind::General => in_palace(s, tr, tc) && ((tr - fr == 1 && tc == fc) || (fr - tr
                    == 1 && tc == fc) || (tc - fc == 1 && tr == fr) || (fc - tc == 1 && tr == fr))
                    && open_for(b, s, tr, tc),
                Kind::Advisor => in_palace(s, tr, tc) && (tr - fr == 1 || fr - tr == 1) && (tc - fc
                    == 1 || fc - tc == 1) && open_for(b, s, tr, tc),
                Kind::Elephant => (tr - fr == 2 || fr - tr == 2) && (tc - fc == 2 || fc - tc == 2)
                    && on_own_side(s, tr) && at(b, (fr + tr) / 2, (fc + tc) / 2) is None
                    && open_for(b, s, tr, tc),
                Kind::Horse => {
                    ||| (tr - fr == 2 || fr - tr == 2) && (tc - fc == 1 || fc - tc == 1) && at(
                        b,
                        (fr + tr) / 2,
                        fc,
                    ) is None && open_for(b, s, tr, tc)
                    ||| (tr - fr == 1 || fr - tr == 1) && (tc - fc == 2 || fc - tc == 2) && at(
                        b,
                        fr,
                        (fc + tc) / 2,
                    ) is None && open_for(b, s, tr, tc)
                },
                Kind::Rook => exists|dr: int, dc: int|
                    #![trigger rook_ray(b, s, fr, fc, dr, dc, tr, tc)]
                    orth(dr, dc) && rook_ray(b, s, fr, fc, dr, dc, tr, tc),
                Kind::Cannon => exists|dr: int, dc: int|
                    #![trigger cannon_ray(b, s, fr, fc, dr, dc, tr, tc)]
                    orth(dr, dc) && cannon_ray(b, s, fr, fc, dr, dc, tr, tc),
                Kind::Pawn => {
                    let fwd = if s == 0 {
                        1int
                    } else {
                        -1int
                    };
                    ||| tr == fr + fwd && tc == fc && open_for(b, s, tr, tc)
                    ||| crossed_river(s, fr) && tr == fr && (tc - fc == 1 || fc - tc == 1)
                        && open_for(b, s, tr, tc)
                },
            }
        },
    }
}

/// Law: a pawn steps forward (up the board for red, side 0; down for black,
/// side 1) onto any open square, and steps sideways onto an open square
/// exactly when it stands on the other side's half: red on rows 5 to 9,
/// black on rows 0 to 4. The rule for black is red's turned round.
pub proof fn law_pawn_moves(b: Board, side: u8, r: int, c: int)
    requires
        side <= 1,
        on_board(r, c),
        at(b, r, c) == Some(Piece { side, kind: Kind::Pawn }),
    ensures
        pseudo_target(b, r, c, r + if side == 0 { 1int } else { -1int }, c) <==> open_for(
            b,
            side,
            r + if side == 0 { 1int } else { -1int },
            c,
        ),
        pseudo_target(b, r, c, r, c + 1) <==> (open_for(b, side, r, c + 1) && if side == 0 {
            r >= 5
        } else {
            r <= 4
        }),
        pseudo_target(b, r, c, r, c - 1) <==> (open_for(b, side, r, c - 1) && if side == 0 {
            r >= 5
        } else {
            r <= 4
        }),
        !pseudo_target(b, r, c, r - if side == 0 { 1int } else { -1int }, c),
        crossed_river(0, r) <==> !crossed_river(1, r),
{
}

/// A list of squares holds exactly the pseudo-legal targets from `(fr, fc)`.
pub open spec fn targets_exactly(out: Seq<(usize, usize)>, b: Board, fr: int, fc: int) -> bool {
    forall|tr: usize, tc: usize|
        #![trigger out.contains((tr, tc))]
        out.contains((tr, tc)) <==> pseudo_target(b, fr, fc, tr as int, tc as int)
}

pub proof fn lemma_pieces_mono(b: Board, fr: int, fc: int, dr: int, dc: int, a: int, k: int)
    requires
        a <= k,
    ensures
        pieces_before(b, fr, fc, dr, dc, a) <= pieces_before(b, fr, fc, dr, dc, k),
    decreases k - a,
{
    if a < k {
        lemma_pieces_mono(b, fr, fc, dr, dc, a, k - 1);
    }
}

pub proof fn lemma_push_contains<T>(s: Seq<T>, x: T)
    ensures
        forall|m: T| #[trigger] s.push(x).contains(m) <==> (s.contains(m) || m == x),
{
    assert forall|m: T| #[trigger] s.push(x).contains(m) <==> (s.contains(m) || m == x) by {
        if s.contains(m) {
            let i = choose|i: int| 0 <= i < s.len() && s[i] == m;
            assert(s.push(x)[i] == m);
        }
        if m == x {
            assert(s.push(x)[s.len() as int] == m);
        }
        if s.push(x).contains(m) {
            let i = choose|i: int| 0 <= i < s.push(x).len() && s.push(x)[i] == m;
            if i < s.len() {
                assert(s[i] == m);
            }
        }
    }
}

// ---------------------------------------------------------------------------
// Executable geometry
// ---------------------------------------------------------------------------

pub fn idx(row: usize, col: usize) -> (i: usize)
    requires
        row < ROWS,
        col < COLS,
    ensures
        i == row * 9 + col,
        i < CELLS,
{
    row * COLS + col
}

pub fn in_board(row: i64, col: i64) -> (b: bool)
    ensures
        b == on_board(row as int, col as int),
{
    row >= 0 && row < ROWS as i64 && col >= 0 && col < COLS as i64
}

fn cell_at(board: &[Option<Piece>; CELLS], r: i64, c: i64) -> (p: Option<Piece>)
    requires
        on_board(r as int, c as int),
    ensures
        p == at(board@, r as int, c as int),
{
    board[idx(r as usize, c as usize)]
}

pub fn in_palace_exec(side: u8, row: i64, col: i64) -> (b: bool)
    ensures
        b == in_palace(side, row as int, col as int),
{
    if !(col >= 3 && col <= 5) {
        return false;
    }
    if side == 0 {
        row >= 0 && row <= 2
    } else {
        row >= 7 && row <= 9
    }
}

pub fn crossed_river_exec(side: u8, row: i64) -> (b: bool)
    ensures
        b == crossed_river(side, row as int),
{
    if side == 0 {
        row >= 5
    } else {
        row <= 4
    }
}

pub fn on_own_side_exec(side: u8, row: i64) -> (b: bool)
    ensures
        b == on_own_side(side, row as int),
{
    if side == 0 {
        row <= 4
    } else {
        row >= 5
    }
}

/// Adds `(nr, nc)` when it is an open square for `side`.
fn try_push(board: &[Option<Piece>; CELLS], side: u8, out: &mut Vec<(usize, usize)>, nr: i64, nc: i64)
    requires
        -100 <= nr <= 100,
        -100 <= nc <= 100,
        old(out)@.no_duplicates(),
        open_for(board@, side, nr as int, nc as int) ==> !old(out)@.contains((nr as usize, nc as usize)),
    ensures
        forall|tr: usize, tc: usize|
            #![trigger final(out)@.contains((tr, tc))]
            final(out)@.contains((tr, tc)) <==> (old(out)@.contains((tr, tc)) || (tr == nr && tc
                == nc && open_for(board@, side, nr as int, nc as int))),
        final(out)@.no_duplicates(),
{
    proof {
        lemma_push_contains(out@, (nr as usize, nc as usize));
        if open_for(board@, side, nr as int, nc as int) {
            lemma_push_no_dup(out@, (nr as usize, nc as usize));
        }
    }
    if !in_board(nr, nc) {
        return;
    }
    match cell_at(board, nr, nc) {
        Some(t) => {
            if t.side == side {
                return;
            }
        },
        None => {},
    }
    out.push((nr as usize, nc as usize));
}

/// No square of `o` lies ahead of `(fr, fc)` along `(dr, dc)`.
pub open spec fn off_ray(o: Seq<(usize, usize)>, fr: int, fc: int, dr: int, dc: int) -> bool {
    forall|tr: usize, tc: usize|
        #![trigger o.contains((tr, tc))]
        o.contains((tr, tc)) ==> ray_dist(fr, fc, dr, dc, tr as int, tc as int) == 0
}

proof fn lemma_push_no_dup<T>(s: Seq<T>, x: T)
    requires
        s.no_duplicates(),
        !s.contains(x),
    ensures
        s.push(x).no_duplicates(),
{
    assert forall|i: int, j: int| 0 <= i < s.push(x).len() && 0 <= j < s.push(x).len() && i != j implies s.push(x)[i] != s.push(x)[j] by {
        if i == s.len() as int {
            assert(s[j] == s.push(x)[j]);
        } else if j == s.len() as int {
            assert(s[i] == s.push(x)[i]);
        }
    }
}

fn off_exec(x: i64, d: i64, j: i64) -> (r: i64)
    requires
        -100 <= x <= 100,
        -1 <= d <= 1,
        0 <= j <= 100,
    ensures
        r == off(x as int, d as int, j as int),
{
    if d > 0 {
        x + j
    } else if d < 0 {
        x - j
    } else {
        x
    }
}

/// Adds the squares a rook reaches along `(dr, dc)`.
fn slide(board: &[Option<Piece>; CELLS], side: u8, fr: i64, fc: i64, dr: i64, dc: i64, out: &mut Vec<(usize, usize)>)
    requires
        on_board(fr as int, fc as int),
        orth(dr as int, dc as int),
        old(out)@.no_duplicates(),
        off_ray(old(out)@, fr as int, fc as int, dr as int, dc as int),
    ensures
        forall|tr: usize, tc: usize|
            #![trigger final(out)@.contains((tr, tc))]
            final(out)@.contains((tr, tc)) <==> (old(out)@.contains((tr, tc)) || rook_ray(
                board@,
                side,
                fr as int,
                fc as int,
                dr as int,
                dc as int,
                tr as int,
                tc as int,
            )),
        final(out)@.no_duplicates(),
{
    let ghost b = board@;
    let ghost o = out@;
    let mut n: i64 = 1;
    loop
        invariant_except_break
            forall|tr: usize, tc: usize|
                #![trigger out@.contains((tr, tc))]
                out@.contains((tr, tc)) <==> (o.contains((tr, tc)) || (1 <= ray_dist(
                    fr as int,
                    fc as int,
                    dr as int,
                    dc as int,
                    tr as int,
                    tc as int,
                ) < n && on_board(tr as int, tc as int))),
        invariant
            out@.no_duplicates(),
            off_ray(o, fr as int, fc as int, dr as int, dc as int),
            on_board(fr as int, fc as int),
            orth(dr as int, dc as int),
            b == board@,
            1 <= n <= 11,
            forall|j: int| 1 <= j < n ==> on_board(off(fr as int, dr as int, j), off(fc as int, dc as int, j)),
            forall|j: int|
                1 <= j < n ==> (#[trigger] at(b, off(fr as int, dr as int, j), off(fc as int, dc as int, j))) is None,
            pieces_before(b, fr as int, fc as int, dr as int, dc as int, n as int) == 0,
        ensures
            forall|tr: usize, tc: usize|
                #![trigger out@.contains((tr, tc))]
                out@.contains((tr, tc)) <==> (o.contains((tr, tc)) || rook_ray(
                    b,
                    side,
                    fr as int,
                    fc as int,
                    dr as int,
                    dc as int,
                    tr as int,
                    tc as int,
                )),
        decreases 11 - n,
    {
        let nr = off_exec(fr, dr, n);
        let nc = off_exec(fc, dc, n);
        if !in_board(nr, nc) {
            proof {
                assert forall|tr: usize, tc: usize|
                    #![trigger out@.contains((tr, tc))]
                    out@.contains((tr, tc)) <==> (o.contains((tr, tc)) || rook_ray(
                        b,
                        side,
                        fr as int,
                        fc as int,
                        dr as int,
                        dc as int,
                        tr as int,
                        tc as int,
                    )) by {
                    let k = ray_dist(fr as int, fc as int, dr as int, dc as int, tr as int, tc as int);
                    if 1 <= k < n && on_board(tr as int, tc as int) {
                        assert(at(b, off(fr as int, dr as int, k), off(fc as int, dc as int, k)) is None);
                        lemma_pieces_mono(b, fr as int, fc as int, dr as int, dc as int, k as int, n as int);
                    }
                }
            }
            break;
        }
        proof {
            lemma_push_contains(out@, (nr as usize, nc as usize));
        }
        match cell_at(board, nr, nc) {
            None => {
                proof {
                    assert(ray_dist(fr as int, fc as int, dr as int, dc as int, nr as int, nc as int) == n);
                    assert(!out@.contains((nr as usize, nc as usize)));
                    lemma_push_no_dup(out@, (nr as usize, nc as usize));
                }
                out.push((nr as usize, nc as usize));
                n = n + 1;
                proof {
                    assert(pieces_before(b, fr as int, fc as int, dr as int, dc as int, n as int)
                        == pieces_before(b, fr as int, fc as int, dr as int, dc as int, (n - 1) as int));
                }
            },
            Some(t) => {
                if t.side != side {
                    proof {
                        assert(ray_dist(fr as int, fc as int, dr as int, dc as int, nr as int, nc as int) == n);
                        assert(!out@.contains((nr as usize, nc as usize)));
                        lemma_push_no_dup(out@, (nr as usize, nc as usize));
                    }
                    out.push((nr as usize, nc as usize));
                }
                proof {
                    assert(pieces_before(b, fr as int, fc as int, dr as int, dc as int, n + 1) == 1);
                    assert forall|tr: usize, tc: usize|
                        #![trigger out@.contains((tr, tc))]
                        out@.contains((tr, tc)) <==> (o.contains((tr, tc)) || rook_ray(
                            b,
                            side,
                            fr as int,
                            fc as int,
                            dr as int,
                            dc as int,
                            tr as int,
                            tc as int,
                        )) by {
                        let k = ray_dist(fr as int, fc as int, dr as int, dc as int, tr as int, tc as int);
                        if 1 <= k < n && on_board(tr as int, tc as int) {
                            assert(at(b, off(fr as int, dr as int, k), off(fc as int, dc as int, k)) is None);
                            lemma_pieces_mono(b, fr as int, fc as int, dr as int, dc as int, k as int, n as int);
                        }
                        if k > n {
                            lemma_pieces_mono(b, fr as int, fc as int, dr as int, dc as int, n + 1, k as int);
                        }
                    }
                }
                break;
            },
        }
    }
}

/// Adds the squares a cannon reaches along `(dr, dc)`: empty squares up to
/// the first piece, and the first piece beyond that screen if it is hostile.
fn cannon_slide(
    board: &[Option<Piece>; CELLS],
    side: u8,
    fr: i64,
    fc: i64,
    dr: i64,
    dc: i64,
    out: &mut Vec<(usize, usize)>,
)
    requires
        on_board(fr as int, fc as int),
        orth(dr as int, dc as int),
        old(out)@.no_duplicates(),
        off_ray(old(out)@, fr as int, fc as int, dr as int, dc as int),
    ensures
        forall|tr: usize, tc: usize|
            #![trigger final(out)@.contains((tr, tc))]
            final(out)@.contains((tr, tc)) <==> (old(out)@.contains((tr, tc)) || cannon_ray(
                board@,
                side,
                fr as int,
                fc as int,
                dr as int,
                dc as int,
                tr as int,
                tc as int,
            )),
        final(out)@.no_duplicates(),
{
    let ghost b = board@;
    let ghost o = out@;
    let mut n: i64 = 1;
    // Phase 1: empty squares.
    loop
        invariant
            out@.no_duplicates(),
            off_ray(o, fr as int, fc as int, dr as int, dc as int),
            on_board(fr as int, fc as int),
            orth(dr as int, dc as int),
            b == board@,
            1 <= n <= 11,
            forall|j: int| 1 <= j < n ==> on_board(off(fr as int, dr as int, j), off(fc as int, dc as int, j)),
            forall|j: int|
                1 <= j < n ==> (#[trigger] at(b, off(fr as int, dr as int, j), off(fc as int, dc as int, j))) is None,
            pieces_before(b, fr as int, fc as int, dr as int, dc as int, n as int) == 0,
            forall|tr: usize, tc: usize|
                #![trigger out@.contains((tr, tc))]
                out@.contains((tr, tc)) <==> (o.contains((tr, tc)) || (1 <= ray_dist(
                    fr as int,
                    fc as int,
                    dr as int,
                    dc as int,
                    tr as int,
                    tc as int,
                ) < n && on_board(tr as int, tc as int))),
        ensures
            forall|j: int| 1 <= j < n ==> on_board(off(fr as int, dr as int, j), off(fc as int, dc as int, j)),
            forall|j: int|
                1 <= j < n ==> (#[trigger] at(b, off(fr as int, dr as int, j), off(fc as int, dc as int, j))) is None,
            1 <= n <= 11,
            !on_board(off(fr as int, dr as int, n as int), off(fc as int, dc as int, n as int)) || at(
                b,
                off(fr as int, dr as int, n as int),
                off(fc as int, dc as int, n as int),
            ) is Some,
        decreases 11 - n,
    {
        let nr = off_exec(fr, dr, n);
        let nc = off_exec(fc, dc, n);
        if !in_board(nr, nc) {
            break;
        }
        if cell_at(board, nr, nc).is_some() {
            break;
        }
        proof {
            lemma_push_contains(out@, (nr as usize, nc as usize));
        }
        proof {
            assert(ray_dist(fr as int, fc as int, dr as int, dc as int, nr as int, nc as int) == n);
            assert(!out@.contains((nr as usize, nc as usize)));
            lemma_push_no_dup(out@, (nr as usize, nc as usize));
        }
        out.push((nr as usize, nc as usize));
        n = n + 1;
    }
    let screen = n;
    let sr = off_exec(fr, dr, screen);
    let sc = off_exec(fc, dc, screen);
    if !in_board(sr, sc) {
        proof {
            assert forall|tr: usize, tc: usize|
                #![trigger out@.contains((tr, tc))]
                out@.contains((tr, tc)) <==> (o.contains((tr, tc)) || cannon_ray(
                    b,
                    side,
                    fr as int,
                    fc as int,
                    dr as int,
                    dc as int,
                    tr as int,
                    tc as int,
                )) by {
                let k = ray_dist(fr as int, fc as int, dr as int, dc as int, tr as int, tc as int);
                if 1 <= k < n && on_board(tr as int, tc as int) {
                    assert(at(b, off(fr as int, dr as int, k), off(fc as int, dc as int, k)) is None);
                    lemma_pieces_before_zero(b, fr as int, fc as int, dr as int, dc as int, k);
                }
            }
        }
        return;
    }
    proof {
        lemma_pieces_before_zero(b, fr as int, fc as int, dr as int, dc as int, screen as int);
        assert(pieces_before(b, fr as int, fc as int, dr as int, dc as int, screen + 1) == 1);
    }
    let ghost o1 = out@;
    // Phase 2: past the screen, the first piece is captured if hostile.
    let mut m: i64 = screen + 1;
    loop
        invariant
            out@.no_duplicates(),
            off_ray(o, fr as int, fc as int, dr as int, dc as int),
            on_board(fr as int, fc as int),
            orth(dr as int, dc as int),
            b == board@,
            screen < m <= 12,
            1 <= screen <= 10,
            on_board(off(fr as int, dr as int, screen as int), off(fc as int, dc as int, screen as int)),
            at(b, off(fr as int, dr as int, screen as int), off(fc as int, dc as int, screen as int)) is Some,
            forall|j: int| 1 <= j < screen ==> on_board(off(fr as int, dr as int, j), off(fc as int, dc as int, j)),
            forall|j: int|
                1 <= j < screen ==> (#[trigger] at(b, off(fr as int, dr as int, j), off(fc as int, dc as int, j))) is None,
            forall|j: int|
                screen < j < m ==> (#[trigger] at(b, off(fr as int, dr as int, j), off(fc as int, dc as int, j))) is None,
            pieces_before(b, fr as int, fc as int, dr as int, dc as int, m as int) == 1,
            out@ == o1,
            o == old(out)@,
            forall|tr: usize, tc: usize|
                #![trigger o1.contains((tr, tc))]
                o1.contains((tr, tc)) <==> (o.contains((tr, tc)) || (1 <= ray_dist(
                    fr as int,
                    fc as int,
                    dr as int,
                    dc as int,
                    tr as int,
                    tc as int,
                ) < screen && on_board(tr as int, tc as int))),
        decreases 12 - m,
    {
        let nr = off_exec(fr, dr, m);
        let nc = off_exec(fc, dc, m);
        if !in_board(nr, nc) {
            proof {
                assert forall|tr: usize, tc: usize|
                    #![trigger out@.contains((tr, tc))]
                    out@.contains((tr, tc)) <==> (o.contains((tr, tc)) || cannon_ray(
                        b,
                        side,
                        fr as int,
                        fc as int,
                        dr as int,
                        dc as int,
                        tr as int,
                        tc as int,
                    )) by {
                    let k = ray_dist(fr as int, fc as int, dr as int, dc as int, tr as int, tc as int);
                    if 1 <= k < screen && on_board(tr as int, tc as int) {
                        assert(at(b, off(fr as int, dr as int, k), off(fc as int, dc as int, k)) is None);
                        lemma_pieces_before_zero(b, fr as int, fc as int, dr as int, dc as int, k);
                    }
                    if screen < k < m {
                        assert(at(b, off(fr as int, dr as int, k), off(fc as int, dc as int, k)) is None);
                        lemma_pieces_mono(b, fr as int, fc as int, dr as int, dc as int, screen + 1, k);
                    }
                    if k == screen {
                        lemma_pieces_before_zero(b, fr as int, fc as int, dr as int, dc as int, k);
                    }
                }
            }
            return;
        }
        match cell_at(board, nr, nc) {
            None => {
                m = m + 1;
            },
            Some(t) => {
                proof {
                    lemma_push_contains(out@, (nr as usize, nc as usize));
                }
                if t.side != side {
                    proof {
                        assert(ray_dist(fr as int, fc as int, dr as int, dc as int, nr as int, nc as int) == m);
                        assert(!out@.contains((nr as usize, nc as usize)));
                        lemma_push_no_dup(out@, (nr as usize, nc as usize));
                    }
                    out.push((nr as usize, nc as usize));
                }
                proof {
                    assert(pieces_before(b, fr as int, fc as int, dr as int, dc as int, m + 1) == 2);
                    assert forall|tr: usize, tc: usize|
                        #![trigger out@.contains((tr, tc))]
                        out@.contains((tr, tc)) <==> (o.contains((tr, tc)) || cannon_ray(
                            b,
                            side,
                            fr as int,
                            fc as int,
                            dr as int,
                            dc as int,
                            tr as int,
                            tc as int,
                        )) by {
                        let k = ray_dist(fr as int, fc as int, dr as int, dc as int, tr as int, tc as int);
                        assert(o1.contains((tr, tc)) <==> (o.contains((tr, tc)) || (1 <= k < screen
                            && on_board(tr as int, tc as int))));
                        if 1 <= k < screen && on_board(tr as int, tc as int) {
                            assert(at(b, off(fr as int, dr as int, k), off(fc as int, dc as int, k)) is None);
                            lemma_pieces_before_zero(b, fr as int, fc as int, dr as int, dc as int, k);
                        }
                        if screen < k < m {
                            assert(at(b, off(fr as int, dr as int, k), off(fc as int, dc as int, k)) is None);
                            lemma_pieces_mono(b, fr as int, fc as int, dr as int, dc as int, screen + 1, k);
                        }
                        if k == screen {
                            lemma_pieces_before_zero(b, fr as int, fc as int, dr as int, dc as int, k);
                        }
                        if k > m {
                            lemma_pieces_mono(b, fr as int, fc as int, dr as int, dc as int, m + 1, k);
                        }
                    }
                }
                return;
            },
        }
    }
}

pub proof fn lemma_pieces_before_zero(b: Board, fr: int, fc: int, dr: int, dc: int, k: int)
    requires
        forall|j: int| 1 <= j < k ==> (#[trigger] at(b, off(fr, dr, j), off(fc, dc, j))) is None,
    ensures
        pieces_before(b, fr, fc, dr, dc, k) == 0,
    decreases k,
{
    if k > 1 {
        lemma_pieces_before_zero(b, fr, fc, dr, dc, k - 1);
        assert(at(b, off(fr, dr, k - 1), off(fc, dc, k - 1)) is None);
    }
}

/// Moves by a fixed step when `cond` holds and the target is open.
fn step_if(board: &[Option<Piece>; CELLS], side: u8, out: &mut Vec<(usize, usize)>, cond: bool, nr: i64, nc: i64)
    requires
        -100 <= nr <= 100,
        -100 <= nc <= 100,
        old(out)@.no_duplicates(),
        cond && open_for(board@, side, nr as int, nc as int) ==> !old(out)@.contains((nr as usize, nc as usize)),
    ensures
        forall|tr: usize, tc: usize|
            #![trigger final(out)@.contains((tr, tc))]
            final(out)@.contains((tr, tc)) <==> (old(out)@.contains((tr, tc)) || (cond && tr == nr
                && tc == nc && open_for(board@, side, nr as int, nc as int))),
        final(out)@.no_duplicates(),
{
    if cond {
        try_push(board, side, out, nr, nc);
    }
}

/// Generates the pseudo-legal targets of the piece on `(from_row, from_col)`:
/// those its movement rule allows, before the general's safety is checked.
#[verifier::rlimit(100)]
pub fn pseudo_moves(board: &[Option<Piece>; CELLS], from_row: usize, from_col: usize) -> (out: Vec<
    (usize, usize),
>)
    requires
        from_row < ROWS,
        from_col < COLS,
    ensures
        targets_exactly(out@, board@, from_row as int, from_col as int),
        out@.no_duplicates(),
{
    let ghost b = board@;
    let mut out: Vec<(usize, usize)> = Vec::new();
    let piece = match board[idx(from_row, from_col)] {
        Some(p) => p,
        None => {
            return out;
        },
    };
    let r = from_row as i64;
    let c = from_col as i64;
    let side = piece.side;
    match piece.kind {
        Kind::General => {
            step_if(board, side, &mut out, in_palace_exec(side, r + 1, c), r + 1, c);
            step_if(board, side, &mut out, in_palace_exec(side, r - 1, c), r - 1, c);
            step_if(board, side, &mut out, in_palace_exec(side, r, c + 1), r, c + 1);
            step_if(board, side, &mut out, in_palace_exec(side, r, c - 1), r, c - 1);
        },
        Kind::Advisor => {
            step_if(board, side, &mut out, in_palace_exec(side, r + 1, c + 1), r + 1, c + 1);
            step_if(board, side, &mut out, in_palace_exec(side, r + 1, c - 1), r + 1, c - 1);
            step_if(board, side, &mut out, in_palace_exec(side, r - 1, c + 1), r - 1, c + 1);
            step_if(board, side, &mut out, in_palace_exec(side, r - 1, c - 1), r - 1, c - 1);
        },
        Kind::Elephant => {
            let ok1 = in_board(r + 2, c + 2) && on_own_side_exec(side, r + 2) && cell_at(board, r + 1, c + 1).is_none();
            step_if(board, side, &mut out, ok1, r + 2, c + 2);
            let ok2 = in_board(r + 2, c - 2) && on_own_side_exec(side, r + 2) && cell_at(board, r + 1, c - 1).is_none();
            step_if(board, side, &mut out, ok2, r + 2, c - 2);
            let ok3 = in_board(r - 2, c + 2) && on_own_side_exec(side, r - 2) && cell_at(board, r - 1, c + 1).is_none();
            step_if(board, side, &mut out, ok3, r - 2, c + 2);
            let ok4 = in_board(r - 2, c - 2) && on_own_side_exec(side, r - 2) && cell_at(board, r - 1, c - 1).is_none();
            step_if(board, side, &mut out, ok4, r - 2, c - 2);
        },
        Kind::Horse => {
            let ok1 = in_board(r + 2, c + 1) && cell_at(board, r + 1, c).is_none();
            step_if(board, side, &mut out, ok1, r + 2, c + 1);
            let ok2 = in_board(r + 2, c - 1) && cell_at(board, r + 1, c).is_none();
            step_if(board, side, &mut out, ok2, r + 2, c - 1);
            let ok3 = in_board(r - 2, c + 1) && cell_at(board, r - 1, c).is_none();
            step_if(board, side, &mut out, ok3, r - 2, c + 1);
            let ok4 = in_board(r - 2, c - 1) && cell_at(board, r - 1, c).is_none();
            step_if(board, side, &mut out, ok4, r - 2, c - 1);
            let ok5 = in_board(r + 1, c + 2) && cell_at(board, r, c + 1).is_none();
            step_if(board, side, &mut out, ok5, r + 1, c + 2);
            let ok6 = in_board(r - 1, c + 2) && cell_at(board, r, c + 1).is_none();
            step_if(board, side, &mut out, ok6, r - 1, c + 2);
            let ok7 = in_board(r + 1, c - 2) && cell_at(board, r, c - 1).is_none();
            step_if(board, side, &mut out, ok7, r + 1, c - 2);
            let ok8 = in_board(r - 1, c - 2) && cell_at(board, r, c - 1).is_none();
            step_if(board, side, &mut out, ok8, r - 1, c - 2);
        },
        Kind::Rook => {
            slide(board, side, r, c, 1, 0, &mut out);
            slide(board, side, r, c, -1, 0, &mut out);
            slide(board, side, r, c, 0, 1, &mut out);
            slide(board, side, r, c, 0, -1, &mut out);
        },
        Kind::Cannon => {
            cannon_slide(board, side, r, c, 1, 0, &mut out);
            cannon_slide(board, side, r, c, -1, 0, &mut out);
            cannon_slide(board, side, r, c, 0, 1, &mut out);
            cannon_slide(board, side, r, c, 0, -1, &mut out);
        },
        Kind::Pawn => {
            let forward: i64 = if side == 0 {
                1
            } else {
                -1
            };
            step_if(board, side, &mut out, true, r + forward, c);
            let crossed = crossed_river_exec(side, r);
            step_if(board, side, &mut out, crossed, r, c + 1);
            step_if(board, side, &mut out, crossed, r, c - 1);
        },
    }
    proof {
        assert forall|tr: usize, tc: usize|
            #![trigger out@.contains((tr, tc))]
            out@.contains((tr, tc)) <==> pseudo_target(b, from_row as int, from_col as int, tr as int, tc as int) by {
            if piece.kind == Kind::Rook || piece.kind == Kind::Cannon {
                let ti = tr as int;
                let ci = tc as int;
                if pseudo_target(b, from_row as int, from_col as int, ti, ci) {
                    if piece.kind == Kind::Rook {
                        let (dr, dc) = choose|dr: int, dc: int|
                            orth(dr, dc) && rook_ray(b, side, r as int, c as int, dr, dc, ti, ci);
                        assert(orth(dr, dc));
                    } else {
                        let (dr, dc) = choose|dr: int, dc: int|
                            orth(dr, dc) && cannon_ray(b, side, r as int, c as int, dr, dc, ti, ci);
                        assert(orth(dr, dc));
                    }
                }
            }
        }
    }
    out
}

// ---------------------------------------------------------------------------
// Check and the facing generals
// ---------------------------------------------------------------------------

pub open spec fn general_of(side: u8) -> Piece {
    Piece { side, kind: Kind::General }
}

/// Index of the first general of `side` in board order, scanning from `k`.
pub open spec fn first_general(b: Board, side: u8, k: int) -> Option<int>
    decreases 90 - k,
{
    if k < 0 || k >= 90 {
        None
    } else if b[k] == Some(general_of(side)) {
        Some(k)
    } else {
        first_general(b, side, k + 1)
    }
}

/// Where `side`'s general stands (the first one, in board order).
pub open spec fn general_pos(b: Board, side: u8) -> Option<int> {
    first_general(b, side, 0)
}

pub open spec fn of_side(p: Option<Piece>, side: u8) -> bool {
    match p {
        Some(q) => q.side == side,
        None => false,
    }
}

/// Some piece of `opp` can move onto `(gr, gc)`.
pub open spec fn attacked_by(b: Board, opp: u8, gr: int, gc: int) -> bool {
    exists|k: int|
        #![trigger b[k]]
        0 <= k < 90 && of_side(b[k], opp) && pseudo_target(b, k / 9, k % 9, gr, gc)
}

/// The other side, `1 - side` computed in `u8` arithmetic that wraps.
pub open spec fn opponent(side: u8) -> u8 {
    if side <= 1 {
        (1 - side) as u8
    } else {
        (257 - side) as u8
    }
}

/// `side`'s general is attacked; a side without a general is not in check.
pub open spec fn in_check(b: Board, side: u8) -> bool {
    match general_pos(b, side) {
        None => false,
        Some(g) => attacked_by(b, opponent(side), g / 9, g % 9),
    }
}

/// Both generals stand on one file with nothing between them.
pub open spec fn generals_face(b: Board) -> bool {
    match (general_pos(b, 0), general_pos(b, 1)) {
        (Some(g0), Some(g1)) => {
            let lo = if g0 / 9 < g1 / 9 {
                g0 / 9
            } else {
                g1 / 9
            };
            let hi = if g0 / 9 < g1 / 9 {
                g1 / 9
            } else {
                g0 / 9
            };
            g0 % 9 == g1 % 9 && forall|r: int| lo < r < hi ==> (#[trigger] at(b, r, g0 % 9)) is None
        },
        _ => false,
    }
}

/// The board after moving whatever stands on `(fr, fc)` to `(tr, tc)`.
pub open spec fn after(b: Board, fr: int, fc: int, tr: int, tc: int) -> Board {
    b.update(fr * 9 + fc, None).update(tr * 9 + tc, b[fr * 9 + fc])
}

/// A legal move for `side`: its own piece, by the piece's rule, leaving its
/// general neither attacked nor facing the other general.
pub open spec fn legal(b: Board, side: u8, fr: int, fc: int, tr: int, tc: int) -> bool {
    &&& on_board(fr, fc)
    &&& of_side(at(b, fr, fc), side)
    &&& pseudo_target(b, fr, fc, tr, tc)
    &&& !in_check(after(b, fr, fc, tr, tc), side)
    &&& !generals_face(after(b, fr, fc, tr, tc))
}

pub open spec fn has_legal_move(b: Board, side: u8) -> bool {
    exists|fr: int, fc: int, tr: int, tc: int|
        #![trigger legal(b, side, fr, fc, tr, tc)]
        legal(b, side, fr, fc, tr, tc)
}

pub fn find_general(board: &[Option<Piece>; CELLS], side: u8) -> (r: Option<(usize, usize)>)
    ensures
        match general_pos(board@, side) {
            Some(g) => r == Some(((g / 9) as usize, (g % 9) as usize)) && 0 <= g < 90,
            None => r is None,
        },
{
    let ghost b = board@;
    let mut k: usize = 0;
    while k < CELLS
        invariant
            k <= CELLS,
            b == board@,
            general_pos(b, side) == first_general(b, side, k as int),
        decreases CELLS - k,
    {
        let p = board[k];
        let is_gen = match p {
            Some(q) => q.side == side && q.kind == Kind::General,
            None => false,
        };
        if is_gen {
            return Some((k / 9, k % 9));
        }
        k += 1;
    }
    None
}

fn contains_square(v: &Vec<(usize, usize)>, r: usize, c: usize) -> (b: bool)
    ensures
        b == v@.contains((r, c)),
{
    let mut i: usize = 0;
    while i < v.len()
        invariant
            i <= v.len(),
            forall|j: int| 0 <= j < i ==> v@[j] != (r, c),
        decreases v.len() - i,
    {
        if v[i].0 == r && v[i].1 == c {
            proof {
                assert(v@[i as int] == (r, c));
            }
            return true;
        }
        i += 1;
    }
    false
}

/// Whether some piece of `opp` can move onto `(gr, gc)`.
fn attacked_by_exec(board: &[Option<Piece>; CELLS], opp: u8, gr: usize, gc: usize) -> (a: bool)
    ensures
        a == attacked_by(board@, opp, gr as int, gc as int),
{
    let ghost b = board@;
    let mut k: usize = 0;
    while k < CELLS
        invariant
            k <= CELLS,
            b == board@,
            forall|j: int|
                #![trigger b[j]]
                0 <= j < k ==> !(of_side(b[j], opp) && pseudo_target(b, j / 9, j % 9, gr as int, gc as int)),
        decreases CELLS - k,
    {
        let mine = match board[k] {
            Some(p) => p.side == opp,
            None => false,
        };
        if mine {
            let moves = pseudo_moves(board, k / 9, k % 9);
            if contains_square(&moves, gr, gc) {
                proof {
                    assert(b[k as int] == board@[k as int]);
                }
                return true;
            }
        }
        k += 1;
    }
    false
}

pub fn in_check_exec(board: &[Option<Piece>; CELLS], side: u8) -> (c: bool)
    ensures
        c == in_check(board@, side),
{
    match find_general(board, side) {
        None => false,
        Some((kr, kc)) => attacked_by_exec(board, 1u8.wrapping_sub(side), kr, kc),
    }
}

pub fn generals_face_exec(board: &[Option<Piece>; CELLS]) -> (f: bool)
    ensures
        f == generals_face(board@),
{
    let (r0, c0) = match find_general(board, 0) {
        Some(g) => g,
        None => {
            return false;
        },
    };
    let (r1, c1) = match find_general(board, 1) {
        Some(g) => g,
        None => {
            return false;
        },
    };
    if c0 != c1 {
        return false;
    }
    let ghost g0 = general_pos(board@, 0)->0;
    let ghost g1 = general_pos(board@, 1)->0;
    let (lo, hi) = if r0 < r1 {
        (r0, r1)
    } else {
        (r1, r0)
    };
    let mut r = lo + 1;
    while r < hi
        invariant
            lo + 1 <= r,
            r <= hi || r == lo + 1,
            hi < ROWS,
            c0 < COLS,
            general_pos(board@, 0) == Some(g0),
            general_pos(board@, 1) == Some(g1),
            g0 / 9 == r0,
            g0 % 9 == c0,
            g1 / 9 == r1,
            g1 % 9 == c0,
            lo == (if r0 < r1 { r0 } else { r1 }),
            hi == (if r0 < r1 { r1 } else { r0 }),
            forall|k: int| lo < k < r ==> (#[trigger] at(board@, k, c0 as int)) is None,
        decreases hi - r,
    {
        if board[idx(r, c0)].is_some() {
            proof {
                assert(at(board@, r as int, c0 as int) is Some);
            }
            return false;
        }
        r += 1;
    }
    true
}

pub fn after_move(board: &[Option<Piece>; CELLS], fr: usize, fc: usize, tr: usize, tc: usize) -> (next:
    [Option<Piece>; CELLS])
    requires
        fr < ROWS,
        fc < COLS,
        tr < ROWS,
        tc < COLS,
    ensures
        next@ == after(board@, fr as int, fc as int, tr as int, tc as int),
{
    let mut next = *board;
    let p = next[idx(fr, fc)];
    next[idx(fr, fc)] = None;
    next[idx(tr, tc)] = p;
    next
}

/// `a` comes before `b` in the order of `(from_row, from_col, to_row, to_col)`.
pub open spec fn move_before(a: (usize, usize, usize, usize), b: (usize, usize, usize, usize)) -> bool {
    ||| a.0 < b.0
    ||| a.0 == b.0 && a.1 < b.1
    ||| a.0 == b.0 && a.1 == b.1 && a.2 < b.2
    ||| a.0 == b.0 && a.1 == b.1 && a.2 == b.2 && a.3 < b.3
}

/// The position of a move in that order, for moves on the board.
pub open spec fn move_key(m: (usize, usize, usize, usize)) -> int {
    (m.0 * 9 + m.1) * 90 + m.2 * 9 + m.3
}

pub open spec fn move_on_board(m: (usize, usize, usize, usize)) -> bool {
    m.0 < 10 && m.1 < 9 && m.2 < 10 && m.3 < 9
}

proof fn lemma_key_order(a: (usize, usize, usize, usize), b: (usize, usize, usize, usize))
    requires
        move_on_board(a),
        move_on_board(b),
        move_key(a) < move_key(b),
    ensures
        move_before(a, b),
{
    let fa = a.0 * 9 + a.1;
    let fb = b.0 * 9 + b.1;
    let ta = a.2 * 9 + a.3;
    let tb = b.2 * 9 + b.3;
    assert(fa < fb || (fa == fb && ta < tb)) by (nonlinear_arith)
        requires
            fa * 90 + ta < fb * 90 + tb,
            0 <= ta < 90,
            0 <= tb < 90,
    ;
    assert(a.0 < b.0 || (a.0 == b.0 && a.1 < b.1) || (a.0 == b.0 && a.1 == b.1)) by (nonlinear_arith)
        requires
            fa <= fb,
            fa == a.0 * 9 + a.1,
            fb == b.0 * 9 + b.1,
            a.1 < 9,
            b.1 < 9,
    ;
    if fa == fb {
        assert(a.0 == b.0 && a.1 == b.1) by (nonlinear_arith)
            requires
                a.0 * 9 + a.1 == b.0 * 9 + b.1,
                a.1 < 9,
                b.1 < 9,
        ;
        assert(a.2 < b.2 || (a.2 == b.2 && a.3 < b.3)) by (nonlinear_arith)
            requires
                a.2 * 9 + a.3 < b.2 * 9 + b.3,
                a.3 < 9,
                b.3 < 9,
        ;
    }
}

proof fn lemma_pseudo_on_board(b: Board, fr: int, fc: int, tr: int, tc: int)
    requires
        pseudo_target(b, fr, fc, tr, tc),
    ensures
        on_board(tr, tc),
{
}

/// Every legal move for `side`, as `(from_row, from_col, to_row, to_col)`,
/// each once, in the order of `(from_row, from_col, to_row, to_col)`.
pub fn legal_moves(board: &[Option<Piece>; CELLS], side: u8) -> (out: Vec<(usize, usize, usize, usize)>)
    ensures
        forall|fr: usize, fc: usize, tr: usize, tc: usize|
            #![trigger out@.contains((fr, fc, tr, tc))]
            out@.contains((fr, fc, tr, tc)) <==> legal(board@, side, fr as int, fc as int, tr as int, tc as int),
        forall|i: int, j: int| 0 <= i < j < out@.len() ==> move_before(#[trigger] out@[i], #[trigger] out@[j]),
        out@.no_duplicates(),
        (forall|k: int| 0 <= k < 90 ==> !of_side(#[trigger] board@[k], side)) ==> out@.len() == 0,
{
    let ghost b = board@;
    let mut out: Vec<(usize, usize, usize, usize)> = Vec::new();
    let mut k: usize = 0;
    while k < CELLS
        invariant
            k <= CELLS,
            b == board@,
            forall|fr: usize, fc: usize, tr: usize, tc: usize|
                #![trigger out@.contains((fr, fc, tr, tc))]
                out@.contains((fr, fc, tr, tc)) <==> (legal(b, side, fr as int, fc as int, tr as int, tc as int)
                    && fr * 9 + fc < k),
            forall|i: int| 0 <= i < out@.len() ==> move_on_board(#[trigger] out@[i]) && move_key(out@[i]) < k * 90,
            forall|i: int, j: int| 0 <= i < j < out@.len() ==> move_key(#[trigger] out@[i]) < move_key(#[trigger] out@[j]),
        decreases CELLS - k,
    {
        let fr = k / 9;
        let fc = k % 9;
        let mine = match board[k] {
            Some(p) => p.side == side,
            None => false,
        };
        if mine {
            let moves = pseudo_moves(board, fr, fc);
            let mut t: usize = 0;
            while t < CELLS
                invariant
                    t <= CELLS,
                    k < CELLS,
                    fr == k / 9,
                    fc == k % 9,
                    b == board@,
                            of_side(at(b, fr as int, fc as int), side),
                    targets_exactly(moves@, b, fr as int, fc as int),
                    forall|a: usize, c: usize, tr: usize, tc: usize|
                        #![trigger out@.contains((a, c, tr, tc))]
                        out@.contains((a, c, tr, tc)) <==> (legal(b, side, a as int, c as int, tr as int, tc as int)
                            && (a * 9 + c < k || (a == fr && c == fc && tr * 9 + tc < t))),
                    forall|i: int| 0 <= i < out@.len() ==> move_on_board(#[trigger] out@[i]) && move_key(out@[i]) < k * 90 + t,
                    forall|i: int, j: int| 0 <= i < j < out@.len() ==> move_key(#[trigger] out@[i]) < move_key(#[trigger] out@[j]),
                decreases CELLS - t,
            {
                let tr = t / 9;
                let tc = t % 9;
                let ghost o = out@;
                if contains_square(&moves, tr, tc) {
                    let next = after_move(board, fr, fc, tr, tc);
                    let ok = !in_check_exec(&next, side) && !generals_face_exec(&next);
                    proof {
                        lemma_push_contains(out@, (fr, fc, tr, tc));
                    }
                    if ok {
                        out.push((fr, fc, tr, tc));
                    }
                } else {
                    proof {
                        assert(!pseudo_target(b, fr as int, fc as int, tr as int, tc as int));
                    }
                }
                proof {
                    assert(move_key((fr, fc, tr, tc)) == k * 90 + t);
                    assert forall|a: usize, c: usize, r2: usize, c2: usize|
                        #![trigger out@.contains((a, c, r2, c2))]
                        out@.contains((a, c, r2, c2)) <==> (legal(b, side, a as int, c as int, r2 as int, c2 as int)
                            && (a * 9 + c < k || (a == fr && c == fc && r2 * 9 + c2 < t + 1))) by {
                        if a == fr && c == fc && r2 * 9 + c2 == t && c2 < 9 {
                            assert(r2 == tr && c2 == tc);
                        }
                        if legal(b, side, a as int, c as int, r2 as int, c2 as int) {
                            lemma_pseudo_on_board(b, a as int, c as int, r2 as int, c2 as int);
                        }
                    }
                }
                t += 1;
            }
            proof {
                assert forall|a: usize, c: usize, r2: usize, c2: usize|
                    #![trigger out@.contains((a, c, r2, c2))]
                    out@.contains((a, c, r2, c2)) <==> (legal(b, side, a as int, c as int, r2 as int, c2 as int)
                        && a * 9 + c < k + 1) by {
                    if legal(b, side, a as int, c as int, r2 as int, c2 as int) {
                        lemma_pseudo_on_board(b, a as int, c as int, r2 as int, c2 as int);
                    }
                    if a * 9 + c == k && c < 9 {
                        assert(a == fr && c == fc);
                    }
                }
            }
        } else {
            proof {
                assert forall|a: usize, c: usize, r2: usize, c2: usize|
                    #![trigger out@.contains((a, c, r2, c2))]
                    out@.contains((a, c, r2, c2)) <==> (legal(b, side, a as int, c as int, r2 as int, c2 as int)
                        && a * 9 + c < k + 1) by {
                    if a * 9 + c == k && c < 9 && legal(b, side, a as int, c as int, r2 as int, c2 as int) {
                        assert(a == fr && c == fc);
                        assert(false);
                    }
                }
            }
        }
        k += 1;
    }
    proof {
        assert forall|i: int, j: int| 0 <= i < j < out@.len() implies move_before(#[trigger] out@[i], #[trigger] out@[j]) by {
            lemma_key_order(out@[i], out@[j]);
        }
        assert forall|i: int, j: int| 0 <= i < out@.len() && 0 <= j < out@.len() && i != j implies out@[i] != out@[j] by {
            if i < j {
                assert(move_key(out@[i]) < move_key(out@[j]));
            } else {
                assert(move_key(out@[j]) < move_key(out@[i]));
            }
        }
    }
    proof {
        if (forall|k: int| 0 <= k < 90 ==> !of_side(#[trigger] board@[k], side)) && out@.len() > 0 {
            let m = out@[0];
            assert(out@.contains(m));
            assert(board@[m.0 * 9 + m.1] == at(board@, m.0 as int, m.1 as int));
        }
    }
    out
}


// ---------------------------------------------------------------------------
// Square names
// ---------------------------------------------------------------------------

/// The square a name denotes: a file `a`..`i` followed by a rank `0`..`9`
/// (the rank as `str::parse` reads an unsigned number), two or three
/// characters in all. Gives `(row, col)`.
pub open spec fn square(s: Seq<char>) -> Option<(nat, nat)> {
    if 2 <= s.len() <= 3 && 97 <= (s[0] as int) <= 105 {
        match parse_unsigned(s.drop_first(), usize::MAX as nat) {
            Some(rank) => if rank < 10 {
                Some((rank, (s[0] as int - 97) as nat))
            } else {
                None
            },
            None => None,
        }
    } else {
        None
    }
}

/// The letter of file `c` (`a` for 0).
pub open spec fn file_char(c: nat) -> char {
    (97 + c) as char
}

/// The name of `(r, c)`: its file letter, then its rank in decimal.
pub open spec fn square_name(r: nat, c: nat) -> Seq<char> {
    seq![file_char(c)] + dec(r)
}

/// The file of a letter `a`..`i`.
fn file_index(ch: char) -> (r: Option<usize>)
    ensures
        r == (if 97 <= (ch as int) <= 105 {
            Some((ch as int - 97) as usize)
        } else {
            None
        }),
{
    match ch {
        'a' => Some(0),
        'b' => Some(1),
        'c' => Some(2),
        'd' => Some(3),
        'e' => Some(4),
        'f' => Some(5),
        'g' => Some(6),
        'h' => Some(7),
        'i' => Some(8),
        _ => None,
    }
}

/// Reads a square name such as `e0` into `(row, col)`.
pub fn parse_square(s: &str) -> (r: Option<(usize, usize)>)
    ensures
        match square(s@) {
            Some((row, col)) => r == Some((row as usize, col as usize)),
            None => r is None,
        },
{
    let v = chars_of(s);
    if v.len() < 2 || v.len() > 3 {
        return None;
    }
    let col = match file_index(v[0]) {
        Some(c) => c,
        None => {
            return None;
        },
    };
    proof {
        assert(v@.subrange(1, v@.len() as int) =~= s@.drop_first());
    }
    match parse_unsigned_range(&v, 1, v.len(), usize::MAX as u64) {
        Some(rank) => if rank < 10 {
            Some((rank as usize, col))
        } else {
            None
        },
        None => None,
    }
}

/// Writes the name of `(row, col)`; the file letter is `b'a' + col as u8`.
pub fn square_to_str(row: usize, col: usize) -> (s: String)
    requires
        col % 256 < 159,
    ensures
        s@ == square_name(row as nat, (col % 256) as nat),
{
    let code: u8 = 97u8 + (col % 256) as u8;
    let mut v: Vec<char> = Vec::new();
    v.push(code as char);
    push_dec(&mut v, row as u64);
    proof {
        assert(v@ =~= square_name(row as nat, (col % 256) as nat));
    }
    string_of(&v)
}

/// Every square name reads back as the square it names.
pub proof fn law_square_round_trip(r: nat, c: nat)
    requires
        r < ROWS,
        c < COLS,
    ensures
        square(square_name(r, c)) == Some((r, c)),
{
    let n = square_name(r, c);
    crate::text::lemma_dec_facts(r);
    crate::text::lemma_parse_dec(r, usize::MAX as nat);
    assert(n.drop_first() =~= dec(r));
}

// ---------------------------------------------------------------------------
// The starting position
// ---------------------------------------------------------------------------

/// The back rank, file by file: R H E A K A E H R.
pub open spec fn back_rank(c: int) -> Kind {
    if c == 0 || c == 8 {
        Kind::Rook
    } else if c == 1 || c == 7 {
        Kind::Horse
    } else if c == 2 || c == 6 {
        Kind::Elephant
    } else if c == 3 || c == 5 {
        Kind::Advisor
    } else {
        Kind::General
    }
}

/// What stands on `(r, c)` when a game starts: the back ranks on rows 0 and
/// 9, cannons on files b and h of rows 2 and 7, pawns on the even files of
/// rows 3 and 6.
pub open spec fn start_piece(r: int, c: int) -> Option<Piece> {
    if r == 0 {
        Some(Piece { side: 0, kind: back_rank(c) })
    } else if r == 9 {
        Some(Piece { side: 1, kind: back_rank(c) })
    } else if r == 2 && (c == 1 || c == 7) {
        Some(Piece { side: 0, kind: Kind::Cannon })
    } else if r == 7 && (c == 1 || c == 7) {
        Some(Piece { side: 1, kind: Kind::Cannon })
    } else if r == 3 && c % 2 == 0 {
        Some(Piece { side: 0, kind: Kind::Pawn })
    } else if r == 6 && c % 2 == 0 {
        Some(Piece { side: 1, kind: Kind::Pawn })
    } else {
        None
    }
}

pub open spec fn start_board() -> Board {
    Seq::new(90, |i: int| start_piece(i / 9, i % 9))
}

pub open spec fn empty_cells() -> Board {
    Seq::new(90, |i: int| None::<Piece>)
}

fn back_rank_exec(c: usize) -> (k: Kind)
    ensures
        k == back_rank(c as int),
{
    if c == 0 || c == 8 {
        Kind::Rook
    } else if c == 1 || c == 7 {
        Kind::Horse
    } else if c == 2 || c == 6 {
        Kind::Elephant
    } else if c == 3 || c == 5 {
        Kind::Advisor
    } else {
        Kind::General
    }
}

fn start_piece_exec(r: usize, c: usize) -> (p: Option<Piece>)
    ensures
        p == start_piece(r as int, c as int),
{
    if r == 0 {
        Some(Piece { side: 0, kind: back_rank_exec(c) })
    } else if r == 9 {
        Some(Piece { side: 1, kind: back_rank_exec(c) })
    } else if r == 2 && (c == 1 || c == 7) {
        Some(Piece { side: 0, kind: Kind::Cannon })
    } else if r == 7 && (c == 1 || c == 7) {
        Some(Piece { side: 1, kind: Kind::Cannon })
    } else if r == 3 && c % 2 == 0 {
        Some(Piece { side: 0, kind: Kind::Pawn })
    } else if r == 6 && c % 2 == 0 {
        Some(Piece { side: 1, kind: Kind::Pawn })
    } else {
        None
    }
}

/// A board with nothing on it.
pub fn empty_board() -> (b: [Option<Piece>; CELLS])
    ensures
        b@ == empty_cells(),
{
    let b: [Option<Piece>; CELLS] = [None; 90];
    proof {
        assert(b@ =~= empty_cells());
    }
    b
}

/// The starting position.
pub fn initial_board() -> (b: [Option<Piece>; CELLS])
    ensures
        b@ == start_board(),
{
    let mut b = empty_board();
    let mut k: usize = 0;
    while k < CELLS
        invariant
            k <= CELLS,
            b@.len() == 90,
            forall|j: int| 0 <= j < k ==> b@[j] == start_piece(j / 9, j % 9),
        decreases CELLS - k,
    {
        b[k] = start_piece_exec(k / 9, k % 9);
        k += 1;
    }
    proof {
        assert(b@ =~= start_board());
    }
    b
}


// ---------------------------------------------------------------------------
// The room
// ---------------------------------------------------------------------------

#[derive(Debug, Clone, Copy, PartialEq, Eq, Structural)]
pub enum Phase {
    Lobby,
    Playing,
    Finished,
}

#[derive(Debug, Clone)]
pub struct State {
    pub phase: Phase,
    pub players: Vec<String>,
    pub host: Option<String>,
    pub board: [Option<Piece>; CELLS],
    /// 0 = red to move, 1 = black to move.
    pub turn: u8,
    pub winner: Option<u8>,
}

pub struct Xiangqi;

pub struct StateView {
    pub phase: Phase,
    pub players: Seq<Seq<char>>,
    pub host: Option<Seq<char>>,
    pub board: Board,
    pub turn: u8,
    pub winner: Option<u8>,
}

impl View for State {
    type V = StateView;

    open spec fn view(&self) -> StateView {
        StateView {
            phase: self.phase,
            players: self.players.deep_view(),
            host: self.host.deep_view(),
            board: self.board@,
            turn: self.turn,
            winner: self.winner,
        }
    }
}

impl StateView {
    pub open spec fn lobby(self) -> Lobby {
        Lobby { players: self.players, host: self.host }
    }

    pub open spec fn with_lobby(self, l: Lobby) -> StateView {
        StateView { players: l.players, host: l.host, ..self }
    }
}

pub open spec fn initial_state() -> StateView {
    StateView {
        phase: Phase::Lobby,
        players: seq![],
        host: None,
        board: empty_cells(),
        turn: 0,
        winner: None,
    }
}

/// At most two members, so a member's index is a side.
pub open spec fn well_formed(s: StateView) -> bool {
    &&& s.players.len() <= MAX_PLAYERS
    &&& s.board.len() == CELLS
}

impl Default for State {
    fn default() -> (s: State)
        ensures
            s@ == initial_state(),
    {
        let s = State {
            phase: Phase::Lobby,
            players: Vec::new(),
            host: None,
            board: empty_board(),
            turn: 0,
            winner: None,
        };
        proof {
            assert(s.players.deep_view() =~= Seq::<Seq<char>>::empty());
        }
        s
    }
}

/// `GAME_STARTED`: the pieces are set up and red is to move.
pub open spec fn started_spec(s: StateView) -> StateView {
    StateView { phase: Phase::Playing, board: start_board(), turn: 0, winner: None, ..s }
}

/// `MOVE <pid> <from> <to>`: the member's own piece moves (capturing whatever
/// stood on the target) and the turn passes to the other side. Anything
/// unreadable, or a move of an empty square or of the other side's piece,
/// leaves the state as it is.
pub open spec fn move_spec(s: StateView, payload: Seq<char>) -> StateView {
    let parts = tokens(payload);
    if parts.len() != 3 {
        s
    } else {
        match (square(parts[1]), square(parts[2])) {
            (Some((fr, fc)), Some((tr, tc))) => match index_of(s.players, parts[0]) {
                None => s,
                Some(i) => match at(s.board, fr as int, fc as int) {
                    None => s,
                    Some(p) => if p.side != i {
                        s
                    } else {
                        StateView {
                            board: after(s.board, fr as int, fc as int, tr as int, tc as int),
                            turn: (1 - i) as u8,
                            ..s
                        }
                    },
                },
            },
            _ => s,
        }
    }
}

/// `WINNER <side>`: the game ends (an unreadable side is ignored).
pub open spec fn winner_spec(s: StateView, payload: Seq<char>) -> StateView {
    match parse_unsigned(trim(payload), u8::MAX as nat) {
        Some(w) => StateView { winner: Some(w as u8), phase: Phase::Finished, ..s },
        None => s,
    }
}

pub open spec fn fold_spec(s: StateView, kind: Seq<char>, payload: Seq<char>) -> StateView {
    if kind == "PLAYER_JOINED"@ {
        s.with_lobby(lobby_joined(s.lobby(), payload, MAX_PLAYERS as nat))
    } else if kind == "PLAYER_LEFT"@ {
        s.with_lobby(lobby_left(s.lobby(), payload))
    } else if kind == "HOST_CHANGED"@ {
        s.with_lobby(lobby_host_changed(s.lobby(), payload))
    } else if kind == "GAME_STARTED"@ {
        started_spec(s)
    } else if kind == "MOVE"@ {
        move_spec(s, payload)
    } else if kind == "WINNER"@ {
        winner_spec(s, payload)
    } else {
        s
    }
}

fn word_square(parts: &Vec<Vec<char>>, i: usize) -> (r: Option<(usize, usize)>)
    requires
        i < parts.len(),
    ensures
        match square(words_view(*parts)[i as int]) {
            Some((row, col)) => r == Some((row as usize, col as usize)),
            None => r is None,
        },
{
    let w = word_string(parts, i);
    parse_square(w.as_str())
}

fn fold_move(state: &mut State, payload: &str)
    requires
        well_formed(old(state)@),
    ensures
        final(state)@ == move_spec(old(state)@, payload@),
        well_formed(final(state)@),
{
    let parts = words_of(payload);
    if parts.len() != 3 {
        return;
    }
    let (fr, fc) = match word_square(&parts, 1) {
        Some(sq) => sq,
        None => {
            return;
        },
    };
    let (tr, tc) = match word_square(&parts, 2) {
        Some(sq) => sq,
        None => {
            return;
        },
    };
    let pid = word_string(&parts, 0);
    let side = match find_player(&state.players, pid.as_str()) {
        Some(i) => i,
        None => {
            return;
        },
    };
    proof {
        crate::lobby::lemma_index_of(state.players.deep_view(), pid@);
    }
    let piece = match state.board[idx(fr, fc)] {
        Some(p) => p,
        None => {
            return;
        },
    };
    if piece.side as usize != side {
        return;
    }
    state.board = after_move(&state.board, fr, fc, tr, tc);
    state.turn = 1 - side as u8;
}

fn fold_winner(state: &mut State, payload: &str)
    ensures
        final(state)@ == winner_spec(old(state)@, payload@),
{
    let v = chars_of(payload);
    proof {
        assert(v@.subrange(0, v@.len() as int) =~= v@);
    }
    let (a, b) = trim_range(&v, 0, v.len());
    match parse_unsigned_range(&v, a, b, u8::MAX as u64) {
        Some(w) => {
            state.winner = Some(w as u8);
            state.phase = Phase::Finished;
        },
        None => {},
    }
}

impl Xiangqi {
    pub fn fold(state: &mut State, kind: &str, payload: &str)
        requires
            well_formed(old(state)@),
        ensures
            final(state)@ == fold_spec(old(state)@, kind@, payload@),
            well_formed(final(state)@),
    {
        if str_is(kind, "PLAYER_JOINED") {
            fold_joined(&mut state.players, &mut state.host, payload, MAX_PLAYERS);
        } else if str_is(kind, "PLAYER_LEFT") {
            fold_left(&mut state.players, &mut state.host, payload);
            proof {
                crate::lobby::lemma_left_len(old(state)@.lobby(), payload@);
            }
        } else if str_is(kind, "HOST_CHANGED") {
            fold_host_changed(&mut state.host, payload);
        } else if str_is(kind, "GAME_STARTED") {
            state.phase = Phase::Playing;
            state.board = initial_board();
            state.turn = 0;
            state.winner = None;
        } else if str_is(kind, "MOVE") {
            fold_move(state, payload);
        } else if str_is(kind, "WINNER") {
            fold_winner(state, payload);
        }
    }
}


// ---------------------------------------------------------------------------
// Validating actions
// ---------------------------------------------------------------------------

/// Every pseudo-legal target lies on the board.
pub proof fn lemma_target_on_board(b: Board, fr: int, fc: int, tr: int, tc: int)
    requires
        pseudo_target(b, fr, fc, tr, tc),
    ensures
        on_board(tr, tc),
{
    let p = at(b, fr, fc)->0;
    if p.kind == Kind::Rook {
        let (dr, dc) = choose|dr: int, dc: int|
            orth(dr, dc) && rook_ray(b, p.side, fr, fc, dr, dc, tr, tc);
        assert(rook_ray(b, p.side, fr, fc, dr, dc, tr, tc));
    } else if p.kind == Kind::Cannon {
        let (dr, dc) = choose|dr: int, dc: int|
            orth(dr, dc) && cannon_ray(b, p.side, fr, fc, dr, dc, tr, tc);
        assert(cannon_ray(b, p.side, fr, fc, dr, dc, tr, tc));
    }
}

/// A list of exactly the legal moves is empty just when there is none.
pub proof fn lemma_no_legal_move(b: Board, side: u8, out: Seq<(usize, usize, usize, usize)>)
    requires
        forall|fr: usize, fc: usize, tr: usize, tc: usize|
            #![trigger out.contains((fr, fc, tr, tc))]
            out.contains((fr, fc, tr, tc)) <==> legal(b, side, fr as int, fc as int, tr as int, tc as int),
    ensures
        out.len() == 0 <==> !has_legal_move(b, side),
{
    if out.len() > 0 {
        let t = out[0];
        assert(out.contains((t.0, t.1, t.2, t.3)));
        assert(legal(b, side, t.0 as int, t.1 as int, t.2 as int, t.3 as int));
    }
    if has_legal_move(b, side) {
        let (fr, fc, tr, tc) = choose|fr: int, fc: int, tr: int, tc: int|
            legal(b, side, fr, fc, tr, tc);
        lemma_target_on_board(b, fr, fc, tr, tc);
        assert(out.contains((fr as usize, fc as usize, tr as usize, tc as usize)));
    }
}

/// The mover took the other side's general.
pub open spec fn captures_general(captured: Option<Piece>, mover: u8) -> bool {
    match captured {
        Some(p) => p.side != mover && p.kind == Kind::General,
        None => false,
    }
}

pub fn opposing_general_captured(captured: Option<Piece>, mover_side: u8) -> (b: bool)
    ensures
        b == captures_general(captured, mover_side),
{
    match captured {
        Some(p) => p.side != mover_side && p.kind == Kind::General,
        None => false,
    }
}

/// `MOVE <from> <to>`: only while playing, only the member whose turn it is,
/// only with one of their own pieces, by its movement rule, and never leaving
/// their own general attacked or facing the other general. Taking the other
/// general, or leaving the other side without a legal reply, also emits
/// `WINNER <side>`.
pub open spec fn move_verdict(s: StateView, player: Seq<char>, payload: Seq<char>) -> VerdictView {
    if s.phase != Phase::Playing {
        Err("not playing"@)
    } else {
        match index_of(s.players, player) {
            None => Err("not in room"@),
            Some(i) => if s.turn != i {
                Err("not your turn"@)
            } else {
                let parts = tokens(payload);
                if parts.len() != 2 {
                    Err("expected: MOVE <from> <to>"@)
                } else {
                    match square(parts[0]) {
                        None => Err("bad from"@),
                        Some((fr, fc)) => match square(parts[1]) {
                            None => Err("bad to"@),
                            Some((tr, tc)) => if fr == tr && fc == tc {
                                Err("from == to"@)
                            } else {
                                move_outcome(s.board, i as u8, player, fr as int, fc as int, tr as int, tc as int)
                            },
                        },
                    }
                }
            },
        }
    }
}

/// The verdict on moving from `(fr, fc)` to `(tr, tc)` once the squares are read.
pub open spec fn move_outcome(b: Board, side: u8, player: Seq<char>, fr: int, fc: int, tr: int, tc: int) -> VerdictView {
    match at(b, fr, fc) {
        None => Err("no piece at from"@),
        Some(p) => if p.side != side {
            Err("not your piece"@)
        } else if !pseudo_target(b, fr, fc, tr, tc) {
            Err("illegal move for piece"@)
        } else if in_check(after(b, fr, fc, tr, tc), side) {
            Err("would leave own general in check"@)
        } else if generals_face(after(b, fr, fc, tr, tc)) {
            Err("flying general"@)
        } else {
            let mv = (
                "MOVE"@,
                player + " "@ + square_name(fr as nat, fc as nat) + " "@ + square_name(tr as nat, tc as nat),
            );
            if captures_general(at(b, tr, tc), side) || !has_legal_move(
                after(b, fr, fc, tr, tc),
                (1 - side) as u8,
            ) {
                Ok(seq![mv, ("WINNER"@, dec(side as nat))])
            } else {
                Ok(seq![mv])
            }
        },
    }
}

pub open spec fn validate_spec(s: StateView, player: Seq<char>, kind: Seq<char>, payload: Seq<char>) -> VerdictView {
    if kind == "JOIN"@ {
        join_verdict(
            Lobby { players: s.players, host: None },
            s.phase == Phase::Lobby,
            player,
            MAX_PLAYERS as nat,
        )
    } else if kind == "LEAVE"@ {
        leave_verdict(s.lobby(), player)
    } else if kind == "CHAT"@ {
        chat_verdict(player, payload)
    } else if kind == "START"@ {
        match start_refusal(s.lobby(), s.phase == Phase::Lobby, player) {
            Some(e) => Err(e),
            None => Ok(seq![("GAME_STARTED"@, Seq::<char>::empty())]),
        }
    } else if kind == "MOVE"@ {
        move_verdict(s, player, payload)
    } else {
        Err("unknown action: "@ + kind)
    }
}

fn move_events(
    board: &[Option<Piece>; CELLS],
    side: u8,
    player: &str,
    fr: usize,
    fc: usize,
    tr: usize,
    tc: usize,
) -> (r: Result<Vec<(String, String)>, String>)
    requires
        side <= 1,
        fr < ROWS,
        fc < COLS,
        tr < ROWS,
        tc < COLS,
    ensures
        verdict_view(r) == move_outcome(board@, side, player@, fr as int, fc as int, tr as int, tc as int),
{
    let ghost b = board@;
    let piece = match board[idx(fr, fc)] {
        Some(p) => p,
        None => {
            return Err(String::from_str("no piece at from"));
        },
    };
    if piece.side != side {
        return Err(String::from_str("not your piece"));
    }
    let targets = pseudo_moves(board, fr, fc);
    if !contains_square(&targets, tr, tc) {
        return Err(String::from_str("illegal move for piece"));
    }
    let next = after_move(board, fr, fc, tr, tc);
    if in_check_exec(&next, side) {
        return Err(String::from_str("would leave own general in check"));
    }
    if generals_face_exec(&next) {
        return Err(String::from_str("flying general"));
    }
    let captured = board[idx(tr, tc)];
    let from_s = square_to_str(fr, fc);
    let to_s = square_to_str(tr, tc);
    let mut mv: Vec<char> = Vec::new();
    push_str(&mut mv, player);
    push_str(&mut mv, " ");
    push_str(&mut mv, from_s.as_str());
    push_str(&mut mv, " ");
    push_str(&mut mv, to_s.as_str());
    proof {
        assert(fc % 256 == fc);
        assert(tc % 256 == tc);
    }
    let mut out: Vec<(String, String)> = Vec::new();
    out.push(event("MOVE", string_of(&mv)));
    let mut w: Vec<char> = Vec::new();
    push_dec(&mut w, side as u64);
    if opposing_general_captured(captured, side) {
        out.push(event("WINNER", string_of(&w)));
        proof {
            assert(out.deep_view() =~= seq![("MOVE"@, mv@), ("WINNER"@, w@)]);
        }
        return Ok(out);
    }
    let replies = legal_moves(&next, 1 - side);
    proof {
        lemma_no_legal_move(next@, (1 - side) as u8, replies@);
    }
    if replies.len() == 0 {
        out.push(event("WINNER", string_of(&w)));
        proof {
            assert(out.deep_view() =~= seq![("MOVE"@, mv@), ("WINNER"@, w@)]);
        }
    } else {
        proof {
            assert(out.deep_view() =~= seq![("MOVE"@, mv@)]);
        }
    }
    Ok(out)
}

fn validate_move(state: &State, player: &str, payload: &str) -> (r: Result<Vec<(String, String)>, String>)
    requires
        well_formed(state@),
    ensures
        verdict_view(r) == move_verdict(state@, player@, payload@),
{
    if state.phase != Phase::Playing {
        return Err(String::from_str("not playing"));
    }
    let side = match find_player(&state.players, player) {
        Some(i) => i,
        None => {
            return Err(String::from_str("not in room"));
        },
    };
    proof {
        crate::lobby::lemma_index_of(state.players.deep_view(), player@);
    }
    if state.turn as usize != side {
        return Err(String::from_str("not your turn"));
    }
    let parts = words_of(payload);
    if parts.len() != 2 {
        return Err(String::from_str("expected: MOVE <from> <to>"));
    }
    let (fr, fc) = match word_square(&parts, 0) {
        Some(sq) => sq,
        None => {
            return Err(String::from_str("bad from"));
        },
    };
    let (tr, tc) = match word_square(&parts, 1) {
        Some(sq) => sq,
        None => {
            return Err(String::from_str("bad to"));
        },
    };
    if fr == tr && fc == tc {
        return Err(String::from_str("from == to"));
    }
    move_events(&state.board, side as u8, player, fr, fc, tr, tc)
}

impl Xiangqi {
    pub fn validate(state: &State, player: &str, kind: &str, payload: &str) -> (r: Result<
        Vec<(String, String)>,
        String,
    >)
        requires
            well_formed(state@),
        ensures
            verdict_view(r) == validate_spec(state@, player@, kind@, payload@),
    {
        if str_is(kind, "JOIN") {
            validate_join(&state.players, state.phase == Phase::Lobby, player, MAX_PLAYERS)
        } else if str_is(kind, "LEAVE") {
            validate_leave(&state.players, &state.host, player)
        } else if str_is(kind, "CHAT") {
            validate_chat(player, payload)
        } else if str_is(kind, "START") {
            match start_check(&state.players, &state.host, state.phase == Phase::Lobby, player) {
                Some(e) => Err(e),
                None => {
                    let mut v: Vec<(String, String)> = Vec::new();
                    v.push(event("GAME_STARTED", String::new()));
                    proof {
                        assert(v.deep_view() =~= seq![("GAME_STARTED"@, Seq::<char>::empty())]);
                    }
                    Ok(v)
                },
            }
        } else if str_is(kind, "MOVE") {
            validate_move(state, player, payload)
        } else {
            let mut m: Vec<char> = Vec::new();
            push_str(&mut m, "unknown action: ");
            push_str(&mut m, kind);
            Err(string_of(&m))
        }
    }

    pub fn max_players() -> (n: usize)
        ensures
            n == MAX_PLAYERS,
    {
        MAX_PLAYERS
    }

    pub fn game_id() -> (s: &'static str)
        ensures
            s@ == "xiangqi"@,
    {
        "xiangqi"
    }

    /// Who the game waits on: the member whose turn it is, while playing.
    pub fn pending_players(state: &State) -> (r: Vec<String>)
        ensures
            r.deep_view() == (if state@.phase == Phase::Playing && (state.turn as int)
                < state@.players.len() {
                seq![state@.players[state.turn as int]]
            } else {
                Seq::<Seq<char>>::empty()
            }),
    {
        let mut r: Vec<String> = Vec::new();
        if state.phase == Phase::Playing && (state.turn as usize) < state.players.len() {
            r.push(state.players[state.turn as usize].clone());
        }
        proof {
            if state@.phase == Phase::Playing && (state.turn as int) < state@.players.len() {
                assert(r.deep_view() =~= seq![state@.players[state.turn as int]]);
            } else {
                assert(r.deep_view() =~= Seq::<Seq<char>>::empty());
            }
        }
        r
    }

    pub fn snapshot(state: &State) -> (r: RoomSnapshot)
        ensures
            r.phase@ == phase_name(state.phase),
            r.host.deep_view() == state@.host,
            r.players.deep_view() == state@.players,
    {
        RoomSnapshot {
            phase: phase_str(&state.phase),
            host: state.host.clone(),
            players: clone_players(&state.players),
        }
    }
}

pub open spec fn phase_name(p: Phase) -> Seq<char> {
    match p {
        Phase::Lobby => "lobby"@,
        Phase::Playing => "playing"@,
        Phase::Finished => "finished"@,
    }
}

pub fn phase_str(phase: &Phase) -> (s: String)
    ensures
        s@ == phase_name(*phase),
{
    match phase {
        Phase::Lobby => String::from_str("lobby"),
        Phase::Playing => String::from_str("playing"),
        Phase::Finished => String::from_str("finished"),
    }
}

} // verus!
