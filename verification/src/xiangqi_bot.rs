//! The xiangqi playground bot. Deterministic, not strategic: it mirrors the
//! board from the `MOVE` events and plays the least legal move in
//! `(from_row, from_col, to_row, to_col)` order.
use vstd::prelude::*;
use crate::lobby::{event, find_player, index_of, lemma_index_of};
use crate::playground::{action_view, join_roster, roster_joined};
use crate::text::{push_str, str_is, string_of, tokens, word_is, word_string, words_of, words_view};
use crate::xiangqi::{
    initial_board, legal, legal_moves, parse_square, square, square_name, square_to_str,
    start_board, Board, Piece, CELLS,
};

verus! {

pub struct XiangqiStrategy {
    pub board: [Option<Piece>; CELLS],
    pub bot_side: Option<u8>,
    pub players: Vec<String>,
    pub started: bool,
}

impl Default for XiangqiStrategy {
    fn default() -> (s: Self)
        ensures
            s.board@ == Seq::new(90, |i: int| None::<Piece>),
            s.bot_side is None,
            s.players@.len() == 0,
            !s.started,
    {
        let s = XiangqiStrategy { board: [None; CELLS], bot_side: None, players: Vec::new(), started: false };
        proof {
            assert(s.board@ =~= Seq::new(90, |i: int| None::<Piece>));
        }
        s
    }
}

/// Every piece on the board belongs to one of the two sides.
pub open spec fn sides_ok(b: Board) -> bool {
    forall|k: int| 0 <= k < b.len() ==> (#[trigger] b[k] matches Some(p) ==> p.side <= 1)
}

pub type Quad = (int, int, int, int);

/// Lexicographic order on `(from_row, from_col, to_row, to_col)`.
pub open spec fn quad_le(a: Quad, b: Quad) -> bool {
    a.0 < b.0 || (a.0 == b.0 && (a.1 < b.1 || (a.1 == b.1 && (a.2 < b.2 || (a.2 == b.2 && a.3
        <= b.3)))))
}

pub open spec fn is_least_legal(b: Board, side: u8, m: Quad) -> bool {
    &&& legal(b, side, m.0, m.1, m.2, m.3)
    &&& forall|fr: int, fc: int, tr: int, tc: int| #[trigger]
        legal(b, side, fr, fc, tr, tc) ==> quad_le(m, (fr, fc, tr, tc))
}

/// The least legal move of `side`, if it has one.
pub open spec fn least_legal(b: Board, side: u8) -> Option<Quad> {
    if exists|m: Quad| is_least_legal(b, side, m) {
        Some(choose|m: Quad| is_least_legal(b, side, m))
    } else {
        None
    }
}

/// The bot's move on `b` when it plays `side`.
pub open spec fn xq_reply(started: bool, side: Option<u8>, b: Board) -> Option<(Seq<char>, Seq<char>)> {
    if !started {
        None
    } else {
        match side {
            Some(sd) => match least_legal(b, sd) {
                Some(m) => Some(
                    (
                        "MOVE"@,
                        square_name(m.0 as nat, m.1 as nat) + " "@ + square_name(
                            m.2 as nat,
                            m.3 as nat,
                        ),
                    ),
                ),
                None => None,
            },
            None => None,
        }
    }
}

/// The seat of the bot: its place in the join order, as a side number.
pub open spec fn seat_of(ps: Seq<Seq<char>>, pid: Seq<char>) -> Option<u8> {
    match index_of(ps, pid) {
        Some(i) => Some(i as u8),
        None => None,
    }
}

/// `MOVE <pid> <from> <to>`: the mover and the two squares as cell indices.
pub open spec fn xq_move(payload: Seq<char>) -> Option<(Seq<char>, int, int)> {
    let t = tokens(payload);
    if t.len() >= 3 {
        match (square(t[1]), square(t[2])) {
            (Some(f), Some(g)) => Some((t[0], (f.0 * 9 + f.1) as int, (g.0 * 9 + g.1) as int)),
            _ => None,
        }
    } else {
        None
    }
}

impl XiangqiStrategy {
    pub open spec fn reply(self) -> Option<(Seq<char>, Seq<char>)> {
        xq_reply(self.started, self.bot_side, self.board@)
    }

    proof fn lemma_least_unique(b: Board, side: u8, m: Quad)
        requires
            is_least_legal(b, side, m),
        ensures
            least_legal(b, side) == Some(m),
    {
        let k = choose|k: Quad| is_least_legal(b, side, k);
        assert(legal(b, side, m.0, m.1, m.2, m.3));
        assert(legal(b, side, k.0, k.1, k.2, k.3));
        assert(quad_le(k, m) && quad_le(m, k));
    }

    proof fn lemma_least_of_list(b: Board, side: u8, moves: Seq<(usize, usize, usize, usize)>, best: (usize, usize, usize, usize))
        requires
            forall|fr: usize, fc: usize, tr: usize, tc: usize|
                #![trigger moves.contains((fr, fc, tr, tc))]
                moves.contains((fr, fc, tr, tc)) <==> legal(b, side, fr as int, fc as int, tr as int, tc as int),
            moves.contains(best),
            forall|j: int|
                0 <= j < moves.len() ==> quad_le(
                    (best.0 as int, best.1 as int, best.2 as int, best.3 as int),
                    (moves[j].0 as int, moves[j].1 as int, moves[j].2 as int, moves[j].3 as int),
                ),
        ensures
            least_legal(b, side) == Some((best.0 as int, best.1 as int, best.2 as int, best.3 as int)),
    {
        let bq: Quad = (best.0 as int, best.1 as int, best.2 as int, best.3 as int);
        assert(legal(b, side, bq.0, bq.1, bq.2, bq.3));
        assert forall|fr: int, fc: int, tr: int, tc: int|
            #[trigger] legal(b, side, fr, fc, tr, tc) implies quad_le(bq, (fr, fc, tr, tc)) by {
            let u = (fr as usize, fc as usize, tr as usize, tc as usize);
            assert(moves.contains(u));
            let j = choose|j: int| 0 <= j < moves.len() && moves[j] == u;
            assert(quad_le(bq, (moves[j].0 as int, moves[j].1 as int, moves[j].2 as int, moves[j].3 as int)));
        }
        Self::lemma_least_unique(b, side, bq);
    }

    proof fn lemma_no_least(b: Board, side: u8, moves: Seq<(usize, usize, usize, usize)>)
        requires
            forall|fr: usize, fc: usize, tr: usize, tc: usize|
                #![trigger moves.contains((fr, fc, tr, tc))]
                moves.contains((fr, fc, tr, tc)) <==> legal(b, side, fr as int, fc as int, tr as int, tc as int),
            moves.len() == 0,
        ensures
            least_legal(b, side) is None,
    {
        assert forall|m: Quad| !is_least_legal(b, side, m) by {
            if legal(b, side, m.0, m.1, m.2, m.3) {
                assert(moves.contains((m.0 as usize, m.1 as usize, m.2 as usize, m.3 as usize)));
            }
        }
    }

    proof fn lemma_no_side(b: Board, side: u8)
        requires
            sides_ok(b),
            b.len() == 90,
            side > 1,
        ensures
            least_legal(b, side) is None,
    {
        assert forall|m: Quad| !is_least_legal(b, side, m) by {
            if legal(b, side, m.0, m.1, m.2, m.3) {
                assert(b[m.0 * 9 + m.1] matches Some(p) && p.side == side);
            }
        }
    }

    fn first_legal_move(&self) -> (r: Option<(String, String)>)
        requires
            sides_ok(self.board@),
        ensures
            action_view(r) == self.reply(),
    {
        if !self.started {
            return None;
        }
        let side = match self.bot_side {
            Some(s) => s,
            None => {
                return None;
            },
        };
        if side > 1 {
            proof {
                Self::lemma_no_side(self.board@, side);
            }
            return None;
        }
        let moves = legal_moves(&self.board, side);
        if moves.len() == 0 {
            proof {
                Self::lemma_no_least(self.board@, side, moves@);
            }
            return None;
        }
        let mut best = moves[0];
        let mut k: usize = 1;
        while k < moves.len()
            invariant
                1 <= k <= moves@.len(),
                moves@.contains(best),
                forall|j: int|
                    0 <= j < k ==> quad_le(
                        (best.0 as int, best.1 as int, best.2 as int, best.3 as int),
                        (moves@[j].0 as int, moves@[j].1 as int, moves@[j].2 as int, moves@[j].3 as int),
                    ),
            decreases moves.len() - k,
        {
            let m = moves[k];
            if m.0 < best.0 || (m.0 == best.0 && (m.1 < best.1 || (m.1 == best.1 && (m.2 < best.2
                || (m.2 == best.2 && m.3 < best.3))))) {
                best = m;
            }
            k += 1;
        }
        let ghost bq: Quad = (best.0 as int, best.1 as int, best.2 as int, best.3 as int);
        proof {
            Self::lemma_least_of_list(self.board@, side, moves@, best);
        }
        let a = square_to_str(best.0, best.1);
        let b = square_to_str(best.2, best.3);
        let mut v: Vec<char> = Vec::new();
        push_str(&mut v, a.as_str());
        v.push(' ');
        push_str(&mut v, b.as_str());
        let out = string_of(&v);
        proof {
            assert(out@ =~= square_name(bq.0 as nat, bq.1 as nat) + " "@ + square_name(bq.2 as nat, bq.3 as nat)) by {
                reveal_strlit(" ");
            }
        }
        Some(event("MOVE", out))
    }

    pub fn react(&mut self, bot_pid: &str, kind: &str, payload: &str) -> (r: Option<(String, String)>)
        requires
            sides_ok(old(self).board@),
        ensures
            sides_ok(final(self).board@),
            if kind@ == "PLAYER_JOINED"@ {
                &&& r is None
                &&& final(self).players.deep_view() == roster_joined(
                    old(self).players.deep_view(),
                    payload@,
                )
                &&& final(self).board@ == old(self).board@
                &&& final(self).bot_side == old(self).bot_side
                &&& final(self).started == old(self).started
            } else if kind@ == "GAME_STARTED"@ {
                &&& final(self).board@ == start_board()
                &&& final(self).started
                &&& final(self).bot_side == seat_of(old(self).players.deep_view(), bot_pid@)
                &&& final(self).players.deep_view() == old(self).players.deep_view()
                &&& action_view(r) == if final(self).bot_side == Some(0u8) {
                    final(self).reply()
                } else {
                    None
                }
            } else if kind@ == "MOVE"@ {
                &&& final(self).bot_side == old(self).bot_side
                &&& final(self).started == old(self).started
                &&& final(self).players.deep_view() == old(self).players.deep_view()
                &&& match xq_move(payload@) {
                    Some((pid, f, g)) => match old(self).board@[f] {
                        Some(p) => {
                            &&& final(self).board@ == old(self).board@.update(f, None).update(
                                g,
                                Some(p),
                            )
                            &&& action_view(r) == if pid != bot_pid@ {
                                final(self).reply()
                            } else {
                                None
                            }
                        },
                        None => final(self).board@ == old(self).board@ && r is None,
                    },
                    None => final(self).board@ == old(self).board@ && r is None,
                }
            } else {
                &&& r is None
                &&& final(self).board@ == old(self).board@
                &&& final(self).bot_side == old(self).bot_side
                &&& final(self).started == old(self).started
                &&& final(self).players.deep_view() == old(self).players.deep_view()
            },
    {
        if str_is(kind, "PLAYER_JOINED") {
            join_roster(&mut self.players, payload);
            None
        } else if str_is(kind, "GAME_STARTED") {
            self.board = initial_board();
            self.started = true;
            proof {
                lemma_index_of(self.players.deep_view(), bot_pid@);
                assert(self.players.deep_view().len() == self.players.len());
                assert(sides_ok(self.board@));
            }
            self.bot_side = match find_player(&self.players, bot_pid) {
                Some(i) => Some(i as u8),
                None => None,
            };
            if self.bot_side == Some(0u8) {
                self.first_legal_move()
            } else {
                None
            }
        } else if str_is(kind, "MOVE") {
            let parts = words_of(payload);
            if parts.len() < 3 {
                return None;
            }
            let from = word_string(&parts, 1);
            let to = word_string(&parts, 2);
            let (fr, fc) = match parse_square(from.as_str()) {
                Some(q) => q,
                None => {
                    return None;
                },
            };
            let (tr, tc) = match parse_square(to.as_str()) {
                Some(q) => q,
                None => {
                    return None;
                },
            };
            let f = fr * 9 + fc;
            let g = tr * 9 + tc;
            let p = match self.board[f] {
                Some(p) => p,
                None => {
                    return None;
                },
            };
            self.board[f] = None;
            self.board[g] = Some(p);
            if !word_is(&parts, 0, bot_pid) {
                self.first_legal_move()
            } else {
                None
            }
        } else {
            None
        }
    }
}

} // verus!
