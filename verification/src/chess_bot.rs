//! The chess playground bot. It mirrors the room by folding every event into
//! its own copy of the state and, on its turn, plays the first legal move in
//! board order: from-square ascending for white and descending for black,
//! then to-square, then queen, rook, bishop, knight promotion, short and long
//! castling, en passant and plain moves. It always promotes to a queen.
use vstd::prelude::*;
use crate::chess::{
    legal_move, legal_moves_for_turn, square_name, square_str, well_formed, fold_ok, fold_spec,
    Chess, Color, MoveFlag, Mv, PieceType, State, StateView, is_promo_piece,
};
use crate::lobby::{event, find_player, index_of, lemma_index_of};
use crate::playground::{action_view, join_roster, roster_joined};
use crate::text::{push_str, str_is, string_of};

verus! {

pub struct ChessStrategy {
    pub state: State,
    pub bot_color: Option<Color>,
    pub players: Vec<String>,
}

impl Default for ChessStrategy {
    fn default() -> (s: Self)
        ensures
            s.state@ == crate::chess::initial_state(),
            s.bot_color is None,
            s.players@.len() == 0,
    {
        ChessStrategy { state: State::default(), bot_color: None, players: Vec::new() }
    }
}

/// The order of move kinds when two moves share both squares.
pub open spec fn flag_rank(fl: MoveFlag) -> int {
    match fl {
        MoveFlag::Promote(PieceType::Queen) => 0,
        MoveFlag::Promote(PieceType::Rook) => 1,
        MoveFlag::Promote(PieceType::Bishop) => 2,
        MoveFlag::Promote(PieceType::Knight) => 3,
        MoveFlag::Promote(_) => 0,
        MoveFlag::CastleK => 4,
        MoveFlag::CastleQ => 5,
        MoveFlag::EnPassant => 6,
        MoveFlag::Normal => 7,
    }
}

/// The from-square as `c` orders it: white from a1 upward, black from h8 down.
pub open spec fn from_key(c: Color, f: u8) -> int {
    if c == Color::White {
        f as int
    } else {
        -(f as int)
    }
}

/// `a` comes no later than `b` in the bot's order for side `c`.
pub open spec fn move_le(c: Color, a: Mv, b: Mv) -> bool {
    let (ka, kb) = (from_key(c, a.0), from_key(c, b.0));
    ka < kb || (ka == kb && (a.1 < b.1 || (a.1 == b.1 && flag_rank(a.2) <= flag_rank(b.2))))
}

pub open spec fn legal_in(s: StateView, m: Mv) -> bool {
    legal_move(s.board, s.castle, s.ep, s.turn, m.0 as int, m.1 as int, m.2)
}

pub open spec fn is_first_move(s: StateView, c: Color, m: Mv) -> bool {
    &&& legal_in(s, m)
    &&& forall|m2: Mv| #[trigger] legal_in(s, m2) ==> move_le(c, m, m2)
}

/// The first legal move in the bot's order, if the side to move has one.
pub open spec fn first_move(s: StateView, c: Color) -> Option<Mv> {
    if exists|m: Mv| is_first_move(s, c, m) {
        Some(choose|m: Mv| is_first_move(s, c, m))
    } else {
        None
    }
}

/// The payload of the bot's move: both squares, and `q` when it promotes.
pub open spec fn move_text(m: Mv) -> Seq<char> {
    let base = square_name(m.0 as int) + " "@ + square_name(m.1 as int);
    if m.2 is Promote {
        base + " q"@
    } else {
        base
    }
}

/// The bot's answer on state `s` when it plays `color`.
pub open spec fn chess_reply(s: StateView, color: Option<Color>) -> Option<(Seq<char>, Seq<char>)> {
    match color {
        Some(c) => if s.turn != c {
            None
        } else {
            match first_move(s, c) {
                Some(m) => Some(("MOVE"@, move_text(m))),
                None => None,
            }
        },
        None => None,
    }
}

/// The colour of a roster member: the first to join plays white.
pub open spec fn color_of(ps: Seq<Seq<char>>, pid: Seq<char>) -> Option<Color> {
    match index_of(ps, pid) {
        Some(i) => Some(if i == 0 { Color::White } else { Color::Black }),
        None => None,
    }
}

/// A legal move promotes only to a queen, rook, bishop or knight.
proof fn lemma_legal_flag(s: StateView, m: Mv)
    requires
        legal_in(s, m),
    ensures
        m.2 matches MoveFlag::Promote(pt) ==> is_promo_piece(pt),
{
}

proof fn lemma_first_unique(s: StateView, c: Color, m: Mv)
    requires
        is_first_move(s, c, m),
    ensures
        first_move(s, c) == Some(m),
{
    let k = choose|k: Mv| is_first_move(s, c, k);
    assert(legal_in(s, m) && legal_in(s, k));
    assert(move_le(c, k, m) && move_le(c, m, k));
    lemma_legal_flag(s, m);
    lemma_legal_flag(s, k);
    assert(k.0 == m.0);
}

/// The bot's order as a comparable key.
fn key_of(c: Color, m: Mv) -> (k: (i32, u8, u8))
    ensures
        k.0 == from_key(c, m.0),
        k.1 == m.1,
        k.2 == flag_rank(m.2),
{
    let f: i32 = if c == Color::White {
        m.0 as i32
    } else {
        -(m.0 as i32)
    };
    let r: u8 = match m.2 {
        MoveFlag::Promote(PieceType::Queen) => 0,
        MoveFlag::Promote(PieceType::Rook) => 1,
        MoveFlag::Promote(PieceType::Bishop) => 2,
        MoveFlag::Promote(PieceType::Knight) => 3,
        MoveFlag::Promote(_) => 0,
        MoveFlag::CastleK => 4,
        MoveFlag::CastleQ => 5,
        MoveFlag::EnPassant => 6,
        MoveFlag::Normal => 7,
    };
    (f, m.1, r)
}

fn key_before(a: (i32, u8, u8), b: (i32, u8, u8)) -> (r: bool)
    ensures
        r == (a.0 < b.0 || (a.0 == b.0 && (a.1 < b.1 || (a.1 == b.1 && a.2 < b.2)))),
{
    a.0 < b.0 || (a.0 == b.0 && (a.1 < b.1 || (a.1 == b.1 && a.2 < b.2)))
}

proof fn lemma_first_of_list(s: StateView, c: Color, moves: Seq<Mv>, best: Mv)
    requires
        forall|m: Mv| #![trigger moves.contains(m)] moves.contains(m) <==> legal_in(s, m),
        moves.contains(best),
        forall|j: int| 0 <= j < moves.len() ==> move_le(c, best, #[trigger] moves[j]),
    ensures
        first_move(s, c) == Some(best),
{
    assert forall|m2: Mv| #[trigger] legal_in(s, m2) implies move_le(c, best, m2) by {
        assert(moves.contains(m2));
        let j = choose|j: int| 0 <= j < moves.len() && moves[j] == m2;
        assert(move_le(c, best, moves[j]));
    }
    lemma_first_unique(s, c, best);
}

proof fn lemma_no_first(s: StateView, c: Color, moves: Seq<Mv>)
    requires
        forall|m: Mv| #![trigger moves.contains(m)] moves.contains(m) <==> legal_in(s, m),
        moves.len() == 0,
    ensures
        first_move(s, c) is None,
{
    assert forall|m: Mv| !is_first_move(s, c, m) by {
        if legal_in(s, m) {
            assert(moves.contains(m));
        }
    }
}

impl ChessStrategy {
    fn maybe_move(&self) -> (r: Option<(String, String)>)
        ensures
            action_view(r) == chess_reply(self.state@, self.bot_color),
    {
        let c = match self.bot_color {
            Some(c) => c,
            None => {
                return None;
            },
        };
        if self.state.turn != c {
            return None;
        }
        let legals = legal_moves_for_turn(&self.state);
        proof {
            assert forall|m: Mv| #![trigger legals@.contains(m)] legals@.contains(m) <==> legal_in(self.state@, m) by {}
        }
        if legals.len() == 0 {
            proof {
                lemma_no_first(self.state@, c, legals@);
            }
            return None;
        }
        let mut best = legals[0];
        let mut best_key = key_of(c, best);
        let mut k: usize = 1;
        while k < legals.len()
            invariant
                1 <= k <= legals@.len(),
                legals@.contains(best),
                best_key.0 == from_key(c, best.0),
                best_key.1 == best.1,
                best_key.2 == flag_rank(best.2),
                forall|j: int| 0 <= j < k ==> move_le(c, best, #[trigger] legals@[j]),
            decreases legals.len() - k,
        {
            let m = legals[k];
            let mk = key_of(c, m);
            if key_before(mk, best_key) {
                best = m;
                best_key = mk;
            }
            k += 1;
        }
        proof {
            lemma_first_of_list(self.state@, c, legals@, best);
        }
        let mut v: Vec<char> = Vec::new();
        let a = square_str(best.0);
        let b = square_str(best.1);
        push_str(&mut v, a.as_str());
        v.push(' ');
        push_str(&mut v, b.as_str());
        let promotes = match best.2 {
            MoveFlag::Promote(_) => true,
            _ => false,
        };
        if promotes {
            v.push(' ');
            v.push('q');
        }
        proof {
            reveal_strlit(" ");
            reveal_strlit(" q");
            assert(v@ =~= move_text(best));
        }
        Some(event("MOVE", string_of(&v)))
    }

    pub fn react(&mut self, bot_pid: &str, kind: &str, payload: &str) -> (r: Option<(String, String)>)
        requires
            well_formed(old(self).state@),
            fold_ok(old(self).state@, kind@, payload@),
        ensures
            well_formed(final(self).state@),
            final(self).state@ == fold_spec(old(self).state@, kind@, payload@),
            if kind@ == "PLAYER_JOINED"@ {
                &&& r is None
                &&& final(self).players.deep_view() == roster_joined(
                    old(self).players.deep_view(),
                    payload@,
                )
                &&& final(self).bot_color == old(self).bot_color
            } else if kind@ == "GAME_STARTED"@ {
                &&& final(self).players.deep_view() == old(self).players.deep_view()
                &&& final(self).bot_color == color_of(old(self).players.deep_view(), bot_pid@)
                &&& action_view(r) == chess_reply(final(self).state@, final(self).bot_color)
            } else if kind@ == "MOVE"@ {
                &&& final(self).players.deep_view() == old(self).players.deep_view()
                &&& final(self).bot_color == old(self).bot_color
                &&& action_view(r) == chess_reply(final(self).state@, final(self).bot_color)
            } else {
                &&& r is None
                &&& final(self).players.deep_view() == old(self).players.deep_view()
                &&& final(self).bot_color == old(self).bot_color
            },
    {
        Chess::fold(&mut self.state, kind, payload);
        if str_is(kind, "PLAYER_JOINED") {
            join_roster(&mut self.players, payload);
            None
        } else if str_is(kind, "GAME_STARTED") {
            proof {
                lemma_index_of(self.players.deep_view(), bot_pid@);
                assert(self.players.deep_view().len() == self.players.len());
            }
            let color: Option<Color> = match find_player(&self.players, bot_pid) {
                Some(i) => if i == 0 {
                    Some(Color::White)
                } else {
                    Some(Color::Black)
                },
                None => None,
            };
            self.bot_color = color;
            self.maybe_move()
        } else if str_is(kind, "MOVE") {
            self.maybe_move()
        } else {
            None
        }
    }
}

} // verus!
