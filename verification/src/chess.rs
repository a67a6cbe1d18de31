//! Chess as an event-sourced room, with an optional blind variant.
//!
//! Squares are `0..64` with `0 = a1`, `7 = h1`, `56 = a8`: the file is
//! `square % 8` and the rank `square / 8`. Player 0 is white, player 1
//! black. The fold replays the same rules the validator used, so a replay
//! rebuilds castling rights, the en-passant target, the halfmove clock and
//! the repetition history. In the blind variant the back-rank pieces other
//! than the king are shuffled from a seed carried in `GAME_STARTED`; each
//! shows its starting type (its facade) until it first moves.
use vstd::prelude::*;
use std::collections::BTreeMap;
use std::collections::HashMap;
use rand::rngs::StdRng;
use rand::seq::SliceRandom;
use rand::{Rng, SeedableRng};
use crate::lobby::{
    chat_verdict, clone_players, event, find_player, fold_host_changed, fold_joined, fold_left,
    index_of, join_verdict, leave_verdict, lobby_host_changed, lobby_joined, lobby_left,
    start_check, start_refusal, validate_chat, validate_join, validate_leave, verdict_view,
    EventView, Lobby, RoomSnapshot, VerdictView,
};
use crate::text::{
    chars_of, dec, parse_unsigned, parse_unsigned_range, push_dec, push_str, str_is, string_of,
    tokens, trim, trim_range, word_is, word_string, word_unsigned, words_of, words_view,
};

verus! {

pub const MAX_PLAYERS: usize = 2;

pub const BOARD: usize = 64;

pub const FIFTY_MOVE_HALFMOVES: u32 = 100;

// ---------------------------------------------------------------------------
// Time and variant configuration
// ---------------------------------------------------------------------------

/// `<pool_minutes> <per_turn_seconds> <blind 0|1>`, from `START` and
/// `GAME_STARTED`; missing or unreadable words give no time limit and no
/// blind mode.
#[derive(Debug, Clone, Copy, PartialEq, Eq, Structural)]
pub struct TimeConfig {
    pub pool_minutes: u32,
    pub per_turn_seconds: u32,
    pub blind: bool,
}

impl Default for TimeConfig {
    fn default() -> (c: TimeConfig)
        ensures
            c == (TimeConfig { pool_minutes: 0, per_turn_seconds: 0, blind: false }),
    {
        TimeConfig { pool_minutes: 0, per_turn_seconds: 0, blind: false }
    }
}

pub open spec fn word_u32_or_zero(parts: Seq<Seq<char>>, i: int) -> u32 {
    if i < parts.len() {
        match parse_unsigned(parts[i], u32::MAX as nat) {
            Some(v) => v as u32,
            None => 0,
        }
    } else {
        0
    }
}

pub open spec fn time_config_of(payload: Seq<char>) -> TimeConfig {
    let parts = tokens(payload);
    TimeConfig {
        pool_minutes: word_u32_or_zero(parts, 0),
        per_turn_seconds: word_u32_or_zero(parts, 1),
        blind: parts.len() > 2 && (parts[2] == "1"@ || parts[2] == "true"@),
    }
}

pub open spec fn render_spec(c: TimeConfig) -> Seq<char> {
    dec(c.pool_minutes as nat) + " "@ + dec(c.per_turn_seconds as nat) + " "@ + if c.blind {
        "1"@
    } else {
        "0"@
    }
}

pub open spec fn render_seed_spec(c: TimeConfig, seed: u64) -> Seq<char> {
    if c.blind {
        dec(c.pool_minutes as nat) + " "@ + dec(c.per_turn_seconds as nat) + " 1 "@ + dec(
            seed as nat,
        )
    } else {
        render_spec(c)
    }
}

/// The blind-shuffle seed: the fourth word as a `u64`.
pub open spec fn blind_seed_of(payload: Seq<char>) -> Option<u64> {
    let parts = tokens(payload);
    if parts.len() > 3 {
        match parse_unsigned(parts[3], u64::MAX as nat) {
            Some(v) => Some(v as u64),
            None => None,
        }
    } else {
        None
    }
}

fn word_u32_exec(parts: &Vec<Vec<char>>, i: usize) -> (r: u32)
    ensures
        r == word_u32_or_zero(words_view(*parts), i as int),
{
    if i < parts.len() {
        match word_unsigned(parts, i, u32::MAX as u64) {
            Some(v) => v as u32,
            None => 0,
        }
    } else {
        0
    }
}

impl TimeConfig {
    pub fn parse(payload: &str) -> (c: TimeConfig)
        ensures
            c == time_config_of(payload@),
    {
        let parts = words_of(payload);
        let pool = word_u32_exec(&parts, 0);
        let per_turn = word_u32_exec(&parts, 1);
        let blind = parts.len() > 2 && (word_is(&parts, 2, "1") || word_is(&parts, 2, "true"));
        TimeConfig { pool_minutes: pool, per_turn_seconds: per_turn, blind }
    }

    pub fn render(self) -> (s: String)
        ensures
            s@ == render_spec(self),
    {
        let mut v: Vec<char> = Vec::new();
        push_dec(&mut v, self.pool_minutes as u64);
        push_str(&mut v, " ");
        push_dec(&mut v, self.per_turn_seconds as u64);
        push_str(&mut v, " ");
        if self.blind {
            push_str(&mut v, "1");
        } else {
            push_str(&mut v, "0");
        }
        string_of(&v)
    }

    /// Like `render`, with the blind-shuffle seed appended in blind mode.
    pub fn render_with_seed(self, seed: u64) -> (s: String)
        ensures
            s@ == render_seed_spec(self, seed),
    {
        if self.blind {
            let mut v: Vec<char> = Vec::new();
            push_dec(&mut v, self.pool_minutes as u64);
            push_str(&mut v, " ");
            push_dec(&mut v, self.per_turn_seconds as u64);
            push_str(&mut v, " 1 ");
            push_dec(&mut v, seed);
            string_of(&v)
        } else {
            self.render()
        }
    }
}

/// The blind-shuffle seed of a `GAME_STARTED` payload, if it has one.
pub fn parse_blind_seed(payload: &str) -> (r: Option<u64>)
    ensures
        r == blind_seed_of(payload@),
{
    let parts = words_of(payload);
    if parts.len() > 3 {
        word_unsigned(&parts, 3, u64::MAX)
    } else {
        None
    }
}

proof fn lemma_dec_word(n: nat)
    ensures
        crate::text::is_word(dec(n)),
        !crate::text::is_ws(dec(n)[0]),
{
    crate::text::lemma_dec_facts(n);
}

/// The words of a rendered configuration: the two numbers, the blind flag,
/// then, in blind mode with a seed, the seed.
proof fn lemma_render_tokens(c: TimeConfig, seed: u64)
    ensures
        tokens(render_spec(c)) == seq![
            dec(c.pool_minutes as nat),
            dec(c.per_turn_seconds as nat),
            if c.blind { "1"@ } else { "0"@ },
        ],
        c.blind ==> tokens(render_seed_spec(c, seed)) == seq![
            dec(c.pool_minutes as nat),
            dec(c.per_turn_seconds as nat),
            "1"@,
            dec(seed as nat),
        ],
{
    reveal_strlit("1");
    reveal_strlit("0");
    reveal_strlit(" ");
    reveal_strlit(" 1 ");
    let p = dec(c.pool_minutes as nat);
    let q = dec(c.per_turn_seconds as nat);
    let f = if c.blind { "1"@ } else { "0"@ };
    let d = dec(seed as nat);
    lemma_dec_word(c.pool_minutes as nat);
    lemma_dec_word(c.per_turn_seconds as nat);
    lemma_dec_word(seed as nat);
    assert(crate::text::is_word(f));
    crate::text::lemma_tokens_word(f);
    crate::text::lemma_tokens_space(q, f);
    crate::text::lemma_tokens_space(p, q + " "@ + f);
    assert(render_spec(c) =~= p + " "@ + (q + " "@ + f));
    crate::text::lemma_tokens_word(d);
    crate::text::lemma_tokens_space("1"@, d);
    crate::text::lemma_tokens_space(q, "1"@ + " "@ + d);
    crate::text::lemma_tokens_space(p, q + " "@ + ("1"@ + " "@ + d));
    if c.blind {
        assert(" 1 "@ =~= " "@ + "1"@ + " "@);
        assert(render_seed_spec(c, seed) =~= p + " "@ + (q + " "@ + ("1"@ + " "@ + d)));
    }
}

/// A rendered configuration, with or without its seed, reads back as the
/// same configuration; the seed reads back from a blind configuration
/// rendered with it, and a configuration rendered without one has no seed.
pub proof fn law_time_config_round_trip(c: TimeConfig, seed: u64)
    ensures
        time_config_of(render_spec(c)) == c,
        time_config_of(render_seed_spec(c, seed)) == c,
        blind_seed_of(render_seed_spec(c, seed)) == if c.blind {
            Some(seed)
        } else {
            None::<u64>
        },
        blind_seed_of(render_spec(c)) == None::<u64>,
{
    reveal_strlit("1");
    reveal_strlit("0");
    reveal_strlit("true");
    lemma_render_tokens(c, seed);
    crate::text::lemma_parse_dec(c.pool_minutes as nat, u32::MAX as nat);
    crate::text::lemma_parse_dec(c.per_turn_seconds as nat, u32::MAX as nat);
    crate::text::lemma_parse_dec(seed as nat, u64::MAX as nat);
    assert("0"@[0] != "1"@[0]);
    assert("0"@.len() != "true"@.len());
    assert("1"@.len() != "true"@.len());
}

// ---------------------------------------------------------------------------
// Pieces and squares
// ---------------------------------------------------------------------------

#[derive(Debug, Clone, Copy, PartialEq, Eq, Hash, Structural)]
pub enum Color {
    White,
    Black,
}

#[derive(Debug, Clone, Copy, PartialEq, Eq, Hash, Structural)]
pub enum PieceType {
    Pawn,
    Knight,
    Bishop,
    Rook,
    Queen,
    King,
}

pub type Piece = (Color, PieceType);

pub open spec fn color_idx(c: Color) -> u8 {
    match c {
        Color::White => 0,
        Color::Black => 1,
    }
}

pub open spec fn opposite(c: Color) -> Color {
    match c {
        Color::White => Color::Black,
        Color::Black => Color::White,
    }
}

impl Color {
    pub fn idx(self) -> (i: u8)
        ensures
            i == color_idx(self),
    {
        match self {
            Color::White => 0,
            Color::Black => 1,
        }
    }

    pub fn from_idx(i: u8) -> (c: Color)
        ensures
            c == (if i == 0 { Color::White } else { Color::Black }),
    {
        if i == 0 {
            Color::White
        } else {
            Color::Black
        }
    }

    pub fn other(self) -> (c: Color)
        ensures
            c == opposite(self),
    {
        match self {
            Color::White => Color::Black,
            Color::Black => Color::White,
        }
    }
}

/// The square on `file` and `rank`.
pub fn sq(file: u8, rank: u8) -> (s: u8)
    requires
        rank * 8 + file < 256,
    ensures
        s == rank * 8 + file,
{
    rank * 8 + file
}

pub fn file_of(s: u8) -> (f: u8)
    ensures
        f == s % 8,
{
    s % 8
}

pub fn rank_of(s: u8) -> (r: u8)
    ensures
        r == s / 8,
{
    s / 8
}

/// The square a name such as `e4` denotes: a file `a`..`h`, then a rank
/// `1`..`8`, nothing else.
pub open spec fn square_of(s: Seq<char>) -> Option<u8> {
    if s.len() == 2 && 97 <= (s[0] as int) <= 104 && 49 <= (s[1] as int) <= 56 {
        Some(((s[1] as int - 49) * 8 + (s[0] as int - 97)) as u8)
    } else {
        None
    }
}

/// The name of square `s`: its file letter and its rank digit.
pub open spec fn square_name(s: int) -> Seq<char> {
    seq![(97 + s % 8) as char, (49 + s / 8) as char]
}

fn file_letter(ch: char) -> (r: Option<u8>)
    ensures
        r == (if 97 <= (ch as int) <= 104 {
            Some((ch as int - 97) as u8)
        } else {
            None
        }),
{
    match ch {
        'a' => Some(0),
        'b' => Some(1),
        'c' => Some(2),
        'd' => Some(3),
        'e' => Some(4),
        'f' => Some(5),
        'g' => Some(6),
        'h' => Some(7),
        _ => None,
    }
}

fn rank_digit(ch: char) -> (r: Option<u8>)
    ensures
        r == (if 49 <= (ch as int) <= 56 {
            Some((ch as int - 49) as u8)
        } else {
            None
        }),
{
    match ch {
        '1' => Some(0),
        '2' => Some(1),
        '3' => Some(2),
        '4' => Some(3),
        '5' => Some(4),
        '6' => Some(5),
        '7' => Some(6),
        '8' => Some(7),
        _ => None,
    }
}

pub fn parse_square(s: &str) -> (r: Option<u8>)
    ensures
        r == square_of(s@),
{
    let v = chars_of(s);
    if v.len() != 2 {
        return None;
    }
    let f = match file_letter(v[0]) {
        Some(f) => f,
        None => {
            return None;
        },
    };
    let r = match rank_digit(v[1]) {
        Some(r) => r,
        None => {
            return None;
        },
    };
    Some(sq(f, r))
}

pub fn square_str(s: u8) -> (r: String)
    ensures
        r@ == square_name(s as int),
{
    let f: u8 = 97u8 + s % 8;
    let k: u8 = 49u8 + s / 8;
    let mut v: Vec<char> = Vec::new();
    v.push(f as char);
    v.push(k as char);
    proof {
        assert(v@ =~= square_name(s as int));
    }
    string_of(&v)
}

/// A square's name reads back as the square.
pub proof fn law_square_round_trip(s: int)
    requires
        0 <= s < 64,
    ensures
        square_of(square_name(s)) == Some(s as u8),
{
}


// ---------------------------------------------------------------------------
// The starting position
// ---------------------------------------------------------------------------

pub type Board = Seq<Option<Piece>>;

/// R N B Q K B N R, file by file.
pub open spec fn back_piece(f: int) -> PieceType {
    if f == 0 || f == 7 {
        PieceType::Rook
    } else if f == 1 || f == 6 {
        PieceType::Knight
    } else if f == 2 || f == 5 {
        PieceType::Bishop
    } else if f == 3 {
        PieceType::Queen
    } else {
        PieceType::King
    }
}

pub open spec fn start_piece(s: int) -> Option<Piece> {
    let r = s / 8;
    if r == 0 {
        Some((Color::White, back_piece(s % 8)))
    } else if r == 1 {
        Some((Color::White, PieceType::Pawn))
    } else if r == 6 {
        Some((Color::Black, PieceType::Pawn))
    } else if r == 7 {
        Some((Color::Black, back_piece(s % 8)))
    } else {
        None
    }
}

pub open spec fn start_board() -> Board {
    Seq::new(64, |s: int| start_piece(s))
}

fn back_piece_exec(f: u8) -> (p: PieceType)
    ensures
        p == back_piece(f as int),
{
    if f == 0 || f == 7 {
        PieceType::Rook
    } else if f == 1 || f == 6 {
        PieceType::Knight
    } else if f == 2 || f == 5 {
        PieceType::Bishop
    } else if f == 3 {
        PieceType::Queen
    } else {
        PieceType::King
    }
}

pub fn starting_board() -> (b: [Option<Piece>; BOARD])
    ensures
        b@ == start_board(),
{
    let mut b: [Option<Piece>; BOARD] = [None; 64];
    let mut k: usize = 0;
    while k < BOARD
        invariant
            k <= BOARD,
            b@.len() == 64,
            forall|j: int| 0 <= j < k ==> b@[j] == start_piece(j),
        decreases BOARD - k,
    {
        let r = k / 8;
        let f = (k % 8) as u8;
        b[k] = if r == 0 {
            Some((Color::White, back_piece_exec(f)))
        } else if r == 1 {
            Some((Color::White, PieceType::Pawn))
        } else if r == 6 {
            Some((Color::Black, PieceType::Pawn))
        } else if r == 7 {
            Some((Color::Black, back_piece_exec(f)))
        } else {
            None
        };
        k += 1;
    }
    proof {
        assert(b@ =~= start_board());
    }
    b
}

// ---------------------------------------------------------------------------
// Move flags
// ---------------------------------------------------------------------------

/// How a move changes the board beyond moving its piece.
#[derive(Debug, Clone, Copy, PartialEq, Eq, Structural)]
pub enum MoveFlag {
    Normal,
    CastleK,
    CastleQ,
    EnPassant,
    Promote(PieceType),
}

pub open spec fn promo_letter(pt: PieceType) -> char {
    match pt {
        PieceType::Queen => 'q',
        PieceType::Rook => 'r',
        PieceType::Bishop => 'b',
        PieceType::Knight => 'n',
        _ => '?',
    }
}

pub open spec fn flag_name(f: MoveFlag) -> Seq<char> {
    match f {
        MoveFlag::Normal => "-"@,
        MoveFlag::CastleK => "K"@,
        MoveFlag::CastleQ => "Q"@,
        MoveFlag::EnPassant => "E"@,
        MoveFlag::Promote(pt) => seq![promo_letter(pt)],
    }
}

pub open spec fn flag_of(s: Seq<char>) -> Option<MoveFlag> {
    if s == "-"@ {
        Some(MoveFlag::Normal)
    } else if s == "K"@ {
        Some(MoveFlag::CastleK)
    } else if s == "Q"@ {
        Some(MoveFlag::CastleQ)
    } else if s == "E"@ {
        Some(MoveFlag::EnPassant)
    } else if s == "q"@ {
        Some(MoveFlag::Promote(PieceType::Queen))
    } else if s == "r"@ {
        Some(MoveFlag::Promote(PieceType::Rook))
    } else if s == "b"@ {
        Some(MoveFlag::Promote(PieceType::Bishop))
    } else if s == "n"@ {
        Some(MoveFlag::Promote(PieceType::Knight))
    } else {
        None
    }
}

pub open spec fn promo_of(s: Seq<char>) -> Option<PieceType> {
    if s == "q"@ || s == "Q"@ {
        Some(PieceType::Queen)
    } else if s == "r"@ || s == "R"@ {
        Some(PieceType::Rook)
    } else if s == "b"@ || s == "B"@ {
        Some(PieceType::Bishop)
    } else if s == "n"@ || s == "N"@ {
        Some(PieceType::Knight)
    } else {
        None
    }
}

pub fn promo_char(pt: PieceType) -> (c: char)
    ensures
        c == promo_letter(pt),
{
    match pt {
        PieceType::Queen => 'q',
        PieceType::Rook => 'r',
        PieceType::Bishop => 'b',
        PieceType::Knight => 'n',
        _ => '?',
    }
}

pub fn parse_promo(s: &str) -> (r: Option<PieceType>)
    ensures
        r == promo_of(s@),
{
    if crate::text::str_is(s, "q") || crate::text::str_is(s, "Q") {
        Some(PieceType::Queen)
    } else if crate::text::str_is(s, "r") || crate::text::str_is(s, "R") {
        Some(PieceType::Rook)
    } else if crate::text::str_is(s, "b") || crate::text::str_is(s, "B") {
        Some(PieceType::Bishop)
    } else if crate::text::str_is(s, "n") || crate::text::str_is(s, "N") {
        Some(PieceType::Knight)
    } else {
        None
    }
}

impl MoveFlag {
    pub fn as_str(self) -> (s: String)
        ensures
            s@ == flag_name(self),
    {
        match self {
            MoveFlag::Normal => String::from_str("-"),
            MoveFlag::CastleK => String::from_str("K"),
            MoveFlag::CastleQ => String::from_str("Q"),
            MoveFlag::EnPassant => String::from_str("E"),
            MoveFlag::Promote(pt) => {
                let mut v: Vec<char> = Vec::new();
                v.push(promo_char(pt));
                proof {
                    assert(v@ =~= seq![promo_letter(pt)]);
                }
                string_of(&v)
            },
        }
    }

    pub fn parse(s: &str) -> (r: Option<MoveFlag>)
        ensures
            r == flag_of(s@),
    {
        if crate::text::str_is(s, "-") {
            Some(MoveFlag::Normal)
        } else if crate::text::str_is(s, "K") {
            Some(MoveFlag::CastleK)
        } else if crate::text::str_is(s, "Q") {
            Some(MoveFlag::CastleQ)
        } else if crate::text::str_is(s, "E") {
            Some(MoveFlag::EnPassant)
        } else if crate::text::str_is(s, "q") {
            Some(MoveFlag::Promote(PieceType::Queen))
        } else if crate::text::str_is(s, "r") {
            Some(MoveFlag::Promote(PieceType::Rook))
        } else if crate::text::str_is(s, "b") {
            Some(MoveFlag::Promote(PieceType::Bishop))
        } else if crate::text::str_is(s, "n") {
            Some(MoveFlag::Promote(PieceType::Knight))
        } else {
            None
        }
    }
}

/// Each flag's name reads back as the flag (a promotion to a pawn or a
/// king has no name).
pub proof fn law_flag_round_trip(f: MoveFlag)
    requires
        !(f matches MoveFlag::Promote(pt) && (pt == PieceType::Pawn || pt == PieceType::King)),
    ensures
        flag_of(flag_name(f)) == Some(f),
{
    reveal_strlit("-");
    reveal_strlit("K");
    reveal_strlit("Q");
    reveal_strlit("E");
    reveal_strlit("q");
    reveal_strlit("r");
    reveal_strlit("b");
    reveal_strlit("n");
    assert("-"@[0] == '-' && "K"@[0] == 'K' && "Q"@[0] == 'Q' && "E"@[0] == 'E');
    assert("q"@[0] == 'q' && "r"@[0] == 'r' && "b"@[0] == 'b' && "n"@[0] == 'n');
    assert("K"@ != "-"@ && "Q"@ != "-"@ && "Q"@ != "K"@ && "E"@ != "-"@ && "E"@ != "K"@ && "E"@
        != "Q"@);
    match f {
        MoveFlag::Promote(pt) => {
            if pt == PieceType::Queen {
                assert(flag_name(f) =~= "q"@);
                assert("q"@ != "-"@ && "q"@ != "K"@ && "q"@ != "Q"@ && "q"@ != "E"@);
            } else if pt == PieceType::Rook {
                assert(flag_name(f) =~= "r"@);
                assert("r"@ != "-"@ && "r"@ != "K"@ && "r"@ != "Q"@ && "r"@ != "E"@ && "r"@ != "q"@);
            } else if pt == PieceType::Bishop {
                assert(flag_name(f) =~= "b"@);
                assert("b"@ != "-"@ && "b"@ != "K"@ && "b"@ != "Q"@ && "b"@ != "E"@ && "b"@ != "q"@
                    && "b"@ != "r"@);
            } else {
                assert(flag_name(f) =~= "n"@);
                assert("n"@ != "-"@ && "n"@ != "K"@ && "n"@ != "Q"@ && "n"@ != "E"@ && "n"@ != "q"@
                    && "n"@ != "r"@ && "n"@ != "b"@);
            }
        },
        _ => {},
    }
}

// ---------------------------------------------------------------------------
// Geometry and attacks
// ---------------------------------------------------------------------------

#[derive(Debug, Clone, Copy, PartialEq, Eq, Hash, Structural)]
pub struct CastleRights {
    pub wk: bool,
    pub wq: bool,
    pub bk: bool,
    pub bq: bool,
}

impl Default for CastleRights {
    fn default() -> (r: CastleRights)
        ensures
            r == (CastleRights { wk: false, wq: false, bk: false, bq: false }),
    {
        CastleRights { wk: false, wq: false, bk: false, bq: false }
    }
}

/// Back-rank squares shuffled in blind mode: a1..h1 and a8..h8 but the kings'.
pub const BLIND_SQUARES_WHITE: [u8; 7] = [0, 1, 2, 3, 5, 6, 7];

pub const BLIND_SQUARES_BLACK: [u8; 7] = [56, 57, 58, 59, 61, 62, 63];

/// The square `df` files and `dr` ranks from `s`, if on the board.
pub open spec fn add_sq(s: int, df: int, dr: int) -> Option<int> {
    let f = s % 8 + df;
    let r = s / 8 + dr;
    if 0 <= f < 8 && 0 <= r < 8 {
        Some(r * 8 + f)
    } else {
        None
    }
}

pub fn add(s: u8, df: i8, dr: i8) -> (r: Option<u8>)
    requires
        -128 <= (s % 8) + df < 128,
        -128 <= (s / 8) + dr < 128,
    ensures
        match add_sq(s as int, df as int, dr as int) {
            Some(t) => r == Some(t as u8),
            None => r is None,
        },
{
    let f = file_of(s) as i8 + df;
    let r = rank_of(s) as i8 + dr;
    if 0 <= f && f < 8 && 0 <= r && r < 8 {
        Some(sq(f as u8, r as u8))
    } else {
        None
    }
}

/// The square `(df, dr)` from `t` holds `p`.
pub open spec fn hits(b: Board, t: int, df: int, dr: int, p: Piece) -> bool {
    match add_sq(t, df, dr) {
        Some(s) => b[s] == Some(p),
        None => false,
    }
}

pub open spec fn knight_hits(b: Board, t: int, p: Piece) -> bool {
    ||| hits(b, t, 1, 2, p)
    ||| hits(b, t, 2, 1, p)
    ||| hits(b, t, 2, -1, p)
    ||| hits(b, t, 1, -2, p)
    ||| hits(b, t, -1, -2, p)
    ||| hits(b, t, -2, -1, p)
    ||| hits(b, t, -2, 1, p)
    ||| hits(b, t, -1, 2, p)
}

pub open spec fn king_hits(b: Board, t: int, p: Piece) -> bool {
    ||| hits(b, t, 1, 0, p)
    ||| hits(b, t, 1, 1, p)
    ||| hits(b, t, 0, 1, p)
    ||| hits(b, t, -1, 1, p)
    ||| hits(b, t, -1, 0, p)
    ||| hits(b, t, -1, -1, p)
    ||| hits(b, t, 0, -1, p)
    ||| hits(b, t, 1, -1, p)
}

/// Walking from `s` in direction `(df, dr)`, the first piece met is one of
/// `by`'s pieces of type `a` or `q` (at most `fuel` steps).
pub open spec fn ray_hits(b: Board, s: int, df: int, dr: int, by: Color, a: PieceType, q: PieceType, fuel: nat) -> bool
    decreases fuel,
{
    if fuel == 0 {
        false
    } else {
        match add_sq(s, df, dr) {
            None => false,
            Some(n) => match b[n] {
                None => ray_hits(b, n, df, dr, by, a, q, (fuel - 1) as nat),
                Some(pc) => pc.0 == by && (pc.1 == a || pc.1 == q),
            },
        }
    }
}

pub open spec fn diag_hits(b: Board, t: int, by: Color) -> bool {
    let (bi, qu) = (PieceType::Bishop, PieceType::Queen);
    ||| ray_hits(b, t, 1, 1, by, bi, qu, 8)
    ||| ray_hits(b, t, 1, -1, by, bi, qu, 8)
    ||| ray_hits(b, t, -1, 1, by, bi, qu, 8)
    ||| ray_hits(b, t, -1, -1, by, bi, qu, 8)
}

pub open spec fn line_hits(b: Board, t: int, by: Color) -> bool {
    let (ro, qu) = (PieceType::Rook, PieceType::Queen);
    ||| ray_hits(b, t, 1, 0, by, ro, qu, 8)
    ||| ray_hits(b, t, -1, 0, by, ro, qu, 8)
    ||| ray_hits(b, t, 0, 1, by, ro, qu, 8)
    ||| ray_hits(b, t, 0, -1, by, ro, qu, 8)
}

/// `by` attacks `t`: a pawn diagonally behind it (from `by`'s side), a
/// knight or king at the right offset, or a slider with a clear line.
pub open spec fn attacked(b: Board, t: int, by: Color) -> bool {
    let pawn_dr = if by == Color::White {
        1int
    } else {
        -1int
    };
    ||| hits(b, t, 1, -pawn_dr, (by, PieceType::Pawn))
    ||| hits(b, t, -1, -pawn_dr, (by, PieceType::Pawn))
    ||| knight_hits(b, t, (by, PieceType::Knight))
    ||| king_hits(b, t, (by, PieceType::King))
    ||| diag_hits(b, t, by)
    ||| line_hits(b, t, by)
}

fn hits_exec(board: &[Option<Piece>; BOARD], t: u8, df: i8, dr: i8, p: Piece) -> (h: bool)
    requires
        t < 64,
        -2 <= df <= 2,
        -2 <= dr <= 2,
    ensures
        h == hits(board@, t as int, df as int, dr as int, p),
{
    match self::add(t, df, dr) {
        Some(s) => piece_is(board[s as usize], p),
        None => false,
    }
}

/// Whether a square's content is exactly `p`.
fn piece_is(x: Option<Piece>, p: Piece) -> (b: bool)
    ensures
        b == (x == Some(p)),
{
    match x {
        Some(q) => q.0 == p.0 && q.1 == p.1,
        None => false,
    }
}

fn ray_exec(board: &[Option<Piece>; BOARD], t: u8, df: i8, dr: i8, by: Color, a: PieceType, q: PieceType) -> (h: bool)
    requires
        t < 64,
        -1 <= df <= 1,
        -1 <= dr <= 1,
    ensures
        h == ray_hits(board@, t as int, df as int, dr as int, by, a, q, 8),
{
    let mut s = t;
    let mut k: u8 = 0;
    while k < 8
        invariant
            k <= 8,
            s < 64,
            -1 <= df <= 1,
            -1 <= dr <= 1,
            ray_hits(board@, t as int, df as int, dr as int, by, a, q, 8) == ray_hits(
                board@,
                s as int,
                df as int,
                dr as int,
                by,
                a,
                q,
                (8 - k) as nat,
            ),
        decreases 8 - k,
    {
        let n = match self::add(s, df, dr) {
            Some(n) => n,
            None => {
                return false;
            },
        };
        match board[n as usize] {
            Some(pc) => {
                return pc.0 == by && (pc.1 == a || pc.1 == q);
            },
            None => {},
        }
        s = n;
        k += 1;
    }
    false
}

pub fn is_attacked(board: &[Option<Piece>; BOARD], target: u8, by: Color) -> (a: bool)
    requires
        target < 64,
    ensures
        a == attacked(board@, target as int, by),
{
    let pawn_dr: i8 = if by == Color::White {
        1
    } else {
        -1
    };
    let t = target;
    let pawn = (by, PieceType::Pawn);
    let knight = (by, PieceType::Knight);
    let king = (by, PieceType::King);
    hits_exec(board, t, 1, -pawn_dr, pawn) || hits_exec(board, t, -1, -pawn_dr, pawn) || hits_exec(
        board,
        t,
        1,
        2,
        knight,
    ) || hits_exec(board, t, 2, 1, knight) || hits_exec(board, t, 2, -1, knight) || hits_exec(
        board,
        t,
        1,
        -2,
        knight,
    ) || hits_exec(board, t, -1, -2, knight) || hits_exec(board, t, -2, -1, knight) || hits_exec(
        board,
        t,
        -2,
        1,
        knight,
    ) || hits_exec(board, t, -1, 2, knight) || hits_exec(board, t, 1, 0, king) || hits_exec(
        board,
        t,
        1,
        1,
        king,
    ) || hits_exec(board, t, 0, 1, king) || hits_exec(board, t, -1, 1, king) || hits_exec(
        board,
        t,
        -1,
        0,
        king,
    ) || hits_exec(board, t, -1, -1, king) || hits_exec(board, t, 0, -1, king) || hits_exec(
        board,
        t,
        1,
        -1,
        king,
    ) || ray_exec(board, t, 1, 1, by, PieceType::Bishop, PieceType::Queen) || ray_exec(
        board,
        t,
        1,
        -1,
        by,
        PieceType::Bishop,
        PieceType::Queen,
    ) || ray_exec(board, t, -1, 1, by, PieceType::Bishop, PieceType::Queen) || ray_exec(
        board,
        t,
        -1,
        -1,
        by,
        PieceType::Bishop,
        PieceType::Queen,
    ) || ray_exec(board, t, 1, 0, by, PieceType::Rook, PieceType::Queen) || ray_exec(
        board,
        t,
        -1,
        0,
        by,
        PieceType::Rook,
        PieceType::Queen,
    ) || ray_exec(board, t, 0, 1, by, PieceType::Rook, PieceType::Queen) || ray_exec(
        board,
        t,
        0,
        -1,
        by,
        PieceType::Rook,
        PieceType::Queen,
    )
}

/// The first square (from `k` on) holding `c`'s king.
pub open spec fn king_from(b: Board, c: Color, k: int) -> Option<int>
    decreases 64 - k,
{
    if k < 0 || k >= 64 {
        None
    } else if b[k] == Some((c, PieceType::King)) {
        Some(k)
    } else {
        king_from(b, c, k + 1)
    }
}

/// `c`'s king is attacked; with no king, `c` is not in check.
pub open spec fn checked(b: Board, c: Color) -> bool {
    match king_from(b, c, 0) {
        Some(k) => attacked(b, k, opposite(c)),
        None => false,
    }
}

pub fn king_square(board: &[Option<Piece>; BOARD], color: Color) -> (r: Option<u8>)
    ensures
        match king_from(board@, color, 0) {
            Some(k) => r == Some(k as u8) && 0 <= k < 64,
            None => r is None,
        },
{
    let mut k: usize = 0;
    while k < BOARD
        invariant
            k <= BOARD,
            king_from(board@, color, 0) == king_from(board@, color, k as int),
        decreases BOARD - k,
    {
        if piece_is(board[k], (color, PieceType::King)) {
            return Some(k as u8);
        }
        k += 1;
    }
    None
}

pub fn in_check(board: &[Option<Piece>; BOARD], color: Color) -> (c: bool)
    ensures
        c == checked(board@, color),
{
    match king_square(board, color) {
        Some(k) => is_attacked(board, k, color.other()),
        None => false,
    }
}


// ---------------------------------------------------------------------------
// Applying moves
// ---------------------------------------------------------------------------

/// The board after `flag`'s move from `from` to `to`: the piece moves (a
/// promotion changes its type), a castling rook jumps next to the king, and
/// an en-passant capture removes the pawn behind `to`.
pub open spec fn moved_board(b: Board, from: int, to: int, flag: MoveFlag) -> Board {
    let piece = b[from];
    let b1 = b.update(from, None).update(to, piece);
    let rank = to / 8;
    match flag {
        MoveFlag::CastleK => b1.update(rank * 8 + 7, None).update(rank * 8 + 5, b1[rank * 8 + 7]),
        MoveFlag::CastleQ => b1.update(rank * 8, None).update(rank * 8 + 3, b1[rank * 8]),
        MoveFlag::EnPassant => match piece {
            Some(p) => {
                let cap = if p.0 == Color::White {
                    rank - 1
                } else {
                    rank + 1
                };
                b1.update(cap * 8 + to % 8, None)
            },
            None => b1,
        },
        MoveFlag::Promote(pt) => match piece {
            Some(p) => b1.update(to, Some((p.0, pt))),
            None => b1,
        },
        MoveFlag::Normal => b1,
    }
}

/// The move captures: its target is occupied, or it is en passant.
pub open spec fn is_capture(b: Board, to: int, flag: MoveFlag) -> bool {
    b[to] is Some || flag == MoveFlag::EnPassant
}

pub open spec fn is_pawn_move(b: Board, from: int) -> bool {
    b[from] matches Some(p) && p.1 == PieceType::Pawn
}

pub open spec fn apply_ok(b: Board, from: int, to: int, flag: MoveFlag) -> bool {
    &&& 0 <= from < 64
    &&& 0 <= to < 64
    &&& (flag == MoveFlag::EnPassant ==> match b[from] {
        Some(p) => if p.0 == Color::White {
            to / 8 >= 1
        } else {
            to / 8 <= 6
        },
        None => true,
    })
}

/// Law: castling moves the king two files from the e-file and the rook
/// over it: kingside the king goes e to g and the rook h to f, queenside
/// the king goes e to c and the rook a to d, on the king's rank. The rook's
/// and king's old squares are left empty and every other square is as it was.
pub proof fn law_castling(b: Board, rank: int)
    requires
        b.len() == 64,
        0 <= rank < 8,
    ensures
        ({
            let k = moved_board(b, rank * 8 + 4, rank * 8 + 6, MoveFlag::CastleK);
            &&& k[rank * 8 + 6] == b[rank * 8 + 4]
            &&& k[rank * 8 + 5] == b[rank * 8 + 7]
            &&& k[rank * 8 + 4] is None
            &&& k[rank * 8 + 7] is None
            &&& forall|i: int|
                0 <= i < 64 && i != rank * 8 + 4 && i != rank * 8 + 5 && i != rank * 8 + 6 && i != rank
                    * 8 + 7 ==> #[trigger] k[i] == b[i]
        }),
        ({
            let q = moved_board(b, rank * 8 + 4, rank * 8 + 2, MoveFlag::CastleQ);
            &&& q[rank * 8 + 2] == b[rank * 8 + 4]
            &&& q[rank * 8 + 3] == b[rank * 8]
            &&& q[rank * 8 + 4] is None
            &&& q[rank * 8] is None
            &&& forall|i: int|
                0 <= i < 64 && i != rank * 8 && i != rank * 8 + 2 && i != rank * 8 + 3 && i != rank * 8
                    + 4 ==> #[trigger] q[i] == b[i]
        }),
{
    assert((rank * 8 + 6) / 8 == rank);
    assert((rank * 8 + 2) / 8 == rank);
}

pub fn apply_move(board: &[Option<Piece>; BOARD], from: u8, to: u8, flag: MoveFlag) -> (r: (
    [Option<Piece>; BOARD],
    bool,
    bool,
))
    requires
        apply_ok(board@, from as int, to as int, flag),
    ensures
        r.0@ == moved_board(board@, from as int, to as int, flag),
        r.1 == is_capture(board@, to as int, flag),
        r.2 == is_pawn_move(board@, from as int),
{
    let mut b = *board;
    let piece = b[from as usize];
    let capture = b[to as usize].is_some() || flag == MoveFlag::EnPassant;
    let pawn_move = match piece {
        Some(p) => p.1 == PieceType::Pawn,
        None => false,
    };
    b[from as usize] = None;
    b[to as usize] = piece;
    let rank = rank_of(to);
    match flag {
        MoveFlag::CastleK => {
            let rook = b[sq(7, rank) as usize];
            b[sq(7, rank) as usize] = None;
            b[sq(5, rank) as usize] = rook;
        },
        MoveFlag::CastleQ => {
            let rook = b[sq(0, rank) as usize];
            b[sq(0, rank) as usize] = None;
            b[sq(3, rank) as usize] = rook;
        },
        MoveFlag::EnPassant => {
            match piece {
                Some(p) => {
                    let cap_rank = if p.0 == Color::White {
                        rank - 1
                    } else {
                        rank + 1
                    };
                    b[sq(file_of(to), cap_rank) as usize] = None;
                },
                None => {},
            }
        },
        MoveFlag::Promote(pt) => {
            match piece {
                Some(p) => {
                    b[to as usize] = Some((p.0, pt));
                },
                None => {},
            }
        },
        MoveFlag::Normal => {},
    }
    proof {
        assert(b@ =~= moved_board(board@, from as int, to as int, flag));
    }
    (b, capture, pawn_move)
}

/// Rights are lost when the king moves, or when a rook's home square is
/// left or captured on.
pub open spec fn rights_after(r: CastleRights, from: int, to: int, piece: Piece) -> CastleRights {
    let king_w = piece == (Color::White, PieceType::King);
    let king_b = piece == (Color::Black, PieceType::King);
    let touched = |s: int| from == s || to == s;
    CastleRights {
        wk: r.wk && !king_w && !touched(7),
        wq: r.wq && !king_w && !touched(0),
        bk: r.bk && !king_b && !touched(63),
        bq: r.bq && !king_b && !touched(56),
    }
}

pub fn update_castle_rights(rights: CastleRights, from: u8, to: u8, piece: Piece) -> (r: CastleRights)
    ensures
        r == rights_after(rights, from as int, to as int, piece),
{
    let mut r = rights;
    if piece.0 == Color::White && piece.1 == PieceType::King {
        r.wk = false;
        r.wq = false;
    }
    if piece.0 == Color::Black && piece.1 == PieceType::King {
        r.bk = false;
        r.bq = false;
    }
    if from == 0 || to == 0 {
        r.wq = false;
    }
    if from == 7 || to == 7 {
        r.wk = false;
    }
    if from == 56 || to == 56 {
        r.bq = false;
    }
    if from == 63 || to == 63 {
        r.bk = false;
    }
    r
}

/// After a pawn's double step, the square it passed over; else none.
pub open spec fn ep_target(piece: Piece, from: int, to: int) -> Option<u8> {
    let dr = to / 8 - from / 8;
    if piece.1 == PieceType::Pawn && (dr == 2 || dr == -2) {
        Some(((from / 8 + dr / 2) * 8 + from % 8) as u8)
    } else {
        None
    }
}

pub fn ep_after_move(piece: Piece, from: u8, to: u8) -> (r: Option<u8>)
    requires
        from < 64,
        to < 64,
    ensures
        r == ep_target(piece, from as int, to as int),
{
    if piece.1 != PieceType::Pawn {
        return None;
    }
    let dr: i8 = rank_of(to) as i8 - rank_of(from) as i8;
    if dr != 2 && dr != -2 {
        return None;
    }
    let r = if dr == 2 {
        rank_of(from) + 1
    } else {
        rank_of(from) - 1
    };
    Some(sq(file_of(from), r))
}

// ---------------------------------------------------------------------------
// Which moves the rules allow
// ---------------------------------------------------------------------------

pub type Mv = (u8, u8, MoveFlag);

/// `s` holds one of `c`'s pieces.
pub open spec fn own(b: Board, s: int, c: Color) -> bool {
    b[s] matches Some(p) && p.0 == c
}

/// One step `(df, dr)` from `f` lands on `t`, which `c` does not occupy.
pub open spec fn step_to(b: Board, c: Color, f: int, df: int, dr: int, t: int) -> bool {
    add_sq(f, df, dr) == Some(t) && !own(b, t, c)
}

pub open spec fn knight_to(b: Board, c: Color, f: int, t: int) -> bool {
    ||| step_to(b, c, f, 1, 2, t)
    ||| step_to(b, c, f, 2, 1, t)
    ||| step_to(b, c, f, 2, -1, t)
    ||| step_to(b, c, f, 1, -2, t)
    ||| step_to(b, c, f, -1, -2, t)
    ||| step_to(b, c, f, -2, -1, t)
    ||| step_to(b, c, f, -2, 1, t)
    ||| step_to(b, c, f, -1, 2, t)
}

pub open spec fn king_to(b: Board, c: Color, f: int, t: int) -> bool {
    ||| step_to(b, c, f, 1, 0, t)
    ||| step_to(b, c, f, 1, 1, t)
    ||| step_to(b, c, f, 0, 1, t)
    ||| step_to(b, c, f, -1, 1, t)
    ||| step_to(b, c, f, -1, 0, t)
    ||| step_to(b, c, f, -1, -1, t)
    ||| step_to(b, c, f, 0, -1, t)
    ||| step_to(b, c, f, 1, -1, t)
}

/// `x` moved `j` steps in direction `d` (-1, 0 or 1).
pub open spec fn off(x: int, d: int, j: int) -> int {
    if d > 0 {
        x + j
    } else if d < 0 {
        x - j
    } else {
        x
    }
}

pub open spec fn on8(f: int, r: int) -> bool {
    0 <= f < 8 && 0 <= r < 8
}

/// How many steps along `(df, dr)` lead from `s` to `t` (0 when `t` is not
/// ahead on that line).
pub open spec fn walk_dist(s: int, df: int, dr: int, t: int) -> int {
    let k = if df > 0 {
        t % 8 - s % 8
    } else if df < 0 {
        s % 8 - t % 8
    } else if dr > 0 {
        t / 8 - s / 8
    } else {
        s / 8 - t / 8
    };
    if k >= 1 && off(s % 8, df, k) == t % 8 && off(s / 8, dr, k) == t / 8 {
        k
    } else {
        0
    }
}

/// Pieces on the squares strictly between `s` and `k` steps along `(df, dr)`.
pub open spec fn blockers(b: Board, s: int, df: int, dr: int, k: int) -> nat
    decreases k,
{
    if k <= 1 {
        0
    } else {
        blockers(b, s, df, dr, k - 1) + if b[off(s / 8, dr, k - 1) * 8 + off(s % 8, df, k - 1)] is Some {
            1nat
        } else {
            0nat
        }
    }
}

/// A slider on `s` reaches `t` along `(df, dr)`: nothing in between, and
/// `t` is not `c`'s own.
pub open spec fn slide_to(b: Board, c: Color, s: int, df: int, dr: int, t: int) -> bool {
    let k = walk_dist(s, df, dr, t);
    0 <= t < 64 && k >= 1 && !own(b, t, c) && blockers(b, s, df, dr, k) == 0
}

pub open spec fn diag_to(b: Board, c: Color, s: int, t: int) -> bool {
    ||| slide_to(b, c, s, 1, 1, t)
    ||| slide_to(b, c, s, 1, -1, t)
    ||| slide_to(b, c, s, -1, 1, t)
    ||| slide_to(b, c, s, -1, -1, t)
}

pub open spec fn line_to(b: Board, c: Color, s: int, t: int) -> bool {
    ||| slide_to(b, c, s, 1, 0, t)
    ||| slide_to(b, c, s, -1, 0, t)
    ||| slide_to(b, c, s, 0, 1, t)
    ||| slide_to(b, c, s, 0, -1, t)
}

pub open spec fn pawn_dir(c: Color) -> int {
    if c == Color::White {
        1
    } else {
        -1
    }
}

pub open spec fn promo_rank(c: Color) -> int {
    if c == Color::White {
        7
    } else {
        0
    }
}

pub open spec fn start_rank(c: Color) -> int {
    if c == Color::White {
        1
    } else {
        6
    }
}

pub open spec fn is_promo_piece(pt: PieceType) -> bool {
    pt == PieceType::Queen || pt == PieceType::Rook || pt == PieceType::Bishop || pt == PieceType::Knight
}

/// A pawn reaching its last rank promotes (to a queen, rook, bishop or
/// knight); any other pawn move is a plain one.
pub open spec fn promo_ok(c: Color, t: int, flag: MoveFlag) -> bool {
    if t / 8 == promo_rank(c) {
        flag matches MoveFlag::Promote(pt) && is_promo_piece(pt)
    } else {
        flag == MoveFlag::Normal
    }
}

/// A pawn capture diagonally toward `df`: onto an enemy piece (promoting
/// on the last rank), or en passant onto the target square.
pub open spec fn pawn_cap(b: Board, ep: Option<u8>, c: Color, f: int, df: int, t: int, flag: MoveFlag) -> bool {
    add_sq(f, df, pawn_dir(c)) == Some(t) && (((b[t] matches Some(p) && p.0 != c) && promo_ok(c, t, flag))
        || (ep == Some(t as u8) && flag == MoveFlag::EnPassant))
}

/// Pawn moves: a push onto an empty square, a double push from the start
/// rank over an empty square, or a diagonal capture.
pub open spec fn pawn_to(b: Board, ep: Option<u8>, c: Color, f: int, t: int, flag: MoveFlag) -> bool {
    let dir = pawn_dir(c);
    ||| add_sq(f, 0, dir) == Some(t) && b[t] is None && promo_ok(c, t, flag)
    ||| f / 8 == start_rank(c) && (add_sq(f, 0, dir) matches Some(t1) && b[t1] is None) && add_sq(
        f,
        0,
        2 * dir,
    ) == Some(t) && b[t] is None && flag == MoveFlag::Normal
    ||| pawn_cap(b, ep, c, f, -1, t, flag)
    ||| pawn_cap(b, ep, c, f, 1, t, flag)
}

pub open spec fn home_rank(c: Color) -> int {
    if c == Color::White {
        0
    } else {
        7
    }
}

/// Castling: the king on its home square, not in check, the right kept,
/// the squares between king and rook empty, the rook at home, and the
/// squares the king crosses not attacked.
pub open spec fn castle_to(b: Board, rights: CastleRights, c: Color, f: int, t: int, flag: MoveFlag) -> bool {
    let r = home_rank(c) * 8;
    let opp = opposite(c);
    let (ks, qs) = if c == Color::White {
        (rights.wk, rights.wq)
    } else {
        (rights.bk, rights.bq)
    };
    f == r + 4 && !checked(b, c) && {
        ||| flag == MoveFlag::CastleK && t == r + 6 && ks && b[r + 5] is None && b[r + 6] is None
            && b[r + 7] == Some((c, PieceType::Rook)) && !attacked(b, r + 5, opp) && !attacked(
            b,
            r + 6,
            opp,
        )
        ||| flag == MoveFlag::CastleQ && t == r + 2 && qs && b[r + 1] is None && b[r + 2] is None
            && b[r + 3] is None && b[r] == Some((c, PieceType::Rook)) && !attacked(b, r + 3, opp)
            && !attacked(b, r + 2, opp)
    }
}

/// The piece of `c` on `f` may move to `t` with `flag` by its movement rule
/// (before the king's safety is checked).
pub open spec fn pseudo_move(b: Board, rights: CastleRights, ep: Option<u8>, c: Color, f: int, t: int, flag: MoveFlag) -> bool {
    match b[f] {
        None => false,
        Some(p) => p.0 == c && match p.1 {
            PieceType::Pawn => pawn_to(b, ep, c, f, t, flag),
            PieceType::Knight => flag == MoveFlag::Normal && knight_to(b, c, f, t),
            PieceType::Bishop => flag == MoveFlag::Normal && diag_to(b, c, f, t),
            PieceType::Rook => flag == MoveFlag::Normal && line_to(b, c, f, t),
            PieceType::Queen => flag == MoveFlag::Normal && (diag_to(b, c, f, t) || line_to(b, c, f, t)),
            PieceType::King => (flag == MoveFlag::Normal && king_to(b, c, f, t)) || castle_to(
                b,
                rights,
                c,
                f,
                t,
                flag,
            ),
        },
    }
}

/// A legal move for `c`: allowed by the piece's rule, and not leaving
/// `c`'s king attacked.
pub open spec fn legal_move(b: Board, rights: CastleRights, ep: Option<u8>, c: Color, f: int, t: int, flag: MoveFlag) -> bool {
    0 <= f < 64 && pseudo_move(b, rights, ep, c, f, t, flag) && !checked(moved_board(b, f, t, flag), c)
}

pub open spec fn has_legal(b: Board, rights: CastleRights, ep: Option<u8>, c: Color) -> bool {
    exists|f: int, t: int, flag: MoveFlag|
        #![trigger legal_move(b, rights, ep, c, f, t, flag)]
        legal_move(b, rights, ep, c, f, t, flag)
}


// ---------------------------------------------------------------------------
// The room state
// ---------------------------------------------------------------------------

#[derive(Debug, Clone, Copy, PartialEq, Eq, Structural)]
pub enum Phase {
    Lobby,
    Playing,
    Finished,
}

#[derive(Debug, Clone)]
pub struct State {
    pub phase: Phase,
    pub players: Vec<String>,
    pub host: Option<String>,
    /// The true pieces.
    pub board: [Option<Piece>; BOARD],
    pub turn: Color,
    pub castle: CastleRights,
    /// The square a pawn passed over on its double step, if the last move was one.
    pub en_passant: Option<u8>,
    /// Halfmoves since the last capture or pawn move.
    pub halfmove: u32,
    pub winner: Option<u8>,
    /// Position hashes since the last capture or pawn move.
    pub history: Vec<u64>,
    pub time_config: TimeConfig,
    /// Blind variant: the type each unmoved back-rank piece shows.
    pub facade: BTreeMap<u8, PieceType>,
}

pub struct Chess;

// ---------------------------------------------------------------------------
// Generating moves
// ---------------------------------------------------------------------------

pub open spec fn added(o: Seq<Mv>, n: Seq<Mv>, m: Mv, new: bool) -> bool {
    n.contains(m) <==> (o.contains(m) || new)
}

proof fn lemma_push_has<T>(s: Seq<T>, x: T)
    ensures
        forall|m: T| #[trigger] s.push(x).contains(m) <==> (s.contains(m) || m == x),
{
    crate::xiangqi::lemma_push_contains(s, x);
}

fn own_exec(board: &[Option<Piece>; BOARD], s: u8, c: Color) -> (r: bool)
    requires
        s < 64,
    ensures
        r == own(board@, s as int, c),
{
    match board[s as usize] {
        Some(p) => p.0 == c,
        None => false,
    }
}

/// Adds the single step `(df, dr)` from `from` when it is open for `c`.
fn try_step(board: &[Option<Piece>; BOARD], c: Color, from: u8, df: i8, dr: i8, out: &mut Vec<Mv>)
    requires
        from < 64,
        -2 <= df <= 2,
        -2 <= dr <= 2,
    ensures
        forall|m: Mv|
            #![trigger final(out)@.contains(m)]
            added(old(out)@, final(out)@, m, m.0 == from && m.2 == MoveFlag::Normal && step_to(
                board@,
                c,
                from as int,
                df as int,
                dr as int,
                m.1 as int,
            )),
{
    match self::add(from, df, dr) {
        Some(t) => {
            proof {
                lemma_push_has(out@, (from, t, MoveFlag::Normal));
            }
            if !own_exec(board, t, c) {
                out.push((from, t, MoveFlag::Normal));
            }
        },
        None => {},
    }
}

proof fn lemma_blockers_mono(b: Board, s: int, df: int, dr: int, a: int, k: int)
    requires
        a <= k,
    ensures
        blockers(b, s, df, dr, a) <= blockers(b, s, df, dr, k),
    decreases k - a,
{
    if a < k {
        lemma_blockers_mono(b, s, df, dr, a, k - 1);
    }
}

fn off_exec(x: i64, d: i64, j: i64) -> (r: i64)
    requires
        -100 <= x <= 100,
        -1 <= d <= 1,
        0 <= j <= 100,
    ensures
        r == off(x as int, d as int, j as int),
{
    if d > 0 {
        x + j
    } else if d < 0 {
        x - j
    } else {
        x
    }
}

pub open spec fn unit_dir(df: int, dr: int) -> bool {
    -1 <= df <= 1 && -1 <= dr <= 1 && (df != 0 || dr != 0)
}

/// Adds the squares a slider on `from` reaches along `(df, dr)`.
#[verifier::spinoff_prover]
#[verifier::rlimit(60)]
fn slide_dir(board: &[Option<Piece>; BOARD], c: Color, from: u8, df: i64, dr: i64, out: &mut Vec<Mv>)
    requires
        from < 64,
        unit_dir(df as int, dr as int),
    ensures
        forall|m: Mv|
            #![trigger final(out)@.contains(m)]
            added(old(out)@, final(out)@, m, m.0 == from && m.2 == MoveFlag::Normal && slide_to(
                board@,
                c,
                from as int,
                df as int,
                dr as int,
                m.1 as int,
            )),
{
    let ghost b = board@;
    let ghost o = out@;
    let ghost s = from as int;
    let sf = (from % 8) as i64;
    let sr = (from / 8) as i64;
    let mut n: i64 = 1;
    loop
        invariant_except_break
            forall|m: Mv|
                #![trigger out@.contains(m)]
                added(o, out@, m, m.0 == from && m.2 == MoveFlag::Normal && 0 <= m.1 < 64 && 1
                    <= walk_dist(s, df as int, dr as int, m.1 as int) < n),
        invariant
            from < 64,
            s == from as int,
            sf == s % 8,
            sr == s / 8,
            unit_dir(df as int, dr as int),
            b == board@,
            1 <= n <= 9,
            forall|j: int| 1 <= j < n ==> on8(off(sf as int, df as int, j), off(sr as int, dr as int, j)),
            forall|j: int|
                1 <= j < n ==> (#[trigger] b[off(sr as int, dr as int, j) * 8 + off(sf as int, df as int, j)]) is None,
            blockers(b, s, df as int, dr as int, n as int) == 0,
        ensures
            forall|m: Mv|
                #![trigger out@.contains(m)]
                added(o, out@, m, m.0 == from && m.2 == MoveFlag::Normal && slide_to(
                    b,
                    c,
                    s,
                    df as int,
                    dr as int,
                    m.1 as int,
                )),
        decreases 9 - n,
    {
        let nf = off_exec(sf, df, n);
        let nr = off_exec(sr, dr, n);
        if !(0 <= nf && nf < 8 && 0 <= nr && nr < 8) {
            proof {
                assert forall|m: Mv|
                    #![trigger out@.contains(m)]
                    added(o, out@, m, m.0 == from && m.2 == MoveFlag::Normal && slide_to(
                        b,
                        c,
                        s,
                        df as int,
                        dr as int,
                        m.1 as int,
                    )) by {
                    let t = m.1 as int;
                    let k = walk_dist(s, df as int, dr as int, t);
                    if 1 <= k < n && 0 <= t < 64 {
                        assert(b[off(sr as int, dr as int, k) * 8 + off(sf as int, df as int, k)] is None);
                        assert(t == off(sr as int, dr as int, k) * 8 + off(sf as int, df as int, k));
                        lemma_blockers_mono(b, s, df as int, dr as int, k, n as int);
                    }
                }
            }
            break;
        }
        let t = (nr * 8 + nf) as u8;
        proof {
            lemma_push_has(out@, (from, t, MoveFlag::Normal));
            assert(walk_dist(s, df as int, dr as int, t as int) == n);
        }
        match board[t as usize] {
            None => {
                out.push((from, t, MoveFlag::Normal));
                n = n + 1;
                proof {
                    assert(blockers(b, s, df as int, dr as int, n as int) == blockers(
                        b,
                        s,
                        df as int,
                        dr as int,
                        (n - 1) as int,
                    ));
                }
            },
            Some(p) => {
                if p.0 != c {
                    out.push((from, t, MoveFlag::Normal));
                }
                proof {
                    assert(blockers(b, s, df as int, dr as int, n + 1) == 1);
                    assert forall|m: Mv|
                        #![trigger out@.contains(m)]
                        added(o, out@, m, m.0 == from && m.2 == MoveFlag::Normal && slide_to(
                            b,
                            c,
                            s,
                            df as int,
                            dr as int,
                            m.1 as int,
                        )) by {
                        let u = m.1 as int;
                        let k = walk_dist(s, df as int, dr as int, u);
                        if 1 <= k < n && 0 <= u < 64 {
                            assert(b[off(sr as int, dr as int, k) * 8 + off(sf as int, df as int, k)] is None);
                            assert(u == off(sr as int, dr as int, k) * 8 + off(sf as int, df as int, k));
                            lemma_blockers_mono(b, s, df as int, dr as int, k, n as int);
                        }
                        if k > n {
                            lemma_blockers_mono(b, s, df as int, dr as int, n + 1, k);
                        }
                        if k == n && 0 <= u < 64 {
                            assert(u == t);
                        }
                    }
                }
                break;
            },
        }
    }
}


/// Adds the pawn move `from -> to`: four promotions on the last rank, else
/// a plain move.
fn push_pawn(from: u8, to: u8, promo_rank: u8, out: &mut Vec<Mv>)
    ensures
        forall|m: Mv|
            #![trigger final(out)@.contains(m)]
            added(old(out)@, final(out)@, m, m.0 == from && m.1 == to && if to / 8 == promo_rank {
                m.2 matches MoveFlag::Promote(pt) && is_promo_piece(pt)
            } else {
                m.2 == MoveFlag::Normal
            }),
{
    let ghost o = out@;
    if rank_of(to) == promo_rank {
        out.push((from, to, MoveFlag::Promote(PieceType::Queen)));
        out.push((from, to, MoveFlag::Promote(PieceType::Rook)));
        out.push((from, to, MoveFlag::Promote(PieceType::Bishop)));
        out.push((from, to, MoveFlag::Promote(PieceType::Knight)));
        proof {
            let q = (from, to, MoveFlag::Promote(PieceType::Queen));
            let r = (from, to, MoveFlag::Promote(PieceType::Rook));
            let bi = (from, to, MoveFlag::Promote(PieceType::Bishop));
            let n = (from, to, MoveFlag::Promote(PieceType::Knight));
            lemma_push_has(o, q);
            lemma_push_has(o.push(q), r);
            lemma_push_has(o.push(q).push(r), bi);
            lemma_push_has(o.push(q).push(r).push(bi), n);
            assert(out@ =~= o.push(q).push(r).push(bi).push(n));
        }
    } else {
        proof {
            lemma_push_has(o, (from, to, MoveFlag::Normal));
        }
        out.push((from, to, MoveFlag::Normal));
    }
}

fn is_empty_sq(board: &[Option<Piece>; BOARD], s: u8) -> (r: bool)
    requires
        s < 64,
    ensures
        r == (board@[s as int] is None),
{
    board[s as usize].is_none()
}

/// Adds the diagonal captures toward `df` of the pawn on `from`.
fn pawn_capture(state: &State, from: u8, c: Color, df: i8, promo: u8, out: &mut Vec<Mv>)
    requires
        from < 64,
        df == -1 || df == 1,
        promo as int == promo_rank(c),
    ensures
        forall|m: Mv|
            #![trigger final(out)@.contains(m)]
            added(old(out)@, final(out)@, m, m.0 == from && pawn_cap(
                state.board@,
                state.en_passant,
                c,
                from as int,
                df as int,
                m.1 as int,
                m.2,
            )),
{
    let dir: i8 = if c == Color::White {
        1
    } else {
        -1
    };
    match self::add(from, df, dir) {
        Some(t) => {
            match state.board[t as usize] {
                Some(p) => {
                    if p.0 != c {
                        push_pawn(from, t, promo, out);
                    }
                },
                None => {},
            }
            if state.en_passant == Some(t) {
                proof {
                    lemma_push_has(out@, (from, t, MoveFlag::EnPassant));
                }
                out.push((from, t, MoveFlag::EnPassant));
            }
        },
        None => {},
    }
}

/// Adds the pawn moves from `from` for `c`.
fn gen_pawn(state: &State, from: u8, c: Color, out: &mut Vec<Mv>)
    requires
        from < 64,
    ensures
        forall|m: Mv|
            #![trigger final(out)@.contains(m)]
            added(old(out)@, final(out)@, m, m.0 == from && pawn_to(
                state.board@,
                state.en_passant,
                c,
                from as int,
                m.1 as int,
                m.2,
            )),
{
    let dir: i8 = if c == Color::White {
        1
    } else {
        -1
    };
    let start: u8 = if c == Color::White {
        1
    } else {
        6
    };
    let promo: u8 = if c == Color::White {
        7
    } else {
        0
    };
    match self::add(from, 0, dir) {
        Some(t) => {
            if is_empty_sq(&state.board, t) {
                push_pawn(from, t, promo, out);
                if rank_of(from) == start {
                    match self::add(from, 0, dir * 2) {
                        Some(t2) => {
                            if is_empty_sq(&state.board, t2) {
                                proof {
                                    lemma_push_has(out@, (from, t2, MoveFlag::Normal));
                                }
                                out.push((from, t2, MoveFlag::Normal));
                            }
                        },
                        None => {},
                    }
                }
            }
        },
        None => {},
    }
    pawn_capture(state, from, c, -1, promo, out);
    pawn_capture(state, from, c, 1, promo, out);
}


/// Adds the castling moves of the king on `from`.
fn gen_castles(state: &State, from: u8, c: Color, out: &mut Vec<Mv>)
    requires
        from < 64,
    ensures
        forall|m: Mv|
            #![trigger final(out)@.contains(m)]
            added(old(out)@, final(out)@, m, m.0 == from && castle_to(
                state.board@,
                state.castle,
                c,
                from as int,
                m.1 as int,
                m.2,
            )),
{
    let ghost o = out@;
    let rank: u8 = if c == Color::White {
        0
    } else {
        7
    };
    if from != sq(4, rank) {
        return;
    }
    if in_check(&state.board, c) {
        return;
    }
    let (kside, qside) = match c {
        Color::White => (state.castle.wk, state.castle.wq),
        Color::Black => (state.castle.bk, state.castle.bq),
    };
    let opp = c.other();
    let b = &state.board;
    let ks = sq(6, rank);
    let qs = sq(2, rank);
    if kside && is_empty_sq(b, sq(5, rank)) && is_empty_sq(b, sq(6, rank)) && piece_is(
        b[sq(7, rank) as usize],
        (c, PieceType::Rook),
    ) && !is_attacked(b, sq(5, rank), opp) && !is_attacked(b, sq(6, rank), opp) {
        proof {
            lemma_push_has(out@, (from, ks, MoveFlag::CastleK));
        }
        out.push((from, ks, MoveFlag::CastleK));
    }
    let ghost mid = out@;
    if qside && is_empty_sq(b, sq(1, rank)) && is_empty_sq(b, sq(2, rank)) && is_empty_sq(
        b,
        sq(3, rank),
    ) && piece_is(b[sq(0, rank) as usize], (c, PieceType::Rook)) && !is_attacked(b, sq(3, rank), opp)
        && !is_attacked(b, sq(2, rank), opp) {
        proof {
            lemma_push_has(out@, (from, qs, MoveFlag::CastleQ));
        }
        out.push((from, qs, MoveFlag::CastleQ));
    }
}

/// Adds the moves the piece `(c, pt)` on `from` may make by its rule.
fn gen_piece_moves(state: &State, from: u8, c: Color, pt: PieceType, out: &mut Vec<Mv>)
    requires
        from < 64,
        state.board@[from as int] == Some((c, pt)),
    ensures
        forall|m: Mv|
            #![trigger final(out)@.contains(m)]
            added(old(out)@, final(out)@, m, m.0 == from && pseudo_move(
                state.board@,
                state.castle,
                state.en_passant,
                c,
                from as int,
                m.1 as int,
                m.2,
            )),
{
    let b = &state.board;
    match pt {
        PieceType::Pawn => {
            gen_pawn(state, from, c, out);
        },
        PieceType::Knight => {
            try_step(b, c, from, 1, 2, out);
            try_step(b, c, from, 2, 1, out);
            try_step(b, c, from, 2, -1, out);
            try_step(b, c, from, 1, -2, out);
            try_step(b, c, from, -1, -2, out);
            try_step(b, c, from, -2, -1, out);
            try_step(b, c, from, -2, 1, out);
            try_step(b, c, from, -1, 2, out);
        },
        PieceType::Bishop => {
            slide_dir(b, c, from, 1, 1, out);
            slide_dir(b, c, from, 1, -1, out);
            slide_dir(b, c, from, -1, 1, out);
            slide_dir(b, c, from, -1, -1, out);
        },
        PieceType::Rook => {
            slide_dir(b, c, from, 1, 0, out);
            slide_dir(b, c, from, -1, 0, out);
            slide_dir(b, c, from, 0, 1, out);
            slide_dir(b, c, from, 0, -1, out);
        },
        PieceType::Queen => {
            slide_dir(b, c, from, 1, 1, out);
            slide_dir(b, c, from, 1, -1, out);
            slide_dir(b, c, from, -1, 1, out);
            slide_dir(b, c, from, -1, -1, out);
            slide_dir(b, c, from, 1, 0, out);
            slide_dir(b, c, from, -1, 0, out);
            slide_dir(b, c, from, 0, 1, out);
            slide_dir(b, c, from, 0, -1, out);
        },
        PieceType::King => {
            try_step(b, c, from, 1, 0, out);
            try_step(b, c, from, 1, 1, out);
            try_step(b, c, from, 0, 1, out);
            try_step(b, c, from, -1, 1, out);
            try_step(b, c, from, -1, 0, out);
            try_step(b, c, from, -1, -1, out);
            try_step(b, c, from, 0, -1, out);
            try_step(b, c, from, 1, -1, out);
            gen_castles(state, from, c, out);
        },
    }
}

/// A move the rules allow can be applied.
proof fn lemma_pseudo_apply_ok(b: Board, rights: CastleRights, ep: Option<u8>, c: Color, f: int, t: int, flag: MoveFlag)
    requires
        0 <= f < 64,
        pseudo_move(b, rights, ep, c, f, t, flag),
    ensures
        apply_ok(b, f, t, flag),
        0 <= t < 64,
{
}

fn contains_move(v: &Vec<Mv>, m: Mv) -> (r: bool)
    ensures
        r == v@.contains(m),
{
    let mut i: usize = 0;
    while i < v.len()
        invariant
            i <= v.len(),
            forall|j: int| 0 <= j < i ==> v@[j] != m,
        decreases v.len() - i,
    {
        if v[i].0 == m.0 && v[i].1 == m.1 && v[i].2 == m.2 {
            assert(v@[i as int] == m);
            return true;
        }
        i += 1;
    }
    false
}

/// Every legal move for `color`, from square by square.
fn legal_moves(state: &State, color: Color) -> (out: Vec<Mv>)
    ensures
        forall|m: Mv|
            #![trigger out@.contains(m)]
            out@.contains(m) <==> legal_move(
                state.board@,
                state.castle,
                state.en_passant,
                color,
                m.0 as int,
                m.1 as int,
                m.2,
            ),
{
    let ghost b = state.board@;
    let mut out: Vec<Mv> = Vec::new();
    let mut from: usize = 0;
    while from < BOARD
        invariant
            from <= BOARD,
            b == state.board@,
            forall|m: Mv|
                #![trigger out@.contains(m)]
                out@.contains(m) <==> (legal_move(
                    b,
                    state.castle,
                    state.en_passant,
                    color,
                    m.0 as int,
                    m.1 as int,
                    m.2,
                ) && m.0 < from),
        decreases BOARD - from,
    {
        match state.board[from] {
            Some(p) => {
                if p.0 == color {
                    let mut cand: Vec<Mv> = Vec::new();
                    gen_piece_moves(state, from as u8, p.0, p.1, &mut cand);
                    let mut j: usize = 0;
                    while j < cand.len()
                        invariant
                            j <= cand.len(),
                            from < BOARD,
                            b == state.board@,
                            b[from as int] == Some(p),
                            p.0 == color,
                            forall|m: Mv|
                                #![trigger cand@.contains(m)]
                                cand@.contains(m) <==> (m.0 == from && pseudo_move(
                                    b,
                                    state.castle,
                                    state.en_passant,
                                    color,
                                    from as int,
                                    m.1 as int,
                                    m.2,
                                )),
                            forall|m: Mv|
                                #![trigger out@.contains(m)]
                                out@.contains(m) <==> ((legal_move(
                                    b,
                                    state.castle,
                                    state.en_passant,
                                    color,
                                    m.0 as int,
                                    m.1 as int,
                                    m.2,
                                ) && m.0 < from) || (cand@.subrange(0, j as int).contains(m)
                                    && !checked(moved_board(b, m.0 as int, m.1 as int, m.2), color))),
                        decreases cand.len() - j,
                    {
                        let m = cand[j];
                        proof {
                            assert(cand@.contains(m));
                            lemma_pseudo_apply_ok(b, state.castle, state.en_passant, color, from as int, m.1 as int, m.2);
                        }
                        let (b2, _, _) = apply_move(&state.board, m.0, m.1, m.2);
                        let ok = !in_check(&b2, color);
                        proof {
                            lemma_push_has(out@, m);
                            assert forall|x: Mv| #[trigger] cand@.subrange(0, j + 1).contains(x) <==> (
                            cand@.subrange(0, j as int).contains(x) || x == cand@[j as int]) by {
                                assert(cand@.subrange(0, j + 1) =~= cand@.subrange(0, j as int).push(
                                    cand@[j as int],
                                ));
                                lemma_push_has(cand@.subrange(0, j as int), cand@[j as int]);
                            }
                        }
                        if ok {
                            out.push(m);
                        }
                        j += 1;
                    }
                    proof {
                        assert(cand@.subrange(0, cand@.len() as int) =~= cand@);
                    }
                }
            },
            None => {},
        }
        from += 1;
    }
    out
}

/// Every legal move for the side to move.
pub fn legal_moves_for_turn(state: &State) -> (out: Vec<Mv>)
    ensures
        forall|m: Mv|
            #![trigger out@.contains(m)]
            out@.contains(m) <==> legal_move(
                state.board@,
                state.castle,
                state.en_passant,
                state.turn,
                m.0 as int,
                m.1 as int,
                m.2,
            ),
{
    legal_moves(state, state.turn)
}

/// A list of exactly the legal moves is empty just when there is none.
proof fn lemma_no_legal(b: Board, rights: CastleRights, ep: Option<u8>, c: Color, out: Seq<Mv>)
    requires
        forall|m: Mv|
            #![trigger out.contains(m)]
            out.contains(m) <==> legal_move(b, rights, ep, c, m.0 as int, m.1 as int, m.2),
    ensures
        out.len() == 0 <==> !has_legal(b, rights, ep, c),
{
    if out.len() > 0 {
        let m = out[0];
        assert(out.contains(m));
        assert(legal_move(b, rights, ep, c, m.0 as int, m.1 as int, m.2));
    }
    if has_legal(b, rights, ep, c) {
        let (f, t, flag) = choose|f: int, t: int, flag: MoveFlag| legal_move(b, rights, ep, c, f, t, flag);
        lemma_pseudo_apply_ok(b, rights, ep, c, f, t, flag);
        assert(out.contains((f as u8, t as u8, flag)));
    }
}


// ---------------------------------------------------------------------------
// Draw rules: material, repetition
// ---------------------------------------------------------------------------

/// The minor pieces (knights, bishops) of each side among squares `0..k`,
/// or `None` once a pawn, rook or queen appears there.
pub open spec fn minors(b: Board, k: int) -> Option<(nat, nat)>
    decreases k,
{
    if k <= 0 {
        Some((0, 0))
    } else {
        match minors(b, k - 1) {
            None => None,
            Some((w, bl)) => match b[k - 1] {
                None => Some((w, bl)),
                Some(p) => if p.1 == PieceType::King {
                    Some((w, bl))
                } else if p.1 == PieceType::Knight || p.1 == PieceType::Bishop {
                    if p.0 == Color::White {
                        Some((w + 1, bl))
                    } else {
                        Some((w, bl + 1))
                    }
                } else {
                    None
                },
            },
        }
    }
}

/// Only kings remain, or kings and a single knight or bishop.
pub open spec fn no_mating_material(b: Board) -> bool {
    match minors(b, 64) {
        None => false,
        Some((w, bl)) => (w == 0 && bl == 0) || (w == 1 && bl == 0) || (w == 0 && bl == 1),
    }
}

proof fn lemma_minors_bound(b: Board, k: int)
    requires
        0 <= k <= 64,
    ensures
        minors(b, k) matches Some((w, bl)) ==> w + bl <= k,
    decreases k,
{
    if k > 0 {
        lemma_minors_bound(b, k - 1);
    }
}

pub fn insufficient_material(board: &[Option<Piece>; BOARD]) -> (r: bool)
    ensures
        r == no_mating_material(board@),
{
    let mut white_minors: u32 = 0;
    let mut black_minors: u32 = 0;
    let mut k: usize = 0;
    while k < BOARD
        invariant
            k <= BOARD,
            minors(board@, k as int) == Some((white_minors as nat, black_minors as nat)),
            white_minors + black_minors <= k,
        decreases BOARD - k,
    {
        match board[k] {
            Some(p) => {
                if p.1 == PieceType::King {
                } else if p.1 == PieceType::Knight || p.1 == PieceType::Bishop {
                    if p.0 == Color::White {
                        white_minors += 1;
                    } else {
                        black_minors += 1;
                    }
                } else {
                    proof {
                        assert forall|j: int| k < j <= 64 implies minors(board@, j) is None by {
                            lemma_minors_none(board@, k as int + 1, j);
                        }
                    }
                    return false;
                }
            },
            None => {},
        }
        k += 1;
    }
    (white_minors == 0 && black_minors == 0) || (white_minors == 1 && black_minors == 0) || (
    white_minors == 0 && black_minors == 1)
}

proof fn lemma_minors_none(b: Board, a: int, k: int)
    requires
        a <= k,
        minors(b, a) is None,
    ensures
        minors(b, k) is None,
    decreases k - a,
{
    if a < k {
        lemma_minors_none(b, a, k - 1);
    }
}

pub const FNV_OFFSET: u64 = 0xcbf29ce484222325;

pub const FNV_PRIME: u64 = 0x100000001b3;

/// FNV-1a over the `k` low bytes of `x`, least significant first.
pub open spec fn fnv_mix(h: u64, x: u64, k: nat) -> u64
    decreases k,
{
    if k == 0 {
        h
    } else {
        fnv_mix(
            (((h ^ (x & 0xffu64)) as nat * FNV_PRIME as nat) % 0x1_0000_0000_0000_0000) as u64,
            x >> 8u64,
            (k - 1) as nat,
        )
    }
}

pub open spec fn piece_num(pt: PieceType) -> u8 {
    match pt {
        PieceType::Pawn => 0,
        PieceType::Knight => 1,
        PieceType::Bishop => 2,
        PieceType::Rook => 3,
        PieceType::Queen => 4,
        PieceType::King => 5,
    }
}

/// What a square contributes to the hash: 0 when empty, 1..6 for white
/// pieces and 7..12 for black, with the square number above the low byte.
pub open spec fn square_word(i: int, p: Option<Piece>) -> u64 {
    let v: u64 = match p {
        None => 0,
        Some(q) => if q.0 == Color::White {
            (1 + piece_num(q.1)) as u64
        } else {
            (7 + piece_num(q.1)) as u64
        },
    };
    ((i as u64) << 8u64) | v
}

pub open spec fn hash_squares(b: Board, k: int) -> u64
    decreases k,
{
    if k <= 0 {
        FNV_OFFSET
    } else {
        fnv_mix(hash_squares(b, k - 1), square_word(k - 1, b[k - 1]), 8)
    }
}

pub open spec fn castle_word(c: CastleRights) -> u64 {
    (if c.wk { 1u64 } else { 0u64 }) | (if c.wq { 2u64 } else { 0u64 }) | (if c.bk { 4u64 } else {
        0u64
    }) | (if c.bq { 8u64 } else { 0u64 })
}

pub open spec fn ep_word(ep: Option<u8>) -> u64 {
    match ep {
        Some(e) => (e + 1) as u64,
        None => 0,
    }
}

/// The repetition key of a position: FNV-1a over every square, the side to
/// move, the castling rights and the en-passant target.
pub open spec fn position_key(b: Board, turn: Color, c: CastleRights, ep: Option<u8>) -> u64 {
    fnv_mix(
        fnv_mix(fnv_mix(hash_squares(b, 64), color_idx(turn) as u64, 8), castle_word(c), 8),
        ep_word(ep),
        8,
    )
}

fn mix(h: u64, x: u64) -> (r: u64)
    ensures
        r == fnv_mix(h, x, 8),
{
    let mut h2 = h;
    let mut y = x;
    let mut k: usize = 0;
    while k < 8
        invariant
            k <= 8,
            fnv_mix(h, x, 8) == fnv_mix(h2, y, (8 - k) as nat),
        decreases 8 - k,
    {
        h2 = (h2 ^ (y & 0xffu64)).wrapping_mul(FNV_PRIME);
        y = y >> 8u64;
        k += 1;
    }
    h2
}

pub fn piece_code(pt: PieceType) -> (c: u8)
    ensures
        c == piece_num(pt),
{
    match pt {
        PieceType::Pawn => 0,
        PieceType::Knight => 1,
        PieceType::Bishop => 2,
        PieceType::Rook => 3,
        PieceType::Queen => 4,
        PieceType::King => 5,
    }
}

pub fn position_hash(board: &[Option<Piece>; BOARD], turn: Color, castle: CastleRights, ep: Option<u8>) -> (h: u64)
    ensures
        h == position_key(board@, turn, castle, ep),
{
    let mut h: u64 = FNV_OFFSET;
    let mut i: usize = 0;
    while i < BOARD
        invariant
            i <= BOARD,
            h == hash_squares(board@, i as int),
        decreases BOARD - i,
    {
        let v: u64 = match board[i] {
            None => 0,
            Some(q) => if q.0 == Color::White {
                1 + piece_code(q.1) as u64
            } else {
                7 + piece_code(q.1) as u64
            },
        };
        h = mix(h, ((i as u64) << 8u64) | v);
        i += 1;
    }
    h = mix(h, turn.idx() as u64);
    let cw: u64 = (if castle.wk { 1u64 } else { 0u64 }) | (if castle.wq { 2u64 } else { 0u64 }) | (
    if castle.bk { 4u64 } else { 0u64 }) | (if castle.bq { 8u64 } else { 0u64 });
    h = mix(h, cw);
    let ew: u64 = match ep {
        Some(e) => e as u64 + 1,
        None => 0,
    };
    mix(h, ew)
}

/// How often `x` occurs in `s`.
pub open spec fn occurrences(s: Seq<u64>, x: u64) -> nat
    decreases s.len(),
{
    if s.len() == 0 {
        0
    } else {
        occurrences(s.drop_last(), x) + if s.last() == x {
            1nat
        } else {
            0nat
        }
    }
}

/// The position has occurred at least three times.
pub fn threefold(history: &Vec<u64>, current: u64) -> (r: bool)
    ensures
        r == (occurrences(history@, current) >= 3),
{
    let mut count: u32 = 0;
    let mut i: usize = 0;
    while i < history.len()
        invariant
            i <= history.len(),
            count == occurrences(history@.take(i as int), current),
            count < 3,
        decreases history.len() - i,
    {
        proof {
            assert(history@.take(i + 1).drop_last() =~= history@.take(i as int));
        }
        if history[i] == current {
            count += 1;
            if count >= 3 {
                proof {
                    lemma_occurrences_mono(history@, current, i + 1, history@.len() as int);
                    assert(history@.take(history@.len() as int) =~= history@);
                }
                return true;
            }
        }
        i += 1;
    }
    proof {
        assert(history@.take(i as int) =~= history@);
    }
    false
}

proof fn lemma_occurrences_mono(s: Seq<u64>, x: u64, a: int, k: int)
    requires
        0 <= a <= k <= s.len(),
    ensures
        occurrences(s.take(a), x) <= occurrences(s.take(k), x),
    decreases k - a,
{
    if a < k {
        lemma_occurrences_mono(s, x, a, k - 1);
        assert(s.take(k).drop_last() =~= s.take(k - 1));
    }
}

// ---------------------------------------------------------------------------
// The blind variant's facade
// ---------------------------------------------------------------------------

pub open spec fn blind_squares(c: Color) -> Seq<u8> {
    if c == Color::White {
        seq![0u8, 1, 2, 3, 5, 6, 7]
    } else {
        seq![56u8, 57, 58, 59, 61, 62, 63]
    }
}

/// The starting types of the blind squares, in the same order.
pub open spec fn blind_types() -> Seq<PieceType> {
    seq![
        PieceType::Rook,
        PieceType::Knight,
        PieceType::Bishop,
        PieceType::Queen,
        PieceType::Bishop,
        PieceType::Knight,
        PieceType::Rook,
    ]
}

/// The board as the players see it: a piece with a facade shows the
/// facade's type.
pub open spec fn overlay(b: Board, f: Map<u8, PieceType>) -> Board {
    Seq::new(
        64,
        |i: int|
            match b[i] {
                Some(p) => if f.contains_key(i as u8) {
                    Some((p.0, f[i as u8]))
                } else {
                    Some(p)
                },
                None => None,
            },
    )
}

/// `u8` keys of a `BTreeMap` follow the map model.
proof fn lemma_u8_keys_ordered()
    ensures
        vstd::laws_cmp::obeys_cmp::<u8>(),
{
    broadcast use vstd::laws_cmp::group_laws_cmp;

}

/// Facades sit on board squares.
pub open spec fn facade_ok(f: Map<u8, PieceType>) -> bool {
    forall|k: u8| #[trigger] f.contains_key(k) ==> k < 64
}

pub fn overlay_facade(board: &[Option<Piece>; BOARD], facade: &BTreeMap<u8, PieceType>) -> (r: [Option<Piece>; BOARD])
    requires
        facade_ok(facade@),
    ensures
        r@ == overlay(board@, facade@),
{
    broadcast use vstd::std_specs::btree::group_btree_axioms;

    proof {
        lemma_u8_keys_ordered();
    }
    let mut b = *board;
    let mut i: usize = 0;
    while i < BOARD
        invariant
            i <= BOARD,
            b@.len() == 64,
            forall|j: int| 0 <= j < i ==> b@[j] == overlay(board@, facade@)[j],
            forall|j: int| i <= j < 64 ==> b@[j] == board@[j],
        decreases BOARD - i,
    {
        let k = i as u8;
        match facade.get(&k) {
            Some(t) => {
                match b[i] {
                    Some(p) => {
                        b[i] = Some((p.0, *t));
                    },
                    None => {},
                }
            },
            None => {},
        }
        i += 1;
    }
    proof {
        assert(b@ =~= overlay(board@, facade@));
    }
    b
}

/// The board the players see in `state`.
pub fn display_board(state: &State) -> (r: [Option<Piece>; BOARD])
    requires
        facade_ok(state.facade@),
    ensures
        r@ == overlay(state.board@, state.facade@),
{
    overlay_facade(&state.board, &state.facade)
}

/// The occupied squares of `b`, each with the piece standing on it.
pub open spec fn occupied(b: Board) -> Map<u8, Piece> {
    Map::new(|k: u8| (k as int) < b.len() && b[k as int] is Some, |k: u8| b[k as int]->0)
}

/// The pieces of the position by square, empty squares left out.
pub fn board_map(state: &State) -> (m: HashMap<u8, Piece>)
    ensures
        m@ == occupied(state@.board),
{
    broadcast use vstd::std_specs::hash::group_hash_axioms;

    let mut m: HashMap<u8, Piece> = HashMap::new();
    let mut i: usize = 0;
    while i < BOARD
        invariant
            i <= BOARD,
            state.board@.len() == BOARD,
            m@ == Map::new(
                |k: u8| (k as int) < i && state.board@[k as int] is Some,
                |k: u8| state.board@[k as int]->0,
            ),
        decreases BOARD - i,
    {
        let ghost before = m@;
        if let Some(p) = state.board[i] {
            m.insert(i as u8, p);
        }
        proof {
            assert(m@ =~= Map::new(
                |k: u8| (k as int) < i + 1 && state.board@[k as int] is Some,
                |k: u8| state.board@[k as int]->0,
            ));
        }
        i += 1;
    }
    proof {
        assert(m@ =~= occupied(state@.board));
    }
    m
}

pub fn piecetype_letter(pt: PieceType) -> (s: &'static str)
    ensures
        s@ == piece_letter(pt),
{
    match pt {
        PieceType::Pawn => "P",
        PieceType::Knight => "N",
        PieceType::Bishop => "B",
        PieceType::Rook => "R",
        PieceType::Queen => "Q",
        PieceType::King => "K",
    }
}

pub open spec fn piece_letter(pt: PieceType) -> Seq<char> {
    match pt {
        PieceType::Pawn => "P"@,
        PieceType::Knight => "N"@,
        PieceType::Bishop => "B"@,
        PieceType::Rook => "R"@,
        PieceType::Queen => "Q"@,
        PieceType::King => "K"@,
    }
}


/// The blind squares of `c` that still carry a facade, in square order.
pub open spec fn keys_left(f: Map<u8, PieceType>, sqs: Seq<u8>) -> Seq<u8>
    decreases sqs.len(),
{
    if sqs.len() == 0 {
        seq![]
    } else {
        let rest = keys_left(f, sqs.drop_last());
        if f.contains_key(sqs.last()) {
            rest.push(sqs.last())
        } else {
            rest
        }
    }
}

/// The facade after `mover` moves `from -> to`, and the squares revealed:
/// facades on `from` and `to` go (the moving piece is revealed on `to`),
/// and the mover's last hidden piece is revealed too.
pub open spec fn facade_after(f: Map<u8, PieceType>, mover: Color, from: u8, to: u8) -> (Map<u8, PieceType>, Seq<u8>) {
    let r1: Seq<u8> = if f.contains_key(from) {
        seq![to]
    } else {
        seq![]
    };
    let f1 = f.remove(from);
    let r2 = if f1.contains_key(to) && !r1.contains(to) {
        r1.push(to)
    } else {
        r1
    };
    let f2 = f1.remove(to);
    let left = keys_left(f2, blind_squares(mover));
    if left.len() == 1 {
        let last = left[0];
        (f2.remove(last), if !r2.contains(last) {
            r2.push(last)
        } else {
            r2
        })
    } else {
        (f2, r2)
    }
}

fn blind_square(c: Color, i: usize) -> (s: u8)
    requires
        i < 7,
    ensures
        s == blind_squares(c)[i as int],
{
    let base: u8 = if c == Color::White {
        0
    } else {
        56
    };
    if i < 4 {
        base + i as u8
    } else {
        base + i as u8 + 1
    }
}

pub fn update_facade_post_move(facade: &mut BTreeMap<u8, PieceType>, mover: Color, from: u8, to: u8) -> (revealed: Vec<u8>)
    ensures
        (final(facade)@, revealed@) == facade_after(old(facade)@, mover, from, to),
{
    broadcast use vstd::std_specs::btree::group_btree_axioms;

    proof {
        lemma_u8_keys_ordered();
    }
    let ghost f0 = facade@;
    let mut revealed: Vec<u8> = Vec::new();
    if facade.remove(&from).is_some() {
        revealed.push(to);
    }
    proof {
        assert(revealed@ =~= (if f0.contains_key(from) { seq![to] } else { Seq::<u8>::empty() }));
    }
    let ghost f1 = facade@;
    let removed_to = facade.remove(&to).is_some();
    if removed_to && !contains_u8(&revealed, to) {
        revealed.push(to);
    }
    let ghost f2 = facade@;
    let mut left: Vec<u8> = Vec::new();
    let mut i: usize = 0;
    while i < 7
        invariant
            i <= 7,
            facade@ == f2,
            left@ == keys_left(f2, blind_squares(mover).take(i as int)),
        decreases 7 - i,
    {
        let sq_i = blind_square(mover, i);
        proof {
            assert(blind_squares(mover).take(i + 1).drop_last() =~= blind_squares(mover).take(i as int));
        }
        if facade.contains_key(&sq_i) {
            left.push(sq_i);
        }
        i += 1;
    }
    proof {
        assert(blind_squares(mover).take(7) =~= blind_squares(mover));
    }
    if left.len() == 1 {
        let last = left[0];
        facade.remove(&last);
        if !contains_u8(&revealed, last) {
            revealed.push(last);
        }
    }
    revealed
}

fn contains_u8(v: &Vec<u8>, x: u8) -> (r: bool)
    ensures
        r == v@.contains(x),
{
    let mut i: usize = 0;
    while i < v.len()
        invariant
            i <= v.len(),
            forall|j: int| 0 <= j < i ==> v@[j] != x,
        decreases v.len() - i,
    {
        if v[i] == x {
            assert(v@[i as int] == x);
            return true;
        }
        i += 1;
    }
    false
}

/// What `rand` gives when a `StdRng` made by `SeedableRng::seed_from_u64(seed)`
/// shuffles `a` with `SliceRandom::shuffle` and then, drawing on, shuffles `b`.
pub uninterp spec fn seeded_shuffles(seed: u64, a: Seq<u8>, b: Seq<u8>) -> (Seq<u8>, Seq<u8>);

/// `StdRng::seed_from_u64(seed)`, then `a.shuffle(&mut rng)` and
/// `b.shuffle(&mut rng)`. Claimed: the pair is the one `seeded_shuffles`
/// names for these arguments, and each vector is a permutation of its
/// input (`shuffle` reorders in place). Which permutation comes out is not
/// stated.
#[verifier::external_body]
fn shuffle_pair(seed: u64, a: Vec<u8>, b: Vec<u8>) -> (r: (Vec<u8>, Vec<u8>))
    ensures
        (r.0@, r.1@) == seeded_shuffles(seed, a@, b@),
        r.0@.len() == a@.len(),
        r.1@.len() == b@.len(),
        r.0@.to_multiset() == a@.to_multiset(),
        r.1@.to_multiset() == b@.to_multiset(),
{
    let mut rng = StdRng::seed_from_u64(seed);
    let mut a = a;
    let mut b = b;
    a.shuffle(&mut rng);
    b.shuffle(&mut rng);
    (a, b)
}

/// A fresh random `u64` from `rand::rng()`. Nothing is stated of its value.
#[verifier::external_body]
fn fresh_seed() -> u64 {
    rand::rng().random::<u64>()
}

pub open spec fn code_type(c: u8) -> PieceType {
    if c == 0 {
        PieceType::Pawn
    } else if c == 1 {
        PieceType::Knight
    } else if c == 2 {
        PieceType::Bishop
    } else if c == 3 {
        PieceType::Rook
    } else if c == 4 {
        PieceType::Queen
    } else {
        PieceType::King
    }
}

fn code_type_exec(c: u8) -> (p: PieceType)
    ensures
        p == code_type(c),
{
    if c == 0 {
        PieceType::Pawn
    } else if c == 1 {
        PieceType::Knight
    } else if c == 2 {
        PieceType::Bishop
    } else if c == 3 {
        PieceType::Rook
    } else if c == 4 {
        PieceType::Queen
    } else {
        PieceType::King
    }
}

/// The codes of the blind squares' starting types.
/// The codes of the starting pieces on the blind squares, in their order
/// (rook 3, knight 1, bishop 2, queen 4, as `piece_code` numbers them).
pub open spec fn blind_codes() -> Seq<u8> {
    seq![3u8, 1, 2, 4, 2, 1, 3]
}

/// Index of `s` among `c`'s blind squares.
pub open spec fn blind_index(c: Color, s: int) -> Option<int> {
    let base = if c == Color::White {
        0int
    } else {
        56int
    };
    let i = s - base;
    if 0 <= i < 4 {
        Some(i)
    } else if 5 <= i < 8 {
        Some(i - 1)
    } else {
        None
    }
}

/// The true back ranks after the blind shuffle from `seed`.
pub open spec fn blind_board(b: Board, seed: u64) -> Board {
    let pools = seeded_shuffles(seed, blind_codes(), blind_codes());
    Seq::new(
        64,
        |s: int|
            match blind_index(Color::White, s) {
                Some(i) => Some((Color::White, code_type(pools.0[i]))),
                None => match blind_index(Color::Black, s) {
                    Some(i) => Some((Color::Black, code_type(pools.1[i]))),
                    None => b[s],
                },
            },
    )
}

/// Each blind square shows its starting type.
pub open spec fn blind_facade() -> Map<u8, PieceType> {
    Map::new(
        |k: u8| blind_index(Color::White, k as int) is Some || blind_index(Color::Black, k as int) is Some,
        |k: u8|
            match blind_index(Color::White, k as int) {
                Some(i) => blind_types()[i],
                None => blind_types()[blind_index(Color::Black, k as int)->0],
            },
    )
}

/// In blind mode the board the players see is the starting board, whatever
/// the seed: every shuffled piece shows the type that starts on its square.
pub proof fn law_blind_display(seed: u64)
    ensures
        overlay(blind_board(start_board(), seed), blind_facade()) == start_board(),
{
    let b = blind_board(start_board(), seed);
    let f = blind_facade();
    assert forall|i: int| 0 <= i < 64 implies #[trigger] overlay(b, f)[i] == start_board()[i] by {
        assert(f.contains_key(i as u8) == (blind_index(Color::White, i) is Some || blind_index(Color::Black, i) is Some));
    }
    assert(overlay(b, f) =~= start_board());
}

/// Starting a blind game shows the starting board, whatever the seed.
pub proof fn law_blind_start_displays_start(s: StateView, payload: Seq<char>)
    requires
        time_config_of(payload).blind,
    ensures
        overlay(started_spec(s, payload).board, started_spec(s, payload).facade) == start_board(),
{
    let seed = match blind_seed_of(payload) {
        Some(x) => x,
        None => 0,
    };
    law_blind_display(seed);
}

fn blind_pool() -> (v: Vec<u8>)
    ensures
        v@ == blind_codes(),
{
    let mut v: Vec<u8> = Vec::new();
    v.push(3);
    v.push(1);
    v.push(2);
    v.push(4);
    v.push(2);
    v.push(1);
    v.push(3);
    proof {
        assert(v@ =~= blind_codes());
    }
    v
}

fn blind_type(i: usize) -> (p: PieceType)
    requires
        i < 7,
    ensures
        p == blind_types()[i as int],
{
    if i == 0 || i == 6 {
        PieceType::Rook
    } else if i == 1 || i == 5 {
        PieceType::Knight
    } else if i == 2 || i == 4 {
        PieceType::Bishop
    } else {
        PieceType::Queen
    }
}


// ---------------------------------------------------------------------------
// The room's view and fold
// ---------------------------------------------------------------------------

pub struct StateView {
    pub phase: Phase,
    pub players: Seq<Seq<char>>,
    pub host: Option<Seq<char>>,
    pub board: Board,
    pub turn: Color,
    pub castle: CastleRights,
    pub ep: Option<u8>,
    pub halfmove: u32,
    pub winner: Option<u8>,
    pub history: Seq<u64>,
    pub time_config: TimeConfig,
    pub facade: Map<u8, PieceType>,
}

impl View for State {
    type V = StateView;

    open spec fn view(&self) -> StateView {
        StateView {
            phase: self.phase,
            players: self.players.deep_view(),
            host: self.host.deep_view(),
            board: self.board@,
            turn: self.turn,
            castle: self.castle,
            ep: self.en_passant,
            halfmove: self.halfmove,
            winner: self.winner,
            history: self.history@,
            time_config: self.time_config,
            facade: self.facade@,
        }
    }
}

impl StateView {
    pub open spec fn lobby(self) -> Lobby {
        Lobby { players: self.players, host: self.host }
    }

    pub open spec fn with_lobby(self, l: Lobby) -> StateView {
        StateView { players: l.players, host: l.host, ..self }
    }
}

pub open spec fn all_rights() -> CastleRights {
    CastleRights { wk: true, wq: true, bk: true, bq: true }
}

pub open spec fn initial_state() -> StateView {
    StateView {
        phase: Phase::Lobby,
        players: seq![],
        host: None,
        board: start_board(),
        turn: Color::White,
        castle: all_rights(),
        ep: None,
        halfmove: 0,
        winner: None,
        history: seq![],
        time_config: TimeConfig { pool_minutes: 0, per_turn_seconds: 0, blind: false },
        facade: Map::empty(),
    }
}

/// At most two members, and facades only on board squares.
pub open spec fn well_formed(s: StateView) -> bool {
    s.players.len() <= MAX_PLAYERS && facade_ok(s.facade)
}

impl Default for State {
    fn default() -> (s: State)
        ensures
            s@ == initial_state(),
    {
        let s = State {
            phase: Phase::Lobby,
            players: Vec::new(),
            host: None,
            board: starting_board(),
            turn: Color::White,
            castle: CastleRights { wk: true, wq: true, bk: true, bq: true },
            en_passant: None,
            halfmove: 0,
            winner: None,
            history: Vec::new(),
            time_config: TimeConfig::default(),
            facade: BTreeMap::new(),
        };
        proof {
            assert(s.players.deep_view() =~= Seq::<Seq<char>>::empty());
            assert(s@ =~= initial_state());
        }
        s
    }
}

/// `GAME_STARTED <config> [seed]`: a new game from the starting position
/// (shuffled behind facades in blind mode, from the seed or else 0); the
/// repetition history holds the first position.
pub open spec fn started_spec(s: StateView, payload: Seq<char>) -> StateView {
    let cfg = time_config_of(payload);
    let base = StateView {
        phase: Phase::Playing,
        board: start_board(),
        turn: Color::White,
        castle: all_rights(),
        ep: None,
        halfmove: 0,
        winner: None,
        facade: Map::empty(),
        history: seq![position_key(start_board(), Color::White, all_rights(), None)],
        time_config: cfg,
        ..s
    };
    if cfg.blind {
        let seed = match blind_seed_of(payload) {
            Some(x) => x,
            None => 0,
        };
        let b = blind_board(start_board(), seed);
        StateView {
            board: b,
            facade: blind_facade(),
            history: seq![position_key(b, Color::White, all_rights(), None)],
            ..base
        }
    } else {
        base
    }
}

/// The type the piece on `from` shows.
pub open spec fn shown_type(s: StateView, from: int, true_type: PieceType) -> PieceType {
    if s.facade.contains_key(from as u8) {
        s.facade[from as u8]
    } else {
        true_type
    }
}

/// The state after the move `from -> to` with `flag` by the piece `tp`
/// standing on `from`.
pub open spec fn played(s: StateView, from: int, to: int, flag: MoveFlag, tp: Piece) -> StateView {
    let dp = (tp.0, shown_type(s, from, tp.1));
    let b2 = moved_board(s.board, from, to, flag);
    let irreversible = is_capture(s.board, to, flag) || is_pawn_move(s.board, from);
    let castle = rights_after(s.castle, from, to, dp);
    let ep = ep_target(dp, from, to);
    let f2 = facade_after(s.facade, tp.0, from as u8, to as u8).0;
    let turn = opposite(s.turn);
    let h = position_key(overlay(b2, f2), turn, castle, ep);
    StateView {
        board: b2,
        castle,
        ep,
        halfmove: if irreversible {
            0
        } else {
            (s.halfmove + 1) as u32
        },
        history: (if irreversible {
            Seq::<u64>::empty()
        } else {
            s.history
        }).push(h),
        facade: f2,
        turn,
        ..s
    }
}

pub open spec fn played_ok(s: StateView, from: int, to: int, flag: MoveFlag) -> bool {
    apply_ok(s.board, from, to, flag) && (!(is_capture(s.board, to, flag) || is_pawn_move(s.board, from))
        ==> s.halfmove < u32::MAX)
}

/// `MOVE <pid> <from> <to> <flag>`: the piece on `from` moves.
pub open spec fn move_spec(s: StateView, payload: Seq<char>) -> StateView {
    let parts = tokens(payload);
    if parts.len() != 4 {
        s
    } else {
        match (square_of(parts[1]), square_of(parts[2]), flag_of(parts[3])) {
            (Some(from), Some(to), Some(flag)) => match s.board[from as int] {
                None => s,
                Some(tp) => played(s, from as int, to as int, flag, tp),
            },
            _ => s,
        }
    }
}

pub open spec fn move_ok(s: StateView, payload: Seq<char>) -> bool {
    let parts = tokens(payload);
    parts.len() == 4 ==> match (square_of(parts[1]), square_of(parts[2]), flag_of(parts[3])) {
        (Some(from), Some(to), Some(flag)) => s.board[from as int] is Some ==> played_ok(
            s,
            from as int,
            to as int,
            flag,
        ),
        _ => true,
    }
}

pub open spec fn fold_spec(s: StateView, kind: Seq<char>, payload: Seq<char>) -> StateView {
    if kind == "PLAYER_JOINED"@ {
        s.with_lobby(lobby_joined(s.lobby(), payload, MAX_PLAYERS as nat))
    } else if kind == "PLAYER_LEFT"@ {
        s.with_lobby(lobby_left(s.lobby(), payload))
    } else if kind == "HOST_CHANGED"@ {
        s.with_lobby(lobby_host_changed(s.lobby(), payload))
    } else if kind == "GAME_STARTED"@ {
        started_spec(s, payload)
    } else if kind == "MOVE"@ {
        move_spec(s, payload)
    } else if kind == "WINNER"@ {
        match parse_unsigned(trim(payload), u8::MAX as nat) {
            Some(w) => StateView { winner: Some(w as u8), phase: Phase::Finished, ..s },
            None => s,
        }
    } else if kind == "DRAW"@ {
        StateView { winner: None, phase: Phase::Finished, ..s }
    } else {
        s
    }
}

/// The fold takes every event but a `MOVE` that would remove a square off
/// the board en passant or overflow the halfmove clock.
pub open spec fn fold_ok(s: StateView, kind: Seq<char>, payload: Seq<char>) -> bool {
    kind == "MOVE"@ ==> move_ok(s, payload)
}

impl State {
    /// A new game from the starting position.
    pub fn reset_for_new_game(&mut self)
        ensures
            final(self)@ == (StateView {
                board: start_board(),
                turn: Color::White,
                castle: all_rights(),
                ep: None,
                halfmove: 0,
                winner: None,
                facade: Map::empty(),
                history: seq![position_key(start_board(), Color::White, all_rights(), None)],
                ..old(self)@
            }),
    {
        self.board = starting_board();
        self.turn = Color::White;
        self.castle = CastleRights { wk: true, wq: true, bk: true, bq: true };
        self.en_passant = None;
        self.halfmove = 0;
        self.winner = None;
        self.facade = BTreeMap::new();
        let h = position_hash(&self.board, self.turn, self.castle, self.en_passant);
        let mut hist: Vec<u64> = Vec::new();
        hist.push(h);
        self.history = hist;
        proof {
            assert(self.history@ =~= seq![h]);
        }
    }
}

/// Shuffles the back ranks from `seed` behind their facades.
/// The codes (as `piece_code` numbers them) of the pieces standing on
/// `c`'s blind squares, in the order of those squares.
pub open spec fn hidden_codes(b: Board, c: Color) -> Seq<u8> {
    Seq::new(
        7,
        |i: int|
            match b[blind_squares(c)[i] as int] {
                Some(p) => piece_num(p.1),
                None => 6,
            },
    )
}

/// What stands on `c`'s blind squares, in the order of those squares.
pub open spec fn hidden_pieces(b: Board, c: Color) -> Seq<Option<Piece>> {
    Seq::new(7, |i: int| b[blind_squares(c)[i] as int])
}

/// `c`'s pieces that start on its blind squares, in the same order.
pub open spec fn starting_hidden(c: Color) -> Seq<Option<Piece>> {
    blind_types().map_values(|t: PieceType| Some((c, t)))
}

/// The pieces hidden on each side's blind squares are that side's starting
/// pieces in some order (a rook, knight, bishop, queen, bishop, knight and
/// rook); their codes are a permutation of the starting codes.
pub open spec fn blind_permuted(b: Board) -> bool {
    &&& hidden_codes(b, Color::White).to_multiset() == blind_codes().to_multiset()
    &&& hidden_codes(b, Color::Black).to_multiset() == blind_codes().to_multiset()
    &&& hidden_pieces(b, Color::White).to_multiset() == starting_hidden(Color::White).to_multiset()
    &&& hidden_pieces(b, Color::Black).to_multiset() == starting_hidden(Color::Black).to_multiset()
}

/// Sequences holding the same elements still do after each is mapped by `f`.
proof fn lemma_map_perm<B>(s1: Seq<u8>, s2: Seq<u8>, f: spec_fn(u8) -> B)
    requires
        s1.to_multiset() == s2.to_multiset(),
    ensures
        s1.map_values(f).to_multiset() == s2.map_values(f).to_multiset(),
    decreases s1.len(),
{
    broadcast use vstd::multiset::group_multiset_axioms;

    vstd::seq_lib::to_multiset_len(s1);
    vstd::seq_lib::to_multiset_len(s2);
    if s1.len() == 0 {
        assert(s1.map_values(f) =~= s2.map_values(f));
    } else {
        let x = s1.last();
        let dl = s1.drop_last();
        assert(s1 =~= dl.push(x));
        vstd::seq_lib::to_multiset_build(dl, x);
        vstd::seq_lib::to_multiset_contains(s2, x);
        assert(s2.to_multiset().count(x) > 0);
        let j = choose|j: int| 0 <= j < s2.len() && s2[j] == x;
        vstd::seq_lib::to_multiset_remove(s2, j);
        assert(dl.to_multiset() =~= s2.remove(j).to_multiset());
        lemma_map_perm(dl, s2.remove(j), f);
        let m1 = s1.map_values(f);
        let m2 = s2.map_values(f);
        assert(m1 =~= dl.map_values(f).push(f(x)));
        vstd::seq_lib::to_multiset_build(dl.map_values(f), f(x));
        assert(m2.remove(j) =~= s2.remove(j).map_values(f));
        vstd::seq_lib::to_multiset_remove(m2, j);
        vstd::seq_lib::to_multiset_contains(m2, f(x));
        assert(m2[j] == f(x));
        assert(m2.to_multiset().count(f(x)) > 0);
        assert(m2.to_multiset() =~= m2.to_multiset().remove(f(x)).insert(f(x)));
    }
}

proof fn lemma_hidden_codes(b0: Board, seed: u64, w: Seq<u8>, bl: Seq<u8>)
    requires
        b0.len() == 64,
        (w, bl) == seeded_shuffles(seed, blind_codes(), blind_codes()),
        w.to_multiset() == blind_codes().to_multiset(),
        bl.to_multiset() == blind_codes().to_multiset(),
        w.len() == 7,
        bl.len() == 7,
    ensures
        blind_permuted(blind_board(b0, seed)),
{
    broadcast use vstd::seq_lib::group_to_multiset_ensures;

    let b = blind_board(b0, seed);
    assert forall|i: int| 0 <= i < 7 implies w[i] <= 5 && bl[i] <= 5 by {
        assert(w.to_multiset().count(w[i]) > 0);
        assert(bl.to_multiset().count(bl[i]) > 0);
        assert(blind_codes().contains(w[i]));
        assert(blind_codes().contains(bl[i]));
    }
    assert forall|i: int| 0 <= i < 7 implies blind_index(Color::White, blind_squares(Color::White)[i] as int) == Some(i)
        && blind_index(Color::Black, blind_squares(Color::Black)[i] as int) == Some(i)
        && blind_index(Color::White, blind_squares(Color::Black)[i] as int) is None by {
    }
    assert(hidden_codes(b, Color::White) =~= w);
    assert(hidden_codes(b, Color::Black) =~= bl);
    let fw = |x: u8| Some((Color::White, code_type(x)));
    let fb = |x: u8| Some((Color::Black, code_type(x)));
    lemma_map_perm(w, blind_codes(), fw);
    lemma_map_perm(bl, blind_codes(), fb);
    assert(hidden_pieces(b, Color::White) =~= w.map_values(fw));
    assert(hidden_pieces(b, Color::Black) =~= bl.map_values(fb));
    assert(starting_hidden(Color::White) =~= blind_codes().map_values(fw));
    assert(starting_hidden(Color::Black) =~= blind_codes().map_values(fb));
}

pub fn apply_blind_shuffle(state: &mut State, seed: u64)
    ensures
        blind_permuted(final(state)@.board),
        final(state)@ == (StateView {
            board: blind_board(old(state)@.board, seed),
            facade: blind_facade(),
            history: seq![
                position_key(
                    blind_board(old(state)@.board, seed),
                    old(state)@.turn,
                    old(state)@.castle,
                    old(state)@.ep,
                ),
            ],
            ..old(state)@
        }),
{
    broadcast use vstd::std_specs::btree::group_btree_axioms;

    proof {
        lemma_u8_keys_ordered();
    }
    let ghost b0 = state.board@;
    let (w, bl) = shuffle_pair(seed, blind_pool(), blind_pool());
    state.facade = BTreeMap::new();
    let ghost mid = state@;
    let mut i: usize = 0;
    while i < 7
        invariant
            i <= 7,
            state@ == (StateView { board: state.board@, facade: state.facade@, ..mid }),
            w@.len() == 7,
            bl@.len() == 7,
            (w@, bl@) == seeded_shuffles(seed, blind_codes(), blind_codes()),
            state.board@.len() == 64,
            forall|s: int|
                0 <= s < 64 ==> #[trigger] state.board@[s] == (match blind_index(Color::White, s) {
                    Some(j) => if j < i {
                        Some((Color::White, code_type(w@[j])))
                    } else {
                        b0[s]
                    },
                    None => match blind_index(Color::Black, s) {
                        Some(j) => if j < i {
                            Some((Color::Black, code_type(bl@[j])))
                        } else {
                            b0[s]
                        },
                        None => b0[s],
                    },
                }),
            forall|k: u8|
                #[trigger] state.facade@.contains_key(k) <==> (match blind_index(Color::White, k as int) {
                    Some(j) => j < i,
                    None => match blind_index(Color::Black, k as int) {
                        Some(j) => j < i,
                        None => false,
                    },
                }),
            forall|k: u8|
                #[trigger] state.facade@.contains_key(k) ==> state.facade@[k] == blind_facade()[k],
        decreases 7 - i,
    {
        let ws = blind_square(Color::White, i);
        let bs = blind_square(Color::Black, i);
        state.board[ws as usize] = Some((Color::White, code_type_exec(w[i])));
        state.board[bs as usize] = Some((Color::Black, code_type_exec(bl[i])));
        let t = blind_type(i);
        state.facade.insert(ws, t);
        state.facade.insert(bs, t);
        i += 1;
    }
    proof {
        assert(state.board@ =~= blind_board(b0, seed));
        assert(state.facade@ =~= blind_facade());
        lemma_hidden_codes(b0, seed, w@, bl@);
    }
    let h = position_hash(&state.board, state.turn, state.castle, state.en_passant);
    let mut hist: Vec<u64> = Vec::new();
    hist.push(h);
    state.history = hist;
    proof {
        assert(state.history@ =~= seq![h]);
    }
}


fn word_square(parts: &Vec<Vec<char>>, i: usize) -> (r: Option<u8>)
    requires
        i < parts.len(),
    ensures
        r == square_of(words_view(*parts)[i as int]),
{
    let w = word_string(parts, i);
    parse_square(w.as_str())
}

fn fold_started(state: &mut State, payload: &str)
    requires
        well_formed(old(state)@),
    ensures
        final(state)@ == started_spec(old(state)@, payload@),
        well_formed(final(state)@),
        time_config_of(payload@).blind ==> blind_permuted(final(state)@.board),
{
    state.phase = Phase::Playing;
    state.reset_for_new_game();
    state.time_config = TimeConfig::parse(payload);
    if state.time_config.blind {
        let seed = match parse_blind_seed(payload) {
            Some(x) => x,
            None => 0,
        };
        apply_blind_shuffle(state, seed);
    }
    proof {
        assert forall|k: u8| #[trigger] blind_facade().contains_key(k) implies k < 64 by {
        }
        assert(state@ =~= started_spec(old(state)@, payload@));
    }
}

/// The type the piece on `from` shows.
fn shown(state: &State, from: u8, true_type: PieceType) -> (t: PieceType)
    ensures
        t == shown_type(state@, from as int, true_type),
{
    broadcast use vstd::std_specs::btree::group_btree_axioms;

    proof {
        lemma_u8_keys_ordered();
    }
    match state.facade.get(&from) {
        Some(t) => *t,
        None => true_type,
    }
}

/// Plays `from -> to` with `flag` on `state` for the piece `tp` on `from`.
fn play(state: &mut State, from: u8, to: u8, flag: MoveFlag, tp: Piece)
    requires
        well_formed(old(state)@),
        old(state)@.board[from as int] == Some(tp),
        played_ok(old(state)@, from as int, to as int, flag),
    ensures
        final(state)@ == played(old(state)@, from as int, to as int, flag, tp),
        well_formed(final(state)@),
{
    let dp = (tp.0, shown(state, from, tp.1));
    let (b2, capture, pawn_move) = apply_move(&state.board, from, to, flag);
    state.board = b2;
    state.castle = update_castle_rights(state.castle, from, to, dp);
    state.en_passant = ep_after_move(dp, from, to);
    if capture || pawn_move {
        state.halfmove = 0;
        state.history = Vec::new();
    } else {
        state.halfmove = state.halfmove + 1;
    }
    let _revealed = update_facade_post_move(&mut state.facade, tp.0, from, to);
    state.turn = state.turn.other();
    let display_b = overlay_facade(&state.board, &state.facade);
    let h = position_hash(&display_b, state.turn, state.castle, state.en_passant);
    state.history.push(h);
    proof {
        assert(state@ =~= played(old(state)@, from as int, to as int, flag, tp));
    }
}

fn fold_move(state: &mut State, payload: &str)
    requires
        well_formed(old(state)@),
        move_ok(old(state)@, payload@),
    ensures
        final(state)@ == move_spec(old(state)@, payload@),
        well_formed(final(state)@),
{
    let parts = words_of(payload);
    if parts.len() != 4 {
        return;
    }
    let from = match word_square(&parts, 1) {
        Some(x) => x,
        None => {
            return;
        },
    };
    let to = match word_square(&parts, 2) {
        Some(x) => x,
        None => {
            return;
        },
    };
    let flag = match MoveFlag::parse(word_string(&parts, 3).as_str()) {
        Some(f) => f,
        None => {
            return;
        },
    };
    let tp = match state.board[from as usize] {
        Some(p) => p,
        None => {
            return;
        },
    };
    play(state, from, to, flag, tp);
}

impl Chess {
    pub fn fold(state: &mut State, kind: &str, payload: &str)
        requires
            well_formed(old(state)@),
            fold_ok(old(state)@, kind@, payload@),
        ensures
            final(state)@ == fold_spec(old(state)@, kind@, payload@),
            well_formed(final(state)@),
            kind@ == "GAME_STARTED"@ && time_config_of(payload@).blind ==> blind_permuted(final(state)@.board),
    {
        proof {
            reveal_strlit("GAME_STARTED");
            reveal_strlit("PLAYER_JOINED");
            reveal_strlit("PLAYER_LEFT");
            reveal_strlit("HOST_CHANGED");
            assert("GAME_STARTED"@.len() != "PLAYER_JOINED"@.len());
            assert("GAME_STARTED"@.len() != "PLAYER_LEFT"@.len());
            assert("GAME_STARTED"@[0] != "HOST_CHANGED"@[0]);
        }
        if str_is(kind, "PLAYER_JOINED") {
            fold_joined(&mut state.players, &mut state.host, payload, MAX_PLAYERS);
        } else if str_is(kind, "PLAYER_LEFT") {
            fold_left(&mut state.players, &mut state.host, payload);
            proof {
                crate::lobby::lemma_left_len(old(state)@.lobby(), payload@);
            }
        } else if str_is(kind, "HOST_CHANGED") {
            fold_host_changed(&mut state.host, payload);
        } else if str_is(kind, "GAME_STARTED") {
            fold_started(state, payload);
        } else if str_is(kind, "MOVE") {
            fold_move(state, payload);
        } else if str_is(kind, "WINNER") {
            let v = chars_of(payload);
            proof {
                assert(v@.subrange(0, v@.len() as int) =~= v@);
            }
            let (a, b) = trim_range(&v, 0, v.len());
            match parse_unsigned_range(&v, a, b, u8::MAX as u64) {
                Some(w) => {
                    state.winner = Some(w as u8);
                    state.phase = Phase::Finished;
                },
                None => {},
            }
        } else if str_is(kind, "DRAW") {
            state.winner = None;
            state.phase = Phase::Finished;
        }
    }
}


// ---------------------------------------------------------------------------
// Validation
// ---------------------------------------------------------------------------

/// Which legal move `from -> to` means: a plain move first, then en
/// passant, then castling; a promotion needs the promotion piece named.
pub open spec fn choose_flag(b: Board, rights: CastleRights, ep: Option<u8>, c: Color, f: int, t: int, promo: Option<PieceType>) -> Result<MoveFlag, Seq<char>> {
    let lm = |fl: MoveFlag| legal_move(b, rights, ep, c, f, t, fl);
    if lm(MoveFlag::Normal) {
        Ok(MoveFlag::Normal)
    } else if lm(MoveFlag::EnPassant) {
        Ok(MoveFlag::EnPassant)
    } else if lm(MoveFlag::CastleK) {
        Ok(MoveFlag::CastleK)
    } else if lm(MoveFlag::CastleQ) {
        Ok(MoveFlag::CastleQ)
    } else if lm(MoveFlag::Promote(PieceType::Queen)) || lm(MoveFlag::Promote(PieceType::Rook)) || lm(
        MoveFlag::Promote(PieceType::Bishop),
    ) || lm(MoveFlag::Promote(PieceType::Knight)) {
        match promo {
            None => Err("promotion piece required"@),
            Some(w) => if lm(MoveFlag::Promote(w)) {
                Ok(MoveFlag::Promote(w))
            } else {
                Err("illegal move"@)
            },
        }
    } else {
        Err("illegal move"@)
    }
}

/// The move a `MOVE` action asks for, as `(from, to, flag, shown piece,
/// mover)`, or why it is refused.
pub open spec fn move_choice(s: StateView, player: Seq<char>, payload: Seq<char>) -> Result<
    (int, int, MoveFlag, Piece, Color),
    Seq<char>,
> {
    if s.phase != Phase::Playing {
        Err("not playing"@)
    } else {
        match index_of(s.players, player) {
            None => Err("not in room"@),
            Some(i) => {
                let mover = if i == 0 {
                    Color::White
                } else {
                    Color::Black
                };
                let parts = tokens(payload);
                if s.turn != mover {
                    Err("not your turn"@)
                } else if parts.len() < 2 || parts.len() > 3 {
                    Err("expected: MOVE <from> <to> [promo]"@)
                } else {
                    match square_of(parts[0]) {
                        None => Err("bad from square"@),
                        Some(f) => match square_of(parts[1]) {
                            None => Err("bad to square"@),
                            Some(t) => {
                                let promo = if parts.len() > 2 {
                                    promo_of(parts[2])
                                } else {
                                    None
                                };
                                let disp = overlay(s.board, s.facade);
                                match disp[f as int] {
                                    None => Err("no piece on from square"@),
                                    Some(dp) => if dp.0 != mover {
                                        Err("not your piece"@)
                                    } else {
                                        match choose_flag(disp, s.castle, s.ep, mover, f as int, t as int, promo) {
                                            Err(e) => Err(e),
                                            Ok(fl) => Ok((f as int, t as int, fl, dp, mover)),
                                        }
                                    },
                                }
                            },
                        },
                    }
                }
            },
        }
    }
}

/// `PIECE_REVEALED <square> <true type>` for each revealed square that
/// holds a piece.
pub open spec fn reveal_events(b: Board, sqs: Seq<u8>) -> Seq<EventView>
    decreases sqs.len(),
{
    if sqs.len() == 0 {
        seq![]
    } else {
        reveal_events(b, sqs.drop_last()) + match b[sqs.last() as int] {
            Some(p) => seq![
                ("PIECE_REVEALED"@, square_name(sqs.last() as int) + " "@ + piece_letter(p.1)),
            ],
            None => seq![],
        }
    }
}

/// The events of a chosen move: `MOVE`, the reveals, and then the first
/// that applies of mate (`WINNER`), stalemate, the fifty-move rule,
/// threefold repetition, insufficient material (`DRAW`), or check.
pub open spec fn move_outcome(s: StateView, player: Seq<char>, c: Color, f: int, t: int, fl: MoveFlag, dp: Piece) -> Seq<EventView> {
    let b2 = moved_board(s.board, f, t, fl);
    let irr = is_capture(s.board, t, fl) || is_pawn_move(s.board, f);
    let castle2 = rights_after(s.castle, f, t, dp);
    let ep2 = ep_target(dp, f, t);
    let hm = if irr {
        0
    } else {
        s.halfmove + 1
    };
    let turn2 = opposite(c);
    let (f2, revealed) = facade_after(s.facade, c, f as u8, t as u8);
    let db2 = overlay(b2, f2);
    let h = position_key(db2, turn2, castle2, ep2);
    let opp_check = checked(db2, turn2);
    let hist = (if irr {
        Seq::<u64>::empty()
    } else {
        s.history
    }).push(h);
    let opp_has = has_legal(b2, castle2, ep2, turn2);
    let mv = (
        "MOVE"@,
        player + " "@ + square_name(f) + " "@ + square_name(t) + " "@ + flag_name(fl),
    );
    let term: Seq<EventView> = if opp_check && !opp_has {
        seq![("WINNER"@, dec(color_idx(c) as nat))]
    } else if !opp_check && !opp_has {
        seq![("DRAW"@, "STALEMATE"@)]
    } else if hm >= FIFTY_MOVE_HALFMOVES {
        seq![("DRAW"@, "FIFTY_MOVE"@)]
    } else if occurrences(hist, h) >= 3 {
        seq![("DRAW"@, "THREEFOLD"@)]
    } else if no_mating_material(db2) {
        seq![("DRAW"@, "INSUFFICIENT"@)]
    } else if opp_check {
        seq![("CHECK"@, dec(color_idx(turn2) as nat))]
    } else {
        seq![]
    };
    seq![mv] + reveal_events(b2, revealed) + term
}

pub open spec fn move_verdict(s: StateView, player: Seq<char>, payload: Seq<char>) -> VerdictView {
    match move_choice(s, player, payload) {
        Err(e) => Err(e),
        Ok((f, t, fl, dp, c)) => Ok(move_outcome(s, player, c, f, t, fl, dp)),
    }
}

/// A move that is neither a capture nor a pawn move needs room on the
/// halfmove clock.
pub open spec fn move_verdict_ok(s: StateView, player: Seq<char>, payload: Seq<char>) -> bool {
    match move_choice(s, player, payload) {
        Err(_) => true,
        Ok((f, t, fl, dp, c)) => !(is_capture(s.board, t, fl) || is_pawn_move(s.board, f)) ==> s.halfmove
            < u32::MAX,
    }
}

/// The verdict on an action, with `seed` as the blind-shuffle seed that
/// `START` hands on in blind mode.
pub open spec fn validate_spec(s: StateView, player: Seq<char>, kind: Seq<char>, payload: Seq<char>, seed: u64) -> VerdictView {
    if kind == "JOIN"@ {
        join_verdict(
            Lobby { players: s.players, host: None },
            s.phase == Phase::Lobby,
            player,
            MAX_PLAYERS as nat,
        )
    } else if kind == "LEAVE"@ {
        leave_verdict(s.lobby(), player)
    } else if kind == "CHAT"@ {
        chat_verdict(player, payload)
    } else if kind == "START"@ {
        match start_refusal(s.lobby(), s.phase == Phase::Lobby, player) {
            Some(e) => Err(e),
            None => {
                let cfg = time_config_of(payload);
                Ok(seq![("GAME_STARTED"@, if cfg.blind { render_seed_spec(cfg, seed) } else { render_spec(cfg) })])
            },
        }
    } else if kind == "MOVE"@ {
        move_verdict(s, player, payload)
    } else {
        Err("unknown action: "@ + kind)
    }
}

pub open spec fn validate_ok(s: StateView, player: Seq<char>, kind: Seq<char>, payload: Seq<char>) -> bool {
    kind == "MOVE"@ ==> move_verdict_ok(s, player, payload)
}

/// A position for the move generator: only the board, the castling rights
/// and the en-passant target are read.
fn position_state(board: [Option<Piece>; BOARD], castle: CastleRights, ep: Option<u8>) -> (s: State)
    ensures
        s.board@ == board@,
        s.castle == castle,
        s.en_passant == ep,
{
    State {
        phase: Phase::Playing,
        players: Vec::new(),
        host: None,
        board,
        turn: Color::White,
        castle,
        en_passant: ep,
        halfmove: 0,
        winner: None,
        history: Vec::new(),
        time_config: TimeConfig::default(),
        facade: BTreeMap::new(),
    }
}

/// The flag the legal moves `legals` give `from -> to`, as `choose_flag`.
fn pick_flag(legals: &Vec<Mv>, from: u8, to: u8, promo: Option<PieceType>, Ghost(b): Ghost<Board>, Ghost(rights): Ghost<CastleRights>, Ghost(ep): Ghost<Option<u8>>, Ghost(c): Ghost<Color>) -> (r: Result<MoveFlag, String>)
    requires
        forall|m: Mv|
            #![trigger legals@.contains(m)]
            legals@.contains(m) <==> legal_move(b, rights, ep, c, m.0 as int, m.1 as int, m.2),
    ensures
        match choose_flag(b, rights, ep, c, from as int, to as int, promo) {
            Ok(fl) => r == Ok::<MoveFlag, String>(fl),
            Err(e) => r matches Err(x) && x@ == e,
        },
{
    if contains_move(legals, (from, to, MoveFlag::Normal)) {
        return Ok(MoveFlag::Normal);
    }
    if contains_move(legals, (from, to, MoveFlag::EnPassant)) {
        return Ok(MoveFlag::EnPassant);
    }
    if contains_move(legals, (from, to, MoveFlag::CastleK)) {
        return Ok(MoveFlag::CastleK);
    }
    if contains_move(legals, (from, to, MoveFlag::CastleQ)) {
        return Ok(MoveFlag::CastleQ);
    }
    if contains_move(legals, (from, to, MoveFlag::Promote(PieceType::Queen))) || contains_move(
        legals,
        (from, to, MoveFlag::Promote(PieceType::Rook)),
    ) || contains_move(legals, (from, to, MoveFlag::Promote(PieceType::Bishop))) || contains_move(
        legals,
        (from, to, MoveFlag::Promote(PieceType::Knight)),
    ) {
        match promo {
            None => Err(String::from_str("promotion piece required")),
            Some(w) => if contains_move(legals, (from, to, MoveFlag::Promote(w))) {
                Ok(MoveFlag::Promote(w))
            } else {
                Err(String::from_str("illegal move"))
            },
        }
    } else {
        Err(String::from_str("illegal move"))
    }
}

fn reveal_list(b2: &[Option<Piece>; BOARD], revealed: &Vec<u8>, out: &mut Vec<(String, String)>)
    requires
        forall|i: int| 0 <= i < revealed@.len() ==> revealed@[i] < 64,
    ensures
        final(out).deep_view() == old(out).deep_view() + reveal_events(b2@, revealed@),
{
    let ghost o = out.deep_view();
    let mut i: usize = 0;
    while i < revealed.len()
        invariant
            i <= revealed.len(),
            forall|j: int| 0 <= j < revealed@.len() ==> revealed@[j] < 64,
            out.deep_view() == o + reveal_events(b2@, revealed@.take(i as int)),
        decreases revealed.len() - i,
    {
        let sq_i = revealed[i];
        proof {
            assert(revealed@.take(i + 1).drop_last() =~= revealed@.take(i as int));
            assert(revealed@.take(i + 1).last() == sq_i);
        }
        let ghost before = out.deep_view();
        match b2[sq_i as usize] {
            Some(p) => {
                let mut v: Vec<char> = Vec::new();
                let n = square_str(sq_i);
                push_str(&mut v, n.as_str());
                push_str(&mut v, " ");
                push_str(&mut v, piecetype_letter(p.1));
                out.push(event("PIECE_REVEALED", string_of(&v)));
            },
            None => {},
        }
        proof {
            let tail = match b2@[sq_i as int] {
                Some(p) => seq![("PIECE_REVEALED"@, square_name(sq_i as int) + " "@ + piece_letter(p.1))],
                None => Seq::<EventView>::empty(),
            };
            assert(out.deep_view() =~= before + tail);
            assert(reveal_events(b2@, revealed@.take(i + 1)) == reveal_events(b2@, revealed@.take(i as int)) + tail);
            assert(out.deep_view() =~= o + reveal_events(b2@, revealed@.take(i + 1)));
        }
        i += 1;
    }
    proof {
        assert(revealed@.take(revealed@.len() as int) =~= revealed@);
    }
}


fn copy_u64s(v: &Vec<u64>) -> (r: Vec<u64>)
    ensures
        r@ == v@,
{
    let mut r: Vec<u64> = Vec::new();
    let mut i: usize = 0;
    while i < v.len()
        invariant
            i <= v.len(),
            r@ == v@.take(i as int),
        decreases v.len() - i,
    {
        r.push(v[i]);
        proof {
            assert(r@ =~= v@.take(i + 1));
        }
        i += 1;
    }
    proof {
        assert(r@ =~= v@);
    }
    r
}

/// The overlay keeps each piece's color.
proof fn lemma_overlay_color(b: Board, f: Map<u8, PieceType>, s: int)
    requires
        0 <= s < 64,
    ensures
        overlay(b, f)[s] is Some <==> b[s] is Some,
        b[s] matches Some(p) ==> (overlay(b, f)[s] matches Some(q) && q.0 == p.0),
{
}

/// A legal move on the shown board can be made on the true board.
proof fn lemma_choice_apply_ok(s: StateView, c: Color, f: int, t: int, fl: MoveFlag)
    requires
        0 <= f < 64,
        legal_move(overlay(s.board, s.facade), s.castle, s.ep, c, f, t, fl),
    ensures
        apply_ok(s.board, f, t, fl),
        0 <= t < 64,
{
    let d = overlay(s.board, s.facade);
    lemma_pseudo_apply_ok(d, s.castle, s.ep, c, f, t, fl);
    lemma_overlay_color(s.board, s.facade, f);
}

/// The revealed squares and the facade after a move stay on the board.
proof fn lemma_facade_after_ok(f: Map<u8, PieceType>, mover: Color, from: u8, to: u8)
    requires
        facade_ok(f),
        to < 64,
    ensures
        facade_ok(facade_after(f, mover, from, to).0),
        forall|i: int|
            0 <= i < facade_after(f, mover, from, to).1.len() ==> #[trigger] facade_after(f, mover, from, to).1[i]
                < 64,
{
    let f2 = f.remove(from).remove(to);
    let left = keys_left(f2, blind_squares(mover));
    lemma_keys_left_sub(f2, blind_squares(mover));
    if left.len() == 1 {
        assert(blind_squares(mover).contains(left[0]));
    }
}

proof fn lemma_keys_left_sub(f: Map<u8, PieceType>, sqs: Seq<u8>)
    ensures
        forall|i: int| 0 <= i < keys_left(f, sqs).len() ==> sqs.contains(#[trigger] keys_left(f, sqs)[i]),
    decreases sqs.len(),
{
    if sqs.len() > 0 {
        lemma_keys_left_sub(f, sqs.drop_last());
        assert forall|i: int| 0 <= i < keys_left(f, sqs).len() implies sqs.contains(
            #[trigger] keys_left(f, sqs)[i],
        ) by {
            let rest = keys_left(f, sqs.drop_last());
            if i < rest.len() {
                let x = rest[i];
                assert(sqs.drop_last().contains(x));
                let j = choose|j: int| 0 <= j < sqs.drop_last().len() && sqs.drop_last()[j] == x;
                assert(sqs[j] == x);
            } else {
                assert(sqs[sqs.len() - 1] == sqs.last());
            }
        }
    }
}

fn validate_move(state: &State, player: &str, payload: &str) -> (r: Result<Vec<(String, String)>, String>)
    requires
        well_formed(state@),
        move_verdict_ok(state@, player@, payload@),
    ensures
        verdict_view(r) == move_verdict(state@, player@, payload@),
{
    if state.phase != Phase::Playing {
        return Err(String::from_str("not playing"));
    }
    let idx = match find_player(&state.players, player) {
        Some(i) => i,
        None => {
            return Err(String::from_str("not in room"));
        },
    };
    proof {
        crate::lobby::lemma_index_of(state.players.deep_view(), player@);
    }
    let mover = Color::from_idx(idx as u8);
    if state.turn != mover {
        return Err(String::from_str("not your turn"));
    }
    let parts = words_of(payload);
    if parts.len() < 2 || parts.len() > 3 {
        return Err(String::from_str("expected: MOVE <from> <to> [promo]"));
    }
    let from = match word_square(&parts, 0) {
        Some(x) => x,
        None => {
            return Err(String::from_str("bad from square"));
        },
    };
    let to = match word_square(&parts, 1) {
        Some(x) => x,
        None => {
            return Err(String::from_str("bad to square"));
        },
    };
    let promo = if parts.len() > 2 {
        parse_promo(word_string(&parts, 2).as_str())
    } else {
        None
    };
    let display = display_board(state);
    let dp = match display[from as usize] {
        Some(p) => p,
        None => {
            return Err(String::from_str("no piece on from square"));
        },
    };
    if dp.0 != mover {
        return Err(String::from_str("not your piece"));
    }
    let display_state = position_state(display, state.castle, state.en_passant);
    let legals = legal_moves(&display_state, mover);
    let fl = match pick_flag(
        &legals,
        from,
        to,
        promo,
        Ghost(display@),
        Ghost(state.castle),
        Ghost(state.en_passant),
        Ghost(mover),
    ) {
        Ok(fl) => fl,
        Err(e) => {
            return Err(e);
        },
    };
    proof {
        lemma_choice_apply_ok(state@, mover, from as int, to as int, fl);
    }
    let (b2, capture, pawn_move) = apply_move(&state.board, from, to, fl);
    let new_castle = update_castle_rights(state.castle, from, to, dp);
    let new_ep = ep_after_move(dp, from, to);
    let irreversible = capture || pawn_move;
    let new_halfmove: u32 = if irreversible {
        0
    } else {
        state.halfmove + 1
    };
    let new_turn = mover.other();
    let mut next_facade = state.facade.clone();
    let revealed = update_facade_post_move(&mut next_facade, mover, from, to);
    proof {
        lemma_facade_after_ok(state.facade@, mover, from, to);
    }
    let display_b2 = overlay_facade(&b2, &next_facade);
    let new_hash = position_hash(&display_b2, new_turn, new_castle, new_ep);
    let opponent_in_check = in_check(&display_b2, new_turn);
    let next_state = position_state(b2, new_castle, new_ep);
    let opp_legals = legal_moves(&next_state, new_turn);
    proof {
        lemma_no_legal(b2@, new_castle, new_ep, new_turn, opp_legals@);
    }
    let opponent_has_move = opp_legals.len() > 0;
    let mut history = if irreversible {
        Vec::new()
    } else {
        copy_u64s(&state.history)
    };
    history.push(new_hash);
    let mut mv: Vec<char> = Vec::new();
    push_str(&mut mv, player);
    push_str(&mut mv, " ");
    let fs = square_str(from);
    push_str(&mut mv, fs.as_str());
    push_str(&mut mv, " ");
    let ts = square_str(to);
    push_str(&mut mv, ts.as_str());
    push_str(&mut mv, " ");
    let flag_s = fl.as_str();
    push_str(&mut mv, flag_s.as_str());
    let mut out: Vec<(String, String)> = Vec::new();
    out.push(event("MOVE", string_of(&mv)));
    let ghost o1 = out.deep_view();
    reveal_list(&b2, &revealed, &mut out);
    let ghost o2 = out.deep_view();
    if opponent_in_check && !opponent_has_move {
        let mut w: Vec<char> = Vec::new();
        push_dec(&mut w, mover.idx() as u64);
        out.push(event("WINNER", string_of(&w)));
    } else if !opponent_in_check && !opponent_has_move {
        out.push(event("DRAW", String::from_str("STALEMATE")));
    } else if new_halfmove >= FIFTY_MOVE_HALFMOVES {
        out.push(event("DRAW", String::from_str("FIFTY_MOVE")));
    } else if threefold(&history, new_hash) {
        out.push(event("DRAW", String::from_str("THREEFOLD")));
    } else if insufficient_material(&display_b2) {
        out.push(event("DRAW", String::from_str("INSUFFICIENT")));
    } else if opponent_in_check {
        let mut w: Vec<char> = Vec::new();
        push_dec(&mut w, new_turn.idx() as u64);
        out.push(event("CHECK", string_of(&w)));
    }
    proof {
        assert(o1 =~= seq![("MOVE"@, mv@)]);
        assert(out.deep_view() =~= move_outcome(state@, player@, mover, from as int, to as int, fl, dp));
    }
    Ok(out)
}

impl Chess {
    /// Validation with the blind-shuffle seed given: what `validate` does
    /// once it has drawn the seed.
    pub fn validate_with_seed(state: &State, player: &str, kind: &str, payload: &str, seed: u64) -> (r: Result<
        Vec<(String, String)>,
        String,
    >)
        requires
            well_formed(state@),
            validate_ok(state@, player@, kind@, payload@),
        ensures
            verdict_view(r) == validate_spec(state@, player@, kind@, payload@, seed),
    {
        if str_is(kind, "JOIN") {
            validate_join(&state.players, state.phase == Phase::Lobby, player, MAX_PLAYERS)
        } else if str_is(kind, "LEAVE") {
            validate_leave(&state.players, &state.host, player)
        } else if str_is(kind, "CHAT") {
            validate_chat(player, payload)
        } else if str_is(kind, "START") {
            match start_check(&state.players, &state.host, state.phase == Phase::Lobby, player) {
                Some(e) => Err(e),
                None => {
                    let cfg = TimeConfig::parse(payload);
                    let p = if cfg.blind {
                        cfg.render_with_seed(seed)
                    } else {
                        cfg.render()
                    };
                    let mut v: Vec<(String, String)> = Vec::new();
                    v.push(event("GAME_STARTED", p));
                    proof {
                        assert(v.deep_view() =~= seq![("GAME_STARTED"@, p@)]);
                    }
                    Ok(v)
                },
            }
        } else if str_is(kind, "MOVE") {
            validate_move(state, player, payload)
        } else {
            let mut m: Vec<char> = Vec::new();
            push_str(&mut m, "unknown action: ");
            push_str(&mut m, kind);
            Err(string_of(&m))
        }
    }

    /// Validates an action; `START` in blind mode draws a fresh random seed.
    pub fn validate(state: &State, player: &str, kind: &str, payload: &str) -> (r: Result<
        Vec<(String, String)>,
        String,
    >)
        requires
            well_formed(state@),
            validate_ok(state@, player@, kind@, payload@),
        ensures
            exists|seed: u64| verdict_view(r) == validate_spec(state@, player@, kind@, payload@, seed),
    {
        let seed = fresh_seed();
        Self::validate_with_seed(state, player, kind, payload, seed)
    }

    pub fn max_players() -> (n: usize)
        ensures
            n == MAX_PLAYERS,
    {
        MAX_PLAYERS
    }

    pub fn game_id() -> (s: &'static str)
        ensures
            s@ == "chess"@,
    {
        "chess"
    }

    /// Whom the game waits on: the member whose color is to move.
    pub fn pending_players(state: &State) -> (r: Vec<String>)
        ensures
            r.deep_view() == (if state@.phase == Phase::Playing && (color_idx(state.turn) as int)
                < state@.players.len() {
                seq![state@.players[color_idx(state.turn) as int]]
            } else {
                Seq::<Seq<char>>::empty()
            }),
    {
        let mut r: Vec<String> = Vec::new();
        let i = state.turn.idx() as usize;
        if state.phase == Phase::Playing && i < state.players.len() {
            r.push(state.players[i].clone());
        }
        proof {
            if state@.phase == Phase::Playing && (i as int) < state@.players.len() {
                assert(r.deep_view() =~= seq![state@.players[i as int]]);
            } else {
                assert(r.deep_view() =~= Seq::<Seq<char>>::empty());
            }
        }
        r
    }

    /// The time pool in seconds, when there is one.
    pub fn time_pool_seconds(state: &State) -> (r: Option<u64>)
        ensures
            r == (if state.time_config.pool_minutes == 0 {
                None
            } else {
                Some((state.time_config.pool_minutes * 60) as u64)
            }),
    {
        let m = state.time_config.pool_minutes;
        if m == 0 {
            None
        } else {
            Some(m as u64 * 60)
        }
    }

    /// The per-turn limit in seconds, when there is one.
    pub fn per_turn_seconds(state: &State) -> (r: Option<u64>)
        ensures
            r == (if state.time_config.per_turn_seconds == 0 {
                None
            } else {
                Some(state.time_config.per_turn_seconds as u64)
            }),
    {
        let s = state.time_config.per_turn_seconds;
        if s == 0 {
            None
        } else {
            Some(s as u64)
        }
    }

    pub fn snapshot(state: &State) -> (r: RoomSnapshot)
        ensures
            r.phase@ == phase_name(state.phase),
            r.host.deep_view() == state@.host,
            r.players.deep_view() == state@.players,
    {
        RoomSnapshot {
            phase: phase_str(&state.phase),
            host: state.host.clone(),
            players: clone_players(&state.players),
        }
    }
}

pub open spec fn phase_name(p: Phase) -> Seq<char> {
    match p {
        Phase::Lobby => "lobby"@,
        Phase::Playing => "playing"@,
        Phase::Finished => "finished"@,
    }
}

pub fn phase_str(phase: &Phase) -> (s: String)
    ensures
        s@ == phase_name(*phase),
{
    match phase {
        Phase::Lobby => String::from_str("lobby"),
        Phase::Playing => String::from_str("playing"),
        Phase::Finished => String::from_str("finished"),
    }
}

} // verus!
