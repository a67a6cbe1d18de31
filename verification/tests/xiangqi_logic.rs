use judge::xiangqi::{
    idx, legal_moves, parse_square, pseudo_moves, square_to_str, initial_board, Kind, Phase, Piece,
    State, Xiangqi, CELLS,
};

fn apply(s: &mut State, kind: &str, payload: &str) {
    Xiangqi::fold(s, kind, payload);
}

fn drive(s: &mut State, player: &str, kind: &str, payload: &str) {
    let evs = Xiangqi::validate(s, player, kind, payload).expect("validate ok");
    for (k, p) in &evs {
        apply(s, k, p);
    }
}

fn place(b: &mut [Option<Piece>; CELLS], side: u8, kind: Kind, sq: &str) {
    let (r, c) = parse_square(sq).expect("valid square");
    b[idx(r, c)] = Some(Piece { side, kind });
}

fn empty_board_with_kings() -> [Option<Piece>; CELLS] {
    let mut b: [Option<Piece>; CELLS] = [None; CELLS];
    b[idx(0, 3)] = Some(Piece { side: 0, kind: Kind::General });
    b[idx(9, 5)] = Some(Piece { side: 1, kind: Kind::General });
    b
}

fn started_game() -> State {
    let mut s = State::default();
    drive(&mut s, "a", "JOIN", "");
    drive(&mut s, "b", "JOIN", "");
    drive(&mut s, "a", "START", "");
    s
}

#[test]
fn parse_square_round_trip() {
    for sq in ["a0", "i9", "e5", "c2"] {
        let (r, c) = parse_square(sq).unwrap();
        assert_eq!(square_to_str(r, c), sq);
    }
    assert!(parse_square("j0").is_none());
    assert!(parse_square("a10").is_none());
    assert!(parse_square("").is_none());
}

#[test]
fn rook_captures_along_file() {
    let mut b = empty_board_with_kings();
    place(&mut b, 0, Kind::Rook, "e2");
    place(&mut b, 1, Kind::Pawn, "e7");
    let moves = pseudo_moves(&b, 2, 4);
    assert!(moves.contains(&(7, 4)));
    assert!(moves.contains(&(3, 4)));
    assert!(moves.contains(&(6, 4)));
    assert!(!moves.contains(&(8, 4)));
}

#[test]
fn horse_blocked_by_leg() {
    let mut b = empty_board_with_kings();
    place(&mut b, 0, Kind::Horse, "b2");
    let unblocked = pseudo_moves(&b, 2, 1);
    assert!(unblocked.contains(&(4, 0)));
    assert!(unblocked.contains(&(4, 2)));

    place(&mut b, 0, Kind::Pawn, "b3");
    let blocked = pseudo_moves(&b, 2, 1);
    assert!(!blocked.contains(&(4, 0)));
    assert!(!blocked.contains(&(4, 2)));
    assert!(blocked.contains(&(0, 0)) || blocked.contains(&(0, 2)));
}

#[test]
fn cannon_needs_screen_to_capture() {
    let mut b = empty_board_with_kings();
    place(&mut b, 0, Kind::Cannon, "e2");
    place(&mut b, 1, Kind::Pawn, "e7");
    let no_screen = pseudo_moves(&b, 2, 4);
    assert!(!no_screen.contains(&(7, 4)), "cannon should not capture without screen");
    assert!(no_screen.contains(&(3, 4)));

    place(&mut b, 0, Kind::Pawn, "e5");
    let with_screen = pseudo_moves(&b, 2, 4);
    assert!(with_screen.contains(&(7, 4)), "cannon should capture over a screen");
    assert!(!with_screen.contains(&(5, 4)));
    assert!(!with_screen.contains(&(6, 4)));
}

#[test]
fn elephant_cannot_cross_river() {
    let mut b = empty_board_with_kings();
    place(&mut b, 0, Kind::Elephant, "c4");
    let moves = pseudo_moves(&b, 4, 2);
    assert!(!moves.contains(&(6, 4)));
    assert!(moves.contains(&(2, 0)));
    assert!(moves.contains(&(2, 4)));
}

#[test]
fn elephant_blocked_by_midpoint() {
    let mut b = empty_board_with_kings();
    place(&mut b, 0, Kind::Elephant, "c0");
    place(&mut b, 0, Kind::Pawn, "d1");
    let moves = pseudo_moves(&b, 0, 2);
    assert!(!moves.contains(&(2, 4)));
    assert!(moves.contains(&(2, 0)));
}

#[test]
fn pawn_sideways_only_after_river() {
    let mut b = empty_board_with_kings();
    place(&mut b, 0, Kind::Pawn, "e3");
    let pre = pseudo_moves(&b, 3, 4);
    assert_eq!(pre, vec![(4, 4)]);

    let mut b2 = empty_board_with_kings();
    place(&mut b2, 0, Kind::Pawn, "e5");
    let post = pseudo_moves(&b2, 5, 4);
    assert!(post.contains(&(6, 4)));
    assert!(post.contains(&(5, 3)));
    assert!(post.contains(&(5, 5)));
}

#[test]
fn flying_general_rejected() {
    let mut s = started_game();
    s.board = [None; CELLS];
    s.board[idx(0, 4)] = Some(Piece { side: 0, kind: Kind::General });
    s.board[idx(9, 4)] = Some(Piece { side: 1, kind: Kind::General });
    s.board[idx(2, 4)] = Some(Piece { side: 0, kind: Kind::Rook });
    s.turn = 0;
    let res = Xiangqi::validate(&s, "a", "MOVE", "e2 d2");
    assert!(res.is_err(), "flying general should reject this move");
}

#[test]
fn rook_capture_general_wins() {
    let mut s = started_game();
    s.board = [None; CELLS];
    s.board[idx(0, 3)] = Some(Piece { side: 0, kind: Kind::General });
    s.board[idx(9, 4)] = Some(Piece { side: 1, kind: Kind::General });
    s.board[idx(1, 4)] = Some(Piece { side: 0, kind: Kind::Rook });
    s.turn = 0;

    drive(&mut s, "a", "MOVE", "e1 e9");
    assert_eq!(s.phase, Phase::Finished);
    assert_eq!(s.winner, Some(0));
}

#[test]
fn stalemate_makes_other_side_winner() {
    let mut s = started_game();
    s.board = [None; CELLS];
    s.board[idx(9, 5)] = Some(Piece { side: 1, kind: Kind::General });
    s.board[idx(0, 3)] = Some(Piece { side: 0, kind: Kind::General });
    s.board[idx(1, 4)] = Some(Piece { side: 0, kind: Kind::Rook });
    s.board[idx(1, 5)] = Some(Piece { side: 0, kind: Kind::Rook });
    s.board[idx(4, 0)] = Some(Piece { side: 0, kind: Kind::Pawn });
    s.turn = 0;
    assert!(legal_moves(&s.board, 1).is_empty(), "black should have no legal moves");

    drive(&mut s, "a", "MOVE", "a4 a5");
    assert_eq!(s.phase, Phase::Finished, "phase should be finished");
    assert_eq!(s.winner, Some(0));
}

#[test]
fn xiangqi_logic_replay_reconstructs() {
    let events: Vec<(&str, &str)> = vec![
        ("PLAYER_JOINED", "a"),
        ("PLAYER_JOINED", "b"),
        ("GAME_STARTED", ""),
        ("MOVE", "a e3 e4"),
        ("MOVE", "b e6 e5"),
    ];
    let mut s = State::default();
    for (k, p) in &events {
        apply(&mut s, k, p);
    }
    assert_eq!(s.phase, Phase::Playing);
    assert_eq!(s.board[idx(4, 4)], Some(Piece { side: 0, kind: Kind::Pawn }));
    assert_eq!(s.board[idx(5, 4)], Some(Piece { side: 1, kind: Kind::Pawn }));
    assert_eq!(s.turn, 0);
}

#[test]
fn rejects_off_turn_move() {
    let s = started_game();
    assert!(Xiangqi::validate(&s, "b", "MOVE", "e6 e5").is_err());
}

#[test]
fn rejects_moving_opponents_piece() {
    let s = started_game();
    assert!(Xiangqi::validate(&s, "a", "MOVE", "e6 e5").is_err());
}

// ---- further cases ----

#[test]
fn xiangqi_square_names_and_bad_names() {
    assert_eq!(parse_square("e0"), Some((0, 4)));
    assert_eq!(parse_square("i9"), Some((9, 8)));
    assert_eq!(parse_square("a+5"), Some((5, 0)));
    assert_eq!(parse_square("a05"), Some((5, 0)));
    assert_eq!(parse_square("e"), None);
    assert_eq!(parse_square("E0"), None);
    assert_eq!(parse_square("e-1"), None);
    assert_eq!(square_to_str(7, 2), "c7");
    assert_eq!(square_to_str(12, 0), "a12");
}

#[test]
fn xiangqi_starting_position() {
    let b = initial_board();
    assert_eq!(b[idx(0, 4)], Some(Piece { side: 0, kind: Kind::General }));
    assert_eq!(b[idx(9, 0)], Some(Piece { side: 1, kind: Kind::Rook }));
    assert_eq!(b[idx(2, 7)], Some(Piece { side: 0, kind: Kind::Cannon }));
    assert_eq!(b[idx(6, 8)], Some(Piece { side: 1, kind: Kind::Pawn }));
    assert_eq!(b[idx(4, 4)], None);
    assert_eq!(b.iter().filter(|p| p.is_some()).count(), 32);
    // Red's opening: 5 pawns x1, 2 horses x2, 2 elephants x2, 2 advisors x1,
    // 2 cannons (12 each... ), rooks x2, general x1.
    assert_eq!(legal_moves(&b, 0).len(), 44);
}

#[test]
fn xiangqi_move_errors() {
    let s = started_game();
    let err = |p: &str, payload: &str| Xiangqi::validate(&s, p, "MOVE", payload).unwrap_err();
    assert_eq!(err("a", "e3"), "expected: MOVE <from> <to>");
    assert_eq!(err("a", "z3 e4"), "bad from");
    assert_eq!(err("a", "e3 e10"), "bad to");
    assert_eq!(err("a", "e3 e3"), "from == to");
    assert_eq!(err("a", "e4 e5"), "no piece at from");
    assert_eq!(err("a", "e6 e5"), "not your piece");
    assert_eq!(err("a", "e3 e5"), "illegal move for piece");
    assert_eq!(err("b", "e6 e5"), "not your turn");
    assert_eq!(err("c", "e6 e5"), "not in room");
    let lobby = State::default();
    assert_eq!(
        Xiangqi::validate(&lobby, "a", "MOVE", "e3 e4").unwrap_err(),
        "not playing"
    );
    assert_eq!(
        Xiangqi::validate(&s, "a", "DANCE", "").unwrap_err(),
        "unknown action: DANCE"
    );
}

#[test]
fn xiangqi_move_into_check_refused() {
    let mut s = started_game();
    s.board = [None; CELLS];
    s.board[idx(0, 4)] = Some(Piece { side: 0, kind: Kind::General });
    s.board[idx(9, 3)] = Some(Piece { side: 1, kind: Kind::General });
    s.board[idx(5, 5)] = Some(Piece { side: 1, kind: Kind::Rook });
    s.turn = 0;
    assert_eq!(
        Xiangqi::validate(&s, "a", "MOVE", "e0 f0").unwrap_err(),
        "would leave own general in check"
    );
    assert_eq!(
        Xiangqi::validate(&s, "a", "MOVE", "e0 d0").unwrap_err(),
        "flying general"
    );
    let ok = Xiangqi::validate(&s, "a", "MOVE", "e0 e1").unwrap();
    assert_eq!(ok, vec![("MOVE".to_string(), "a e0 e1".to_string())]);
}

#[test]
fn xiangqi_pending_and_snapshot() {
    let mut s = started_game();
    assert_eq!(Xiangqi::pending_players(&s), vec!["a".to_string()]);
    drive(&mut s, "a", "MOVE", "e3 e4");
    assert_eq!(Xiangqi::pending_players(&s), vec!["b".to_string()]);
    let snap = Xiangqi::snapshot(&s);
    assert_eq!(snap.phase, "playing");
    assert_eq!(snap.host, Some("a".to_string()));
    assert_eq!(Xiangqi::game_id(), "xiangqi");
    assert_eq!(Xiangqi::max_players(), 2);
}

#[test]
fn legal_moves_come_in_square_order() {
    let b = initial_board();
    let r = legal_moves(&b, 0);
    assert_eq!(r[0], (0, 0, 1, 0));
    assert_eq!(r[1], (0, 0, 2, 0));
    assert_eq!(r[2], (0, 1, 2, 0));
    assert_eq!(r[3], (0, 1, 2, 2));
    for w in r.windows(2) {
        assert!(w[0] < w[1]);
    }
    let black = legal_moves(&b, 1);
    for w in black.windows(2) {
        assert!(w[0] < w[1]);
    }
}

#[test]
fn legal_moves_of_a_side_without_pieces_are_empty() {
    let b = initial_board();
    assert!(legal_moves(&b, 2).is_empty());
    assert!(legal_moves(&b, 255).is_empty());
}
