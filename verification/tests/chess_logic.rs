use judge::chess::{
    apply_blind_shuffle, board_map, display_board, parse_blind_seed, parse_square, position_hash, sq, square_str, starting_board,
    CastleRights, Chess, Color, MoveFlag, Phase, PieceType, State, TimeConfig, BLIND_SQUARES_BLACK,
    BLIND_SQUARES_WHITE, BOARD,
};

fn drive(s: &mut State, player: &str, kind: &str, payload: &str) {
    let evs = Chess::validate(s, player, kind, payload).expect("validate ok");
    for (k, p) in &evs {
        Chess::fold(s, k, p);
    }
}

fn join_and_start() -> State {
    let mut s = State::default();
    drive(&mut s, "a", "JOIN", "");
    drive(&mut s, "b", "JOIN", "");
    drive(&mut s, "a", "START", "");
    s
}

#[test]
fn scholars_mate() {
    let mut s = join_and_start();
    drive(&mut s, "a", "MOVE", "e2 e4");
    drive(&mut s, "b", "MOVE", "e7 e5");
    drive(&mut s, "a", "MOVE", "f1 c4");
    drive(&mut s, "b", "MOVE", "b8 c6");
    drive(&mut s, "a", "MOVE", "d1 h5");
    drive(&mut s, "b", "MOVE", "g8 f6");
    drive(&mut s, "a", "MOVE", "h5 f7");
    assert_eq!(s.phase, Phase::Finished, "should be finished after mate");
    assert_eq!(s.winner, Some(0));
}

#[test]
fn kingside_castle() {
    let mut s = join_and_start();
    drive(&mut s, "a", "MOVE", "e2 e4");
    drive(&mut s, "b", "MOVE", "e7 e5");
    drive(&mut s, "a", "MOVE", "g1 f3");
    drive(&mut s, "b", "MOVE", "b8 c6");
    drive(&mut s, "a", "MOVE", "f1 c4");
    drive(&mut s, "b", "MOVE", "g8 f6");
    let evs = Chess::validate(&s, "a", "MOVE", "e1 g1").expect("castle legal");
    let move_ev = evs.iter().find(|(k, _)| k == "MOVE").expect("emits MOVE");
    assert!(move_ev.1.ends_with(" K"), "kingside castle flag K");
    for (k, p) in &evs {
        Chess::fold(&mut s, k, p);
    }
    assert_eq!(s.board[sq(6, 0) as usize], Some((Color::White, PieceType::King)));
    assert_eq!(s.board[sq(5, 0) as usize], Some((Color::White, PieceType::Rook)));
    assert!(!s.castle.wk && !s.castle.wq);
}

#[test]
fn en_passant_capture() {
    let mut s = join_and_start();
    drive(&mut s, "a", "MOVE", "e2 e4");
    drive(&mut s, "b", "MOVE", "a7 a6");
    drive(&mut s, "a", "MOVE", "e4 e5");
    drive(&mut s, "b", "MOVE", "d7 d5");
    assert_eq!(s.en_passant, Some(parse_square("d6").unwrap()));
    let evs = Chess::validate(&s, "a", "MOVE", "e5 d6").expect("ep legal");
    let move_ev = evs.iter().find(|(k, _)| k == "MOVE").expect("emits MOVE");
    assert!(move_ev.1.ends_with(" E"), "en passant flag E");
    for (k, p) in &evs {
        Chess::fold(&mut s, k, p);
    }
    assert_eq!(s.board[sq(3, 5) as usize], Some((Color::White, PieceType::Pawn)));
    assert_eq!(s.board[sq(3, 4) as usize], None);
}

#[test]
fn rejects_move_into_check() {
    let mut s = State::default();
    s.phase = Phase::Playing;
    s.board = [None; BOARD];
    s.board[sq(4, 0) as usize] = Some((Color::White, PieceType::King));
    s.board[sq(4, 7) as usize] = Some((Color::Black, PieceType::King));
    s.board[sq(5, 7) as usize] = Some((Color::Black, PieceType::Rook));
    s.players = vec!["a".into(), "b".into()];
    s.host = Some("a".into());
    s.turn = Color::White;
    s.history = vec![position_hash(&s.board, s.turn, s.castle, s.en_passant)];

    let r = Chess::validate(&s, "a", "MOVE", "e1 f1");
    assert!(r.is_err(), "king cannot walk onto attacked square");
    let ok = Chess::validate(&s, "a", "MOVE", "e1 d1");
    assert!(ok.is_ok(), "king may step to safe square");
}

#[test]
fn rejects_leaving_king_in_check() {
    let mut s = join_and_start();
    drive(&mut s, "a", "MOVE", "e2 e4");
    drive(&mut s, "b", "MOVE", "d7 d6");
    drive(&mut s, "a", "MOVE", "f1 b5");
    drive(&mut s, "b", "MOVE", "c8 d7");
    let r = Chess::validate(&s, "b", "MOVE", "d7 e6");
    assert!(r.is_err(), "moving pinned bishop must be rejected");
}

#[test]
fn stalemate_position() {
    let mut s = State::default();
    s.phase = Phase::Playing;
    s.board = [None; BOARD];
    s.board[sq(0, 0) as usize] = Some((Color::White, PieceType::King));
    s.board[sq(2, 1) as usize] = Some((Color::Black, PieceType::King));
    s.board[sq(1, 3) as usize] = Some((Color::Black, PieceType::Queen));
    s.players = vec!["a".into(), "b".into()];
    s.host = Some("a".into());
    s.turn = Color::Black;
    s.castle = CastleRights::default();
    s.history = vec![position_hash(&s.board, s.turn, s.castle, s.en_passant)];

    let evs = Chess::validate(&s, "b", "MOVE", "b4 b3").expect("Qb3 legal");
    let draw = evs.iter().find(|(k, _)| k == "DRAW").expect("emits DRAW");
    assert_eq!(draw.1, "STALEMATE");
}

#[test]
fn chess_logic_replay_reconstructs() {
    let events: Vec<(&str, &str)> = vec![
        ("PLAYER_JOINED", "a"),
        ("PLAYER_JOINED", "b"),
        ("GAME_STARTED", ""),
        ("MOVE", "a e2 e4 -"),
        ("MOVE", "b e7 e5 -"),
        ("MOVE", "a f1 c4 -"),
        ("MOVE", "b b8 c6 -"),
        ("MOVE", "a d1 h5 -"),
        ("MOVE", "b g8 f6 -"),
        ("MOVE", "a h5 f7 -"),
        ("WINNER", "0"),
    ];
    let mut s = State::default();
    for (k, p) in &events {
        Chess::fold(&mut s, k, p);
    }
    assert_eq!(s.phase, Phase::Finished);
    assert_eq!(s.winner, Some(0));
    assert_eq!(s.board[sq(5, 6) as usize], Some((Color::White, PieceType::Queen)));
    assert_eq!(s.board[sq(4, 7) as usize], Some((Color::Black, PieceType::King)));
}

fn join_and_start_blind(payload: &str) -> State {
    let mut s = State::default();
    drive(&mut s, "a", "JOIN", "");
    drive(&mut s, "b", "JOIN", "");
    drive(&mut s, "a", "START", payload);
    s
}

#[test]
fn blind_shuffle_populates_facade_for_back_ranks() {
    let s = join_and_start_blind("0 0 1");
    for &sq_idx in &BLIND_SQUARES_WHITE {
        assert!(s.facade.contains_key(&sq_idx));
    }
    for &sq_idx in &BLIND_SQUARES_BLACK {
        assert!(s.facade.contains_key(&sq_idx));
    }
    assert!(!s.facade.contains_key(&sq(4, 0)));
    assert!(!s.facade.contains_key(&sq(4, 7)));
    for f in 0..8u8 {
        assert!(!s.facade.contains_key(&sq(f, 1)));
        assert!(!s.facade.contains_key(&sq(f, 6)));
    }
}

#[test]
fn blind_shuffle_is_deterministic_for_same_seed() {
    let mut s1 = State::default();
    drive(&mut s1, "a", "JOIN", "");
    drive(&mut s1, "b", "JOIN", "");
    Chess::fold(&mut s1, "GAME_STARTED", "0 0 1 12345");
    let mut s2 = State::default();
    drive(&mut s2, "a", "JOIN", "");
    drive(&mut s2, "b", "JOIN", "");
    Chess::fold(&mut s2, "GAME_STARTED", "0 0 1 12345");
    assert_eq!(s1.board, s2.board);
    assert_eq!(s1.facade, s2.facade);
}

#[test]
fn blind_facade_overlay_keeps_displayed_starting_pieces() {
    let s = join_and_start_blind("0 0 1");
    let display = display_board(&s);
    let standard = starting_board();
    assert_eq!(display, standard, "facade overlay must look like the standard starting position");
}

#[test]
fn blind_move_emits_piece_revealed_and_clears_facade() {
    let mut s = State::default();
    drive(&mut s, "a", "JOIN", "");
    drive(&mut s, "b", "JOIN", "");
    Chess::fold(&mut s, "GAME_STARTED", "0 0 1 7");
    let from = sq(1, 0);
    let to = sq(2, 2);
    let evs = Chess::validate(&s, "a", "MOVE", &format!("{} {}", square_str(from), square_str(to)))
        .expect("validate ok");
    let revealed: Vec<&(String, String)> = evs.iter().filter(|(k, _)| k == "PIECE_REVEALED").collect();
    assert!(!revealed.is_empty(), "first move must reveal");
    for (k, p) in &evs {
        Chess::fold(&mut s, k, p);
    }
    assert!(!s.facade.contains_key(&from));
    assert!(!s.facade.contains_key(&to));
}

#[test]
fn blind_replay_reconstructs_post_move_state() {
    let mut s = State::default();
    drive(&mut s, "a", "JOIN", "");
    drive(&mut s, "b", "JOIN", "");
    Chess::fold(&mut s, "GAME_STARTED", "0 0 1 99");
    let from = sq(1, 0);
    let to = sq(2, 2);
    let evs = Chess::validate(&s, "a", "MOVE", &format!("{} {}", square_str(from), square_str(to)))
        .expect("validate ok");
    let mut prefix: Vec<(String, String)> = vec![
        ("PLAYER_JOINED".into(), "a".into()),
        ("PLAYER_JOINED".into(), "b".into()),
        ("GAME_STARTED".into(), "0 0 1 99".into()),
    ];
    prefix.extend(evs.into_iter());
    let mut replay = State::default();
    for (k, p) in &prefix {
        Chess::fold(&mut replay, k, p);
    }
    for (k, p) in &prefix {
        Chess::fold(&mut s, k, p);
    }
    assert_eq!(replay.board, s.board);
    assert_eq!(replay.facade, s.facade);
}

// ---- further cases ----

#[test]
fn chess_time_config_round_trip() {
    let c = TimeConfig::parse("5 30 true");
    assert_eq!(c, TimeConfig { pool_minutes: 5, per_turn_seconds: 30, blind: true });
    assert_eq!(c.render(), "5 30 1");
    assert_eq!(c.render_with_seed(42), "5 30 1 42");
    let d = TimeConfig::parse("x -1");
    assert_eq!(d, TimeConfig { pool_minutes: 0, per_turn_seconds: 0, blind: false });
    assert_eq!(d.render_with_seed(42), "0 0 0");
    assert_eq!(parse_blind_seed("0 0 1 77"), Some(77));
    assert_eq!(parse_blind_seed("0 0 1"), None);
    assert_eq!(parse_blind_seed("0 0 1 -3"), None);
}

#[test]
fn chess_square_names() {
    assert_eq!(parse_square("a1"), Some(0));
    assert_eq!(parse_square("h8"), Some(63));
    assert_eq!(parse_square("e4"), Some(28));
    assert_eq!(parse_square("i1"), None);
    assert_eq!(parse_square("a9"), None);
    assert_eq!(parse_square("a10"), None);
    for s in 0..64u8 {
        assert_eq!(parse_square(&square_str(s)), Some(s));
    }
    assert_eq!(MoveFlag::Promote(PieceType::Knight).as_str(), "n");
    assert_eq!(MoveFlag::parse("Q"), Some(MoveFlag::CastleQ));
    assert_eq!(MoveFlag::parse("x"), None);
}

#[test]
fn chess_move_errors() {
    let s = join_and_start();
    let err = |p: &str, pl: &str| Chess::validate(&s, p, "MOVE", pl).unwrap_err();
    assert_eq!(err("b", "e7 e5"), "not your turn");
    assert_eq!(err("c", "e2 e4"), "not in room");
    assert_eq!(err("a", "e2"), "expected: MOVE <from> <to> [promo]");
    assert_eq!(err("a", "z2 e4"), "bad from square");
    assert_eq!(err("a", "e2 e9"), "bad to square");
    assert_eq!(err("a", "e4 e5"), "no piece on from square");
    assert_eq!(err("a", "e7 e5"), "not your piece");
    assert_eq!(err("a", "e2 e5"), "illegal move");
    assert_eq!(Chess::validate(&State::default(), "a", "MOVE", "e2 e4").unwrap_err(), "not playing");
    let ok = Chess::validate(&s, "a", "MOVE", "e2 e4").unwrap();
    assert_eq!(ok, vec![("MOVE".to_string(), "a e2 e4 -".to_string())]);
}

#[test]
fn chess_promotion_needs_piece() {
    let mut s = State::default();
    s.phase = Phase::Playing;
    s.board = [None; BOARD];
    s.board[sq(4, 0) as usize] = Some((Color::White, PieceType::King));
    s.board[sq(0, 7) as usize] = Some((Color::Black, PieceType::King));
    s.board[sq(7, 6) as usize] = Some((Color::White, PieceType::Pawn));
    s.players = vec!["a".into(), "b".into()];
    s.turn = Color::White;
    s.castle = CastleRights::default();
    assert_eq!(
        Chess::validate(&s, "a", "MOVE", "h7 h8").unwrap_err(),
        "promotion piece required"
    );
    let evs = Chess::validate(&s, "a", "MOVE", "h7 h8 n").unwrap();
    assert_eq!(evs[0].1, "a h7 h8 n");
}

#[test]
fn board_map_lists_occupied_squares() {
    let s = State::default();
    let m = board_map(&s);
    assert_eq!(m.len(), 32);
    assert_eq!(m.get(&0), Some(&(Color::White, PieceType::Rook)));
    assert_eq!(m.get(&4), Some(&(Color::White, PieceType::King)));
    assert_eq!(m.get(&52), Some(&(Color::Black, PieceType::Pawn)));
    assert!(m.get(&27).is_none());
}

#[test]
fn blind_shuffle_moves_the_hidden_pieces() {
    let mut s = State::default();
    apply_blind_shuffle(&mut s, 12345);
    assert_ne!(s.board, starting_board());
    let mut kinds_before: Vec<u8> = BLIND_SQUARES_WHITE
        .iter()
        .map(|&q| starting_board()[q as usize].map(|p| p.1 as u8).unwrap_or(99))
        .collect();
    let mut kinds_after: Vec<u8> = BLIND_SQUARES_WHITE
        .iter()
        .map(|&q| s.board[q as usize].map(|p| p.1 as u8).unwrap_or(99))
        .collect();
    kinds_before.sort();
    kinds_after.sort();
    assert_eq!(kinds_before, kinds_after);
}

#[test]
fn time_config_reads_back_as_rendered() {
    for c in [
        TimeConfig { pool_minutes: 0, per_turn_seconds: 0, blind: false },
        TimeConfig { pool_minutes: 7, per_turn_seconds: 45, blind: true },
        TimeConfig { pool_minutes: u32::MAX, per_turn_seconds: 1, blind: false },
    ] {
        for seed in [0u64, 12345, u64::MAX] {
            assert_eq!(TimeConfig::parse(&c.render()), c);
            assert_eq!(TimeConfig::parse(&c.render_with_seed(seed)), c);
            let expect = if c.blind { Some(seed) } else { None };
            assert_eq!(parse_blind_seed(&c.render_with_seed(seed)), expect);
            assert_eq!(parse_blind_seed(&c.render()), None);
        }
    }
}

#[test]
fn blind_start_shows_the_starting_board_for_every_seed() {
    for seed in [0u64, 1, 99, 12345, u64::MAX] {
        let mut s = State::default();
        Chess::fold(&mut s, "PLAYER_JOINED", "a");
        Chess::fold(&mut s, "PLAYER_JOINED", "b");
        Chess::fold(&mut s, "GAME_STARTED", &format!("0 0 1 {seed}"));
        assert_eq!(display_board(&s), starting_board());
        for squares in [BLIND_SQUARES_WHITE, BLIND_SQUARES_BLACK] {
            let mut kinds: Vec<u8> =
                squares.iter().map(|&q| s.board[q as usize].map(|p| p.1 as u8).unwrap_or(99)).collect();
            kinds.sort();
            let mut want: Vec<u8> = [
                PieceType::Rook,
                PieceType::Knight,
                PieceType::Bishop,
                PieceType::Queen,
                PieceType::Bishop,
                PieceType::Knight,
                PieceType::Rook,
            ]
            .iter()
            .map(|&t| t as u8)
            .collect();
            want.sort();
            assert_eq!(kinds, want);
        }
    }
}
