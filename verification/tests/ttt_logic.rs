use judge::ttt::{Phase, State, Ttt};


fn apply(s: &mut State, kind: &str, payload: &str) {
    Ttt::fold(s, kind, payload);
}

fn drive(s: &mut State, player: &str, kind: &str, payload: &str) {
    let evs = Ttt::validate(s, player, kind, payload).expect("validate ok");
    for (k, p) in &evs {
        apply(s, k, p);
    }
}

#[test]
fn x_wins_top_row_3x3() {
    let mut s = State::default();
    drive(&mut s, "a", "JOIN", "");
    drive(&mut s, "b", "JOIN", "");
    drive(&mut s, "a", "START", "3 3");
    drive(&mut s, "a", "MOVE", "0 0");
    drive(&mut s, "b", "MOVE", "1 0");
    drive(&mut s, "a", "MOVE", "0 1");
    drive(&mut s, "b", "MOVE", "1 1");
    drive(&mut s, "a", "MOVE", "0 2");
    assert_eq!(s.phase, Phase::Finished);
    assert_eq!(s.winner, Some(0));
}

#[test]
fn draw_fills_board_3x3() {
    let mut s = State::default();
    drive(&mut s, "a", "JOIN", "");
    drive(&mut s, "b", "JOIN", "");
    drive(&mut s, "a", "START", "3 3");
    for (player, row, col) in [
        ("a", 0, 0),
        ("b", 0, 1),
        ("a", 0, 2),
        ("b", 1, 1),
        ("a", 1, 0),
        ("b", 1, 2),
        ("a", 2, 1),
        ("b", 2, 0),
        ("a", 2, 2),
    ] {
        drive(&mut s, player, "MOVE", &format!("{row} {col}"));
    }
    assert_eq!(s.phase, Phase::Finished);
    assert_eq!(s.winner, None);
}

#[test]
fn rejects_off_turn() {
    let mut s = State::default();
    drive(&mut s, "a", "JOIN", "");
    drive(&mut s, "b", "JOIN", "");
    drive(&mut s, "a", "START", "3 3");
    assert!(Ttt::validate(&s, "b", "MOVE", "0 0").is_err());
}

#[test]
fn rejects_occupied() {
    let mut s = State::default();
    drive(&mut s, "a", "JOIN", "");
    drive(&mut s, "b", "JOIN", "");
    drive(&mut s, "a", "START", "3 3");
    drive(&mut s, "a", "MOVE", "0 0");
    assert!(Ttt::validate(&s, "b", "MOVE", "0 0").is_err());
}

#[test]
fn ttt_logic_replay_reconstructs() {
    let events: Vec<(&str, &str)> = vec![
        ("PLAYER_JOINED", "a"),
        ("PLAYER_JOINED", "b"),
        ("GAME_STARTED", "3 3"),
        ("MOVE", "a 0 0"),
        ("MOVE", "b 1 0"),
        ("MOVE", "a 0 1"),
        ("MOVE", "b 1 1"),
        ("MOVE", "a 0 2"),
        ("WINNER", "0"),
    ];
    let mut s = State::default();
    for (k, p) in &events {
        apply(&mut s, k, p);
    }
    assert_eq!(s.phase, Phase::Finished);
    assert_eq!(s.winner, Some(0));
}

#[test]
fn default_start_uses_16x16_chain5() {
    let mut s = State::default();
    drive(&mut s, "a", "JOIN", "");
    drive(&mut s, "b", "JOIN", "");
    drive(&mut s, "a", "START", "");
    assert_eq!(s.board_size, 16);
    assert_eq!(s.win_chain, 5);
    assert_eq!(s.board.len(), 16 * 16);
}

#[test]
fn five_in_a_row_diagonal_wins() {
    let mut s = State::default();
    drive(&mut s, "a", "JOIN", "");
    drive(&mut s, "b", "JOIN", "");
    drive(&mut s, "a", "START", "16 5");
    // a builds diagonal (0,0),(1,1),(2,2),(3,3),(4,4); b plays elsewhere.
    for i in 0..5 {
        drive(&mut s, "a", "MOVE", &format!("{i} {i}"));
        if i < 4 {
            drive(&mut s, "b", "MOVE", &format!("0 {}", i + 5));
        }
    }
    assert_eq!(s.phase, Phase::Finished);
    assert_eq!(s.winner, Some(0));
}

#[test]
fn four_in_a_row_does_not_win_when_chain_is_5() {
    let mut s = State::default();
    drive(&mut s, "a", "JOIN", "");
    drive(&mut s, "b", "JOIN", "");
    drive(&mut s, "a", "START", "16 5");
    for i in 0..4 {
        drive(&mut s, "a", "MOVE", &format!("0 {i}"));
        drive(&mut s, "b", "MOVE", &format!("1 {i}"));
    }
    assert_eq!(s.phase, Phase::Playing);
    assert_eq!(s.winner, None);
}

#[test]
fn config_clamps_chain_to_board_size() {
    let mut s = State::default();
    drive(&mut s, "a", "JOIN", "");
    drive(&mut s, "b", "JOIN", "");
    drive(&mut s, "a", "START", "5 99");
    assert_eq!(s.board_size, 5);
    assert_eq!(s.win_chain, 5);
}

#[test]
fn check_winner_at_on_a_large_board() {
    let size = 40usize;
    let mut board: Vec<Option<u8>> = vec![None; size * size];
    for k in 0..5 {
        board[(35 - k) * size + (30 + k)] = Some(1);
    }
    assert!(judge::ttt::check_winner_at(&board, size, 5, 33, 32, 1));
    assert!(!judge::ttt::check_winner_at(&board, size, 6, 33, 32, 1));
    assert!(!judge::ttt::check_winner_at(&board, size, 5, 33, 32, 0));
}
