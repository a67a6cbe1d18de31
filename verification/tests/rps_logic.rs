use judge::rps::{Phase, Rps, State};


fn apply(s: &mut State, kind: &str, payload: &str) {
    Rps::fold(s, kind, payload);
}

#[test]
fn join_first_player_becomes_host() {
    let mut s = State::default();
    apply(&mut s, "PLAYER_JOINED", "alice");
    assert_eq!(s.players, vec!["alice"]);
    assert_eq!(s.host.as_deref(), Some("alice"));
}

#[test]
fn full_game_rock_beats_scissors() {
    let mut s = State::default();
    for kind_payload in [
        ("PLAYER_JOINED", "a"),
        ("PLAYER_JOINED", "b"),
        ("GAME_STARTED", "1"),
    ] {
        apply(&mut s, kind_payload.0, kind_payload.1);
    }
    assert_eq!(s.phase, Phase::Playing);
    // a moves rock; validate as second mover (b) finishes round.
    let evs = Rps::validate(&s, "a", "MOVE", "ROCK").unwrap();
    for (k, p) in &evs {
        apply(&mut s, k, p);
    }
    let evs2 = Rps::validate(&s, "b", "MOVE", "SCISSORS").unwrap();
    for (k, p) in &evs2 {
        apply(&mut s, k, p);
    }
    assert_eq!(s.phase, Phase::Finished);
    assert_eq!(s.scores, [1, 0]);
}

#[test]
fn host_transfers_on_leave() {
    let mut s = State::default();
    apply(&mut s, "PLAYER_JOINED", "alice");
    apply(&mut s, "PLAYER_JOINED", "bob");
    let evs = Rps::validate(&s, "alice", "LEAVE", "").unwrap();
    for (k, p) in &evs {
        apply(&mut s, k, p);
    }
    assert_eq!(s.host.as_deref(), Some("bob"));
    assert_eq!(s.players, vec!["bob"]);
}

#[test]
fn rps_logic_cannot_move_twice_per_round() {
    let mut s = State::default();
    apply(&mut s, "PLAYER_JOINED", "a");
    apply(&mut s, "PLAYER_JOINED", "b");
    apply(&mut s, "GAME_STARTED", "3");
    let evs = Rps::validate(&s, "a", "MOVE", "ROCK").unwrap();
    for (k, p) in &evs {
        apply(&mut s, k, p);
    }
    assert!(Rps::validate(&s, "a", "MOVE", "PAPER").is_err());
}

#[test]
fn replay_reconstructs_state() {
    // Capture an event sequence.
    let events: Vec<(&str, &str)> = vec![
        ("PLAYER_JOINED", "a"),
        ("PLAYER_JOINED", "b"),
        ("GAME_STARTED", "2"),
        ("MOVE", "a ROCK"),
        ("MOVE", "b PAPER"),
        ("ROUND_RESULT", "1 ROCK PAPER 0 1"),
        ("MOVE", "a SCISSORS"),
        ("MOVE", "b ROCK"),
        ("ROUND_RESULT", "2 SCISSORS ROCK 0 2"),
        ("GAME_END", "0 2"),
    ];
    let mut s = State::default();
    for (k, p) in &events {
        apply(&mut s, k, p);
    }
    assert_eq!(s.phase, Phase::Finished);
    assert_eq!(s.scores, [0, 2]);
    assert_eq!(s.players, vec!["a", "b"]);
}
