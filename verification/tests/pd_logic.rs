use judge::pd::{Pd, Phase, State};


fn drive(s: &mut State, player: &str, kind: &str, payload: &str) {
    let evs = Pd::validate(s, player, kind, payload).expect("validate ok");
    for (k, p) in &evs {
        Pd::fold(s, k, p);
    }
}

#[test]
fn both_cooperate_three_each() {
    let mut s = State::default();
    drive(&mut s, "a", "JOIN", "");
    drive(&mut s, "b", "JOIN", "");
    drive(&mut s, "a", "START", "1");
    // total_rounds=DEFAULT (10) since validate hardcodes; one round still works
    // Override: simulate single-round game by replaying GAME_STARTED with "1".
    s.total_rounds = 1;
    drive(&mut s, "a", "MOVE", "C");
    drive(&mut s, "b", "MOVE", "C");
    assert_eq!(s.phase, Phase::Finished);
    assert_eq!(s.scores, [3, 3]);
}

#[test]
fn defect_against_cooperate() {
    let mut s = State::default();
    drive(&mut s, "a", "JOIN", "");
    drive(&mut s, "b", "JOIN", "");
    drive(&mut s, "a", "START", "");
    s.total_rounds = 1;
    drive(&mut s, "a", "MOVE", "D");
    drive(&mut s, "b", "MOVE", "C");
    assert_eq!(s.scores, [5, 0]);
    assert_eq!(s.phase, Phase::Finished);
}

#[test]
fn pd_logic_cannot_move_twice_per_round() {
    let mut s = State::default();
    drive(&mut s, "a", "JOIN", "");
    drive(&mut s, "b", "JOIN", "");
    drive(&mut s, "a", "START", "");
    drive(&mut s, "a", "MOVE", "C");
    assert!(Pd::validate(&s, "a", "MOVE", "D").is_err());
}

#[test]
fn pd_logic_replay_reconstructs() {
    let events: Vec<(&str, &str)> = vec![
        ("PLAYER_JOINED", "a"),
        ("PLAYER_JOINED", "b"),
        ("GAME_STARTED", "2"),
        ("MOVE", "a C"),
        ("MOVE", "b D"),
        ("ROUND_RESULT", "1 C D 0 5"),
        ("MOVE", "a D"),
        ("MOVE", "b D"),
        ("ROUND_RESULT", "2 D D 1 6"),
        ("GAME_END", "1 6"),
    ];
    let mut s = State::default();
    for (k, p) in &events {
        Pd::fold(&mut s, k, p);
    }
    assert_eq!(s.phase, Phase::Finished);
    assert_eq!(s.scores, [1, 6]);
}
