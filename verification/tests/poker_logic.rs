use judge::holdem::{Phase, Poker, State, Street};
use judge::poker::{card_to_str, deal_deck, evaluate, parse_card, straight_high, CAT_STRAIGHT};

fn drive(s: &mut State, player: &str, kind: &str, payload: &str) -> Vec<(String, String)> {
    let evs = Poker::validate(s, player, kind, payload).expect("validate ok");
    for (k, p) in &evs {
        Poker::fold(s, k, p);
    }
    evs
}

fn cards(strs: &[&str]) -> Vec<u8> {
    strs.iter().map(|s| parse_card(s).unwrap()).collect()
}

#[test]
fn round_trip_card_codec() {
    for c in 0..52u8 {
        let s = card_to_str(c);
        assert_eq!(parse_card(&s), Some(c));
    }
}

#[test]
fn straight_flush_beats_quads() {
    let sf = cards(&["2c", "3c", "4c", "5c", "6c", "Ah", "As"]);
    let q = cards(&["Ah", "Ac", "Ad", "As", "Kh", "Kd", "Qs"]);
    assert!(evaluate(&sf) > evaluate(&q));
}

#[test]
fn quads_beat_full_house() {
    let q = cards(&["Ah", "Ac", "Ad", "As", "5h", "5d", "2c"]);
    let fh = cards(&["Kh", "Kc", "Kd", "5s", "5h", "2d", "3c"]);
    assert!(evaluate(&q) > evaluate(&fh));
}

#[test]
fn full_house_beats_flush() {
    let fh = cards(&["Kh", "Kc", "Kd", "5s", "5h", "2d", "3c"]);
    let fl = cards(&["2c", "5c", "7c", "9c", "Jc", "Ah", "Ks"]);
    assert!(evaluate(&fh) > evaluate(&fl));
}

#[test]
fn flush_beats_straight() {
    let fl = cards(&["2c", "5c", "7c", "9c", "Jc", "Ah", "Ks"]);
    let st = cards(&["5d", "6c", "7s", "8h", "9d", "2c", "3c"]);
    assert!(evaluate(&fl) > evaluate(&st));
}

#[test]
fn wheel_straight_recognised() {
    let wheel = cards(&["Ah", "2c", "3d", "4s", "5h", "Ks", "Qc"]);
    let r = evaluate(&wheel);
    let cat = (r >> 20) & 0xF;
    assert_eq!(cat, CAT_STRAIGHT);
    let high = (r >> 16) & 0xF;
    assert_eq!(high, 3);
}

#[test]
fn lobby_join_and_start() {
    let mut s = State::default();
    drive(&mut s, "a", "JOIN", "");
    drive(&mut s, "b", "JOIN", "");
    drive(&mut s, "a", "START", "1 200 10");
    assert_eq!(s.phase, Phase::Playing);
    assert_eq!(s.num_hands, 1);
    assert_eq!(s.starting_stack, 200);
    assert_eq!(s.small_blind, 10);
    assert_eq!(s.committed, [10, 20]);
    assert_eq!(s.stacks, [190, 180]);
    assert_eq!(s.to_act, 0);
    assert_eq!(s.hand_no, 1);
}

#[test]
fn fold_loses_pot() {
    let mut s = State::default();
    drive(&mut s, "a", "JOIN", "");
    drive(&mut s, "b", "JOIN", "");
    drive(&mut s, "a", "START", "1 200 10");
    drive(&mut s, "a", "FOLD", "");
    assert_eq!(s.phase, Phase::Finished);
    assert_eq!(s.stacks, [190, 210]);
}

#[test]
fn check_check_advances_streets() {
    let mut s = State::default();
    drive(&mut s, "a", "JOIN", "");
    drive(&mut s, "b", "JOIN", "");
    drive(&mut s, "a", "START", "1 1000 10");
    drive(&mut s, "a", "CALL", "");
    assert_eq!(s.bet_in_street, [20, 20]);
    assert_eq!(s.to_act, 1);
    drive(&mut s, "b", "CHECK", "");
    assert_eq!(s.street, Street::Flop);
    assert_eq!(s.board.len(), 3);
    assert_eq!(s.to_act, 1);
    drive(&mut s, "b", "CHECK", "");
    drive(&mut s, "a", "CHECK", "");
    assert_eq!(s.street, Street::Turn);
    assert_eq!(s.board.len(), 4);
    drive(&mut s, "b", "CHECK", "");
    drive(&mut s, "a", "CHECK", "");
    assert_eq!(s.street, Street::River);
    assert_eq!(s.board.len(), 5);
    drive(&mut s, "b", "CHECK", "");
    drive(&mut s, "a", "CHECK", "");
    assert_eq!(s.phase, Phase::Finished);
    assert_eq!(s.stacks[0] + s.stacks[1], 2000);
}

#[test]
fn allin_runs_streets_to_showdown() {
    let mut s = State::default();
    drive(&mut s, "a", "JOIN", "");
    drive(&mut s, "b", "JOIN", "");
    drive(&mut s, "a", "START", "1 100 10");
    drive(&mut s, "a", "ALLIN", "");
    assert!(s.all_in[0]);
    assert_eq!(s.to_act, 1);
    drive(&mut s, "b", "CALL", "");
    assert_eq!(s.phase, Phase::Finished);
    assert_eq!(s.stacks[0] + s.stacks[1], 200);
}

#[test]
fn poker_logic_replay_reconstructs() {
    let mut s = State::default();
    drive(&mut s, "a", "JOIN", "");
    drive(&mut s, "b", "JOIN", "");
    drive(&mut s, "a", "START", "1 200 10");
    drive(&mut s, "a", "FOLD", "");

    let scripted: Vec<(&str, &str)> = vec![
        ("PLAYER_JOINED", "a"),
        ("PLAYER_JOINED", "b"),
        ("GAME_STARTED", "1 200 10"),
    ];
    let mut fresh = State::default();
    for (k, p) in &scripted {
        Poker::fold(&mut fresh, k, p);
    }
    let hand_started = Poker::build_hand_started(&fresh);
    Poker::fold(&mut fresh, &hand_started.0, &hand_started.1);
    let mut blinds = Vec::new();
    Poker::collect_blinds_after_start(&mut blinds, &mut fresh);
    let mut fresh2 = State::default();
    for (k, p) in &scripted {
        Poker::fold(&mut fresh2, k, p);
    }
    Poker::fold(&mut fresh2, &hand_started.0, &hand_started.1);
    for (k, p) in &blinds {
        Poker::fold(&mut fresh2, k, p);
    }
    Poker::fold(&mut fresh2, "ACTION", "a FOLD");
    Poker::fold(&mut fresh2, "HAND_END", &format!("1 {} {} FOLD", 190, 210));
    Poker::fold(&mut fresh2, "GAME_END", "190 210");
    Poker::fold(&mut fresh2, "WINNER", "1");
    assert_eq!(fresh2.phase, Phase::Finished);
    assert_eq!(fresh2.stacks, [190, 210]);

    assert_eq!(s.phase, Phase::Finished);
    assert_eq!(s.stacks, [190, 210]);
}

#[test]
fn cannot_act_off_turn() {
    let mut s = State::default();
    drive(&mut s, "a", "JOIN", "");
    drive(&mut s, "b", "JOIN", "");
    drive(&mut s, "a", "START", "1 200 10");
    assert!(Poker::validate(&s, "b", "CHECK", "").is_err());
}

#[test]
fn check_illegal_when_bet_outstanding() {
    let mut s = State::default();
    drive(&mut s, "a", "JOIN", "");
    drive(&mut s, "b", "JOIN", "");
    drive(&mut s, "a", "START", "1 200 10");
    assert!(Poker::validate(&s, "a", "CHECK", "").is_err());
}

// ---- further cases ----

#[test]
fn poker_card_names() {
    assert_eq!(card_to_str(0), "2c");
    assert_eq!(card_to_str(51), "As");
    assert_eq!(card_to_str(4 * 8 + 1), "Td");
    assert_eq!(parse_card("Kh"), Some(11 * 4 + 2));
    assert_eq!(parse_card("kh"), None);
    assert_eq!(parse_card("K"), None);
    assert_eq!(parse_card("Khx"), None);
    assert_eq!(parse_card("1c"), None);
}

#[test]
fn poker_hand_values_exact() {
    // Pair of aces with K Q J kickers.
    let pair = cards(&["Ah", "Ad", "Kc", "Qs", "Jd", "3c", "2h"]);
    assert_eq!(evaluate(&pair), (1 << 20) | (12 << 16) | (11 << 12) | (10 << 8) | (9 << 4));
    // Two pair: kings and fives, ace kicker.
    let two = cards(&["Kh", "Kd", "5c", "5s", "Ad", "3c", "2h"]);
    assert_eq!(evaluate(&two), (2 << 20) | (11 << 16) | (3 << 12) | (12 << 8));
    // Full house from two sets of trips: the lower set serves as the pair.
    let fh = cards(&["Kh", "Kd", "Kc", "5s", "5h", "5d", "2c"]);
    assert_eq!(evaluate(&fh), (6 << 20) | (11 << 16) | (3 << 12));
    // High card, five cards only.
    let high = cards(&["Ah", "9d", "7c", "4s", "2d"]);
    assert_eq!(evaluate(&high), (12 << 16) | (7 << 12) | (5 << 8) | (2 << 4));
    // Broadway straight.
    let st = cards(&["Ah", "Kd", "Qc", "Js", "Td", "2c", "2h"]);
    assert_eq!(evaluate(&st), (4 << 20) | (12 << 16));
}

#[test]
fn poker_straight_masks() {
    assert_eq!(straight_high(0b1_0000_0000_1111), Some(3));
    assert_eq!(straight_high(0b1_1111_0000_0000), Some(12));
    assert_eq!(straight_high(0b1_1111_0000_1111), Some(12));
    assert_eq!(straight_high(0b0_0000_0001_1110), None);
    assert_eq!(straight_high(0b0_0000_0011_1110), Some(5));
}

#[test]
fn poker_deck_is_a_permutation() {
    for seed in [0u64, 1, 42, u64::MAX] {
        let d = deal_deck(seed);
        let mut seen = [false; 52];
        for c in d {
            assert!(c < 52);
            assert!(!seen[c as usize]);
            seen[c as usize] = true;
        }
    }
    assert_eq!(deal_deck(0), deal_deck(0x9E3779B97F4A7C15));
    assert_ne!(deal_deck(1), deal_deck(2));
}

#[test]
fn poker_action_errors() {
    let mut s = State::default();
    drive(&mut s, "a", "JOIN", "");
    drive(&mut s, "b", "JOIN", "");
    let lobby_err = Poker::validate(&s, "a", "CHECK", "").unwrap_err();
    assert_eq!(lobby_err, "not playing");
    drive(&mut s, "a", "START", "2 200 10");
    let err = |p: &str, k: &str, pl: &str| Poker::validate(&s, p, k, pl).unwrap_err();
    assert_eq!(err("c", "CHECK", ""), "not in room");
    assert_eq!(err("b", "CALL", ""), "not your turn");
    assert_eq!(err("a", "CHECK", ""), "cannot check, there is a bet to call");
    assert_eq!(err("a", "BET", "50"), "there is already a bet; use RAISE");
    assert_eq!(err("a", "RAISE", "x"), "bad raise amount");
    assert_eq!(err("a", "RAISE", "25"), "raise must be at least to 40");
    assert_eq!(err("a", "RAISE", "500"), "raise exceeds stack; use ALLIN");
    assert_eq!(err("a", "DANCE", ""), "unknown action: DANCE");
    let evs = Poker::validate(&s, "a", "RAISE", "60").unwrap();
    assert_eq!(evs[0], ("ACTION".to_string(), "a RAISE 60".to_string()));
    assert_eq!(evs[1], ("POT".to_string(), "80".to_string()));
    assert_eq!(evs.len(), 2);
}

#[test]
fn poker_start_events_and_pending() {
    let mut s = State::default();
    drive(&mut s, "a", "JOIN", "");
    drive(&mut s, "b", "JOIN", "");
    let evs = drive(&mut s, "a", "START", "x -5 0");
    assert_eq!(evs[0], ("GAME_STARTED".to_string(), "10 2 1".to_string()));
    assert_eq!(evs[1].0, "HAND_STARTED");
    assert!(evs[1].1.starts_with("1 0 "));
    assert_eq!(evs[2], ("ACTION".to_string(), "a POST 1".to_string()));
    assert_eq!(evs[3], ("ACTION".to_string(), "b POST 2".to_string()));
    assert_eq!(evs[4], ("POT".to_string(), "3".to_string()));
    assert_eq!(Poker::pending_players(&s), vec!["a".to_string()]);
    assert_eq!(Poker::game_id(), "poker");
    assert_eq!(Poker::snapshot(&s).phase, "playing");
}

#[test]
fn poker_second_hand_swaps_dealer() {
    let mut s = State::default();
    drive(&mut s, "a", "JOIN", "");
    drive(&mut s, "b", "JOIN", "");
    drive(&mut s, "a", "START", "3 200 10");
    let evs = drive(&mut s, "a", "FOLD", "");
    assert_eq!(evs[2], ("HAND_END".to_string(), "1 190 210 FOLD".to_string()));
    assert_eq!(evs[3].0, "HAND_STARTED");
    assert!(evs[3].1.starts_with("2 1 "));
    assert_eq!(s.hand_no, 2);
    assert_eq!(s.dealer, 1);
    assert_eq!(s.to_act, 1);
    assert_eq!(s.stacks, [170, 200]);
}

#[test]
fn poker_chips_stay_in_play() {
    let total = |s: &State| s.stacks[0] + s.stacks[1] + s.committed[0] + s.committed[1];
    let mut s = State::default();
    drive(&mut s, "a", "JOIN", "");
    drive(&mut s, "b", "JOIN", "");
    drive(&mut s, "a", "START", "3 500 5");
    assert_eq!(total(&s), 1000);
    for (who, kind, payload) in [
        ("a", "RAISE", "40"),
        ("b", "CALL", ""),
        ("b", "BET", "60"),
        ("a", "RAISE", "200"),
        ("b", "CALL", ""),
    ] {
        let evs = Poker::validate(&s, who, kind, payload).expect("validate ok");
        for (k, p) in &evs {
            Poker::fold(&mut s, k, p);
            assert_eq!(total(&s), 1000, "after {k} {p}");
        }
    }
}

#[test]
fn poker_chips_stay_in_play_to_the_end() {
    let total = |s: &State| s.stacks[0] + s.stacks[1] + s.committed[0] + s.committed[1];
    let mut s = State::default();
    drive(&mut s, "a", "JOIN", "");
    drive(&mut s, "b", "JOIN", "");
    drive(&mut s, "a", "START", "4 300 10");
    let mut guard = 0;
    while s.phase != Phase::Finished && guard < 20 {
        let who = if s.to_act == 0 { "a" } else { "b" };
        let evs = Poker::validate(&s, who, "FOLD", "").expect("validate ok");
        for (k, p) in &evs {
            Poker::fold(&mut s, k, p);
            assert_eq!(total(&s), 600, "after {k} {p}");
        }
        guard += 1;
    }
    assert_eq!(s.phase, Phase::Finished);
    assert_eq!(s.stacks[0] + s.stacks[1], 600);
    assert_eq!(s.committed, [0, 0]);
}
