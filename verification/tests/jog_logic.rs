use judge::jog::{random_roll, JarTerms, Jog, Phase, State, MAX_PLAYERS};

const MIN_MULTIPLIER: f64 = 1.01;
const MAX_MULTIPLIER: f64 = 10.0;
const DEFAULT_MULTIPLIER: f64 = 2.0;

fn fmt_mult(m: f64) -> String {
    let rounded = (m * 100.0).round() / 100.0;
    let s = format!("{rounded:.2}");
    let s = s.trim_end_matches('0').trim_end_matches('.').to_string();
    if s.is_empty() {
        "0".into()
    } else {
        s
    }
}

fn parse_mult(word: Option<&str>) -> f64 {
    word.and_then(|s| s.parse::<f64>().ok())
        .filter(|v| v.is_finite())
        .unwrap_or(DEFAULT_MULTIPLIER)
        .clamp(MIN_MULTIPLIER, MAX_MULTIPLIER)
}

fn random_multiplier(players: &[String], round: u32, max: f64) -> f64 {
    let roll = random_roll(&players.to_vec(), round);
    let span = max - MIN_MULTIPLIER;
    let frac = roll as f64 / 10_000.0;
    let v = MIN_MULTIPLIER + frac * span;
    (v * 100.0).round() / 100.0
}

fn terms(s: &State, player: &str, kind: &str, payload: &str) -> JarTerms {
    if kind == "START" {
        let word = payload.split_whitespace().nth(3);
        return JarTerms { multiplier: fmt_mult(parse_mult(word)), pot: 0 };
    }
    match Jog::round_jar(s, player, kind, payload) {
        Some(jar) => {
            let max = parse_mult(s.multiplier.as_deref());
            let m = if s.random {
                random_multiplier(&s.started_players, s.current_round, max)
            } else {
                max
            };
            JarTerms { multiplier: fmt_mult(m), pot: ((jar as i64 as f64) * m).floor() as i64 }
        }
        None => JarTerms { multiplier: String::new(), pot: 0 },
    }
}

fn validate(s: &State, player: &str, kind: &str, payload: &str) -> Result<Vec<(String, String)>, String> {
    let t = terms(s, player, kind, payload);
    Jog::validate(s, player, kind, payload, &t)
}

fn drive(s: &mut State, player: &str, kind: &str, payload: &str) {
    let evs = validate(s, player, kind, payload).expect("validate ok");
    for (k, p) in &evs {
        Jog::fold(s, k, p);
    }
}

#[test]
fn blind_round_result_omits_balances() {
    let mut s = State::default();
    drive(&mut s, "a", "JOIN", "");
    drive(&mut s, "b", "JOIN", "");
    drive(&mut s, "a", "START", "10 2 0 2 1");
    let evs = validate(&s, "a", "CONTRIBUTE", "4").unwrap();
    for (k, p) in &evs {
        Jog::fold(&mut s, k, p);
    }
    let evs = validate(&s, "b", "CONTRIBUTE", "6").unwrap();
    let round_event = evs.iter().find(|(k, _)| k == "ROUND_RESULT").unwrap();
    let parts: Vec<&str> = round_event.1.split_whitespace().collect();
    assert_eq!(parts.len(), 4, "blind ROUND_RESULT hides balances");
    assert_eq!(parts[3], "10");
}

#[test]
fn open_round_result_includes_balances() {
    let mut s = State::default();
    drive(&mut s, "a", "JOIN", "");
    drive(&mut s, "b", "JOIN", "");
    drive(&mut s, "a", "START", "10 2 0 2 0");
    let evs = validate(&s, "a", "CONTRIBUTE", "4").unwrap();
    for (k, p) in &evs {
        Jog::fold(&mut s, k, p);
    }
    let evs = validate(&s, "b", "CONTRIBUTE", "6").unwrap();
    let round_event = evs.iter().find(|(k, _)| k == "ROUND_RESULT").unwrap();
    let parts: Vec<&str> = round_event.1.split_whitespace().collect();
    assert_eq!(parts.len(), 6, "open ROUND_RESULT carries balance tail");
    assert_eq!(parts[4], "16");
    assert_eq!(parts[5], "14");
}

#[test]
fn defaults_to_blind_when_flag_omitted() {
    let mut s = State::default();
    drive(&mut s, "a", "JOIN", "");
    drive(&mut s, "b", "JOIN", "");
    drive(&mut s, "a", "START", "10 1 0 2");
    assert!(s.blind);
}

#[test]
fn fold_round_result_applies_payout_to_everyone() {
    let mut s = State::default();
    drive(&mut s, "a", "JOIN", "");
    drive(&mut s, "b", "JOIN", "");
    drive(&mut s, "c", "JOIN", "");
    drive(&mut s, "a", "START", "20 2 0 3");
    drive(&mut s, "a", "CONTRIBUTE", "10");
    drive(&mut s, "b", "CONTRIBUTE", "5");
    drive(&mut s, "c", "CONTRIBUTE", "0");
    // jar=15, mult=3, pot=45, payout=15
    assert_eq!(s.coins, vec![25, 30, 35]);
}

#[test]
fn game_end_reveals_final_balances() {
    let mut s = State::default();
    drive(&mut s, "a", "JOIN", "");
    drive(&mut s, "b", "JOIN", "");
    drive(&mut s, "a", "START", "10 1 0 2");
    drive(&mut s, "a", "CONTRIBUTE", "4");
    let evs = validate(&s, "b", "CONTRIBUTE", "6").unwrap();
    let end = evs.iter().find(|(k, _)| k == "GAME_END").unwrap();
    let parts: Vec<&str> = end.1.split_whitespace().collect();
    assert_eq!(parts.len(), 2);
    assert_eq!(parts[0], "16");
    assert_eq!(parts[1], "14");
}

#[test]
fn fractional_multiplier_floors_for_three_players() {
    let mut s = State::default();
    drive(&mut s, "a", "JOIN", "");
    drive(&mut s, "b", "JOIN", "");
    drive(&mut s, "c", "JOIN", "");
    drive(&mut s, "a", "START", "20 1 0 1.5");
    drive(&mut s, "a", "CONTRIBUTE", "10");
    drive(&mut s, "b", "CONTRIBUTE", "5");
    drive(&mut s, "c", "CONTRIBUTE", "0");
    // jar=15, mult=1.5, pot=floor(22.5)=22, payout=22/3=7
    assert_eq!(s.coins, vec![17, 22, 27]);
}

#[test]
fn cannot_start_with_one_player() {
    let mut s = State::default();
    drive(&mut s, "a", "JOIN", "");
    assert!(validate(&s, "a", "START", "10 1 0 2").is_err());
}

#[test]
fn cannot_contribute_more_than_coins() {
    let mut s = State::default();
    drive(&mut s, "a", "JOIN", "");
    drive(&mut s, "b", "JOIN", "");
    drive(&mut s, "a", "START", "5 3 0 2");
    assert!(validate(&s, "a", "CONTRIBUTE", "6").is_err());
}

#[test]
fn cannot_contribute_twice_per_round() {
    let mut s = State::default();
    drive(&mut s, "a", "JOIN", "");
    drive(&mut s, "b", "JOIN", "");
    drive(&mut s, "c", "JOIN", "");
    drive(&mut s, "a", "START", "10 3 0 2");
    drive(&mut s, "a", "CONTRIBUTE", "1");
    assert!(validate(&s, "a", "CONTRIBUTE", "1").is_err());
}

#[test]
fn three_way_tie_emits_draw() {
    let mut s = State::default();
    drive(&mut s, "a", "JOIN", "");
    drive(&mut s, "b", "JOIN", "");
    drive(&mut s, "c", "JOIN", "");
    drive(&mut s, "a", "START", "10 1 0 2");
    drive(&mut s, "a", "CONTRIBUTE", "3");
    drive(&mut s, "b", "CONTRIBUTE", "3");
    drive(&mut s, "c", "CONTRIBUTE", "3");
    assert_eq!(s.coins, vec![13, 13, 13]);
    assert_eq!(s.phase, Phase::Finished);
}

#[test]
fn random_multiplier_in_range_and_deterministic() {
    let players = vec!["a".to_string(), "b".to_string(), "c".to_string()];
    let m1 = random_multiplier(&players, 1, 3.0);
    let m2 = random_multiplier(&players, 1, 3.0);
    assert_eq!(m1, m2);
    assert!(m1 >= MIN_MULTIPLIER && m1 <= 3.0);
}

#[test]
fn replay_reconstructs_three_players_blind() {
    let events: Vec<(&str, &str)> = vec![
        ("PLAYER_JOINED", "a"),
        ("PLAYER_JOINED", "b"),
        ("PLAYER_JOINED", "c"),
        ("GAME_STARTED", "10 2 0 2 1"),
        ("CONTRIBUTE", "a 4"),
        ("CONTRIBUTE", "b 6"),
        ("CONTRIBUTE", "c 0"),
        ("ROUND_RESULT", "1 2 10 6"),
        ("CONTRIBUTE", "a 0"),
        ("CONTRIBUTE", "b 10"),
        ("CONTRIBUTE", "c 0"),
        ("ROUND_RESULT", "2 2 10 6"),
        ("GAME_END", "18 6 22"),
        ("WINNER", "2"),
    ];
    let mut s = State::default();
    for (k, p) in &events {
        Jog::fold(&mut s, k, p);
    }
    assert_eq!(s.phase, Phase::Finished);
    assert_eq!(s.coins, vec![18, 6, 22]);
}

#[test]
fn replay_reconstructs_three_players_open() {
    let events: Vec<(&str, &str)> = vec![
        ("PLAYER_JOINED", "a"),
        ("PLAYER_JOINED", "b"),
        ("PLAYER_JOINED", "c"),
        ("GAME_STARTED", "10 2 0 2 0"),
        ("CONTRIBUTE", "a 4"),
        ("CONTRIBUTE", "b 6"),
        ("CONTRIBUTE", "c 0"),
        ("ROUND_RESULT", "1 2 10 6 12 10 16"),
        ("CONTRIBUTE", "a 0"),
        ("CONTRIBUTE", "b 10"),
        ("CONTRIBUTE", "c 0"),
        ("ROUND_RESULT", "2 2 10 6 18 6 22"),
        ("GAME_END", "18 6 22"),
        ("WINNER", "2"),
    ];
    let mut s = State::default();
    for (k, p) in &events {
        Jog::fold(&mut s, k, p);
    }
    assert_eq!(s.phase, Phase::Finished);
    assert_eq!(s.coins, vec![18, 6, 22]);
}

// ---------------------------------------------------------------------------
// Further cases
// ---------------------------------------------------------------------------

#[test]
fn start_echoes_clamped_parameters() {
    let mut s = State::default();
    drive(&mut s, "a", "JOIN", "");
    drive(&mut s, "b", "JOIN", "");
    let evs = validate(&s, "a", "START", "0 5000 7 2.50 0").unwrap();
    assert_eq!(evs, vec![("GAME_STARTED".to_string(), "1 1000 1 2.5 0".to_string())]);
}

#[test]
fn start_refusals() {
    let mut s = State::default();
    drive(&mut s, "a", "JOIN", "");
    drive(&mut s, "b", "JOIN", "");
    assert_eq!(validate(&s, "b", "START", ""), Err("only host may start".to_string()));
    drive(&mut s, "a", "START", "");
    assert_eq!(validate(&s, "a", "START", ""), Err("already started".to_string()));
    let mut one = State::default();
    drive(&mut one, "a", "JOIN", "");
    assert_eq!(validate(&one, "a", "START", ""), Err("need at least 2 players".to_string()));
}

#[test]
fn contribution_refusals() {
    let mut s = State::default();
    drive(&mut s, "a", "JOIN", "");
    drive(&mut s, "b", "JOIN", "");
    assert_eq!(validate(&s, "a", "CONTRIBUTE", "1"), Err("not playing".to_string()));
    drive(&mut s, "a", "START", "5 2 0 2");
    assert_eq!(validate(&s, "z", "CONTRIBUTE", "1"), Err("not in game".to_string()));
    assert_eq!(validate(&s, "a", "CONTRIBUTE", "x"), Err("bad amount".to_string()));
    assert_eq!(validate(&s, "a", "CONTRIBUTE", "-1"), Err("amount must be non-negative".to_string()));
    assert_eq!(validate(&s, "a", "CONTRIBUTE", "6"), Err("amount exceeds coins".to_string()));
    drive(&mut s, "a", "CONTRIBUTE", "2");
    assert_eq!(validate(&s, "a", "CONTRIBUTE", "1"), Err("already contributed this round".to_string()));
    assert_eq!(validate(&s, "a", "BET", "1"), Err("unknown action: BET".to_string()));
}

#[test]
fn round_jar_only_when_round_completes() {
    let mut s = State::default();
    drive(&mut s, "a", "JOIN", "");
    drive(&mut s, "b", "JOIN", "");
    drive(&mut s, "a", "START", "10 2 0 2");
    assert_eq!(Jog::round_jar(&s, "a", "CONTRIBUTE", "4"), None);
    drive(&mut s, "a", "CONTRIBUTE", "4");
    assert_eq!(Jog::round_jar(&s, "b", "CONTRIBUTE", "6"), Some(10));
    assert_eq!(Jog::round_jar(&s, "b", "CONTRIBUTE", "60"), None);
}

#[test]
fn payout_rounds_toward_zero_and_winner_is_richest() {
    let mut s = State::default();
    drive(&mut s, "a", "JOIN", "");
    drive(&mut s, "b", "JOIN", "");
    drive(&mut s, "c", "JOIN", "");
    drive(&mut s, "a", "START", "10 1 0 2 0");
    drive(&mut s, "a", "CONTRIBUTE", "5");
    drive(&mut s, "b", "CONTRIBUTE", "0");
    let t = JarTerms { multiplier: "2".to_string(), pot: 11 };
    let evs = Jog::validate(&s, "c", "CONTRIBUTE", "1", &t).unwrap();
    assert_eq!(evs[0], ("CONTRIBUTE".to_string(), "c 1".to_string()));
    assert_eq!(evs[1], ("ROUND_RESULT".to_string(), "1 2 6 3 8 13 12".to_string()));
    assert_eq!(evs[2], ("GAME_END".to_string(), "8 13 12".to_string()));
    assert_eq!(evs[3], ("WINNER".to_string(), "1".to_string()));
}

#[test]
fn pending_players_and_snapshot() {
    let mut s = State::default();
    drive(&mut s, "a", "JOIN", "");
    drive(&mut s, "b", "JOIN", "");
    assert!(Jog::pending_players(&s).is_empty());
    assert_eq!(Jog::snapshot(&s).players, vec!["a".to_string(), "b".to_string()]);
    drive(&mut s, "a", "START", "10 2 0 2");
    drive(&mut s, "a", "CONTRIBUTE", "1");
    assert_eq!(Jog::pending_players(&s), vec!["b".to_string()]);
    assert_eq!(Jog::snapshot(&s).phase, "playing");
    assert_eq!(Jog::max_players(), MAX_PLAYERS);
    assert_eq!(Jog::game_id(), "jar-of-greed");
}

#[test]
fn overflowing_round_is_reported() {
    let mut s = State::default();
    drive(&mut s, "a", "JOIN", "");
    drive(&mut s, "b", "JOIN", "");
    drive(&mut s, "a", "START", "10 1 0 2");
    s.coins[0] = i64::MAX - 1;
    drive(&mut s, "a", "CONTRIBUTE", "1");
    let t = JarTerms { multiplier: "2".to_string(), pot: 10 };
    assert!(Jog::validate_checked(&s, "b", "CONTRIBUTE", "1", &t).is_none());
    let fine = JarTerms { multiplier: "2".to_string(), pot: 2 };
    assert!(Jog::validate_checked(&s, "b", "CONTRIBUTE", "1", &fine).is_some());
}
