use judge::ttt_match::{event_replays, history_replays};
use judge::game::{draw_rounds, runtime_errors, GameResult};
use judge::pd_match::PrisonersDilemma;
use judge::rps_match::RockPaperScissors;
use judge::ttt_match::{check_winner, Placed, TicTacToe};

fn ids() -> Vec<String> {
    vec!["x".to_string(), "o".to_string()]
}

#[test]
fn ttt_match_plays_to_a_win() {
    let mut t = TicTacToe::new();
    t.begin(ids());
    assert_eq!(t.format_board_message(), "BOARD .........");
    assert_eq!(t.init_event(), "GAME_INIT x o");
    assert_eq!(t.turn_message(), "TURN 0");
    let m = t.play("MOVE 0 0").unwrap();
    assert_eq!(m, Placed { mover: 0, row: 0, col: 0, winner: None });
    assert_eq!(TicTacToe::move_event(&m), "MOVE 0 0 0");
    t.play(" MOVE 1 1 ").unwrap();
    t.play("MOVE 0 1").unwrap();
    t.play("MOVE 2 2").unwrap();
    let w = t.play("MOVE 0 2").unwrap();
    assert_eq!(w.winner, Some(0));
    assert!(t.game_finished);
    assert_eq!(t.format_board_message(), "BOARD XXX.O...O");
    assert_eq!(TicTacToe::winner_event(0), "WINNER 0");
    assert_eq!(TicTacToe::score_message(0, 1), "SCORE 0");
    assert_eq!(TicTacToe::won(0), vec![GameResult::Accepted(1), GameResult::Accepted(0)]);
}

#[test]
fn ttt_match_rejects_bad_moves() {
    let mut t = TicTacToe::new();
    t.begin(ids());
    assert_eq!(t.play("MOVE 3 0"), None);
    assert!(t.game_finished);
    let mut u = TicTacToe::new();
    u.begin(ids());
    u.play("MOVE 1 1").unwrap();
    assert_eq!(u.play("MOVE 1 1"), None);
    assert_eq!(u.forfeit(GameResult::WrongAnswer), vec![GameResult::Accepted(1), GameResult::WrongAnswer]);
}

#[test]
fn ttt_check_winner_lines() {
    let mut b = vec![None; 9];
    assert_eq!(check_winner(&b), None);
    b[2] = Some(1);
    b[4] = Some(1);
    b[6] = Some(1);
    assert_eq!(check_winner(&b), Some(1));
}

#[test]
fn ttt_history_rebuilds_match() {
    let mut t = TicTacToe::new();
    let history: Vec<String> = vec![
        "GAME_INIT x o".to_string(),
        "MOVE 0 0 0".to_string(),
        "MOVE 1 1 1".to_string(),
        "bogus".to_string(),
    ];
    t.restore_from_events(&history);
    assert!(t.game_started);
    assert_eq!(t.current_turn, 0);
    assert_eq!(t.format_board_message(), "BOARD X...O....");
    assert_eq!(
        t.get_event_source("o"),
        vec!["START O".to_string(), "BOARD X...O....".to_string(), "TURN 0".to_string()]
    );
    assert_eq!(
        t.get_event_source("x"),
        vec![
            "START X".to_string(),
            "BOARD X...O....".to_string(),
            "TURN 0".to_string(),
            "YOUR_TURN".to_string(),
        ]
    );
    let mut done = history.clone();
    done.push("DRAW".to_string());
    t.restore_from_events(&done);
    assert_eq!(t.get_event_source("x")[2..], ["SCORE 0".to_string(), "END".to_string()]);
}

#[test]
fn rps_match_reads_and_scores() {
    assert_eq!(RockPaperScissors::read_move("  rock \n"), Some(0));
    assert_eq!(RockPaperScissors::read_move("Paper"), Some(1));
    assert_eq!(RockPaperScissors::read_move("ſcissors"), Some(2));
    assert_eq!(RockPaperScissors::read_move("lizard"), None);
    assert_eq!(RockPaperScissors::round_winner(0, 2), Some(0));
    assert_eq!(RockPaperScissors::round_winner(0, 1), Some(1));
    assert_eq!(RockPaperScissors::round_winner(2, 2), None);
    let mut g = RockPaperScissors::new();
    g.begin(5, ids());
    g.start_round(1);
    assert_eq!(g.finish_round(1, [1, 0]), "ROUND 1 SCORE 1 0");
    g.start_round(2);
    assert_eq!(g.finish_round(2, [1, 1]), "ROUND 2 SCORE 1 0");
    assert_eq!(
        g.get_reconnect_state("x"),
        vec![
            "START".to_string(),
            "ROUND 1 paper rock".to_string(),
            "ROUND 2 paper paper".to_string(),
            "ROUND 2 SCORE 1 0".to_string(),
        ]
    );
    assert_eq!(g.score_message(0), "SCORE 1");
    assert_eq!(g.finish(), vec![GameResult::Accepted(1), GameResult::Accepted(0)]);
    assert_eq!(g.get_reconnect_state("x")[3..], ["SCORE 1".to_string(), "END".to_string()]);
    let mut h = RockPaperScissors::new();
    h.begin(3, ids());
    assert_eq!(h.stop(1, GameResult::TimeLimitExceeded), vec![GameResult::Accepted(0), GameResult::TimeLimitExceeded]);
}

#[test]
fn pd_match_reports_each_side() {
    assert_eq!(PrisonersDilemma::read_move(" cooperate"), Some(0));
    assert_eq!(PrisonersDilemma::read_move("d"), Some(1));
    assert_eq!(PrisonersDilemma::read_move("maybe"), None);
    let mut g = PrisonersDilemma::new();
    g.begin(7, ids());
    g.start_round(1);
    let (m0, m1) = g.finish_round([0, 1]);
    assert_eq!(m0, "RESULT D C 5 0");
    assert_eq!(m1, "RESULT C D 0 5");
    let (m0, _) = g.finish_round([1, 1]);
    assert_eq!(m0, "RESULT D D 6 1");
    assert_eq!(
        g.get_reconnect_state("o"),
        vec!["START".to_string(), "RESULT C D 0 5".to_string(), "RESULT D D 1 6".to_string()]
    );
    assert_eq!(g.finish(), vec![GameResult::Accepted(1), GameResult::Accepted(6)]);
    assert_eq!(g.get_reconnect_state("x")[3..], ["SCORE 1".to_string(), "END".to_string()]);
}

#[test]
fn round_counts_and_runtime_errors() {
    for _ in 0..20 {
        let r = RockPaperScissors::draw_rounds();
        assert!((3..=7).contains(&r));
        let p = PrisonersDilemma::draw_rounds();
        assert!((7..=13).contains(&p));
        let d = draw_rounds(10, 0);
        assert_eq!(d, 10);
    }
    assert_eq!(runtime_errors(3), vec![GameResult::RuntimeError; 3]);
}

#[test]
fn ttt_history_replay_guard() {
    assert!(event_replays("MOVE 0 1 1"));
    assert!(event_replays("MOVE 7 5 5"));
    assert!(!event_replays("MOVE 2 1 1"));
    assert!(!event_replays(&format!("MOVE 0 {} 0", usize::MAX)));
    assert!(event_replays("GAME_INIT a b"));
    assert!(history_replays(&["GAME_INIT a b".to_string(), "MOVE 0 0 0".to_string()]));
    assert!(!history_replays(&["GAME_INIT a b".to_string(), "MOVE 3 0 0".to_string()]));
}

#[test]
fn game_registry_limits() {
    let r = judge::game::find_game_by_id("rock-paper-scissors").unwrap();
    assert_eq!(r.human_turn_timeout_ms, 10000);
    assert_eq!(r.bot_turn_timeout_ms, 2000);
    assert_eq!(r.rounds_per_match, 100);
    let p = judge::game::find_game_by_id("prisoners-dilemma").unwrap();
    assert_eq!(p.human_turn_timeout_ms, 10000);
    assert_eq!(p.name, "Prisoner's Dilemma");
    let t = judge::game::find_game_by_id("tic-tac-toe").unwrap();
    assert_eq!(t.human_turn_timeout_ms, 60000);
    assert_eq!(t.bot_turn_timeout_ms, 30000);
    assert_eq!(t.human_timeout_ms, 120000);
    assert!(judge::game::find_game_by_id("chess").is_none());
}

#[test]
fn ttt_full_board_without_line_is_drawn() {
    let mut t = TicTacToe::new();
    t.begin(vec!["a".to_string(), "b".to_string()]);
    assert!(!t.is_drawn());
    for (r, c) in [(0, 0), (0, 1), (0, 2), (1, 1), (1, 0), (1, 2), (2, 1), (2, 0), (2, 2)] {
        let p = t.play(&format!("MOVE {r} {c}")).expect("legal move");
        assert!(p.winner.is_none());
    }
    assert!(t.is_drawn());
}
