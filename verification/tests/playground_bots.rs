use judge::chess_bot::ChessStrategy;
use judge::playground::{JogStrategy, PdStrategy, RpsStrategy, TttStrategy};
use judge::poker_bot::PokerStrategy;
use judge::xiangqi_bot::XiangqiStrategy;

fn mv(p: &str) -> Option<(String, String)> {
    Some(("MOVE".to_string(), p.to_string()))
}

#[test]
fn rps_bot_cycles_throws() {
    let mut b = RpsStrategy::default();
    assert_eq!(b.react("bot", "GAME_STARTED", ""), mv("ROCK"));
    assert_eq!(b.react("bot", "ROUND_RESULT", "1 ROCK PAPER 0 1"), mv("PAPER"));
    assert_eq!(b.react("bot", "MOVE", "bot ROCK"), None);
    assert_eq!(b.react("bot", "ROUND_RESULT", ""), mv("SCISSORS"));
    assert_eq!(b.react("bot", "ROUND_RESULT", ""), mv("ROCK"));
}

#[test]
fn pd_bot_plays_tit_for_tat() {
    let mut b = PdStrategy::default();
    assert_eq!(b.react("bot", "GAME_STARTED", ""), mv("C"));
    assert_eq!(b.react("bot", "MOVE", "bot C"), None);
    assert_eq!(b.react("bot", "MOVE", "opp DEFECT"), None);
    assert_eq!(b.react("bot", "ROUND_RESULT", ""), mv("D"));
    assert_eq!(b.react("bot", "MOVE", "opp C"), None);
    assert_eq!(b.react("bot", "ROUND_RESULT", ""), mv("C"));
    assert_eq!(b.react("bot", "MOVE", "opp"), None);
    assert_eq!(b.react("bot", "ROUND_RESULT", ""), mv("C"));
}

#[test]
fn ttt_bot_plays_first_empty_cell() {
    let mut b = TttStrategy::default();
    assert_eq!(b.react("a", "PLAYER_JOINED", " a "), None);
    assert_eq!(b.react("a", "PLAYER_JOINED", "b"), None);
    assert_eq!(b.react("a", "PLAYER_JOINED", "a"), None);
    assert_eq!(b.players, vec!["a".to_string(), "b".to_string()]);
    assert_eq!(b.react("a", "GAME_STARTED", "3 3"), mv("0 0"));
    assert_eq!(b.board.len(), 9);
    assert_eq!(b.react("a", "MOVE", "a 0 0"), None);
    assert_eq!(b.react("a", "MOVE", "b 1 1"), mv("0 1"));
    assert_eq!(b.board[4], Some('O'));
    assert_eq!(b.react("a", "MOVE", "b x 1"), None);
}

#[test]
fn ttt_bot_as_second_player_waits() {
    let mut b = TttStrategy::default();
    b.react("b", "PLAYER_JOINED", "a");
    b.react("b", "PLAYER_JOINED", "b");
    assert_eq!(b.react("b", "GAME_STARTED", ""), None);
    assert_eq!(b.board.len(), 256);
    assert_eq!(b.react("b", "MOVE", "a 0 0"), mv("0 1"));
}

#[test]
fn xiangqi_bot_opens_with_least_move() {
    let mut b = XiangqiStrategy::default();
    b.react("r", "PLAYER_JOINED", "r");
    b.react("r", "PLAYER_JOINED", "k");
    assert_eq!(b.react("r", "GAME_STARTED", ""), mv("a0 a1"));
    assert_eq!(b.react("r", "MOVE", "r a0 a1"), None);
    assert!(b.board[9].is_some());
    assert!(b.board[0].is_none());
}

#[test]
fn xiangqi_bot_as_black_replies() {
    let mut b = XiangqiStrategy::default();
    b.react("k", "PLAYER_JOINED", "r");
    b.react("k", "PLAYER_JOINED", "k");
    assert_eq!(b.react("k", "GAME_STARTED", ""), None);
    let reply = b.react("k", "MOVE", "r a0 a1");
    assert!(reply.is_some());
    assert_eq!(b.react("k", "MOVE", "r z9 a1"), None);
}

#[test]
fn chess_bot_opening_moves() {
    let mut w = ChessStrategy::default();
    w.react("w", "PLAYER_JOINED", "w");
    w.react("w", "PLAYER_JOINED", "b");
    assert_eq!(w.react("w", "GAME_STARTED", ""), mv("b1 a3"));

    let mut b = ChessStrategy::default();
    b.react("b", "PLAYER_JOINED", "w");
    b.react("b", "PLAYER_JOINED", "b");
    assert_eq!(b.react("b", "GAME_STARTED", ""), None);
}

#[test]
fn poker_bot_checks_calls_and_folds() {
    let mut b = PokerStrategy::default();
    assert_eq!(b.react("a", "PLAYER_JOINED", "a"), None);
    assert_eq!(b.react("a", "PLAYER_JOINED", "b"), None);
    assert_eq!(b.bot_idx, Some(0));
    assert_eq!(b.react("a", "HAND_STARTED", "1 0 0 1 2 3"), None);
    assert_eq!(b.react("a", "ACTION", "a POST 5"), Some(("CHECK".to_string(), String::new())));
    assert_eq!(b.react("a", "ACTION", "b POST 10"), Some(("CALL".to_string(), String::new())));
    assert_eq!(b.react("a", "ACTION", "a CALL 5"), None);
    assert_eq!(b.react("a", "STREET", "FLOP 1 2 3"), None);
    assert_eq!(b.react("a", "ACTION", "b BET 100"), Some(("FOLD".to_string(), String::new())));
    assert_eq!(b.react("a", "ACTION", "a FOLD"), None);
    assert!(!b.in_hand);
    assert_eq!(b.react("a", "HAND_END", ""), None);
    assert_eq!(b.bet_in_street, [0, 0]);
}

#[test]
fn jog_bot_contributes_a_third() {
    let mut b = JogStrategy::default();
    assert_eq!(b.react("x", "GAME_STARTED", "10 5 0 2 1"), Some(("CONTRIBUTE".to_string(), "3".to_string())));
    assert_eq!(b.coins, 7);
    assert_eq!(b.react("x", "ROUND_RESULT", "1 2 6 3"), Some(("CONTRIBUTE".to_string(), "3".to_string())));
    assert_eq!(b.coins, 7);
    assert_eq!(b.react("x", "ROUND_RESULT", "2 2 6 -20"), Some(("CONTRIBUTE".to_string(), "0".to_string())));
    assert_eq!(b.coins, -13);
    assert_eq!(b.react("x", "CONTRIBUTE", "x 1"), None);
}

#[test]
fn jog_bot_rounds_toward_zero() {
    let mut b = JogStrategy::default();
    assert_eq!(b.react("x", "GAME_STARTED", "-5"), Some(("CONTRIBUTE".to_string(), "-1".to_string())));
    assert_eq!(b.coins, -4);
    assert_eq!(b.last_contribution, -1);
}
