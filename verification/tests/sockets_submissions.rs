use judge::room::{PlayerInfo, RoomResponse};
use judge::socket::{chat_line, command, error_line, login, login_ok, login_token, Command};
use judge::submission::{
    compile_args, compile_result, compiler_for, source_and_binary, submission_binary,
    SubmissionRow,
};

fn response_with(ids: &[&str]) -> RoomResponse {
    RoomResponse {
        id: "room_1".to_string(),
        name: "fun".to_string(),
        game_id: "chess".to_string(),
        max_players: 2,
        status: "waiting".to_string(),
        host_id: ids[0].to_string(),
        host_username: "Hana".to_string(),
        players: ids
            .iter()
            .map(|i| PlayerInfo { id: i.to_string(), username: String::new(), connected: false })
            .collect(),
        reconnecting: false,
    }
}

#[test]
fn login_line_is_read() {
    assert_eq!(login_token("  LOGIN abc.def  "), Ok("abc.def".to_string()));
    assert_eq!(login_token("LOGIN  x"), Ok(" x".to_string()));
    assert_eq!(login_token("LOGIN "), Err("LOGIN_FAILED Missing LOGIN command".to_string()));
    assert_eq!(
        login_token("HELLO x"),
        Err("LOGIN_FAILED Missing LOGIN command".to_string())
    );
    assert_eq!(login_token("LOGIN"), Err("LOGIN_FAILED Missing LOGIN command".to_string()));
}

#[test]
fn login_checks_token_room_and_membership() {
    let room = response_with(&["h", "p"]);
    assert_eq!(login(Ok("p".to_string()), Some(&room)), Ok("p".to_string()));
    assert_eq!(
        login(Ok("z".to_string()), Some(&room)),
        Err("LOGIN_FAILED User not in room".to_string())
    );
    assert_eq!(login(Ok("p".to_string()), None), Err("LOGIN_FAILED Room not found".to_string()));
    assert_eq!(
        login(Err("Invalid token".to_string()), Some(&room)),
        Err("LOGIN_FAILED Invalid token".to_string())
    );
}

#[test]
fn socket_lines_are_spelled() {
    assert_eq!(login_ok("p", false), "LOGIN_OK p");
    assert_eq!(login_ok("p", true), "LOGIN_OK p RECONNECT");
    assert_eq!(chat_line("p", "hi there"), "CHAT p hi there");
    assert_eq!(error_line("Not your turn"), "ERROR Not your turn");
}

#[test]
fn commands_are_told_apart() {
    assert_eq!(command(" LEAVE \n"), Command::Leave);
    assert_eq!(command("START"), Command::Start);
    assert_eq!(command("CHAT  hello "), Command::Chat(" hello".to_string()));
    assert_eq!(command("MOVE 1 2"), Command::Move("MOVE 1 2".to_string()));
    assert_eq!(command("leave"), Command::Move("leave".to_string()));
}

fn row(user: Option<&str>, game: Option<&str>, status: Option<&str>, bin: Option<&str>) -> SubmissionRow {
    SubmissionRow {
        user_id: user.map(|s| s.to_string()),
        game_id: game.map(|s| s.to_string()),
        status: status.map(|s| s.to_string()),
        compiled_binary_path: bin.map(|s| s.to_string()),
    }
}

#[test]
fn submission_checks_in_order() {
    let ok = row(Some("u1"), Some("chess"), Some("accepted"), Some("/bin/p"));
    assert_eq!(submission_binary(ok, "u1", "chess"), Ok("/bin/p".to_string()));
    let none = row(None, Some("chess"), Some("accepted"), Some("/bin/p"));
    assert_eq!(
        submission_binary(none, "u1", "chess"),
        Err((403, "submission has no owner".to_string()))
    );
    let other = row(Some("u2"), Some("chess"), Some("accepted"), Some("/bin/p"));
    assert_eq!(
        submission_binary(other, "u1", "chess"),
        Err((403, "not your submission".to_string()))
    );
    let game = row(Some("u1"), Some("rps"), Some("accepted"), Some("/bin/p"));
    assert_eq!(
        submission_binary(game, "u1", "chess"),
        Err((400, "submission is for a different game".to_string()))
    );
    let pending = row(Some("u1"), Some("chess"), Some("pending"), Some("/bin/p"));
    assert_eq!(
        submission_binary(pending, "u1", "chess"),
        Err((400, "submission not accepted (status=pending)".to_string()))
    );
    let unknown = row(Some("u1"), Some("chess"), None, Some("/bin/p"));
    assert_eq!(
        submission_binary(unknown, "u1", "chess"),
        Err((400, "submission not accepted (status=unknown)".to_string()))
    );
    let empty = row(Some("u1"), Some("chess"), Some("accepted"), Some(""));
    assert_eq!(
        submission_binary(empty, "u1", "chess"),
        Err((400, "submission has no compiled binary".to_string()))
    );
    let missing = row(Some("u1"), Some("chess"), Some("accepted"), None);
    assert_eq!(
        submission_binary(missing, "u1", "chess"),
        Err((400, "submission has no compiled binary".to_string()))
    );
}

#[test]
fn languages_and_compilers() {
    assert_eq!(source_and_binary("rust"), Some(("main.rs", "player")));
    assert_eq!(source_and_binary("go"), Some(("main.go", "player")));
    assert_eq!(source_and_binary("c"), Some(("main.c", "player")));
    assert_eq!(source_and_binary("java"), None);
    assert_eq!(compiler_for("rust"), Some(("RUSTC_BIN", "rustc")));
    assert_eq!(compiler_for("go"), Some(("GO_BIN", "go")));
    assert_eq!(compiler_for("c"), Some(("GCC_BIN", "gcc")));
    assert_eq!(compiler_for("cobol"), None);
    assert_eq!(
        compile_args("rust", "out/p", "src/main.rs"),
        Some(vec![
            "--edition".to_string(),
            "2024".to_string(),
            "-C".to_string(),
            "opt-level=2".to_string(),
            "-o".to_string(),
            "out/p".to_string(),
            "src/main.rs".to_string(),
        ])
    );
    assert_eq!(
        compile_args("go", "p", "main.go"),
        Some(vec!["build".to_string(), "-o".to_string(), "p".to_string(), "main.go".to_string()])
    );
    assert_eq!(
        compile_args("c", "p", "main.c"),
        Some(vec!["-O2".to_string(), "-o".to_string(), "p".to_string(), "main.c".to_string()])
    );
    assert_eq!(compile_args("java", "p", "Main.java"), None);
}

#[test]
fn compilation_outcome() {
    assert_eq!(
        compile_result(1, "boom", true, "/p".to_string()),
        Err("Compilation failed with exit code: 1. Log:\nboom".to_string())
    );
    assert_eq!(
        compile_result(-2, "", true, "/p".to_string()),
        Err("Compilation failed with exit code: -2. Log:\n".to_string())
    );
    assert_eq!(
        compile_result(0, "", false, "/p".to_string()),
        Err("Compilation produced no binary".to_string())
    );
    assert_eq!(compile_result(0, "warn", true, "/p".to_string()), Ok("/p".to_string()));
}
