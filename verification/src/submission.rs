//! Checks on a submitted program before it is run: that the caller owns
//! it, that it is for the game asked for, that it was accepted, and that it
//! compiled; and the compiler invocation for each supported language.
use vstd::prelude::*;
use crate::text::{push_str, str_is, string_of};

verus! {

/// A submission as the database holds it; `user_id` is the owner's record
/// id in its textual form.
pub struct SubmissionRow {
    pub user_id: Option<String>,
    pub game_id: Option<String>,
    pub status: Option<String>,
    pub compiled_binary_path: Option<String>,
}

pub open spec fn opt_view(o: Option<String>) -> Option<Seq<char>> {
    match o {
        Some(s) => Some(s@),
        None => None,
    }
}

/// The compiled program of a submission the caller may play against, or
/// the HTTP status and message refusing it.
pub open spec fn binary_verdict(row: SubmissionRow, caller: Seq<char>, game: Seq<char>) -> Result<Seq<char>, (u16, Seq<char>)> {
    match opt_view(row.user_id) {
        None => Err((403, "submission has no owner"@)),
        Some(owner) => if owner != caller {
            Err((403, "not your submission"@))
        } else if opt_view(row.game_id) != Some(game) {
            Err((400, "submission is for a different game"@))
        } else if opt_view(row.status) != Some("accepted"@) {
            Err(
                (
                    400,
                    "submission not accepted (status="@ + match opt_view(row.status) {
                        Some(s) => s,
                        None => "unknown"@,
                    } + ")"@,
                ),
            )
        } else {
            match opt_view(row.compiled_binary_path) {
                Some(p) => if p.len() > 0 {
                    Ok(p)
                } else {
                    Err((400, "submission has no compiled binary"@))
                },
                None => Err((400, "submission has no compiled binary"@)),
            }
        },
    }
}

pub fn submission_binary(row: SubmissionRow, caller: &str, game: &str) -> (r: Result<String, (u16, String)>)
    ensures
        match binary_verdict(row, caller@, game@) {
            Ok(p) => r matches Ok(q) && q@ == p,
            Err((code, msg)) => r matches Err(e) && e.0 == code && e.1@ == msg,
        },
{
    let owner = match &row.user_id {
        Some(o) => o,
        None => {
            return Err((403, String::from_str("submission has no owner")));
        },
    };
    if !str_is(owner.as_str(), caller) {
        return Err((403, String::from_str("not your submission")));
    }
    let same_game = match &row.game_id {
        Some(g) => str_is(g.as_str(), game),
        None => false,
    };
    if !same_game {
        return Err((400, String::from_str("submission is for a different game")));
    }
    let accepted = match &row.status {
        Some(s) => str_is(s.as_str(), "accepted"),
        None => false,
    };
    if !accepted {
        let mut v: Vec<char> = Vec::new();
        push_str(&mut v, "submission not accepted (status=");
        match &row.status {
            Some(s) => push_str(&mut v, s.as_str()),
            None => push_str(&mut v, "unknown"),
        }
        push_str(&mut v, ")");
        return Err((400, string_of(&v)));
    }
    match row.compiled_binary_path {
        Some(p) => {
            if !p.as_str().is_empty() {
                Ok(p)
            } else {
                Err((400, String::from_str("submission has no compiled binary")))
            }
        },
        None => Err((400, String::from_str("submission has no compiled binary"))),
    }
}

/// The source file and the program a language compiles from and to.
pub open spec fn language_files(language: Seq<char>) -> Option<(Seq<char>, Seq<char>)> {
    if language == "rust"@ {
        Some(("main.rs"@, "player"@))
    } else if language == "go"@ {
        Some(("main.go"@, "player"@))
    } else if language == "c"@ {
        Some(("main.c"@, "player"@))
    } else {
        None
    }
}

pub fn source_and_binary(language: &str) -> (r: Option<(&'static str, &'static str)>)
    ensures
        match language_files(language@) {
            Some((src, bin)) => r matches Some(p) && p.0@ == src && p.1@ == bin,
            None => r is None,
        },
{
    if str_is(language, "rust") {
        Some(("main.rs", "player"))
    } else if str_is(language, "go") {
        Some(("main.go", "player"))
    } else if str_is(language, "c") {
        Some(("main.c", "player"))
    } else {
        None
    }
}

/// The compiler arguments for a language, given where the program goes and
/// where the source is: rustc with edition 2024 at `opt-level=2`, `go
/// build`, or gcc at `-O2`.
pub open spec fn compiler_args(language: Seq<char>, output: Seq<char>, source: Seq<char>) -> Option<Seq<Seq<char>>> {
    if language == "rust"@ {
        Some(seq!["--edition"@, "2024"@, "-C"@, "opt-level=2"@, "-o"@, output, source])
    } else if language == "go"@ {
        Some(seq!["build"@, "-o"@, output, source])
    } else if language == "c"@ {
        Some(seq!["-O2"@, "-o"@, output, source])
    } else {
        None
    }
}

/// The environment variable naming each language's compiler, and the
/// compiler used when it is unset.
pub open spec fn compiler_var(language: Seq<char>) -> Option<(Seq<char>, Seq<char>)> {
    if language == "rust"@ {
        Some(("RUSTC_BIN"@, "rustc"@))
    } else if language == "go"@ {
        Some(("GO_BIN"@, "go"@))
    } else if language == "c"@ {
        Some(("GCC_BIN"@, "gcc"@))
    } else {
        None
    }
}

pub fn compiler_for(language: &str) -> (r: Option<(&'static str, &'static str)>)
    ensures
        match compiler_var(language@) {
            Some((var, dflt)) => r matches Some(p) && p.0@ == var && p.1@ == dflt,
            None => r is None,
        },
{
    if str_is(language, "rust") {
        Some(("RUSTC_BIN", "rustc"))
    } else if str_is(language, "go") {
        Some(("GO_BIN", "go"))
    } else if str_is(language, "c") {
        Some(("GCC_BIN", "gcc"))
    } else {
        None
    }
}

pub fn compile_args(language: &str, output: &str, source: &str) -> (r: Option<Vec<String>>)
    ensures
        match compiler_args(language@, output@, source@) {
            Some(a) => r matches Some(v) && v.deep_view() == a,
            None => r is None,
        },
{
    let mut v: Vec<String> = Vec::new();
    if str_is(language, "rust") {
        v.push(String::from_str("--edition"));
        v.push(String::from_str("2024"));
        v.push(String::from_str("-C"));
        v.push(String::from_str("opt-level=2"));
    } else if str_is(language, "go") {
        v.push(String::from_str("build"));
    } else if str_is(language, "c") {
        v.push(String::from_str("-O2"));
    } else {
        return None;
    }
    v.push(String::from_str("-o"));
    v.push(output.to_owned());
    v.push(source.to_owned());
    proof {
        assert(v.deep_view() =~= compiler_args(language@, output@, source@)->0);
    }
    Some(v)
}

/// What a finished compilation reports: the program's path, or why it
/// failed (a non-zero exit with the compiler's log, or no program).
pub open spec fn compile_outcome(exit_code: i32, log: Seq<char>, binary_exists: bool, binary: Seq<char>) -> Result<Seq<char>, Seq<char>> {
    if exit_code != 0 {
        Err("Compilation failed with exit code: "@ + crate::text::int_dec(exit_code as int) + ". Log:\n"@ + log)
    } else if !binary_exists {
        Err("Compilation produced no binary"@)
    } else {
        Ok(binary)
    }
}

pub fn compile_result(exit_code: i32, log: &str, binary_exists: bool, binary: String) -> (r: Result<String, String>)
    ensures
        match compile_outcome(exit_code, log@, binary_exists, binary@) {
            Ok(p) => r matches Ok(q) && q@ == p,
            Err(e) => r matches Err(m) && m@ == e,
        },
{
    if exit_code != 0 {
        let mut v: Vec<char> = Vec::new();
        push_str(&mut v, "Compilation failed with exit code: ");
        crate::text::push_int(&mut v, exit_code as i64);
        push_str(&mut v, ". Log:\n");
        push_str(&mut v, log);
        return Err(string_of(&v));
    }
    if !binary_exists {
        return Err(String::from_str("Compilation produced no binary"));
    }
    Ok(binary)
}

} // verus!
