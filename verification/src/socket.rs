//! What a room's socket says and understands. A connection opens with
//! `LOGIN <jwt>`; once admitted, a member sends `LEAVE`, `CHAT <text>`,
//! `START`, or anything else, which is a move for the running game. The
//! socket loop itself does the sending and receiving; the decisions are
//! here.
use vstd::prelude::*;
use crate::room::RoomResponse;
use crate::text::{chars_of, push_str, string_of, string_of_range, trim, trim_range};

verus! {

/// `s` begins with `prefix`.
pub open spec fn starts_with(s: Seq<char>, prefix: Seq<char>) -> bool {
    s.len() >= prefix.len() && s.subrange(0, prefix.len() as int) == prefix
}

/// The token of a login line, or the refusal sent back.
pub open spec fn login_token_spec(text: Seq<char>) -> Result<Seq<char>, Seq<char>> {
    let t = trim(text);
    if starts_with(t, "LOGIN "@) {
        Ok(t.subrange(6, t.len() as int))
    } else {
        Err("LOGIN_FAILED Missing LOGIN command"@)
    }
}

/// Whether `v[lo..lo + lit.len()]` spells `lit`.
fn range_starts(v: &Vec<char>, lo: usize, hi: usize, lit: &str) -> (b: bool)
    requires
        lo <= hi <= v@.len(),
    ensures
        b == starts_with(v@.subrange(lo as int, hi as int), lit@),
{
    let l = chars_of(lit);
    if hi - lo < l.len() {
        return false;
    }
    let mut k: usize = 0;
    while k < l.len()
        invariant
            lo + l@.len() <= hi <= v@.len(),
            l@ == lit@,
            k <= l@.len(),
            forall|j: int| 0 <= j < k ==> v@[lo + j] == l@[j],
        decreases l.len() - k,
    {
        if v[lo + k] != l[k] {
            proof {
                assert(v@.subrange(lo as int, hi as int).subrange(0, l@.len() as int)[k as int] != lit@[k as int]);
            }
            return false;
        }
        k += 1;
    }
    proof {
        assert(v@.subrange(lo as int, hi as int).subrange(0, l@.len() as int) =~= lit@);
    }
    true
}

/// The token of the opening `LOGIN <jwt>` line.
pub fn login_token(text: &str) -> (r: Result<String, String>)
    ensures
        match login_token_spec(text@) {
            Ok(t) => r matches Ok(s) && s@ == t,
            Err(e) => r matches Err(s) && s@ == e,
        },
{
    let v = chars_of(text);
    proof {
        assert(v@.subrange(0, v@.len() as int) =~= v@);
    }
    let (a, b) = trim_range(&v, 0, v.len());
    if range_starts(&v, a, b, "LOGIN ") {
        proof {
            reveal_strlit("LOGIN ");
            assert(v@.subrange(a as int, b as int).subrange(6, (b - a) as int) =~= v@.subrange(
                a + 6,
                b as int,
            ));
        }
        Ok(string_of_range(&v, a + 6, b))
    } else {
        Err(String::from_str("LOGIN_FAILED Missing LOGIN command"))
    }
}

/// Who logged in, or the refusal sent back: the token must check out
/// (`jwt` is what checking it gave), the room must exist, and the user must
/// be one of its members.
pub open spec fn login_verdict(jwt: Result<Seq<char>, Seq<char>>, member: Option<bool>) -> Result<Seq<char>, Seq<char>> {
    match jwt {
        Err(e) => Err("LOGIN_FAILED "@ + e),
        Ok(user) => match member {
            None => Err("LOGIN_FAILED Room not found"@),
            Some(false) => Err("LOGIN_FAILED User not in room"@),
            Some(true) => Ok(user),
        },
    }
}

pub open spec fn lists_player(r: RoomResponse, id: Seq<char>) -> bool {
    exists|k: int| 0 <= k < r.players@.len() && (#[trigger] r.players@[k]).id@ == id
}

fn lists(r: &RoomResponse, id: &str) -> (b: bool)
    ensures
        b == lists_player(*r, id@),
{
    let mut k: usize = 0;
    while k < r.players.len()
        invariant
            k <= r.players@.len(),
            forall|j: int| 0 <= j < k ==> (#[trigger] r.players@[j]).id@ != id@,
        decreases r.players.len() - k,
    {
        if crate::text::str_is(r.players[k].id.as_str(), id) {
            return true;
        }
        k += 1;
    }
    false
}

/// The outcome of a login, given what checking the token gave and the room
/// as it stands, if it exists.
pub fn login(jwt: Result<String, String>, room: Option<&RoomResponse>) -> (r: Result<String, String>)
    ensures
        match login_verdict(
            match jwt {
                Ok(u) => Ok(u@),
                Err(e) => Err(e@),
            },
            match room {
                Some(rr) => Some(lists_player(*rr, match jwt {
                    Ok(u) => u@,
                    Err(e) => e@,
                })),
                None => None,
            },
        ) {
            Ok(u) => r matches Ok(s) && s@ == u,
            Err(e) => r matches Err(s) && s@ == e,
        },
{
    match jwt {
        Err(e) => {
            let mut v: Vec<char> = Vec::new();
            push_str(&mut v, "LOGIN_FAILED ");
            push_str(&mut v, e.as_str());
            Err(string_of(&v))
        },
        Ok(user) => match room {
            None => Err(String::from_str("LOGIN_FAILED Room not found")),
            Some(r) => {
                if lists(r, user.as_str()) {
                    Ok(user)
                } else {
                    Err(String::from_str("LOGIN_FAILED User not in room"))
                }
            },
        },
    }
}

/// `LOGIN_OK <id>`, with `RECONNECT` for a member coming back.
pub fn login_ok(player_id: &str, reconnecting: bool) -> (s: String)
    ensures
        s@ == "LOGIN_OK "@ + player_id@ + if reconnecting {
            " RECONNECT"@
        } else {
            ""@
        },
{
    let mut v: Vec<char> = Vec::new();
    push_str(&mut v, "LOGIN_OK ");
    push_str(&mut v, player_id);
    if reconnecting {
        push_str(&mut v, " RECONNECT");
    }
    proof {
        reveal_strlit("");
    }
    string_of(&v)
}

/// What a member's line asks for.
#[derive(Debug, Clone, PartialEq, Eq)]
pub enum Command {
    Leave,
    /// `CHAT <text>`: the text, as typed after the prefix.
    Chat(String),
    Start,
    /// Anything else: a move for the game, trimmed.
    Move(String),
}

pub enum CommandView {
    Leave,
    Chat(Seq<char>),
    Start,
    Move(Seq<char>),
}

pub open spec fn command_view(c: Command) -> CommandView {
    match c {
        Command::Leave => CommandView::Leave,
        Command::Chat(s) => CommandView::Chat(s@),
        Command::Start => CommandView::Start,
        Command::Move(s) => CommandView::Move(s@),
    }
}

pub open spec fn command_spec(text: Seq<char>) -> CommandView {
    let t = trim(text);
    if t == "LEAVE"@ {
        CommandView::Leave
    } else if starts_with(t, "CHAT "@) {
        CommandView::Chat(t.subrange(5, t.len() as int))
    } else if t == "START"@ {
        CommandView::Start
    } else {
        CommandView::Move(t)
    }
}

pub fn command(text: &str) -> (c: Command)
    ensures
        command_view(c) == command_spec(text@),
{
    let v = chars_of(text);
    proof {
        assert(v@.subrange(0, v@.len() as int) =~= v@);
    }
    let (a, b) = trim_range(&v, 0, v.len());
    if crate::text::range_is(&v, a, b, "LEAVE") {
        Command::Leave
    } else if range_starts(&v, a, b, "CHAT ") {
        proof {
            reveal_strlit("CHAT ");
            assert(v@.subrange(a as int, b as int).subrange(5, (b - a) as int) =~= v@.subrange(
                a + 5,
                b as int,
            ));
        }
        Command::Chat(string_of_range(&v, a + 5, b))
    } else if crate::text::range_is(&v, a, b, "START") {
        Command::Start
    } else {
        Command::Move(string_of_range(&v, a, b))
    }
}

/// `CHAT <id> <text>`, what the room is told of a chat line.
pub fn chat_line(player_id: &str, content: &str) -> (s: String)
    ensures
        s@ == "CHAT "@ + player_id@ + " "@ + content@,
{
    let mut v: Vec<char> = Vec::new();
    push_str(&mut v, "CHAT ");
    push_str(&mut v, player_id);
    push_str(&mut v, " ");
    push_str(&mut v, content);
    string_of(&v)
}

/// `ERROR <message>`.
pub fn error_line(e: &str) -> (s: String)
    ensures
        s@ == "ERROR "@ + e@,
{
    let mut v: Vec<char> = Vec::new();
    push_str(&mut v, "ERROR ");
    push_str(&mut v, e);
    string_of(&v)
}

} // verus!
