//! Room membership shared by every game: who has joined, who hosts, and the
//! lobby actions (`JOIN`, `LEAVE`, `CHAT`, `START`) with the events they emit.
//!
//! Every game is event-sourced: `validate` checks an action against the
//! current state and answers with the events to append, and `fold` applies
//! one event to the state. Replaying the log from the start rebuilds the state.
use vstd::prelude::*;
use crate::text::{chars_of, is_trimmed, push_all, push_str, sanitize, sanitized, string_of, trim, trimmed_string};

verus! {

/// An event as it is stored: its kind and its payload.
pub type EventView = (Seq<char>, Seq<char>);

/// What `validate` answers: the events to append, or why the action is refused.
pub type VerdictView = Result<Seq<EventView>, Seq<char>>;

pub open spec fn verdict_view(r: Result<Vec<(String, String)>, String>) -> VerdictView {
    match r {
        Ok(v) => Ok(v.deep_view()),
        Err(e) => Err(e@),
    }
}

/// Position of the first occurrence of `x` in `ps`.
pub open spec fn index_of(ps: Seq<Seq<char>>, x: Seq<char>) -> Option<nat>
    decreases ps.len(),
{
    if ps.len() == 0 {
        None
    } else if ps[0] == x {
        Some(0)
    } else {
        match index_of(ps.drop_first(), x) {
            Some(i) => Some(i + 1),
            None => None,
        }
    }
}

/// The first member other than `x`.
pub open spec fn first_other(ps: Seq<Seq<char>>, x: Seq<char>) -> Option<Seq<char>>
    decreases ps.len(),
{
    if ps.len() == 0 {
        None
    } else if ps[0] != x {
        Some(ps[0])
    } else {
        first_other(ps.drop_first(), x)
    }
}

pub proof fn lemma_index_of(ps: Seq<Seq<char>>, x: Seq<char>)
    ensures
        match index_of(ps, x) {
            Some(i) => i < ps.len() && ps[i as int] == x && forall|k: int|
                0 <= k < i ==> ps[k] != x,
            None => forall|k: int| 0 <= k < ps.len() ==> ps[k] != x,
        },
    decreases ps.len(),
{
    if ps.len() > 0 && ps[0] != x {
        lemma_index_of(ps.drop_first(), x);
        match index_of(ps.drop_first(), x) {
            Some(i) => {
                assert forall|k: int| 0 <= k < i + 1 implies ps[k] != x by {
                    if k > 0 {
                        assert(ps[k] == ps.drop_first()[k - 1]);
                    }
                }
            },
            None => {
                assert forall|k: int| 0 <= k < ps.len() implies ps[k] != x by {
                    if k > 0 {
                        assert(ps[k] == ps.drop_first()[k - 1]);
                    }
                }
            },
        }
    }
}

pub proof fn lemma_index_of_char(ps: Seq<Seq<char>>, x: Seq<char>, i: int)
    requires
        0 <= i <= ps.len(),
        forall|k: int| 0 <= k < i ==> ps[k] != x,
        i < ps.len() ==> ps[i] == x,
    ensures
        index_of(ps, x) == (if i < ps.len() {
            Some(i as nat)
        } else {
            None::<nat>
        }),
    decreases ps.len(),
{
    if ps.len() > 0 && i > 0 {
        let t = ps.drop_first();
        assert forall|k: int| 0 <= k < i - 1 implies t[k] != x by {
            assert(t[k] == ps[k + 1]);
        }
        if i - 1 < t.len() {
            assert(t[i - 1] == ps[i]);
        }
        lemma_index_of_char(t, x, i - 1);
    }
}

pub proof fn lemma_first_other_char(ps: Seq<Seq<char>>, x: Seq<char>, i: int)
    requires
        0 <= i <= ps.len(),
        forall|k: int| 0 <= k < i ==> ps[k] == x,
        i < ps.len() ==> ps[i] != x,
    ensures
        first_other(ps, x) == (if i < ps.len() {
            Some(ps[i])
        } else {
            None::<Seq<char>>
        }),
    decreases ps.len(),
{
    if ps.len() > 0 && i > 0 {
        let t = ps.drop_first();
        assert forall|k: int| 0 <= k < i - 1 implies t[k] == x by {
            assert(t[k] == ps[k + 1]);
        }
        if i - 1 < t.len() {
            assert(t[i - 1] == ps[i]);
        }
        lemma_first_other_char(t, x, i - 1);
    }
}

/// Members and host of a room.
pub struct Lobby {
    pub players: Seq<Seq<char>>,
    pub host: Option<Seq<char>>,
}

/// `PLAYER_JOINED <pid>`: a new member is added while there is room; the
/// first member becomes host.
pub open spec fn lobby_joined(l: Lobby, payload: Seq<char>, max: nat) -> Lobby {
    let pid = trim(payload);
    if index_of(l.players, pid) is None && l.players.len() < max {
        Lobby {
            players: l.players.push(pid),
            host: if l.host is None {
                Some(pid)
            } else {
                l.host
            },
        }
    } else {
        l
    }
}

/// `PLAYER_LEFT <pid>`: the member is removed; if it was the host, the first
/// remaining member (if any) becomes host.
pub open spec fn lobby_left(l: Lobby, payload: Seq<char>) -> Lobby {
    let pid = trim(payload);
    let ps = match index_of(l.players, pid) {
        Some(i) => l.players.remove(i as int),
        None => l.players,
    };
    Lobby {
        players: ps,
        host: if l.host == Some(pid) {
            if ps.len() > 0 {
                Some(ps[0])
            } else {
                None
            }
        } else {
            l.host
        },
    }
}

/// Leaving never adds members.
pub proof fn lemma_left_len(l: Lobby, payload: Seq<char>)
    ensures
        lobby_left(l, payload).players.len() <= l.players.len(),
{
    lemma_index_of(l.players, trim(payload));
}

/// `HOST_CHANGED <pid>`.
pub open spec fn lobby_host_changed(l: Lobby, payload: Seq<char>) -> Lobby {
    Lobby { players: l.players, host: Some(trim(payload)) }
}

/// `JOIN`: already a member is a no-op; otherwise only in the lobby and while
/// there is room.
pub open spec fn join_verdict(l: Lobby, in_lobby: bool, player: Seq<char>, max: nat) -> VerdictView {
    if index_of(l.players, player) is Some {
        Ok(seq![])
    } else if !in_lobby {
        Err("game already started"@)
    } else if l.players.len() >= max {
        Err("room full"@)
    } else {
        Ok(seq![("PLAYER_JOINED"@, player)])
    }
}

/// `LEAVE`: a member leaves; a leaving host hands over to the first other
/// member, if there is one.
pub open spec fn leave_verdict(l: Lobby, player: Seq<char>) -> VerdictView {
    if index_of(l.players, player) is None {
        Ok(seq![])
    } else if l.host == Some(player) && first_other(l.players, player) is Some {
        Ok(
            seq![("PLAYER_LEFT"@, player), ("HOST_CHANGED"@, first_other(l.players, player)->0)],
        )
    } else {
        Ok(seq![("PLAYER_LEFT"@, player)])
    }
}

/// `CHAT`: the sanitised message (at most 500 characters) prefixed by the
/// speaker; an empty message emits nothing.
pub open spec fn chat_verdict(player: Seq<char>, payload: Seq<char>) -> VerdictView {
    let msg = sanitized(payload, 500);
    if msg.len() == 0 {
        Ok(seq![])
    } else {
        Ok(seq![("CHAT"@, player + " "@ + msg)])
    }
}

/// Why `START` is refused, if it is: only the host, only in the lobby, and
/// only with two members.
pub open spec fn start_refusal(l: Lobby, in_lobby: bool, player: Seq<char>) -> Option<Seq<char>> {
    if l.host != Some(player) {
        Some("only host may start"@)
    } else if !in_lobby {
        Some("already started"@)
    } else if l.players.len() < 2 {
        Some("need 2 players"@)
    } else {
        None
    }
}

pub open spec fn lobby_of(players: Vec<String>, host: Option<String>) -> Lobby {
    Lobby { players: players.deep_view(), host: host.deep_view() }
}

/// What a room shows in listings: its phase, host and members.
#[derive(Debug, Clone)]
pub struct RoomSnapshot {
    pub phase: String,
    pub host: Option<String>,
    pub players: Vec<String>,
}


// ---------------------------------------------------------------------------
// Executable
// ---------------------------------------------------------------------------

/// Index of the member `pid`, if present.
pub fn find_player(players: &Vec<String>, pid: &str) -> (r: Option<usize>)
    ensures
        match index_of(players.deep_view(), pid@) {
            Some(i) => r == Some(i as usize),
            None => r is None,
        },
{
    let p = pid.to_owned();
    let mut i: usize = 0;
    while i < players.len()
        invariant
            i <= players.len(),
            p@ == pid@,
            forall|k: int| 0 <= k < i ==> players.deep_view()[k] != pid@,
        decreases players.len() - i,
    {
        proof {
            assert(players.deep_view()[i as int] == players[i as int]@);
        }
        if players[i] == p {
            proof {
                lemma_index_of_char(players.deep_view(), pid@, i as int);
            }
            return Some(i);
        }
        i += 1;
    }
    proof {
        lemma_index_of_char(players.deep_view(), pid@, i as int);
    }
    None
}

/// The first member other than `pid`.
pub fn find_other(players: &Vec<String>, pid: &str) -> (r: Option<String>)
    ensures
        r.deep_view() == first_other(players.deep_view(), pid@),
{
    let p = pid.to_owned();
    let mut i: usize = 0;
    while i < players.len()
        invariant
            i <= players.len(),
            p@ == pid@,
            forall|k: int| 0 <= k < i ==> players.deep_view()[k] == pid@,
        decreases players.len() - i,
    {
        proof {
            assert(players.deep_view()[i as int] == players[i as int]@);
        }
        if players[i] != p {
            proof {
                lemma_first_other_char(players.deep_view(), pid@, i as int);
            }
            return Some(players[i].clone());
        }
        i += 1;
    }
    proof {
        lemma_first_other_char(players.deep_view(), pid@, i as int);
    }
    None
}

/// A copy of the member list.
pub fn clone_players(players: &Vec<String>) -> (r: Vec<String>)
    ensures
        r.deep_view() == players.deep_view(),
{
    let mut r: Vec<String> = Vec::new();
    let mut i: usize = 0;
    while i < players.len()
        invariant
            i <= players.len(),
            r@.len() == i,
            forall|k: int| 0 <= k < i ==> (#[trigger] r@[k])@ == players@[k]@,
        decreases players.len() - i,
    {
        let c = players[i].clone();
        let ghost before = r@;
        r.push(c);
        proof {
            assert(r@ == before.push(c));
            assert forall|k: int| 0 <= k < i + 1 implies (#[trigger] r@[k])@ == players@[k]@ by {
                if k < i {
                    assert(r@[k] == before[k]);
                }
            }
        }
        i += 1;
    }
    proof {
        assert(r.deep_view() =~= players.deep_view());
    }
    r
}

/// Whether `host` names `pid`.
pub fn host_is(host: &Option<String>, pid: &str) -> (b: bool)
    ensures
        b == (host.deep_view() == Some(pid@)),
{
    match host {
        Some(h) => {
            let p = pid.to_owned();
            *h == p
        },
        None => false,
    }
}

pub fn fold_joined(players: &mut Vec<String>, host: &mut Option<String>, payload: &str, max: usize)
    ensures
        lobby_of(*final(players), *final(host)) == lobby_joined(
            lobby_of(*old(players), *old(host)),
            payload@,
            max as nat,
        ),
{
    let pid = trimmed_string(payload);
    let found = find_player(players, pid.as_str());
    if found.is_none() && players.len() < max {
        let ghost before = players.deep_view();
        players.push(pid.clone());
        proof {
            assert(players.deep_view() =~= before.push(pid@));
        }
        if host.is_none() {
            *host = Some(pid);
        }
    }
}

pub fn fold_left(players: &mut Vec<String>, host: &mut Option<String>, payload: &str)
    ensures
        lobby_of(*final(players), *final(host)) == lobby_left(
            lobby_of(*old(players), *old(host)),
            payload@,
        ),
{
    let pid = trimmed_string(payload);
    let found = find_player(players, pid.as_str());
    let ghost before = players.deep_view();
    proof {
        lemma_index_of(players.deep_view(), pid@);
    }
    match found {
        Some(i) => {
            let ghost old_v = players@;
            players.remove(i);
            proof {
                assert forall|k: int| 0 <= k < players.deep_view().len() implies players.deep_view()[k]
                    == before.remove(i as int)[k] by {
                    if k < i {
                        assert(players@[k] == old_v[k]);
                    } else {
                        assert(players@[k] == old_v[k + 1]);
                    }
                }
                assert(players.deep_view() =~= before.remove(i as int));
            }
        },
        None => {},
    }
    if host_is(host, pid.as_str()) {
        if players.len() > 0 {
            *host = Some(players[0].clone());
        } else {
            *host = None;
        }
    }
}

pub fn fold_host_changed(host: &mut Option<String>, payload: &str)
    ensures
        final(host).deep_view() == Some(trim(payload@)),
{
    *host = Some(trimmed_string(payload));
}

/// An event with a literal kind.
pub fn event(kind: &str, payload: String) -> (e: (String, String))
    ensures
        e.0@ == kind@,
        e.1@ == payload@,
{
    (kind.to_owned(), payload)
}

pub fn validate_join(players: &Vec<String>, in_lobby: bool, player: &str, max: usize) -> (r: Result<
    Vec<(String, String)>,
    String,
>)
    ensures
        verdict_view(r) == join_verdict(
            Lobby { players: players.deep_view(), host: None },
            in_lobby,
            player@,
            max as nat,
        ),
{
    if find_player(players, player).is_some() {
        let v: Vec<(String, String)> = Vec::new();
        proof {
            assert(v.deep_view() =~= Seq::<EventView>::empty());
        }
        return Ok(v);
    }
    if !in_lobby {
        return Err(String::from_str("game already started"));
    }
    if players.len() >= max {
        return Err(String::from_str("room full"));
    }
    let mut v: Vec<(String, String)> = Vec::new();
    v.push(event("PLAYER_JOINED", player.to_owned()));
    proof {
        assert(v.deep_view() =~= seq![("PLAYER_JOINED"@, player@)]);
    }
    Ok(v)
}

pub fn validate_leave(players: &Vec<String>, host: &Option<String>, player: &str) -> (r: Result<
    Vec<(String, String)>,
    String,
>)
    ensures
        verdict_view(r) == leave_verdict(lobby_of(*players, *host), player@),
{
    let mut v: Vec<(String, String)> = Vec::new();
    if find_player(players, player).is_none() {
        proof {
            assert(v.deep_view() =~= Seq::<EventView>::empty());
        }
        return Ok(v);
    }
    v.push(event("PLAYER_LEFT", player.to_owned()));
    if host_is(host, player) {
        match find_other(players, player) {
            Some(h) => {
                v.push(event("HOST_CHANGED", h));
            },
            None => {},
        }
    }
    proof {
        let l = lobby_of(*players, *host);
        if l.host == Some(player@) && first_other(l.players, player@) is Some {
            assert(v.deep_view() =~= seq![
                ("PLAYER_LEFT"@, player@),
                ("HOST_CHANGED"@, first_other(l.players, player@)->0),
            ]);
        } else {
            assert(v.deep_view() =~= seq![("PLAYER_LEFT"@, player@)]);
        }
    }
    Ok(v)
}

pub fn validate_chat(player: &str, payload: &str) -> (r: Result<Vec<(String, String)>, String>)
    ensures
        verdict_view(r) == chat_verdict(player@, payload@),
{
    let p = chars_of(payload);
    let msg = sanitize(&p, 500);
    let mut v: Vec<(String, String)> = Vec::new();
    if msg.len() == 0 {
        proof {
            assert(v.deep_view() =~= Seq::<EventView>::empty());
        }
        return Ok(v);
    }
    let mut line: Vec<char> = Vec::new();
    push_str(&mut line, player);
    push_str(&mut line, " ");
    push_all(&mut line, &msg);
    v.push(event("CHAT", string_of(&line)));
    proof {
        assert(v.deep_view() =~= seq![("CHAT"@, player@ + " "@ + msg@)]);
    }
    Ok(v)
}

pub fn start_check(players: &Vec<String>, host: &Option<String>, in_lobby: bool, player: &str) -> (r:
    Option<String>)
    ensures
        r.deep_view() == start_refusal(lobby_of(*players, *host), in_lobby, player@),
{
    if !host_is(host, player) {
        return Some(String::from_str("only host may start"));
    }
    if !in_lobby {
        return Some(String::from_str("already started"));
    }
    if players.len() < 2 {
        return Some(String::from_str("need 2 players"));
    }
    None
}


/// Appends `evs` to `out`.
pub fn append_events(out: &mut Vec<(String, String)>, evs: Vec<(String, String)>)
    ensures
        final(out).deep_view() == old(out).deep_view() + evs.deep_view(),
{
    let mut evs = evs;
    let ghost e = evs.deep_view();
    out.append(&mut evs);
    proof {
        assert(out.deep_view() =~= old(out).deep_view() + e);
    }
}

// ---------------------------------------------------------------------------
// Laws
// ---------------------------------------------------------------------------

/// A join that is accepted, once its event is folded, makes the player a
/// member (for an id without surrounding whitespace, which the fold trims).
pub proof fn law_join_makes_member(l: Lobby, player: Seq<char>, max: nat)
    requires
        is_trimmed(player),
        join_verdict(l, true, player, max) is Ok,
    ensures
        join_verdict(l, true, player, max) == Ok::<Seq<EventView>, Seq<char>>(
            if index_of(l.players, player) is Some {
                seq![]
            } else {
                seq![("PLAYER_JOINED"@, player)]
            },
        ),
        index_of(l.players, player) is None ==> index_of(
            lobby_joined(l, player, max).players,
            player,
        ) is Some,
{
    crate::text::lemma_trim_noop(player);
    if index_of(l.players, player) is None {
        let ps = l.players.push(player);
        lemma_index_of(ps, player);
        lemma_index_of(l.players, player);
        if index_of(ps, player) is None {
            assert(ps[l.players.len() as int] == player);
        }
    }
}

/// A member who leaves, once the events are folded, is no longer a member
/// (ids appearing once, without surrounding whitespace); and a leaving host
/// hands over to a remaining member when there is one.
pub proof fn law_leave_removes_member(l: Lobby, player: Seq<char>)
    requires
        is_trimmed(player),
        l.players.no_duplicates(),
        index_of(l.players, player) is Some,
    ensures
        leave_verdict(l, player) matches Ok(evs) && evs[0] == ("PLAYER_LEFT"@, player),
        index_of(lobby_left(l, player).players, player) is None,
        l.host == Some(player) && lobby_left(l, player).players.len() > 0 ==> lobby_left(
            l,
            player,
        ).host == Some(lobby_left(l, player).players[0]),
{
    crate::text::lemma_trim_noop(player);
    lemma_index_of(l.players, player);
    let i = index_of(l.players, player)->0;
    let ps = l.players.remove(i as int);
    lemma_index_of(ps, player);
    if index_of(ps, player) is Some {
        let j = index_of(ps, player)->0;
        if j < i {
            assert(ps[j as int] == l.players[j as int]);
        } else {
            assert(ps[j as int] == l.players[(j + 1) as int]);
        }
    }
}

} // verus!
