//! Rooms where people gather before a match: who has joined, who is
//! connected, who hosts, and the room listing.
//!
//! A room keeps its members by id and their usernames. Members connect over
//! a socket; a member whose socket drops stays a member and can reconnect.
//! Each operation says what it records in the room's history and what it
//! tells the connected members; the caller stamps and sends those lines.
use vstd::prelude::*;
use crate::lobby::{find_player, index_of, lemma_index_of};
use crate::text::{push_str, str_is, string_of};

verus! {

pub struct CreateRoomRequest {
    pub name: String,
    pub game_id: String,
    pub host_id: String,
    pub host_username: String,
    pub human_timeout_ms: Option<u64>,
}

pub struct JoinRoomRequest {
    pub player_id: String,
    pub player_username: String,
}

pub struct LeaveRoomRequest {
    pub player_id: String,
}

pub struct ListRoomsQuery {
    pub game_id: Option<String>,
}

pub struct StartGameRequest {
    pub host_id: String,
    pub human_timeout_ms: Option<u64>,
}

#[derive(Debug, Clone)]
pub struct PlayerInfo {
    pub id: String,
    pub username: String,
    pub connected: bool,
}

#[derive(Debug, Clone)]
pub struct RoomResponse {
    pub id: String,
    pub name: String,
    pub game_id: String,
    pub max_players: u32,
    pub status: String,
    pub host_id: String,
    pub host_username: String,
    pub players: Vec<PlayerInfo>,
    pub reconnecting: bool,
}

#[derive(Debug, Clone)]
pub struct RoomListItem {
    pub id: String,
    pub name: String,
    pub game_id: String,
    pub host_username: String,
    pub current_players: usize,
    pub max_players: usize,
    pub status: String,
}

/// How leaving a room went.
pub enum LeaveResult {
    Left,
    HostTransferred { new_host_id: String, new_host_username: String },
    RoomDeleted,
    NotInRoom,
}

pub struct Room {
    pub id: String,
    pub name: String,
    pub game_id: String,
    pub host_id: String,
    pub host_username: String,
    /// The ids behind the connected sockets, in the order they connected.
    pub connected: Vec<String>,
    /// Every member, in the order they joined.
    pub player_ids: Vec<String>,
    /// Each member's username, at most one entry per id.
    pub player_usernames: Vec<(String, String)>,
    pub max_players: usize,
    /// `waiting`, `playing` or `finished`.
    pub status: String,
    pub human_timeout_ms: Option<u64>,
    /// Members whose socket dropped, each once.
    pub disconnected_players: Vec<String>,
}

pub type Ids = Seq<Seq<char>>;

pub struct RoomView {
    pub id: Seq<char>,
    pub name: Seq<char>,
    pub game_id: Seq<char>,
    pub host_id: Seq<char>,
    pub host_username: Seq<char>,
    pub connected: Ids,
    pub player_ids: Ids,
    pub usernames: Seq<(Seq<char>, Seq<char>)>,
    pub max_players: usize,
    pub status: Seq<char>,
    pub human_timeout_ms: Option<u64>,
    pub disconnected: Ids,
}

impl View for Room {
    type V = RoomView;

    open spec fn view(&self) -> RoomView {
        RoomView {
            id: self.id@,
            name: self.name@,
            game_id: self.game_id@,
            host_id: self.host_id@,
            host_username: self.host_username@,
            connected: self.connected.deep_view(),
            player_ids: self.player_ids.deep_view(),
            usernames: self.player_usernames.deep_view(),
            max_players: self.max_players,
            status: self.status@,
            human_timeout_ms: self.human_timeout_ms,
            disconnected: self.disconnected_players.deep_view(),
        }
    }
}

pub open spec fn contains(s: Ids, x: Seq<char>) -> bool {
    index_of(s, x) is Some
}

/// `s` without any occurrence of `x`.
pub open spec fn without(s: Ids, x: Seq<char>) -> Ids
    decreases s.len(),
{
    if s.len() == 0 {
        seq![]
    } else if s.last() == x {
        without(s.drop_last(), x)
    } else {
        without(s.drop_last(), x).push(s.last())
    }
}

/// The username recorded for `id`, empty when there is none.
pub open spec fn username(us: Seq<(Seq<char>, Seq<char>)>, id: Seq<char>) -> Seq<char>
    decreases us.len(),
{
    if us.len() == 0 {
        seq![]
    } else if us[0].0 == id {
        us[0].1
    } else {
        username(us.drop_first(), id)
    }
}

/// The entry for `id` set to `name`, replacing the one there was.
pub open spec fn with_username(us: Seq<(Seq<char>, Seq<char>)>, id: Seq<char>, name: Seq<char>) -> Seq<(Seq<char>, Seq<char>)>
    decreases us.len(),
{
    if us.len() == 0 {
        seq![(id, name)]
    } else if us[0].0 == id {
        seq![(id, name)] + us.drop_first()
    } else {
        seq![us[0]] + with_username(us.drop_first(), id, name)
    }
}

/// The entries other than the one for `id`.
pub open spec fn without_username(us: Seq<(Seq<char>, Seq<char>)>, id: Seq<char>) -> Seq<(Seq<char>, Seq<char>)>
    decreases us.len(),
{
    if us.len() == 0 {
        seq![]
    } else if us[0].0 == id {
        without_username(us.drop_first(), id)
    } else {
        seq![us[0]] + without_username(us.drop_first(), id)
    }
}

pub struct PlayerInfoView {
    pub id: Seq<char>,
    pub username: Seq<char>,
    pub connected: bool,
}

/// The members as a room shows them: id, username, and whether connected.
pub open spec fn player_infos(v: RoomView) -> Seq<PlayerInfoView> {
    Seq::new(
        v.player_ids.len(),
        |k: int|
            PlayerInfoView {
                id: v.player_ids[k],
                username: username(v.usernames, v.player_ids[k]),
                connected: contains(v.connected, v.player_ids[k]),
            },
    )
}

pub open spec fn info_view(p: PlayerInfo) -> PlayerInfoView {
    PlayerInfoView { id: p.id@, username: p.username@, connected: p.connected }
}

/// The response describes room `v`.
pub open spec fn describes(r: RoomResponse, v: RoomView, reconnecting: bool) -> bool {
    &&& r.id@ == v.id
    &&& r.name@ == v.name
    &&& r.game_id@ == v.game_id
    &&& r.max_players == v.max_players as u32
    &&& r.status@ == v.status
    &&& r.host_id@ == v.host_id
    &&& r.host_username@ == v.host_username
    &&& r.players@.map_values(|p: PlayerInfo| info_view(p)) == player_infos(v)
    &&& r.reconnecting == reconnecting
}

pub struct ListItemView {
    pub id: Seq<char>,
    pub name: Seq<char>,
    pub game_id: Seq<char>,
    pub host_username: Seq<char>,
    pub current_players: usize,
    pub max_players: usize,
    pub status: Seq<char>,
}

pub open spec fn item_view(i: RoomListItem) -> ListItemView {
    ListItemView {
        id: i.id@,
        name: i.name@,
        game_id: i.game_id@,
        host_username: i.host_username@,
        current_players: i.current_players,
        max_players: i.max_players,
        status: i.status@,
    }
}

/// How room `v` appears in the listing.
pub open spec fn list_item(v: RoomView) -> ListItemView {
    ListItemView {
        id: v.id,
        name: v.name,
        game_id: v.game_id,
        host_username: v.host_username,
        current_players: v.player_ids.len() as usize,
        max_players: v.max_players,
        status: v.status,
    }
}

/// The room's invariant: members and disconnected members each appear once,
/// and there is at most one username per id.
pub open spec fn well_formed(v: RoomView) -> bool {
    &&& v.player_ids.no_duplicates()
    &&& v.disconnected.no_duplicates()
    &&& forall|i: int, j: int|
        0 <= i < j < v.usernames.len() ==> (#[trigger] v.usernames[i]).0 != (#[trigger] v.usernames[j]).0
}

// ---------------------------------------------------------------------------
// Helpers on id lists
// ---------------------------------------------------------------------------

fn has_id(s: &Vec<String>, x: &str) -> (b: bool)
    ensures
        b == contains(s.deep_view(), x@),
{
    find_player(s, x).is_some()
}

fn without_id(s: &Vec<String>, x: &str) -> (r: Vec<String>)
    ensures
        r.deep_view() == without(s.deep_view(), x@),
{
    let ghost sv = s.deep_view();
    let mut out: Vec<String> = Vec::new();
    let mut k: usize = 0;
    while k < s.len()
        invariant
            sv == s.deep_view(),
            k <= sv.len(),
            sv.len() == s@.len(),
            out.deep_view() == without(sv.take(k as int), x@),
        decreases s.len() - k,
    {
        proof {
            assert(sv.take(k + 1).drop_last() =~= sv.take(k as int));
            assert(sv[k as int] == s@[k as int]@);
        }
        if !str_is(s[k].as_str(), x) {
            let ghost before = out.deep_view();
            out.push(s[k].clone());
            proof {
                assert(out.deep_view() =~= before.push(sv[k as int]));
            }
        }
        k += 1;
    }
    proof {
        assert(sv.take(sv.len() as int) =~= sv);
    }
    out
}

fn username_of(us: &Vec<(String, String)>, id: &str) -> (name: String)
    ensures
        name@ == username(us.deep_view(), id@),
{
    let ghost uv = us.deep_view();
    let mut k: usize = 0;
    proof {
        assert(uv.skip(0) =~= uv);
    }
    while k < us.len()
        invariant
            uv == us.deep_view(),
            k <= uv.len(),
            uv.len() == us@.len(),
            username(uv, id@) == username(uv.skip(k as int), id@),
        decreases us.len() - k,
    {
        proof {
            assert(uv.skip(k as int).drop_first() =~= uv.skip(k + 1));
            assert(uv.skip(k as int)[0] == uv[k as int]);
            assert(uv[k as int] == (us@[k as int].0@, us@[k as int].1@));
        }
        if str_is(us[k].0.as_str(), id) {
            return us[k].1.clone();
        }
        k += 1;
    }
    String::new()
}

fn set_username(us: &Vec<(String, String)>, id: String, name: String) -> (r: Vec<(String, String)>)
    ensures
        r.deep_view() == with_username(us.deep_view(), id@, name@),
{
    let ghost uv = us.deep_view();
    let mut out: Vec<(String, String)> = Vec::new();
    let mut k: usize = 0;
    while k < us.len()
        invariant
            uv == us.deep_view(),
            k <= uv.len(),
            uv.len() == us@.len(),
            forall|j: int| 0 <= j < k ==> uv[j].0 != id@,
            out.deep_view() == uv.take(k as int),
        decreases us.len() - k,
    {
        proof {
            assert(uv[k as int] == (us@[k as int].0@, us@[k as int].1@));
        }
        if str_is(us[k].0.as_str(), id.as_str()) {
            let ghost before = out.deep_view();
            out.push((id, name));
            let mut j = k + 1;
            while j < us.len()
                invariant
                    uv == us.deep_view(),
                    k < j <= uv.len(),
                    uv.len() == us@.len(),
                    out.deep_view() == before.push((id@, name@)) + uv.subrange(k + 1, j as int),
                decreases us.len() - j,
            {
                let ghost b2 = out.deep_view();
                out.push((us[j].0.clone(), us[j].1.clone()));
                proof {
                    assert(uv[j as int] == (us@[j as int].0@, us@[j as int].1@));
                    assert(out.deep_view() =~= b2.push(uv[j as int]));
                    assert(before.push((id@, name@)) + uv.subrange(k + 1, j + 1) =~= b2.push(
                        uv[j as int],
                    ));
                }
                j += 1;
            }
            proof {
                lemma_with_username_at(uv, id@, name@, k as int);
                assert(out.deep_view() =~= uv.take(k as int) + seq![(id@, name@)] + uv.skip(
                    k + 1,
                ));
            }
            return out;
        }
        let ghost before = out.deep_view();
        out.push((us[k].0.clone(), us[k].1.clone()));
        proof {
            assert(out.deep_view() =~= before.push(uv[k as int]));
            assert(uv.take(k + 1) =~= uv.take(k as int).push(uv[k as int]));
        }
        k += 1;
    }
    let ghost before = out.deep_view();
    out.push((id, name));
    proof {
        lemma_with_username_absent(uv, id@, name@);
        assert(uv.take(uv.len() as int) =~= uv);
        assert(out.deep_view() =~= uv + seq![(id@, name@)]);
    }
    out
}

proof fn lemma_with_username_at(us: Seq<(Seq<char>, Seq<char>)>, id: Seq<char>, name: Seq<char>, k: int)
    requires
        0 <= k < us.len(),
        us[k].0 == id,
        forall|j: int| 0 <= j < k ==> us[j].0 != id,
    ensures
        with_username(us, id, name) == us.take(k) + seq![(id, name)] + us.skip(k + 1),
    decreases k,
{
    if k == 0 {
        assert(us.skip(1) =~= us.drop_first());
        assert(us.take(0) + seq![(id, name)] + us.skip(1) =~= seq![(id, name)] + us.drop_first());
    } else {
        let t = us.drop_first();
        assert forall|j: int| 0 <= j < k - 1 implies t[j].0 != id by {
            assert(t[j] == us[j + 1]);
        }
        lemma_with_username_at(t, id, name, k - 1);
        assert(seq![us[0]] + (t.take(k - 1) + seq![(id, name)] + t.skip(k)) =~= us.take(k) + seq![
            (id, name),
        ] + us.skip(k + 1));
    }
}

proof fn lemma_with_username_absent(us: Seq<(Seq<char>, Seq<char>)>, id: Seq<char>, name: Seq<char>)
    requires
        forall|j: int| 0 <= j < us.len() ==> us[j].0 != id,
    ensures
        with_username(us, id, name) == us + seq![(id, name)],
    decreases us.len(),
{
    if us.len() > 0 {
        let t = us.drop_first();
        assert forall|j: int| 0 <= j < t.len() implies t[j].0 != id by {
            assert(t[j] == us[j + 1]);
        }
        lemma_with_username_absent(t, id, name);
        assert(seq![us[0]] + (t + seq![(id, name)]) =~= us + seq![(id, name)]);
    } else {
        assert(us + seq![(id, name)] =~= seq![(id, name)]);
    }
}

fn remove_username(us: &Vec<(String, String)>, id: &str) -> (r: Vec<(String, String)>)
    ensures
        r.deep_view() == without_username(us.deep_view(), id@),
{
    let ghost uv = us.deep_view();
    let mut out: Vec<(String, String)> = Vec::new();
    let mut k: usize = us.len();
    proof {
        assert(uv.skip(uv.len() as int) =~= Seq::<(Seq<char>, Seq<char>)>::empty());
    }
    while k > 0
        invariant
            uv == us.deep_view(),
            k <= uv.len(),
            uv.len() == us@.len(),
            out.deep_view() == without_username(uv.skip(k as int), id@),
        decreases k,
    {
        let i = k - 1;
        proof {
            assert(uv[i as int] == (us@[i as int].0@, us@[i as int].1@));
            assert(uv.skip(i as int).drop_first() =~= uv.skip(k as int));
            assert(uv.skip(i as int)[0] == uv[i as int]);
        }
        if !str_is(us[i].0.as_str(), id) {
            let ghost before = out.deep_view();
            out.insert(0, (us[i].0.clone(), us[i].1.clone()));
            proof {
                assert(out.deep_view() =~= seq![uv[i as int]] + before);
            }
        }
        k = i;
    }
    proof {
        assert(uv.skip(0) =~= uv);
    }
    out
}

// ---------------------------------------------------------------------------
// Describing a room
// ---------------------------------------------------------------------------

/// The results of joining: the room as the joiner sees it, whether this
/// was a reconnection, and the line for the history, if any.
pub struct JoinOutcome {
    pub response: RoomResponse,
    pub reconnecting: bool,
    pub history: Option<String>,
}

impl Room {
    /// A new room holding its host, waiting for players; and the response
    /// the creator gets, which lists the host without a username.
    pub fn create(id: String, req: CreateRoomRequest, max_players: usize) -> (r: (Room, RoomResponse))
        ensures
            r.0@ == (RoomView {
                id: id@,
                name: req.name@,
                game_id: req.game_id@,
                host_id: req.host_id@,
                host_username: req.host_username@,
                connected: seq![],
                player_ids: seq![req.host_id@],
                usernames: seq![(req.host_id@, req.host_username@)],
                max_players,
                status: "waiting"@,
                human_timeout_ms: req.human_timeout_ms,
                disconnected: seq![],
            }),
            well_formed(r.0@),
            describes(r.1, RoomView { usernames: seq![], ..r.0@ }, false),
    {
        let mut players: Vec<String> = Vec::new();
        players.push(req.host_id.clone());
        let mut names: Vec<(String, String)> = Vec::new();
        names.push((req.host_id.clone(), req.host_username.clone()));
        let room = Room {
            id,
            name: req.name,
            game_id: req.game_id,
            host_id: req.host_id,
            host_username: req.host_username,
            connected: Vec::new(),
            player_ids: players,
            player_usernames: names,
            max_players,
            status: String::from_str("waiting"),
            human_timeout_ms: req.human_timeout_ms,
            disconnected_players: Vec::new(),
        };
        proof {
            assert(room.connected.deep_view() =~= Seq::<Seq<char>>::empty());
            assert(room.disconnected_players.deep_view() =~= Seq::<Seq<char>>::empty());
            assert(room.player_ids.deep_view() =~= seq![room.host_id@]);
            assert(room.player_usernames.deep_view() =~= seq![(room.host_id@, room.host_username@)]);
        }
        let shown = Room {
            id: room.id.clone(),
            name: room.name.clone(),
            game_id: room.game_id.clone(),
            host_id: room.host_id.clone(),
            host_username: room.host_username.clone(),
            connected: Vec::new(),
            player_ids: crate::lobby::clone_players(&room.player_ids),
            player_usernames: Vec::new(),
            max_players,
            status: room.status.clone(),
            human_timeout_ms: room.human_timeout_ms,
            disconnected_players: Vec::new(),
        };
        let resp = shown.to_response();
        proof {
            assert(shown.connected.deep_view() =~= Seq::<Seq<char>>::empty());
            assert(shown.disconnected_players.deep_view() =~= Seq::<Seq<char>>::empty());
            assert(shown.player_usernames.deep_view() =~= Seq::<(Seq<char>, Seq<char>)>::empty());
            assert(shown@ =~= RoomView { usernames: seq![], ..room@ });
        }
        (room, resp)
    }

    /// The room as its members see it.
    pub fn to_response(&self) -> (r: RoomResponse)
        ensures
            describes(r, self@, false),
    {
        let ghost v = self@;
        let mut players: Vec<PlayerInfo> = Vec::new();
        let mut k: usize = 0;
        while k < self.player_ids.len()
            invariant
                v == self@,
                k <= v.player_ids.len(),
                v.player_ids.len() == self.player_ids@.len(),
                players@.map_values(|p: PlayerInfo| info_view(p)) == player_infos(v).take(k as int),
            decreases self.player_ids.len() - k,
        {
            let id = self.player_ids[k].clone();
            proof {
                assert(v.player_ids[k as int] == id@);
            }
            let name = username_of(&self.player_usernames, id.as_str());
            let connected = has_id(&self.connected, id.as_str());
            let info = PlayerInfo { id, username: name, connected };
            proof {
                assert(info_view(info) == player_infos(v)[k as int]);
            }
            let ghost before = players@;
            proof {
                assert(before.map_values(|p: PlayerInfo| info_view(p)).len() == before.len());
                assert(before.len() == k);
            }
            players.push(info);
            proof {
                assert(players@ == before.push(info));
                assert forall|j: int| 0 <= j < k + 1 implies info_view(#[trigger] players@[j])
                    == player_infos(v)[j] by {
                    if j < k {
                        assert(players@[j] == before[j]);
                        assert(info_view(before[j]) == before.map_values(|p: PlayerInfo| info_view(p))[j]);
                    }
                }
                assert(players@.map_values(|p: PlayerInfo| info_view(p)) =~= player_infos(v).take(
                    k + 1,
                ));
            }
            k += 1;
        }
        proof {
            assert(player_infos(v).take(v.player_ids.len() as int) =~= player_infos(v));
        }
        RoomResponse {
            id: self.id.clone(),
            name: self.name.clone(),
            game_id: self.game_id.clone(),
            max_players: self.max_players as u32,
            status: self.status.clone(),
            host_id: self.host_id.clone(),
            host_username: self.host_username.clone(),
            players,
            reconnecting: false,
        }
    }

    /// The room's line in the listing.
    pub fn to_list_item(&self) -> (i: RoomListItem)
        ensures
            item_view(i) == list_item(self@),
    {
        RoomListItem {
            id: self.id.clone(),
            name: self.name.clone(),
            game_id: self.game_id.clone(),
            host_username: self.host_username.clone(),
            current_players: self.player_ids.len(),
            max_players: self.max_players,
            status: self.status.clone(),
        }
    }
}

// ---------------------------------------------------------------------------
// Facts about the id lists
// ---------------------------------------------------------------------------

pub open spec fn keys_unique(us: Seq<(Seq<char>, Seq<char>)>) -> bool {
    forall|i: int, j: int| 0 <= i < j < us.len() ==> (#[trigger] us[i]).0 != (#[trigger] us[j]).0
}

proof fn lemma_contains(s: Ids, x: Seq<char>)
    ensures
        contains(s, x) <==> s.contains(x),
{
    lemma_index_of(s, x);
    if s.contains(x) {
        let k = choose|k: int| 0 <= k < s.len() && s[k] == x;
        assert(s[k] == x);
    }
}

proof fn lemma_push_contains(t: Ids, l: Seq<char>, y: Seq<char>)
    ensures
        t.push(l).contains(y) <==> (t.contains(y) || y == l),
{
    let s = t.push(l);
    if t.contains(y) {
        let k = choose|k: int| 0 <= k < t.len() && t[k] == y;
        assert(s[k] == y);
    }
    if y == l {
        assert(s[t.len() as int] == y);
    }
    if s.contains(y) {
        let k = choose|k: int| 0 <= k < s.len() && s[k] == y;
        if k < t.len() {
            assert(t[k] == y);
        }
    }
}

#[verifier::spinoff_prover]
proof fn lemma_without(s: Ids, x: Seq<char>)
    ensures
        forall|y: Seq<char>| #[trigger] without(s, x).contains(y) <==> (s.contains(y) && y != x),
        s.no_duplicates() ==> without(s, x).no_duplicates(),
        !s.contains(x) ==> without(s, x) == s,
    decreases s.len(),
{
    if s.len() > 0 {
        let t = s.drop_last();
        lemma_without(t, x);
        assert(s =~= t.push(s.last()));
        assert forall|y: Seq<char>| #[trigger] without(s, x).contains(y) <==> (s.contains(y) && y != x) by {
            lemma_push_contains(t, s.last(), y);
            if s.last() != x {
                lemma_push_contains(without(t, x), s.last(), y);
            }
        }
        if s.no_duplicates() {
            assert(t.no_duplicates()) by {
                assert forall|i: int, j: int| 0 <= i < t.len() && 0 <= j < t.len() && i != j implies t[i]
                    != t[j] by {
                    assert(t[i] == s[i] && t[j] == s[j]);
                }
            }
            if s.last() != x {
                let w = without(t, x);
                assert(!t.contains(s.last())) by {
                    if t.contains(s.last()) {
                        let k = choose|k: int| 0 <= k < t.len() && t[k] == s.last();
                        assert(s[k] == s[s.len() - 1]);
                    }
                }
                assert(!w.contains(s.last()));
                assert forall|i: int, j: int|
                    0 <= i < w.push(s.last()).len() && 0 <= j < w.push(s.last()).len() && i != j implies w.push(
                    s.last(),
                )[i] != w.push(s.last())[j] by {
                    if i < w.len() && j < w.len() {
                    } else if i == w.len() {
                        assert(w[j] == w.push(s.last())[j]);
                    } else {
                        assert(w[i] == w.push(s.last())[i]);
                    }
                }
            }
        }
        if !s.contains(x) {
            assert(!t.contains(x)) by {
                if t.contains(x) {
                    let k = choose|k: int| 0 <= k < t.len() && t[k] == x;
                    assert(s[k] == x);
                }
            }
            assert(s.last() != x);
        }
    }
}

proof fn lemma_with_username_unique(us: Seq<(Seq<char>, Seq<char>)>, id: Seq<char>, name: Seq<char>)
    requires
        keys_unique(us),
    ensures
        keys_unique(with_username(us, id, name)),
{
    if exists|k: int| 0 <= k < us.len() && us[k].0 == id {
        let k = choose|k: int| 0 <= k < us.len() && us[k].0 == id;
        assert forall|j: int| 0 <= j < k implies us[j].0 != id by {}
        lemma_with_username_at(us, id, name, k);
        let r = us.take(k) + seq![(id, name)] + us.skip(k + 1);
        assert forall|i: int, j: int| 0 <= i < j < r.len() implies (#[trigger] r[i]).0 != (#[trigger] r[j]).0 by {
            assert(r[i].0 == us[i].0);
            assert(r[j].0 == us[j].0);
        }
    } else {
        lemma_with_username_absent(us, id, name);
    }
}

proof fn lemma_without_username(us: Seq<(Seq<char>, Seq<char>)>, id: Seq<char>)
    ensures
        keys_unique(us) ==> keys_unique(without_username(us, id)),
        forall|k: int| 0 <= k < without_username(us, id).len() ==> exists|j: int|
            0 <= j < us.len() && us[j] == #[trigger] without_username(us, id)[k],
    decreases us.len(),
{
    if us.len() > 0 {
        let t = us.drop_first();
        lemma_without_username(t, id);
        let w = without_username(t, id);
        assert forall|k: int| 0 <= k < without_username(us, id).len() implies exists|j: int|
            0 <= j < us.len() && us[j] == #[trigger] without_username(us, id)[k] by {
            if us[0].0 == id {
                let j = choose|j: int| 0 <= j < t.len() && t[j] == w[k];
                assert(us[j + 1] == t[j]);
            } else if k == 0 {
                assert(us[0] == without_username(us, id)[0]);
            } else {
                assert(without_username(us, id)[k] == w[k - 1]);
                let j = choose|j: int| 0 <= j < t.len() && t[j] == w[k - 1];
                assert(us[j + 1] == t[j]);
            }
        }
        if keys_unique(us) {
            assert(keys_unique(t)) by {
                assert forall|i: int, j: int| 0 <= i < j < t.len() implies (#[trigger] t[i]).0
                    != (#[trigger] t[j]).0 by {
                    assert(t[i] == us[i + 1] && t[j] == us[j + 1]);
                }
            }
            if us[0].0 != id {
                let r = seq![us[0]] + w;
                assert forall|i: int, j: int| 0 <= i < j < r.len() implies (#[trigger] r[i]).0
                    != (#[trigger] r[j]).0 by {
                    if i == 0 {
                        assert(r[j] == w[j - 1]);
                        let q = choose|q: int| 0 <= q < t.len() && t[q] == w[j - 1];
                        assert(t[q] == us[q + 1]);
                    } else {
                        assert(r[i] == w[i - 1] && r[j] == w[j - 1]);
                    }
                }
            }
        }
    }
}

// ---------------------------------------------------------------------------
// Joining and leaving
// ---------------------------------------------------------------------------

/// Why a join is refused, if it is: a newcomer needs a free place in a
/// room that is still waiting.
pub open spec fn join_refusal(v: RoomView, id: Seq<char>) -> Option<Seq<char>> {
    if contains(v.player_ids, id) {
        None
    } else if v.player_ids.len() >= v.max_players {
        Some("Room is full"@)
    } else if v.status != "waiting"@ {
        Some("Room is not accepting new players"@)
    } else {
        None
    }
}

/// The room after a newcomer joins.
pub open spec fn joined(v: RoomView, id: Seq<char>, name: Seq<char>) -> RoomView {
    RoomView { player_ids: v.player_ids.push(id), usernames: with_username(v.usernames, id, name), ..v }
}

/// The room after `id` leaves: gone from every list.
pub open spec fn left(v: RoomView, id: Seq<char>) -> RoomView {
    RoomView {
        player_ids: without(v.player_ids, id),
        usernames: without_username(v.usernames, id),
        connected: without(v.connected, id),
        disconnected: without(v.disconnected, id),
        ..v
    }
}

pub enum LeaveView {
    Left,
    HostTransferred(Seq<char>, Seq<char>),
    RoomDeleted,
    NotInRoom,
}

pub open spec fn leave_view(r: LeaveResult) -> LeaveView {
    match r {
        LeaveResult::Left => LeaveView::Left,
        LeaveResult::HostTransferred { new_host_id, new_host_username } => LeaveView::HostTransferred(
            new_host_id@,
            new_host_username@,
        ),
        LeaveResult::RoomDeleted => LeaveView::RoomDeleted,
        LeaveResult::NotInRoom => LeaveView::NotInRoom,
    }
}

/// What leaving does: the room after, the result, the history lines and
/// the line told to the connected members. A host who leaves hands over to
/// the first remaining member; the last member to leave empties the room,
/// which is then deleted.
pub open spec fn leave_spec(v: RoomView, id: Seq<char>) -> (RoomView, LeaveView, Seq<Seq<char>>, Option<Seq<char>>) {
    if !contains(v.player_ids, id) {
        (v, LeaveView::NotInRoom, seq![], None)
    } else {
        let pl = "PLAYER_LEFT "@ + id + " "@ + username(v.usernames, id);
        let w = left(v, id);
        if v.host_id == id {
            if w.player_ids.len() > 0 {
                let nh = w.player_ids[0];
                let nu = username(w.usernames, nh);
                let hc = "HOST_CHANGED "@ + nh + " "@ + nu;
                (
                    RoomView { host_id: nh, host_username: nu, ..w },
                    LeaveView::HostTransferred(nh, nu),
                    seq![pl, hc],
                    Some(hc),
                )
            } else {
                (w, LeaveView::RoomDeleted, seq![pl], None)
            }
        } else {
            (w, LeaveView::Left, seq![pl], Some(pl))
        }
    }
}

pub struct LeaveOutcome {
    pub result: LeaveResult,
    /// The lines to record in the room's history.
    pub history: Vec<String>,
    /// The line to tell the members still connected, if any.
    pub broadcast: Option<String>,
}

fn line3(a: &str, b: &str, c: &str) -> (s: String)
    ensures
        s@ == a@ + b@ + " "@ + c@,
{
    let mut v: Vec<char> = Vec::new();
    push_str(&mut v, a);
    push_str(&mut v, b);
    push_str(&mut v, " ");
    push_str(&mut v, c);
    string_of(&v)
}

impl Room {
    /// A player joins: a member rejoining gets the room as it is, told
    /// whether it had dropped; a newcomer is added, with a history line.
    pub fn join(&mut self, req: JoinRoomRequest) -> (r: Result<JoinOutcome, String>)
        requires
            well_formed(old(self)@),
        ensures
            well_formed(final(self)@),
            match join_refusal(old(self)@, req.player_id@) {
                Some(e) => r matches Err(m) && m@ == e && final(self)@ == old(self)@,
                None => r matches Ok(o) && if contains(old(self)@.player_ids, req.player_id@) {
                    let rec = contains(old(self)@.disconnected, req.player_id@);
                    &&& final(self)@ == old(self)@
                    &&& describes(o.response, old(self)@, rec)
                    &&& o.reconnecting == rec
                    &&& o.history is None
                } else {
                    &&& final(self)@ == joined(old(self)@, req.player_id@, req.player_username@)
                    &&& describes(o.response, final(self)@, false)
                    &&& !o.reconnecting
                    &&& o.history matches Some(h) && h@ == "PLAYER_JOINED "@ + req.player_id@ + " "@
                        + req.player_username@
                },
            },
    {
        let id = req.player_id;
        if has_id(&self.player_ids, id.as_str()) {
            let rec = has_id(&self.disconnected_players, id.as_str());
            let mut resp = self.to_response();
            resp.reconnecting = rec;
            return Ok(JoinOutcome { response: resp, reconnecting: rec, history: None });
        }
        if self.player_ids.len() >= self.max_players {
            return Err(String::from_str("Room is full"));
        }
        if !str_is(self.status.as_str(), "waiting") {
            return Err(String::from_str("Room is not accepting new players"));
        }
        let name = req.player_username;
        let line = line3("PLAYER_JOINED ", id.as_str(), name.as_str());
        let ghost before = self.player_ids.deep_view();
        proof {
            lemma_contains(before, id@);
            lemma_with_username_unique(self.player_usernames.deep_view(), id@, name@);
        }
        self.player_ids.push(id.clone());
        let names = set_username(&self.player_usernames, id, name);
        self.player_usernames = names;
        proof {
            assert(self.player_ids.deep_view() =~= before.push(id@));
            assert(self.player_ids.deep_view().no_duplicates()) by {
                let s = self.player_ids.deep_view();
                assert forall|i: int, j: int| 0 <= i < s.len() && 0 <= j < s.len() && i != j implies s[i]
                    != s[j] by {
                    if i < before.len() && j < before.len() {
                    } else if i == before.len() {
                        assert(before[j] == s[j]);
                    } else {
                        assert(before[i] == s[i]);
                    }
                }
            }
        }
        let resp = self.to_response();
        Ok(JoinOutcome { response: resp, reconnecting: false, history: Some(line) })
    }

    /// A member leaves the room.
    pub fn leave(&mut self, req: &LeaveRoomRequest) -> (o: LeaveOutcome)
        requires
            well_formed(old(self)@),
        ensures
            well_formed(final(self)@),
            (final(self)@, leave_view(o.result), o.history.deep_view(), o.broadcast.deep_view())
                == leave_spec(old(self)@, req.player_id@),
    {
        let id = req.player_id.as_str();
        if !has_id(&self.player_ids, id) {
            let h: Vec<String> = Vec::new();
            proof {
                assert(h.deep_view() =~= Seq::<Seq<char>>::empty());
            }
            return LeaveOutcome { result: LeaveResult::NotInRoom, history: h, broadcast: None };
        }
        let ghost v = self@;
        let name = username_of(&self.player_usernames, id);
        let pl = line3("PLAYER_LEFT ", id, name.as_str());
        proof {
            lemma_without(v.player_ids, id@);
            lemma_without(v.connected, id@);
            lemma_without(v.disconnected, id@);
            lemma_without_username(v.usernames, id@);
        }
        self.player_ids = without_id(&self.player_ids, id);
        self.player_usernames = remove_username(&self.player_usernames, id);
        self.connected = without_id(&self.connected, id);
        self.disconnected_players = without_id(&self.disconnected_players, id);
        let mut history: Vec<String> = Vec::new();
        history.push(pl.clone());
        if str_is(self.host_id.as_str(), id) {
            if self.player_ids.len() > 0 {
                let nh = self.player_ids[0].clone();
                let nu = username_of(&self.player_usernames, nh.as_str());
                let hc = line3("HOST_CHANGED ", nh.as_str(), nu.as_str());
                self.host_id = nh.clone();
                self.host_username = nu.clone();
                history.push(hc.clone());
                proof {
                    assert(history.deep_view() =~= seq![pl@, hc@]);
                }
                return LeaveOutcome {
                    result: LeaveResult::HostTransferred { new_host_id: nh, new_host_username: nu },
                    history,
                    broadcast: Some(hc),
                };
            }
            proof {
                assert(history.deep_view() =~= seq![pl@]);
            }
            return LeaveOutcome { result: LeaveResult::RoomDeleted, history, broadcast: None };
        }
        proof {
            assert(history.deep_view() =~= seq![pl@]);
        }
        LeaveOutcome { result: LeaveResult::Left, history, broadcast: Some(pl) }
    }
}

// ---------------------------------------------------------------------------
// Sockets, starting and finishing
// ---------------------------------------------------------------------------

pub struct ConnectOutcome {
    /// The member had dropped and is back.
    pub reconnecting: bool,
    /// `PLAYER_JOINED <id> <username>` for the other connected members, when
    /// the member is new to the game.
    pub broadcast: Option<String>,
}

pub struct DisconnectOutcome {
    /// The lines to record in the history, also told to the members still
    /// connected.
    pub lines: Vec<String>,
    /// The new host and its username, when the host dropped and someone is
    /// still connected.
    pub new_host: Option<(String, String)>,
}

/// Adds `x` unless it is there.
pub open spec fn with_id(s: Ids, x: Seq<char>) -> Ids {
    if contains(s, x) {
        s
    } else {
        s.push(x)
    }
}

/// What dropping the socket of `id` does: the room after, the lines, and
/// the new host. A dropped member stays a member.
pub open spec fn disconnect_spec(v: RoomView, id: Seq<char>) -> (RoomView, Seq<Seq<char>>, Option<(Seq<char>, Seq<char>)>) {
    let c = without(v.connected, id);
    let w = RoomView { connected: c, disconnected: with_id(v.disconnected, id), ..v };
    let pl = "PLAYER_LEFT "@ + id + " "@ + username(v.usernames, id);
    if v.host_id == id && c.len() > 0 {
        let nh = c[0];
        let nu = username(v.usernames, nh);
        (
            RoomView { host_id: nh, host_username: nu, ..w },
            seq![pl, "HOST_CHANGED "@ + nh + " "@ + nu],
            Some((nh, nu)),
        )
    } else {
        (w, seq![pl], None)
    }
}

/// Why starting is refused, if it is: only the host, only while waiting,
/// and only with two connected members.
pub open spec fn start_refusal(v: RoomView, host_id: Seq<char>) -> Option<Seq<char>> {
    if v.host_id != host_id {
        Some("Only host can start the game"@)
    } else if v.status != "waiting"@ {
        Some("Game already started or finished"@)
    } else if v.connected.len() < 2 {
        Some("Need at least 2 connected players to start"@)
    } else {
        None
    }
}

impl Room {
    /// A member's socket connects; `has_socket` says whether the socket
    /// was registered.
    pub fn connect(&mut self, player_id: &str, has_socket: bool) -> (r: Result<ConnectOutcome, String>)
        requires
            well_formed(old(self)@),
        ensures
            well_formed(final(self)@),
            if !contains(old(self)@.player_ids, player_id@) {
                r matches Err(e) && e@ == "Player not in room"@ && final(self)@ == old(self)@
            } else if !has_socket {
                r matches Err(e) && e@ == "Player WebSocket not found"@ && final(self)@ == old(self)@
            } else {
                let rec = contains(old(self)@.disconnected, player_id@);
                &&& final(self)@ == (RoomView {
                    disconnected: without(old(self)@.disconnected, player_id@),
                    connected: old(self)@.connected.push(player_id@),
                    ..old(self)@
                })
                &&& r matches Ok(o) && o.reconnecting == rec && o.broadcast.deep_view() == if rec {
                    None
                } else {
                    Some("PLAYER_JOINED "@ + player_id@ + " "@ + username(old(self)@.usernames, player_id@))
                }
            },
    {
        if !has_id(&self.player_ids, player_id) {
            return Err(String::from_str("Player not in room"));
        }
        if !has_socket {
            return Err(String::from_str("Player WebSocket not found"));
        }
        let ghost v = self@;
        let rec = has_id(&self.disconnected_players, player_id);
        proof {
            lemma_without(v.disconnected, player_id@);
        }
        self.disconnected_players = without_id(&self.disconnected_players, player_id);
        let ghost before = self.connected.deep_view();
        self.connected.push(player_id.to_owned());
        proof {
            assert(self.connected.deep_view() =~= before.push(player_id@));
        }
        let broadcast = if !rec {
            let name = username_of(&self.player_usernames, player_id);
            Some(line3("PLAYER_JOINED ", player_id, name.as_str()))
        } else {
            None
        };
        Ok(ConnectOutcome { reconnecting: rec, broadcast })
    }

    /// A member's socket drops.
    pub fn disconnect(&mut self, player_id: &str) -> (o: DisconnectOutcome)
        requires
            well_formed(old(self)@),
        ensures
            well_formed(final(self)@),
            (final(self)@, o.lines.deep_view(), o.new_host.deep_view()) == disconnect_spec(
                old(self)@,
                player_id@,
            ),
    {
        let ghost v = self@;
        proof {
            lemma_without(v.connected, player_id@);
            lemma_contains(v.disconnected, player_id@);
        }
        self.connected = without_id(&self.connected, player_id);
        if !has_id(&self.disconnected_players, player_id) {
            let ghost before = self.disconnected_players.deep_view();
            self.disconnected_players.push(player_id.to_owned());
            proof {
                assert(self.disconnected_players.deep_view() =~= before.push(player_id@));
                let d = self.disconnected_players.deep_view();
                assert forall|i: int, j: int| 0 <= i < d.len() && 0 <= j < d.len() && i != j implies d[i]
                    != d[j] by {
                    if i < before.len() && j < before.len() {
                    } else if i == before.len() {
                        assert(before[j] == d[j]);
                    } else {
                        assert(before[i] == d[i]);
                    }
                }
            }
        }
        proof {
            assert(self@.usernames == v.usernames);
            assert(self@.player_ids == v.player_ids);
            assert(keys_unique(self@.usernames));
        }
        let name = username_of(&self.player_usernames, player_id);
        let pl = line3("PLAYER_LEFT ", player_id, name.as_str());
        let mut lines: Vec<String> = Vec::new();
        lines.push(pl);
        if str_is(self.host_id.as_str(), player_id) && self.connected.len() > 0 {
            let nh = self.connected[0].clone();
            let nu = username_of(&self.player_usernames, nh.as_str());
            let hc = line3("HOST_CHANGED ", nh.as_str(), nu.as_str());
            self.host_id = nh.clone();
            self.host_username = nu.clone();
            let ghost l1 = lines.deep_view();
            lines.push(hc);
            proof {
                assert(lines.deep_view() =~= l1.push(hc@));
            }
            return DisconnectOutcome { lines, new_host: Some((nh, nu)) };
        }
        proof {
            assert(lines.deep_view() =~= seq![pl@]);
        }
        DisconnectOutcome { lines, new_host: None }
    }

    /// The host starts the game: the room is playing. The caller records
    /// and announces `GAME_STARTED`.
    pub fn start(&mut self, req: &StartGameRequest) -> (r: Result<(), String>)
        ensures
            match start_refusal(old(self)@, req.host_id@) {
                Some(e) => r matches Err(m) && m@ == e && final(self)@ == old(self)@,
                None => r is Ok && final(self)@ == (RoomView { status: "playing"@, ..old(self)@ }),
            },
    {
        if !str_is(req.host_id.as_str(), self.host_id.as_str()) {
            return Err(String::from_str("Only host can start the game"));
        }
        if !str_is(self.status.as_str(), "waiting") {
            return Err(String::from_str("Game already started or finished"));
        }
        if self.connected.len() < 2 {
            return Err(String::from_str("Need at least 2 connected players to start"));
        }
        self.status = String::from_str("playing");
        Ok(())
    }

    /// The game is over: the room is finished, and the history line carries
    /// the results as the caller serialised them.
    pub fn finish(&mut self, results_json: &str) -> (line: String)
        ensures
            final(self)@ == (RoomView { status: "finished"@, ..old(self)@ }),
            line@ == "GAME_FINISHED "@ + results_json@,
    {
        self.status = String::from_str("finished");
        let mut v: Vec<char> = Vec::new();
        push_str(&mut v, "GAME_FINISHED ");
        push_str(&mut v, results_json);
        string_of(&v)
    }
}

// ---------------------------------------------------------------------------
// The listing
// ---------------------------------------------------------------------------

/// `a` comes before `b` in character order, as `String` orders.
pub open spec fn chars_lt(a: Seq<char>, b: Seq<char>) -> bool
    decreases a.len(),
{
    if a.len() == 0 {
        b.len() > 0
    } else if b.len() == 0 {
        false
    } else if a[0] != b[0] {
        (a[0] as u32) < (b[0] as u32)
    } else {
        chars_lt(a.drop_first(), b.drop_first())
    }
}

proof fn lemma_chars_lt_asym(a: Seq<char>, b: Seq<char>)
    ensures
        !(chars_lt(a, b) && chars_lt(b, a)),
    decreases a.len(),
{
    if a.len() > 0 && b.len() > 0 && a[0] == b[0] {
        lemma_chars_lt_asym(a.drop_first(), b.drop_first());
    }
}

proof fn lemma_chars_lt_trans(a: Seq<char>, b: Seq<char>, c: Seq<char>)
    requires
        chars_lt(a, b),
        chars_lt(b, c),
    ensures
        chars_lt(a, c),
    decreases a.len(),
{
    if a.len() > 0 && b.len() > 0 && c.len() > 0 && a[0] == b[0] && b[0] == c[0] {
        lemma_chars_lt_trans(a.drop_first(), b.drop_first(), c.drop_first());
    }
}

/// The waiting rooms (of game `gid`, when given) as the listing shows them,
/// in the order given.
pub open spec fn listed(rooms: Seq<RoomView>, gid: Option<Seq<char>>) -> Seq<ListItemView>
    decreases rooms.len(),
{
    if rooms.len() == 0 {
        seq![]
    } else {
        let r = rooms.last();
        let rest = listed(rooms.drop_last(), gid);
        if r.status == "waiting"@ && (gid matches Some(g) ==> r.game_id == g) {
            rest.push(list_item(r))
        } else {
            rest
        }
    }
}

/// Newest first: no room listed before one with a larger id.
pub open spec fn newest_first(s: Seq<ListItemView>) -> bool {
    forall|i: int, j: int| 0 <= i < j < s.len() ==> !chars_lt(#[trigger] s[i].id, #[trigger] s[j].id)
}

/// The game a listing query asks for, if any.
pub open spec fn query_game(g: Option<String>) -> Option<Seq<char>> {
    match g {
        Some(s) => Some(s@),
        None => None,
    }
}

pub open spec fn item_views(v: Seq<RoomListItem>) -> Seq<ListItemView> {
    v.map_values(|i: RoomListItem| item_view(i))
}

fn id_before(a: &str, b: &str) -> (r: bool)
    ensures
        r == chars_lt(a@, b@),
{
    let x = crate::text::chars_of(a);
    let y = crate::text::chars_of(b);
    let mut k: usize = 0;
    proof {
        assert(x@.skip(0) =~= x@);
        assert(y@.skip(0) =~= y@);
        assert(x@.take(0) =~= y@.take(0));
    }
    while k < x.len() && k < y.len()
        invariant
            k <= x@.len(),
            k <= y@.len(),
            x@ == a@,
            y@ == b@,
            x@.take(k as int) == y@.take(k as int),
            chars_lt(a@, b@) == chars_lt(x@.skip(k as int), y@.skip(k as int)),
        decreases x.len() - k,
    {
        if x[k] != y[k] {
            proof {
                assert(x@.skip(k as int)[0] == x@[k as int]);
                assert(y@.skip(k as int)[0] == y@[k as int]);
            }
            return (x[k] as u32) < (y[k] as u32);
        }
        proof {
            assert(x@.skip(k as int).drop_first() =~= x@.skip(k + 1));
            assert(y@.skip(k as int).drop_first() =~= y@.skip(k + 1));
            assert(x@.skip(k as int)[0] == x@[k as int]);
            assert(y@.skip(k as int)[0] == y@[k as int]);
            assert(x@.take(k + 1) =~= x@.take(k as int).push(x@[k as int]));
            assert(y@.take(k + 1) =~= y@.take(k as int).push(y@[k as int]));
        }
        k += 1;
    }
    proof {
        assert(x@.skip(k as int).len() == x@.len() - k);
    }
    k == x.len() && k < y.len()
}

/// Inserts `x` after every item whose id is not smaller.
fn insert_sorted(out: &mut Vec<RoomListItem>, x: RoomListItem)
    requires
        newest_first(item_views(old(out)@)),
    ensures
        newest_first(item_views(final(out)@)),
        item_views(final(out)@).to_multiset() == item_views(old(out)@).to_multiset().insert(item_view(x)),
{
    let ghost o = item_views(out@);
    let mut p: usize = 0;
    loop
        invariant
            o == item_views(out@),
            p <= out@.len(),
            forall|j: int| 0 <= j < p ==> !chars_lt(#[trigger] o[j].id, x.id@),
        ensures
            p <= out@.len(),
            forall|j: int| 0 <= j < p ==> !chars_lt(#[trigger] o[j].id, x.id@),
            p < out@.len() ==> chars_lt(o[p as int].id, x.id@),
        decreases out.len() - p,
    {
        if p >= out.len() {
            break;
        }
        if id_before(out[p].id.as_str(), x.id.as_str()) {
            break;
        }
        p += 1;
    }
    let ghost xv = item_view(x);
    out.insert(p, x);
    proof {
        let n = item_views(out@);
        assert(n =~= o.insert(p as int, xv));
        vstd::seq_lib::to_multiset_insert(o, p as int, xv);
        assert forall|i: int, j: int| 0 <= i < j < n.len() implies !chars_lt(#[trigger] n[i].id, #[trigger] n[j].id) by {
            if j < p {
                assert(n[i] == o[i] && n[j] == o[j]);
            } else if j == p {
                assert(n[i] == o[i]);
            } else if i == p {
                assert(n[j] == o[j - 1]);
                assert(chars_lt(o[p as int].id, xv.id));
                if chars_lt(xv.id, o[j - 1].id) {
                    if j - 1 == p {
                        lemma_chars_lt_asym(xv.id, o[p as int].id);
                    } else {
                        lemma_chars_lt_trans(o[p as int].id, xv.id, o[j - 1].id);
                    }
                }
            } else if i < p {
                assert(n[i] == o[i] && n[j] == o[j - 1]);
            } else {
                assert(n[i] == o[i - 1] && n[j] == o[j - 1]);
            }
        }
    }
}

impl Room {
    /// The waiting rooms, of the queried game when one is given, newest (by
    /// id, in character order) first.
    pub fn list_rooms(rooms: &Vec<Room>, q: &ListRoomsQuery) -> (r: Vec<RoomListItem>)
        ensures
            newest_first(item_views(r@)),
            item_views(r@).to_multiset() == listed(rooms@.map_values(|x: Room| x@), query_game(q.game_id))
                .to_multiset(),
    {
        let ghost rv = rooms@.map_values(|x: Room| x@);
        let ghost gid = query_game(q.game_id);
        let mut out: Vec<RoomListItem> = Vec::new();
        let mut k: usize = 0;
        proof {
            assert(item_views(out@) =~= Seq::<ListItemView>::empty());
            assert(rv.take(0) =~= Seq::<RoomView>::empty());
        }
        while k < rooms.len()
            invariant
                rv == rooms@.map_values(|x: Room| x@),
                gid == query_game(q.game_id),
                k <= rooms@.len(),
                newest_first(item_views(out@)),
                item_views(out@).to_multiset() == listed(rv.take(k as int), gid).to_multiset(),
            decreases rooms.len() - k,
        {
            let room = &rooms[k];
            proof {
                assert(rv.take(k + 1).drop_last() =~= rv.take(k as int));
                assert(rv.take(k + 1).last() == room@);
            }
            let matches_game = match &q.game_id {
                Some(g) => str_is(room.game_id.as_str(), g.as_str()),
                None => true,
            };
            if str_is(room.status.as_str(), "waiting") && matches_game {
                let item = room.to_list_item();
                let ghost before = listed(rv.take(k as int), gid);
                insert_sorted(&mut out, item);
                proof {
                    vstd::seq_lib::to_multiset_build(before, item_view(item));
                }
            }
            k += 1;
        }
        proof {
            assert(rv.take(rooms@.len() as int) =~= rv);
        }
        out
    }
}

// ---------------------------------------------------------------------------
// Laws
// ---------------------------------------------------------------------------

/// A newcomer who joins and then leaves finds the room's members as they
/// were; the leave is not refused.
pub proof fn law_join_then_leave(v: RoomView, id: Seq<char>, name: Seq<char>)
    requires
        !contains(v.player_ids, id),
    ensures
        !(leave_spec(joined(v, id, name), id).1 is NotInRoom),
        leave_spec(joined(v, id, name), id).0.player_ids == v.player_ids,
{
    let ps = v.player_ids.push(id);
    lemma_contains(ps, id);
    lemma_contains(v.player_ids, id);
    assert(ps[v.player_ids.len() as int] == id);
    assert(ps.drop_last() =~= v.player_ids);
    lemma_without(v.player_ids, id);
}

/// A member who leaves is no longer a member, connected or dropped.
pub proof fn law_leave_forgets(v: RoomView, id: Seq<char>)
    requires
        contains(v.player_ids, id),
    ensures
        !leave_spec(v, id).0.player_ids.contains(id),
        !leave_spec(v, id).0.connected.contains(id),
        !leave_spec(v, id).0.disconnected.contains(id),
{
    lemma_without(v.player_ids, id);
    lemma_without(v.connected, id);
    lemma_without(v.disconnected, id);
}

} // verus!
