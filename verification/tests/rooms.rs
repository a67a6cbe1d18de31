use judge::room::{
    CreateRoomRequest, JoinRoomRequest, LeaveResult, LeaveRoomRequest, ListRoomsQuery, Room,
    StartGameRequest,
};

fn new_room(id: &str, game: &str) -> Room {
    let req = CreateRoomRequest {
        name: format!("{id} name"),
        game_id: game.to_string(),
        host_id: "h".to_string(),
        host_username: "Hana".to_string(),
        human_timeout_ms: None,
    };
    Room::create(id.to_string(), req, 3).0
}

fn join(r: &mut Room, id: &str, name: &str) -> Result<judge::room::JoinOutcome, String> {
    r.join(JoinRoomRequest { player_id: id.to_string(), player_username: name.to_string() })
}

#[test]
fn create_lists_the_host() {
    let req = CreateRoomRequest {
        name: "fun".to_string(),
        game_id: "chess".to_string(),
        host_id: "h".to_string(),
        host_username: "Hana".to_string(),
        human_timeout_ms: Some(500),
    };
    let (room, resp) = Room::create("room_1".to_string(), req, 2);
    assert_eq!(room.status, "waiting");
    assert_eq!(room.player_ids, vec!["h".to_string()]);
    assert_eq!(resp.players.len(), 1);
    assert_eq!(resp.players[0].id, "h");
    assert_eq!(resp.players[0].username, "");
    assert_eq!(resp.host_username, "Hana");
    assert_eq!(room.to_response().players[0].username, "Hana");
}

#[test]
fn join_rules() {
    let mut r = new_room("room_a", "chess");
    let o = join(&mut r, "p", "Pat").unwrap();
    assert_eq!(o.history, Some("PLAYER_JOINED p Pat".to_string()));
    assert!(!o.reconnecting);
    assert_eq!(o.response.players.len(), 2);
    let again = join(&mut r, "p", "Other").unwrap();
    assert!(again.history.is_none());
    assert_eq!(again.response.players[1].username, "Pat");
    join(&mut r, "q", "Quinn").unwrap();
    assert_eq!(join(&mut r, "z", "Zed").err(), Some("Room is full".to_string()));
    let mut s = new_room("room_b", "chess");
    s.status = "playing".to_string();
    assert_eq!(join(&mut s, "z", "Zed").err(), Some("Room is not accepting new players".to_string()));
}

#[test]
fn leaving_hands_over_and_empties() {
    let mut r = new_room("room_a", "chess");
    join(&mut r, "p", "Pat").unwrap();
    let stranger = r.leave(&LeaveRoomRequest { player_id: "x".to_string() });
    assert!(matches!(stranger.result, LeaveResult::NotInRoom));
    let o = r.leave(&LeaveRoomRequest { player_id: "h".to_string() });
    match o.result {
        LeaveResult::HostTransferred { new_host_id, new_host_username } => {
            assert_eq!(new_host_id, "p");
            assert_eq!(new_host_username, "Pat");
        }
        _ => panic!("expected a host transfer"),
    }
    assert_eq!(o.history, vec!["PLAYER_LEFT h Hana".to_string(), "HOST_CHANGED p Pat".to_string()]);
    assert_eq!(o.broadcast, Some("HOST_CHANGED p Pat".to_string()));
    join(&mut r, "q", "Quinn").unwrap();
    let o = r.leave(&LeaveRoomRequest { player_id: "q".to_string() });
    assert!(matches!(o.result, LeaveResult::Left));
    assert_eq!(o.broadcast, Some("PLAYER_LEFT q Quinn".to_string()));
    let o = r.leave(&LeaveRoomRequest { player_id: "p".to_string() });
    assert!(matches!(o.result, LeaveResult::RoomDeleted));
    assert!(r.player_ids.is_empty());
}

#[test]
fn sockets_come_and_go() {
    let mut r = new_room("room_a", "chess");
    join(&mut r, "p", "Pat").unwrap();
    assert_eq!(r.connect("x", true).err(), Some("Player not in room".to_string()));
    assert_eq!(r.connect("p", false).err(), Some("Player WebSocket not found".to_string()));
    let c = r.connect("h", true).unwrap();
    assert!(!c.reconnecting);
    assert_eq!(c.broadcast, Some("PLAYER_JOINED h Hana".to_string()));
    r.connect("p", true).unwrap();
    let d = r.disconnect("h");
    assert_eq!(d.lines, vec!["PLAYER_LEFT h Hana".to_string(), "HOST_CHANGED p Pat".to_string()]);
    assert_eq!(d.new_host, Some(("p".to_string(), "Pat".to_string())));
    assert_eq!(r.host_id, "p");
    let back = r.connect("h", true).unwrap();
    assert!(back.reconnecting);
    assert_eq!(back.broadcast, None);
    let rejoin = join(&mut r, "h", "Hana").unwrap();
    assert!(!rejoin.reconnecting);
    assert!(rejoin.response.players.iter().all(|p| p.connected));
}

#[test]
fn starting_and_finishing() {
    let mut r = new_room("room_a", "chess");
    join(&mut r, "p", "Pat").unwrap();
    let by = |id: &str| StartGameRequest { host_id: id.to_string(), human_timeout_ms: None };
    assert_eq!(r.start(&by("p")), Err("Only host can start the game".to_string()));
    assert_eq!(r.start(&by("h")), Err("Need at least 2 connected players to start".to_string()));
    r.connect("h", true).unwrap();
    r.connect("p", true).unwrap();
    assert_eq!(r.start(&by("h")), Ok(()));
    assert_eq!(r.status, "playing");
    assert_eq!(r.start(&by("h")), Err("Game already started or finished".to_string()));
    assert_eq!(r.finish("[]"), "GAME_FINISHED []");
    assert_eq!(r.status, "finished");
}

#[test]
fn listing_shows_waiting_rooms_newest_first() {
    let a = new_room("room_a", "chess");
    let b = new_room("room_c", "poker");
    let c = new_room("room_b", "chess");
    let mut d = new_room("room_d", "chess");
    d.status = "playing".to_string();
    let rooms = vec![a, b, c, d];
    let all = Room::list_rooms(&rooms, &ListRoomsQuery { game_id: None });
    let ids: Vec<&str> = all.iter().map(|i| i.id.as_str()).collect();
    assert_eq!(ids, vec!["room_c", "room_b", "room_a"]);
    let chess = Room::list_rooms(&rooms, &ListRoomsQuery { game_id: Some("chess".to_string()) });
    let ids: Vec<&str> = chess.iter().map(|i| i.id.as_str()).collect();
    assert_eq!(ids, vec!["room_b", "room_a"]);
    assert_eq!(chess[0].current_players, 1);
    assert_eq!(chess[0].host_username, "Hana");
}
