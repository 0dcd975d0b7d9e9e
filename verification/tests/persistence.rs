use lobby_core::player::{GameStatistics, Player};
use lobby_core::store::{room_from_hash, room_to_hash, RoomHash, RoomStore};
use lobby_core::wrapper::{LocalGameData, PlayerRedisWrapper};

fn player(suid: &str, name: &str) -> PlayerRedisWrapper {
    PlayerRedisWrapper {
        player: Player {
            suid: suid.to_string(),
            username: name.to_string(),
            displayname: name.to_uppercase(),
            statistics: GameStatistics { games_won: 1, games_played: 2, words_written: 3 },
        },
        local_data: LocalGameData { board_position: [4, 5] },
        socket_addr: format!("addr-{}", suid),
    }
}

#[test]
fn create_then_load_reproduces_the_room() {
    let mut store = RoomStore::new();
    let room = store.create(player("u1", "alice"));
    let loaded = store.load(&room.private_id).expect("the fresh room must load");
    assert_eq!(loaded.private_id, room.private_id);
    assert_eq!(loaded.public_id, room.public_id);
    assert_eq!(loaded.max_players, room.max_players);
    assert_eq!(loaded.started, room.started);
    assert_eq!(loaded.private, room.private);
    assert_eq!(loaded.players.len(), 1);
    assert_eq!(loaded.players[0].player.suid, "u1");
    assert_eq!(loaded.players[0].player.username, "alice");
    assert_eq!(loaded.leader.player.suid, "u1");
}

#[test]
fn load_of_an_unknown_key_fails() {
    let mut store = RoomStore::new();
    store.create(player("u1", "alice"));
    assert!(store.load(&"no-such-room".to_string()).is_none());
}

#[test]
fn load_by_public_id_finds_the_room() {
    let mut store = RoomStore::new();
    let a = store.create(player("u1", "alice"));
    let b = store.create(player("u2", "bob"));
    let found = store.load_by_public_id(a.public_id);
    match found {
        Some(room) => {
            if a.public_id == b.public_id {
                assert!(room.leader.player.suid == "u1" || room.leader.player.suid == "u2");
            } else {
                assert_eq!(room.leader.player.suid, "u1");
            }
        },
        None => panic!("the created room must be found by its join code"),
    }
}

#[test]
fn append_player_extends_only_the_player_list() {
    let mut store = RoomStore::new();
    let room = store.create(player("u1", "alice"));
    store.append_player(&room.private_id, &player("u2", "bob")).expect("append must succeed");
    let loaded = store.load(&room.private_id).expect("the room must still load");
    assert_eq!(loaded.players.len(), 2);
    assert_eq!(loaded.players[0].player.suid, "u1");
    assert_eq!(loaded.players[1].player.suid, "u2");
    assert_eq!(loaded.leader.player.suid, "u1");
    assert_eq!(loaded.public_id, room.public_id);
}

#[test]
fn append_player_to_an_unknown_key_fails() {
    let mut store = RoomStore::new();
    assert!(store.append_player(&"missing".to_string(), &player("u2", "bob")).is_err());
}

#[test]
fn a_corrupted_hash_never_yields_a_partial_room() {
    let room = lobby_core::room::Room::from_leader(
        player("u1", "alice"),
        "priv-1".to_string(),
        23456,
    );
    let good = room_to_hash(&room);
    assert!(room_from_hash(&good).is_some());

    let mut bad = room_to_hash(&room);
    bad.public_id = None;
    assert!(room_from_hash(&bad).is_none());

    let mut bad = room_to_hash(&room);
    bad.public_id = Some("not-a-number".to_string());
    assert!(room_from_hash(&bad).is_none());

    let mut bad = room_to_hash(&room);
    bad.max_players = Some("300".to_string());
    assert!(room_from_hash(&bad).is_none());

    let mut bad = room_to_hash(&room);
    bad.started = None;
    assert!(room_from_hash(&bad).is_none());

    let mut bad = room_to_hash(&room);
    bad.players = Some(vec![1, 2, 3]);
    assert!(room_from_hash(&bad).is_none());

    let mut bad = room_to_hash(&room);
    if let Some(blob) = &mut bad.leader {
        blob.pop();
    }
    assert!(room_from_hash(&bad).is_none());
}

#[test]
fn a_room_filed_under_a_foreign_key_cannot_take_joins() {
    // The hash is stored under a key that is not the room's own private id,
    // so the membership write that follows a successful lookup by join code
    // finds nothing under the room's key and reports the update failure.
    let mut store = RoomStore::new();
    let room = lobby_core::room::Room::from_leader(
        player("u1", "alice"),
        "the-rooms-own-key".to_string(),
        45678,
    );
    let hash = room_to_hash(&room);
    store.put("a-different-key".to_string(), hash);

    let identity = lobby_core::req_utils::IdentityOutcomes {
        verify: lobby_core::req_utils::TransportResult::Status(200),
        verify_body: lobby_core::req_utils::FetchOutcome::Body(
            "{\"suid\":\"u2\"}".to_string(),
        ),
        profile_body: lobby_core::req_utils::FetchOutcome::Body(
            "{\"suid\":\"u2\",\"username\":\"bob\",\"displayname\":\"Bob\",\"statistics\":{\"games_won\":0,\"games_played\":0,\"words_written\":0}}".to_string(),
        ),
    };
    let request = lobby_core::handle_req::JoinRoomRequestData {
        jwt: "j".to_string(),
        room_id: "45678".to_string(),
    };
    assert_eq!(
        lobby_core::handle_req::join_room(&request, &mut store, &identity).unwrap_err(),
        lobby_core::ws_status::ROOM_UPDATE_PLAYERS
    );
}

#[test]
fn a_shadowed_room_is_dead_history() {
    // Overwriting a key with a corrupt hash must not revive the older,
    // shadowed room under the same key when searching by join code.
    let mut store = RoomStore::new();
    let room = lobby_core::room::Room::from_leader(
        player("u1", "alice"),
        "priv-s".to_string(),
        56789,
    );
    let good = room_to_hash(&room);
    store.put("priv-s".to_string(), good);
    assert!(store.load_by_public_id(56789).is_some());

    let mut corrupt = room_to_hash(&room);
    corrupt.players = Some(vec![9, 9, 9]);
    store.put("priv-s".to_string(), corrupt);
    assert!(store.load(&"priv-s".to_string()).is_none());
    assert!(store.load_by_public_id(56789).is_none());
}

#[test]
fn boolean_fields_read_like_the_backend_writes_them() {
    let mut room = lobby_core::room::Room::from_leader(
        player("u1", "alice"),
        "priv-2".to_string(),
        34567,
    );
    room.started = true;
    room.change_room_visibility(true);
    let h: RoomHash = room_to_hash(&room);
    assert_eq!(h.started, Some("1".to_string()));
    assert_eq!(h.private, Some("1".to_string()));
    let loaded = room_from_hash(&h).unwrap();
    assert!(loaded.started);
    assert!(loaded.private);

    let mut h2 = room_to_hash(&room);
    h2.started = Some("7".to_string());
    let loaded = room_from_hash(&h2).unwrap();
    assert!(loaded.started);
}
