use lobby_core::handle_req::{create_room, handle_req, join_room, CreateRoomRequestData,
    JoinRoomRequestData};
use lobby_core::registry::{ConnectionRegistry, RegistryError};
use lobby_core::req_utils::{authorize_player, resolve_suid, FetchOutcome, IdentityOutcomes,
    TransportResult};
use lobby_core::store::RoomStore;
use lobby_core::strutil::dec_string_u64;
use lobby_core::wrapper::PlayerRedisWrapper;
use lobby_core::ws_status;

fn profile_body(suid: &str, name: &str) -> String {
    format!(
        "{{\"suid\":\"{}\",\"username\":\"{}\",\"displayname\":\"{}\",\"statistics\":{{\"games_won\":0,\"games_played\":0,\"words_written\":0}}}}",
        suid, name, name
    )
}

fn identity_for(suid: &str, name: &str) -> IdentityOutcomes {
    IdentityOutcomes {
        verify: TransportResult::Status(200),
        verify_body: FetchOutcome::Body(format!("{{\"suid\":\"{}\"}}", suid)),
        profile_body: FetchOutcome::Body(profile_body(suid, name)),
    }
}

#[test]
fn check_auth_maps_transport_failure_to_unreachable() {
    assert_eq!(PlayerRedisWrapper::check_auth(&TransportResult::Failed), 402);
    assert_eq!(PlayerRedisWrapper::check_auth(&TransportResult::Status(200)), 200);
    assert_eq!(PlayerRedisWrapper::check_auth(&TransportResult::Status(401)), 401);
}

#[test]
fn resolve_suid_reads_the_identifier_envelope() {
    assert_eq!(
        resolve_suid(&FetchOutcome::Body("{\"suid\":\"u1\"}".to_string())),
        Ok("u1".to_string())
    );
    assert_eq!(
        resolve_suid(&FetchOutcome::RequestFailed),
        Err(ws_status::PARSE_ACCOUNT_API_RES)
    );
    assert_eq!(resolve_suid(&FetchOutcome::BodyUnreadable), Err(ws_status::UNAUTHORIZED));
    assert_eq!(
        resolve_suid(&FetchOutcome::Body("no json".to_string())),
        Err(ws_status::PARSE_ACCOUNT_API_RES_TEXT)
    );
    assert_eq!(
        resolve_suid(&FetchOutcome::Body("{\"other\":\"u1\"}".to_string())),
        Err(ws_status::PARSE_ACCOUNT_API_RES_TEXT)
    );
}

#[test]
fn authorize_player_builds_the_wrapped_profile() {
    let w = authorize_player(
        &FetchOutcome::Body("{\"suid\":\"u1\"}".to_string()),
        &FetchOutcome::Body(profile_body("u1", "alice")),
    )
    .expect("authorization must succeed");
    assert_eq!(w.player.suid, "u1");
    assert_eq!(w.player.username, "alice");
    assert_eq!(w.socket_addr, "");
}

#[test]
fn authorize_player_reports_each_failing_sub_step() {
    let good_profile = FetchOutcome::Body(profile_body("u1", "alice"));
    assert_eq!(
        authorize_player(&FetchOutcome::RequestFailed, &good_profile).unwrap_err(),
        ws_status::PARSE_ACCOUNT_API_RES
    );
    assert_eq!(
        authorize_player(&FetchOutcome::BodyUnreadable, &good_profile).unwrap_err(),
        ws_status::UNAUTHORIZED
    );
    let good_verify = FetchOutcome::Body("{\"suid\":\"u1\"}".to_string());
    assert_eq!(
        authorize_player(&good_verify, &FetchOutcome::RequestFailed).unwrap_err(),
        ws_status::PLAYER_PARSE
    );
    assert_eq!(
        authorize_player(&good_verify, &FetchOutcome::Body("{}".to_string())).unwrap_err(),
        ws_status::PLAYER_PARSE
    );
}

#[test]
fn create_room_answers_with_the_new_room() {
    let mut store = RoomStore::new();
    let request = CreateRoomRequestData { jwt: "abc".to_string() };
    let resp = create_room(&request, &mut store, &identity_for("u1", "alice"))
        .expect("a valid create must succeed");
    assert!(resp.starts_with("{\"status\":200,\"room\":\"{"));
    assert!(resp.contains("\\\"suid\\\":\\\"u1\\\""));
    assert!(resp.contains("\\\"username\\\":\\\"alice\\\""));
    assert!(resp.ends_with("\"}"));
}

#[test]
fn create_room_rejects_an_invalid_credential() {
    let mut store = RoomStore::new();
    let request = CreateRoomRequestData { jwt: "bad".to_string() };
    let identity = IdentityOutcomes {
        verify: TransportResult::Status(401),
        verify_body: FetchOutcome::RequestFailed,
        profile_body: FetchOutcome::RequestFailed,
    };
    assert_eq!(create_room(&request, &mut store, &identity).unwrap_err(), 401);
}

#[test]
fn create_room_reports_an_unreachable_delegate() {
    let mut store = RoomStore::new();
    let request = CreateRoomRequestData { jwt: "abc".to_string() };
    let identity = IdentityOutcomes {
        verify: TransportResult::Failed,
        verify_body: FetchOutcome::RequestFailed,
        profile_body: FetchOutcome::RequestFailed,
    };
    assert_eq!(create_room(&request, &mut store, &identity).unwrap_err(), 402);
}

#[test]
fn any_other_verification_status_passes_through() {
    let mut store = RoomStore::new();
    let request = CreateRoomRequestData { jwt: "abc".to_string() };
    let identity = IdentityOutcomes {
        verify: TransportResult::Status(503),
        verify_body: FetchOutcome::RequestFailed,
        profile_body: FetchOutcome::RequestFailed,
    };
    assert_eq!(create_room(&request, &mut store, &identity).unwrap_err(), 503);
}

#[test]
fn join_room_rejects_an_invalid_credential() {
    let mut store = RoomStore::new();
    let request = JoinRoomRequestData { jwt: "bad".to_string(), room_id: "12345".to_string() };
    let identity = IdentityOutcomes {
        verify: TransportResult::Status(401),
        verify_body: FetchOutcome::RequestFailed,
        profile_body: FetchOutcome::RequestFailed,
    };
    assert_eq!(join_room(&request, &mut store, &identity).unwrap_err(), 401);
}

#[test]
fn join_room_rejects_an_unknown_or_malformed_code() {
    let mut store = RoomStore::new();
    store.create(authorize_player(
        &FetchOutcome::Body("{\"suid\":\"u1\"}".to_string()),
        &FetchOutcome::Body(profile_body("u1", "alice")),
    ).unwrap());
    let identity = identity_for("u2", "bob");
    let request = JoinRoomRequestData { jwt: "def".to_string(), room_id: "99".to_string() };
    assert_eq!(join_room(&request, &mut store, &identity).unwrap_err(), 401);
    let request = JoinRoomRequestData { jwt: "def".to_string(), room_id: "abc".to_string() };
    assert_eq!(join_room(&request, &mut store, &identity).unwrap_err(), 401);
}

#[test]
fn sequential_joins_collect_all_three_members() {
    let mut store = RoomStore::new();
    let room = store.create(authorize_player(
        &FetchOutcome::Body("{\"suid\":\"u1\"}".to_string()),
        &FetchOutcome::Body(profile_body("u1", "alice")),
    ).unwrap());
    let code = dec_string_u64(room.public_id as u64);

    let request = JoinRoomRequestData { jwt: "j2".to_string(), room_id: code.clone() };
    join_room(&request, &mut store, &identity_for("u2", "bob")).expect("join of u2 must succeed");
    let request = JoinRoomRequestData { jwt: "j3".to_string(), room_id: code.clone() };
    join_room(&request, &mut store, &identity_for("u3", "carol"))
        .expect("join of u3 must succeed");

    let loaded = store.load(&room.private_id).expect("the room must load");
    let suids: Vec<&str> = loaded.players.iter().map(|p| p.player.suid.as_str()).collect();
    assert_eq!(suids, vec!["u1", "u2", "u3"]);
    assert_eq!(loaded.leader.player.suid, "u1");
}

#[test]
fn join_room_is_idempotent_for_a_member() {
    let mut store = RoomStore::new();
    let room = store.create(authorize_player(
        &FetchOutcome::Body("{\"suid\":\"u1\"}".to_string()),
        &FetchOutcome::Body(profile_body("u1", "alice")),
    ).unwrap());
    let code = dec_string_u64(room.public_id as u64);
    let request = JoinRoomRequestData { jwt: "j1".to_string(), room_id: code };
    let resp = join_room(&request, &mut store, &identity_for("u1", "alice"))
        .expect("re-joining must succeed");
    assert!(resp.starts_with("{\"status\":200,\"room\":"));
    let loaded = store.load(&room.private_id).unwrap();
    assert_eq!(loaded.players.len(), 1);
}

#[test]
fn join_room_rejects_a_full_room() {
    let mut store = RoomStore::new();
    let room = store.create(authorize_player(
        &FetchOutcome::Body("{\"suid\":\"u1\"}".to_string()),
        &FetchOutcome::Body(profile_body("u1", "alice")),
    ).unwrap());
    let code = dec_string_u64(room.public_id as u64);
    for n in 2..=5 {
        let suid = format!("u{}", n);
        let request = JoinRoomRequestData { jwt: "j".to_string(), room_id: code.clone() };
        join_room(&request, &mut store, &identity_for(&suid, "p")).expect("join must succeed");
    }
    let request = JoinRoomRequestData { jwt: "j".to_string(), room_id: code };
    assert_eq!(join_room(&request, &mut store, &identity_for("u6", "q")).unwrap_err(), 401);
    assert_eq!(store.load(&room.private_id).unwrap().players.len(), 5);
}

#[test]
fn registry_drops_a_closed_connection() {
    let mut registry = ConnectionRegistry::new();
    let (tx, mut rx) = futures_channel::mpsc::unbounded::<tungstenite::Message>();
    let id = "127.0.0.1:4242".to_string();
    registry.register(id.clone(), tx);
    assert!(registry.send(&id, "hello".to_string()).is_ok());
    match rx.try_next() {
        Ok(Some(tungstenite::Message::Text(text))) => assert_eq!(text.as_str(), "hello"),
        _ => panic!("the registered connection must receive the message"),
    }
    registry.remove(&id);
    assert_eq!(
        registry.send(&id, "late".to_string()),
        Err(RegistryError::NotConnected)
    );
    assert!(matches!(rx.try_next(), Ok(None) | Err(_)));
}

#[test]
fn registry_send_to_an_unknown_id_fails() {
    let mut registry = ConnectionRegistry::new();
    assert_eq!(
        registry.send(&"nobody".to_string(), "hi".to_string()),
        Err(RegistryError::NotConnected)
    );
}

#[test]
fn registry_broadcast_survives_closed_recipients() {
    let mut registry = ConnectionRegistry::new();
    let (tx1, mut rx1) = futures_channel::mpsc::unbounded::<tungstenite::Message>();
    let (tx2, rx2) = futures_channel::mpsc::unbounded::<tungstenite::Message>();
    registry.register("a".to_string(), tx1);
    registry.register("b".to_string(), tx2);
    drop(rx2);
    registry.broadcast(&"news".to_string());
    match rx1.try_next() {
        Ok(Some(tungstenite::Message::Text(text))) => assert_eq!(text.as_str(), "news"),
        _ => panic!("the open connection must still receive the broadcast"),
    }
}

#[test]
fn handle_req_answers_the_originating_connection() {
    let mut registry = ConnectionRegistry::new();
    let (tx, mut rx) = futures_channel::mpsc::unbounded::<tungstenite::Message>();
    let conn = "127.0.0.1:9000".to_string();
    registry.register(conn.clone(), tx);
    let mut store = RoomStore::new();
    let frame = "{\"destination\":\"create-room\",\"data\":\"{\\\"jwt\\\":\\\"abc\\\"}\"}"
        .to_string();
    handle_req(&frame, &mut registry, &conn, &mut store, &identity_for("u1", "alice"))
        .expect("a well-formed frame must be handled");
    match rx.try_next() {
        Ok(Some(tungstenite::Message::Text(text))) => {
            assert!(text.as_str().starts_with("{\"status\":200,\"room\":"));
        },
        _ => panic!("the response must reach the originating connection"),
    }
}

#[test]
fn handle_req_answers_failures_with_a_status_envelope() {
    let mut registry = ConnectionRegistry::new();
    let (tx, mut rx) = futures_channel::mpsc::unbounded::<tungstenite::Message>();
    let conn = "127.0.0.1:9001".to_string();
    registry.register(conn.clone(), tx);
    let mut store = RoomStore::new();
    let identity = IdentityOutcomes {
        verify: TransportResult::Status(401),
        verify_body: FetchOutcome::RequestFailed,
        profile_body: FetchOutcome::RequestFailed,
    };
    let frame = "{\"destination\":\"create-room\",\"data\":\"{\\\"jwt\\\":\\\"bad\\\"}\"}"
        .to_string();
    handle_req(&frame, &mut registry, &conn, &mut store, &identity).unwrap();
    match rx.try_next() {
        Ok(Some(tungstenite::Message::Text(text))) => assert_eq!(text.as_str(), "{\"status\":401}"),
        _ => panic!("the failure envelope must reach the originating connection"),
    }
}

#[test]
fn handle_req_tears_down_on_a_malformed_frame() {
    let mut registry = ConnectionRegistry::new();
    let (tx, mut rx) = futures_channel::mpsc::unbounded::<tungstenite::Message>();
    let conn = "127.0.0.1:9002".to_string();
    registry.register(conn.clone(), tx);
    let mut store = RoomStore::new();
    let frame = "garbage".to_string();
    assert!(handle_req(&frame, &mut registry, &conn, &mut store, &identity_for("u1", "a")).is_err());
    assert!(matches!(rx.try_next(), Err(_)));
}
