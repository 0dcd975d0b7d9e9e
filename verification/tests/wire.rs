use lobby_core::handle_req::{build_failure, parse_request, RequestJsonType};
use lobby_core::player::{GameStatistics, Player};
use lobby_core::room::Room;
use lobby_core::strutil::{dec_string_u64, parse_dec, string_to_chars};
use lobby_core::wrapper::{LocalGameData, PlayerRedisWrapper};

#[test]
fn decimal_printing_and_parsing_round_trip() {
    assert_eq!(dec_string_u64(0), "0");
    assert_eq!(dec_string_u64(7), "7");
    assert_eq!(dec_string_u64(12345), "12345");
    assert_eq!(dec_string_u64(u64::MAX), "18446744073709551615");
    let chars = string_to_chars("12345");
    assert_eq!(parse_dec(&chars, u64::MAX), Some(12345));
    let chars = string_to_chars("00042");
    assert_eq!(parse_dec(&chars, u64::MAX), Some(42));
    let chars = string_to_chars("300");
    assert_eq!(parse_dec(&chars, 255), None);
    let chars = string_to_chars("");
    assert_eq!(parse_dec(&chars, 255), None);
    let chars = string_to_chars("12a");
    assert_eq!(parse_dec(&chars, 255), None);
    let chars = string_to_chars("18446744073709551616");
    assert_eq!(parse_dec(&chars, u64::MAX), None);
}

#[test]
fn parse_request_accepts_create_room() {
    let frame = "{\"destination\":\"create-room\",\"data\":\"{\\\"jwt\\\":\\\"abc\\\"}\"}"
        .to_string();
    match parse_request(&frame) {
        Ok(RequestJsonType::CreateRoom(d)) => assert_eq!(d.jwt, "abc"),
        _ => panic!("expected a create-room command"),
    }
}

#[test]
fn parse_request_accepts_join_room_with_string_id() {
    let frame =
        "{\"destination\":\"join-room\",\"data\":\"{\\\"jwt\\\":\\\"def\\\",\\\"room_id\\\":\\\"12345\\\"}\"}"
            .to_string();
    match parse_request(&frame) {
        Ok(RequestJsonType::JoinRoom(d)) => {
            assert_eq!(d.jwt, "def");
            assert_eq!(d.room_id, "12345");
        },
        _ => panic!("expected a join-room command"),
    }
}

#[test]
fn parse_request_accepts_join_room_with_numeric_id() {
    let frame =
        "{\"destination\":\"join-room\",\"data\":\"{\\\"jwt\\\":\\\"def\\\",\\\"room_id\\\":54321}\"}"
            .to_string();
    match parse_request(&frame) {
        Ok(RequestJsonType::JoinRoom(d)) => assert_eq!(d.room_id, "54321"),
        _ => panic!("expected a join-room command"),
    }
}

#[test]
fn parse_request_tolerates_whitespace_and_field_order() {
    let frame =
        " { \"data\" : \"{ \\\"jwt\\\" : \\\"abc\\\" }\" , \"destination\" : \"create-room\" } "
            .to_string();
    match parse_request(&frame) {
        Ok(RequestJsonType::CreateRoom(d)) => assert_eq!(d.jwt, "abc"),
        _ => panic!("expected a create-room command"),
    }
}

#[test]
fn parse_request_resolves_escapes_in_strings() {
    let frame = "{\"destination\":\"create-room\",\"data\":\"{\\\"jwt\\\":\\\"a\\\\nb\\\\u0041\\\"}\"}"
        .to_string();
    match parse_request(&frame) {
        Ok(RequestJsonType::CreateRoom(d)) => assert_eq!(d.jwt, "a\nbA"),
        _ => panic!("expected a create-room command"),
    }
}

#[test]
fn parse_request_rejects_unknown_destination() {
    let frame = "{\"destination\":\"start-room\",\"data\":\"{\\\"jwt\\\":\\\"abc\\\"}\"}"
        .to_string();
    assert!(parse_request(&frame).is_err());
}

#[test]
fn parse_request_rejects_malformed_frames() {
    assert!(parse_request(&"not json at all".to_string()).is_err());
    assert!(parse_request(&"{\"destination\":\"create-room\"}".to_string()).is_err());
    assert!(parse_request(&"{\"destination\":7,\"data\":\"{}\"}".to_string()).is_err());
    assert!(
        parse_request(&"{\"destination\":\"create-room\",\"data\":\"{\\\"jwt\\\":4}\"}".to_string())
            .is_err()
    );
    assert!(parse_request(&"{\"destination\":\"create-room\",\"data\":\"{\"}".to_string()).is_err());
    assert!(parse_request(&"".to_string()).is_err());
}

#[test]
fn failure_envelope_is_exact() {
    assert_eq!(build_failure(401), "{\"status\":401}");
    assert_eq!(build_failure(462), "{\"status\":462}");
}

#[test]
fn room_canonical_form_is_exact() {
    let room = Room::from_leader(
        PlayerRedisWrapper {
            player: Player {
                suid: "u1".to_string(),
                username: "alice".to_string(),
                displayname: "Alice \"A\"".to_string(),
                statistics: GameStatistics { games_won: 1, games_played: 2, words_written: 3 },
            },
            local_data: LocalGameData { board_position: [4, 5] },
            socket_addr: "addr:1".to_string(),
        },
        "priv-1".to_string(),
        12345,
    );
    let member = "{\"player\":{\"suid\":\"u1\",\"username\":\"alice\",\"displayname\":\"Alice \\\"A\\\"\",\"statistics\":{\"games_won\":1,\"games_played\":2,\"words_written\":3}},\"local_data\":{\"board_position\":[4,5]},\"socket_addr\":\"addr:1\"}";
    let expected = format!(
        "{{\"private_id\":\"priv-1\",\"public_id\":12345,\"players\":[{}],\"_players\":[],\"max_players\":5,\"leader\":{},\"started\":false,\"private\":false,\"player_adresses\":[\"addr:1\"]}}",
        member, member
    );
    assert_eq!(room.to_string(), expected);
}

#[test]
fn serialize_players_caches_the_blob() {
    let mut room = Room::from_leader(
        PlayerRedisWrapper {
            player: Player {
                suid: "u1".to_string(),
                username: "alice".to_string(),
                displayname: "Alice".to_string(),
                statistics: GameStatistics { games_won: 0, games_played: 0, words_written: 0 },
            },
            local_data: LocalGameData { board_position: [0, 0] },
            socket_addr: String::new(),
        },
        "p".to_string(),
        10000,
    );
    assert!(room._players.is_empty());
    room.serialize_players_unchecked();
    assert!(!room._players.is_empty());
}

#[test]
fn player_bytes_round_trip() {
    let p = Player {
        suid: "u1".to_string(),
        username: "ålice π".to_string(),
        displayname: "Alice\n".to_string(),
        statistics: GameStatistics { games_won: 7, games_played: 9, words_written: 11 },
    };
    let bytes = p.to_bytes().unwrap();
    let q = Player::from_bytes(bytes.as_slice()).unwrap();
    assert_eq!(q.suid, "u1");
    assert_eq!(q.username, "ålice π");
    assert_eq!(q.displayname, "Alice\n");
    assert_eq!(q.statistics.games_played, 9);
}

#[test]
fn wrapper_bytes_round_trip_and_reject_corruption() {
    let w = PlayerRedisWrapper {
        player: Player {
            suid: "u2".to_string(),
            username: "bob".to_string(),
            displayname: "Bob".to_string(),
            statistics: GameStatistics { games_won: 1, games_played: 1, words_written: 1 },
        },
        local_data: LocalGameData { board_position: [8, 9] },
        socket_addr: "10.0.0.1:55".to_string(),
    };
    let bytes = w.to_bytes_unchecked();
    let v = PlayerRedisWrapper::from_bytes(bytes.as_slice()).unwrap();
    assert_eq!(v.player.suid, "u2");
    assert_eq!(v.local_data.board_position, [8, 9]);
    assert_eq!(v.socket_addr, "10.0.0.1:55");

    let truncated = &bytes[..bytes.len() - 1];
    assert!(PlayerRedisWrapper::from_bytes(truncated).is_err());
    let mut extended = bytes.clone();
    extended.push(0);
    assert!(PlayerRedisWrapper::from_bytes(extended.as_slice()).is_err());
    assert!(PlayerRedisWrapper::from_bytes(&[1, 2, 3]).is_err());
}
