use lobby_core::player::{GameStatistics, Player};
use lobby_core::room::Room;
use lobby_core::wrapper::{LocalGameData, PlayerRedisWrapper};

fn player(suid: &str, name: &str) -> PlayerRedisWrapper {
    PlayerRedisWrapper {
        player: Player {
            suid: suid.to_string(),
            username: name.to_string(),
            displayname: name.to_uppercase(),
            statistics: GameStatistics { games_won: 1, games_played: 2, words_written: 3 },
        },
        local_data: LocalGameData { board_position: [4, 5] },
        socket_addr: format!("127.0.0.1:{}", suid.len()),
    }
}

#[test]
fn from_leader_sets_every_field() {
    let leader = player("u1", "alice");
    let room = Room::from_leader(leader, "priv-1".to_string(), 12345);
    assert_eq!(room.private_id, "priv-1");
    assert_eq!(room.public_id, 12345);
    assert_eq!(room.players.len(), 1);
    assert_eq!(room.players[0].player.suid, "u1");
    assert_eq!(room.leader.player.suid, "u1");
    assert_eq!(room.max_players, 5);
    assert!(!room.started);
    assert!(!room.private);
    assert_eq!(room.player_adresses, vec!["127.0.0.1:2".to_string()]);
    assert!(room._players.is_empty());
}

#[test]
fn add_player_respects_bound() {
    let mut room = Room::from_leader(player("u1", "alice"), "p".to_string(), 10000);
    assert!(room.add_player(player("u2", "bob")).is_ok());
    assert!(room.add_player(player("u3", "carol")).is_ok());
    assert!(room.add_player(player("u4", "dan")).is_ok());
    assert!(room.add_player(player("u5", "eve")).is_ok());
    assert_eq!(room.players.len(), 5);
    assert!(room.add_player(player("u6", "frank")).is_err());
    assert_eq!(room.players.len(), 5);
}

#[test]
fn remove_leader_promotes_next_member() {
    let mut room = Room::from_leader(player("u1", "alice"), "p".to_string(), 10000);
    room.add_player(player("u2", "bob")).unwrap();
    room.add_player(player("u3", "carol")).unwrap();
    assert!(room.remove_player(player("u1", "alice")).is_ok());
    assert_eq!(room.players.len(), 2);
    assert_eq!(room.leader.player.suid, "u2");
}

#[test]
fn remove_leader_takes_the_leaders_own_entry() {
    // The leader need not sit in slot 0: it is the leader's own entry that
    // leaves, and the member then first in list order is promoted.
    let mut room = Room {
        private_id: "p".to_string(),
        public_id: 10000,
        players: vec![player("u2", "bob"), player("u1", "alice"), player("u3", "carol")],
        _players: Vec::new(),
        max_players: 5,
        leader: player("u1", "alice"),
        started: false,
        private: false,
        player_adresses: Vec::new(),
    };
    assert!(room.remove_player(player("u1", "alice")).is_ok());
    let suids: Vec<&str> = room.players.iter().map(|p| p.player.suid.as_str()).collect();
    assert_eq!(suids, vec!["u2", "u3"]);
    assert_eq!(room.leader.player.suid, "u2");
}

#[test]
fn remove_ordinary_member_keeps_leader() {
    let mut room = Room::from_leader(player("u1", "alice"), "p".to_string(), 10000);
    room.add_player(player("u2", "bob")).unwrap();
    room.add_player(player("u3", "carol")).unwrap();
    assert!(room.remove_player(player("u3", "carol")).is_ok());
    assert_eq!(room.players.len(), 2);
    assert_eq!(room.leader.player.suid, "u1");
    assert_eq!(room.players[0].player.suid, "u1");
    assert_eq!(room.players[1].player.suid, "u2");
}

#[test]
fn remove_absent_member_is_an_error() {
    let mut room = Room::from_leader(player("u1", "alice"), "p".to_string(), 10000);
    assert!(room.remove_player(player("u9", "zed")).is_err());
    assert_eq!(room.players.len(), 1);
}

#[test]
fn removing_the_last_member_disbands() {
    let mut room = Room::from_leader(player("u1", "alice"), "p".to_string(), 10000);
    assert!(room.remove_player(player("u1", "alice")).is_err());
    assert!(room.players.is_empty());
}

#[test]
fn change_max_players_rejects_too_small_bound() {
    let mut room = Room::from_leader(player("u1", "alice"), "p".to_string(), 10000);
    room.add_player(player("u2", "bob")).unwrap();
    assert!(room.change_max_players(1).is_err());
    assert_eq!(room.max_players, 5);
    assert!(room.change_max_players(2).is_ok());
    assert_eq!(room.max_players, 2);
}

#[test]
fn change_room_visibility_sets_flag() {
    let mut room = Room::from_leader(player("u1", "alice"), "p".to_string(), 10000);
    room.change_room_visibility(true);
    assert!(room.private);
    room.change_room_visibility(false);
    assert!(!room.private);
}

#[test]
fn players_compare_by_suid_alone() {
    let a = player("u1", "alice");
    let mut b = player("u1", "completely-different-name");
    b.local_data.board_position = [9, 9];
    assert_eq!(a, b);
    let c = player("u2", "alice");
    assert_ne!(a, c);
}

#[test]
fn default_player_is_blank() {
    let p = Player::new();
    assert_eq!(p.suid, "");
    assert_eq!(p.statistics.games_won, 0);
    let w = PlayerRedisWrapper::new();
    assert_eq!(w.socket_addr, "");
    assert_eq!(w.local_data.board_position, [0, 0]);
}

#[test]
fn gen_public_id_stays_in_range() {
    for _ in 0..1000 {
        let code = Room::gen_public_id();
        assert!((10_000..100_000).contains(&code));
    }
}

#[test]
fn gen_private_id_is_fresh_every_time() {
    let mut ids: Vec<String> = (0..1000).map(|_| Room::gen_private_id()).collect();
    for id in &ids {
        assert_eq!(id.len(), 36);
        for (i, c) in id.chars().enumerate() {
            if i == 8 || i == 13 || i == 18 || i == 23 {
                assert_eq!(c, '-');
            } else {
                assert!(c.is_ascii_hexdigit() && !c.is_uppercase());
            }
        }
        assert_eq!(id.chars().nth(14), Some('4'));
    }
    ids.sort();
    for pair in ids.windows(2) {
        assert_ne!(pair[0], pair[1]);
    }
}
