//! The room entity: a game lobby, its membership rules and its invariants.
//!
//! A room holds an ordered list of players (index 0 is conventionally the
//! leader's original slot), a leader who is always a member, a membership
//! bound, and two identifiers: an unguessable private id (the durable key)
//! and a short human-shareable public join code.

use vstd::prelude::*;
use crate::wrapper::{LocalGameData, PlayerRedisWrapper, WrapperV};
use crate::player::{GameStatistics, Player, PlayerV};
use crate::json::{bool_json, join_comma, json_quote, push_bool, push_lit, push_quoted, push_uint};
use crate::strutil::dec_of;

verus! {

/// The view of a player list: each member as its model.
pub open spec fn player_views(ps: Seq<PlayerRedisWrapper>) -> Seq<WrapperV> {
    ps.map_values(|p: PlayerRedisWrapper| p@)
}

/// Whether some member of `ps` carries the stable unique identifier `suid`.
pub open spec fn has_suid(ps: Seq<WrapperV>, suid: Seq<char>) -> bool {
    exists|i: int| 0 <= i < ps.len() && ps[i].player.suid == suid
}

/// Whether no two members of `ps` carry the same stable unique identifier.
pub open spec fn distinct_suids(ps: Seq<WrapperV>) -> bool {
    forall|i: int, j: int|
        0 <= i < j < ps.len() ==> ps[i].player.suid != ps[j].player.suid
}

/// Mathematical model of a [`Room`].
#[verifier::ext_equal]
pub ghost struct RoomV {
    pub private_id: Seq<char>,
    pub public_id: u32,
    pub players: Seq<WrapperV>,
    pub players_blob: Seq<u8>,
    pub max_players: u8,
    pub leader: WrapperV,
    pub started: bool,
    pub private: bool,
    pub player_adresses: Seq<Seq<char>>,
}

impl RoomV {
    /// The room invariants: the leader is a member, members carry distinct
    /// stable unique identifiers, and membership fits the bound.
    pub open spec fn wf(self) -> bool {
        &&& has_suid(self.players, self.leader.player.suid)
        &&& distinct_suids(self.players)
        &&& self.players.len() <= self.max_players
        &&& self.max_players >= 1
    }
}

/// The room a fresh creation yields: the leader is the sole member, the
/// membership bound is 5, the room is neither started nor private, and the
/// leader's connection identifier is recorded.
pub open spec fn from_leader_view(leader: WrapperV, private_id: Seq<char>, public_id: u32) -> RoomV {
    RoomV {
        private_id: private_id,
        public_id: public_id,
        players: seq![leader],
        players_blob: Seq::<u8>::empty(),
        max_players: 5,
        leader: leader,
        started: false,
        private: false,
        player_adresses: seq![leader.socket_addr],
    }
}

/// What joining does to a room: a player whose identifier is already a
/// member leaves the room unchanged, anyone else is appended.
pub open spec fn join_view(r: RoomV, p: WrapperV) -> RoomV {
    if has_suid(r.players, p.player.suid) {
        r
    } else {
        RoomV { players: r.players.push(p), ..r }
    }
}

/// Whether `f` is `o` with exactly one member removed: one that carried the
/// stable unique identifier `suid`.
pub open spec fn removes_member(o: RoomV, f: RoomV, suid: Seq<char>) -> bool {
    exists|i: int|
        0 <= i < o.players.len() && #[trigger] o.players[i].player.suid == suid && f == (RoomV {
            players: o.players.remove(i),
            ..o
        })
}

/// Whether `f` is `o` with the leader's own entry removed and the member
/// now first in list order promoted to leader.
pub open spec fn removes_leader(o: RoomV, f: RoomV) -> bool {
    exists|i: int|
        0 <= i < o.players.len() && #[trigger] o.players[i].player.suid == o.leader.player.suid
            && f == (RoomV {
            players: o.players.remove(i),
            leader: o.players.remove(i)[0],
            ..o
        })
}

/// Removing one member leaves the remaining identifiers distinct.
proof fn lemma_remove_distinct(ps: Seq<WrapperV>, i: int)
    requires
        distinct_suids(ps),
        0 <= i < ps.len(),
    ensures
        distinct_suids(ps.remove(i)),
{
    assert forall|a: int, b: int|
        0 <= a < b < ps.remove(i).len() implies ps.remove(i)[a].player.suid != ps.remove(
        i,
    )[b].player.suid by {
        if a < i {
            assert(ps.remove(i)[a] == ps[a]);
        } else {
            assert(ps.remove(i)[a] == ps[a + 1]);
        }
        if b < i {
            assert(ps.remove(i)[b] == ps[b]);
        } else {
            assert(ps.remove(i)[b] == ps[b + 1]);
        }
    }
}

/// The position of the first member of `players` carrying `suid`, if any.
fn index_of_suid(players: &Vec<PlayerRedisWrapper>, suid: &String) -> (r: Option<usize>)
    ensures
        r is None ==> !has_suid(player_views(players@), suid@),
        r matches Some(i) ==> i < players@.len() && player_views(players@)[i as int].player.suid
            == suid@,
{
    let n = players.len();
    let mut i: usize = 0;
    while i < n
        invariant
            i <= n,
            n == players@.len(),
            forall|j: int| 0 <= j < i ==> player_views(players@)[j].player.suid != suid@,
        decreases n - i,
    {
        if players[i].player.suid == *suid {
            proof {
                assert(player_views(players@)[i as int].player.suid == suid@);
            }
            return Some(i);
        }
        i += 1;
    }
    None
}

/// A game lobby.
#[derive(Debug)]
pub struct Room {
    /// Room id for room-specific websocket data; players receive this id
    /// upon joining.  Generated once at creation, globally unique,
    /// unguessable, and the room's durable key.
    pub private_id: String,
    /// Short numeric join code in `[10_000, 100_000)`, for joining by URL.
    pub public_id: u32,
    /// All players in the room, including the leader, in insertion order.
    pub players: Vec<PlayerRedisWrapper>,
    /// The binary-encoded player list, as last serialized.
    pub _players: Vec<u8>,
    /// Membership bound; changeable by the leader.
    pub max_players: u8,
    /// The member currently authorized to change room-wide settings.  The
    /// creator gets this role; leaving passes it to the next member.
    pub leader: PlayerRedisWrapper,
    /// Latches true once gameplay begins.
    pub started: bool,
    /// Whether the room is hidden from the browse-rooms listing.
    pub private: bool,
    /// The members' connection identifiers, for lookups that need no
    /// deserialization of the player list.
    pub player_adresses: Vec<String>,
}

impl View for Room {
    type V = RoomV;

    open spec fn view(&self) -> RoomV {
        RoomV {
            private_id: self.private_id@,
            public_id: self.public_id,
            players: player_views(self.players@),
            players_blob: self._players@,
            max_players: self.max_players,
            leader: self.leader@,
            started: self.started,
            private: self.private,
            player_adresses: self.player_adresses.deep_view(),
        }
    }
}

impl Room {
    /// Creates a room with `leader` as its sole member and first leader.
    pub fn from_leader(leader: PlayerRedisWrapper, private_id: String, public_id: u32) -> (room: Self)
        ensures
            room@ == from_leader_view(leader@, private_id@, public_id),
            room@.wf(),
    {
        let room = Room {
            private_id,
            public_id,
            players: vec![leader.clone()],
            _players: Vec::new(),
            max_players: 5,
            leader: leader.clone(),
            started: false,
            private: false,
            player_adresses: vec![leader.socket_addr],
        };
        proof {
            assert(room@ =~= from_leader_view(leader@, private_id@, public_id));
            assert(room@.players[0].player.suid == room@.leader.player.suid);
        }
        room
    }

    /// Whether some member carries the identifier `suid`.
    pub fn contains_suid(&self, suid: &String) -> (r: bool)
        ensures
            r == has_suid(self@.players, suid@),
    {
        let n = self.players.len();
        let mut i: usize = 0;
        while i < n
            invariant
                n == self.players.len(),
                i <= n,
                forall|j: int| 0 <= j < i ==> self@.players[j].player.suid != suid@,
            decreases n - i,
        {
            if self.players[i].player.suid == *suid {
                assert(self@.players[i as int].player.suid == suid@);
                return true;
            }
            i += 1;
        }
        false
    }

    /// Removes the player with `player`'s identifier: the entry carrying
    /// that identifier leaves the list, wherever it stands.  When the
    /// removed player is the leader, the member now first in list order is
    /// promoted; if nobody remains the room is disbanded and `Err` is
    /// returned.  Removing an absent player is an error and changes nothing.
    pub fn remove_player(&mut self, player: PlayerRedisWrapper) -> (r: Result<(), ()>)
        requires
            old(self)@.wf(),
        ensures
            ({
                let o = old(self)@;
                let suid = player@.player.suid;
                if !has_suid(o.players, suid) {
                    r is Err && final(self)@ == o
                } else if suid == o.leader.player.suid {
                    if o.players.len() == 1 {
                        r is Err && final(self)@ == (RoomV {
                            players: Seq::<WrapperV>::empty(),
                            ..o
                        })
                    } else {
                        r is Ok && removes_leader(o, final(self)@)
                    }
                } else {
                    r is Ok && removes_member(o, final(self)@, suid)
                }
            }),
            r is Ok ==> final(self)@.wf(),
    {
        let ghost o = self@;
        let i = match index_of_suid(&self.players, &player.player.suid) {
            Some(i) => i,
            None => {
                return Err(());
            },
        };
        let was_leader = player.player.suid == self.leader.player.suid;
        let ghost found: int = i as int;
        let ghost pre = self.players@;
        self.players.remove(i);
        proof {
            let a = player_views(pre.remove(found));
            let b = player_views(pre).remove(found);
            assert forall|j: int| 0 <= j < a.len() implies a[j] == b[j] by {
                if j < found {
                    assert(pre.remove(found)[j] == pre[j]);
                } else {
                    assert(pre.remove(found)[j] == pre[j + 1]);
                }
            }
            assert(a =~= b);
            assert(self@ =~= (RoomV { players: o.players.remove(found), ..o }));
            assert(o.players[found].player.suid == player@.player.suid);
            assert(has_suid(o.players, player@.player.suid));
            lemma_remove_distinct(o.players, found);
        }
        if was_leader {
            if self.players.len() == 0 {
                self.disbandon();
                proof {
                    assert(self@ =~= (RoomV { players: Seq::<WrapperV>::empty(), ..o }));
                }
                Err(())
            } else {
                self.leader = self.players[0].clone();
                proof {
                    assert(self@ =~= (RoomV {
                        players: o.players.remove(found),
                        leader: o.players.remove(found)[0],
                        ..o
                    }));
                    assert(removes_leader(o, self@));
                    assert(self@.players[0].player.suid == self@.leader.player.suid);
                    assert(self@.wf());
                }
                Ok(())
            }
        } else {
            proof {
                assert(removes_member(o, self@, player@.player.suid));
                let j = choose|j: int|
                    0 <= j < o.players.len() && o.players[j].player.suid
                        == o.leader.player.suid;
                let j2: int = if j < found {
                    j
                } else {
                    j - 1
                };
                assert(o.players.remove(found)[j2] == o.players[j]);
                assert(self@.players[j2].player.suid == self@.leader.player.suid);
                assert(self@.wf());
            }
            Ok(())
        }
    }

    /// Appends `player` if the room still fits another member; a full room
    /// rejects the membership and stays unchanged.
    pub fn add_player(&mut self, player: PlayerRedisWrapper) -> (r: Result<(), ()>)
        ensures
            old(self)@.players.len() < old(self)@.max_players ==> r is Ok && final(self)@
                == (RoomV { players: old(self)@.players.push(player@), ..old(self)@ }),
            old(self)@.players.len() >= old(self)@.max_players ==> r is Err && final(self)@
                == old(self)@,
            r is Ok && old(self)@.wf() && !has_suid(old(self)@.players, player@.player.suid)
                ==> final(self)@.wf(),
    {
        let ghost o = self@;
        if self.players.len() < self.max_players as usize {
            self.players.push(player);
            proof {
                assert(self@.players =~= o.players.push(player@));
                assert(self@ =~= (RoomV { players: o.players.push(player@), ..o }));
                if o.wf() && !has_suid(o.players, player@.player.suid) {
                    let i = choose|i: int|
                        0 <= i < o.players.len() && o.players[i].player.suid
                            == o.leader.player.suid;
                    assert(self@.players[i].player.suid == self@.leader.player.suid);
                    assert(self@.wf());
                }
            }
            Ok(())
        } else {
            Err(())
        }
    }

    /// Shrinks or grows the membership bound; a bound below the current
    /// member count is rejected and changes nothing.
    pub fn change_max_players(&mut self, max_players: u8) -> (r: Result<(), ()>)
        ensures
            old(self)@.players.len() > max_players ==> r is Err && final(self)@ == old(self)@,
            old(self)@.players.len() <= max_players ==> r is Ok && final(self)@
                == (RoomV { max_players: max_players, ..old(self)@ }),
    {
        if self.players.len() > max_players as usize {
            Err(())
        } else {
            self.max_players = max_players;
            Ok(())
        }
    }

    /// Sets the visibility flag for the browse-rooms listing.
    pub fn change_room_visibility(&mut self, private: bool)
        ensures
            final(self)@ == (RoomV { private: private, ..old(self)@ }),
    {
        self.private = private;
    }

    /// Refreshes the cached binary encoding of the player list; the encoding
    /// cannot fail, so nothing is checked.
    pub fn serialize_players_unchecked(&mut self)
        ensures
            final(self)@ == (RoomV {
                players_blob: crate::codec::enc_players(old(self)@.players),
                ..old(self)@
            }),
            crate::codec::players_ok(old(self)@.players),
    {
        let ghost o = self@;
        let mut out: Vec<u8> = Vec::new();
        crate::codec::encode_players(&self.players, &mut out);
        proof {
            assert(out@ =~= crate::codec::enc_players(o.players));
        }
        self._players = out;
        proof {
            assert(self@ =~= (RoomV { players_blob: crate::codec::enc_players(o.players), ..o }));
        }
    }

    /// Disbands the room at the entity level: the membership is emptied,
    /// which is the terminal "no members remain" state.  Storage cleanup
    /// policy is left to the store's owner.
    pub fn disbandon(&mut self)
        ensures
            final(self)@ == (RoomV { players: Seq::<WrapperV>::empty(), ..old(self)@ }),
    {
        let ghost o = self@;
        self.players = Vec::new();
        proof {
            assert(self@ =~= (RoomV { players: Seq::<WrapperV>::empty(), ..o }));
        }
    }
}

impl Default for Room {
    /// A blank room: no members, the lowest join code, the
    /// default bound, and a blank leader.
    fn default() -> (res: Self)
        ensures
            res@.private_id == Seq::<char>::empty(),
            res@.public_id == 10_000,
            res@.players == Seq::<WrapperV>::empty(),
            res@.players_blob == Seq::<u8>::empty(),
            res@.max_players == 5,
            res@.started == false,
            res@.private == false,
            res@.player_adresses == Seq::<Seq<char>>::empty(),
            res@.leader.player.suid == Seq::<char>::empty(),
            res@.leader.socket_addr == Seq::<char>::empty(),
    {
        let res = Room {
            private_id: String::new(),
            public_id: 10_000,
            players: Vec::new(),
            _players: Vec::new(),
            max_players: 5,
            leader: PlayerRedisWrapper::default(),
            started: false,
            private: false,
            player_adresses: Vec::new(),
        };
        proof {
            assert(res@.players =~= Seq::<WrapperV>::empty());
            assert(res@.player_adresses =~= Seq::<Seq<char>>::empty());
        }
        res
    }
}

// ===================== the canonical JSON form =====================

/// The canonical JSON text of a player's statistics.
pub open spec fn stats_json(st: GameStatistics) -> Seq<char> {
    "{\"games_won\":"@ + dec_of(st.games_won as int) + ",\"games_played\":"@ + dec_of(
        st.games_played as int,
    ) + ",\"words_written\":"@ + dec_of(st.words_written as int) + "}"@
}

/// The canonical JSON text of a player identity.
pub open spec fn player_json(p: PlayerV) -> Seq<char> {
    "{\"suid\":"@ + json_quote(p.suid) + ",\"username\":"@ + json_quote(p.username)
        + ",\"displayname\":"@ + json_quote(p.displayname) + ",\"statistics\":"@ + stats_json(
        p.statistics,
    ) + "}"@
}

/// The canonical JSON text of the per-game data.
pub open spec fn local_json(board: Seq<u8>) -> Seq<char> {
    "{\"board_position\":["@ + dec_of(board[0] as int) + ","@ + dec_of(board[1] as int) + "]}"@
}

/// The canonical JSON text of a wrapped player.
pub open spec fn wrapper_json(w: WrapperV) -> Seq<char> {
    "{\"player\":"@ + player_json(w.player) + ",\"local_data\":"@ + local_json(w.board_position)
        + ",\"socket_addr\":"@ + json_quote(w.socket_addr) + "}"@
}

/// The canonical JSON text of a player list.
pub open spec fn players_array_json(ps: Seq<WrapperV>) -> Seq<char> {
    "["@ + join_comma(ps.map_values(|w: WrapperV| wrapper_json(w))) + "]"@
}

/// The canonical JSON text of a byte list.
pub open spec fn bytes_array_json(bs: Seq<u8>) -> Seq<char> {
    "["@ + join_comma(bs.map_values(|b: u8| dec_of(b as int))) + "]"@
}

/// The canonical JSON text of a list of strings.
pub open spec fn strings_array_json(ss: Seq<Seq<char>>) -> Seq<char> {
    "["@ + join_comma(ss.map_values(|s: Seq<char>| json_quote(s))) + "]"@
}

/// The canonical JSON text of a room: every field, in declaration order.
pub open spec fn room_json(r: RoomV) -> Seq<char> {
    "{\"private_id\":"@ + json_quote(r.private_id) + ",\"public_id\":"@ + dec_of(r.public_id as int)
        + ",\"players\":"@ + players_array_json(r.players) + ",\"_players\":"@ + bytes_array_json(
        r.players_blob,
    ) + ",\"max_players\":"@ + dec_of(r.max_players as int) + ",\"leader\":"@ + wrapper_json(
        r.leader,
    ) + ",\"started\":"@ + bool_json(r.started) + ",\"private\":"@ + bool_json(r.private)
        + ",\"player_adresses\":"@ + strings_array_json(r.player_adresses) + "}"@
}

/// Appends the canonical JSON text of `st` to `out`.
fn push_stats_json(st: GameStatistics, out: &mut Vec<char>)
    ensures
        final(out)@ == old(out)@ + stats_json(st),
{
    let ghost base = out@;
    push_lit("{\"games_won\":", out);
    push_uint(st.games_won as u64, out);
    push_lit(",\"games_played\":", out);
    push_uint(st.games_played as u64, out);
    push_lit(",\"words_written\":", out);
    push_uint(st.words_written as u64, out);
    push_lit("}", out);
    proof {
        assert(out@ =~= base + stats_json(st));
    }
}

/// Appends the canonical JSON text of `p` to `out`.
fn push_player_json(p: &Player, out: &mut Vec<char>)
    ensures
        final(out)@ == old(out)@ + player_json(p@),
{
    let ghost base = out@;
    push_lit("{\"suid\":", out);
    push_quoted(&p.suid, out);
    push_lit(",\"username\":", out);
    push_quoted(&p.username, out);
    push_lit(",\"displayname\":", out);
    push_quoted(&p.displayname, out);
    push_lit(",\"statistics\":", out);
    push_stats_json(p.statistics, out);
    push_lit("}", out);
    proof {
        assert(out@ =~= base + player_json(p@));
    }
}

/// Appends the canonical JSON text of `w` to `out`.
fn push_wrapper_json(w: &PlayerRedisWrapper, out: &mut Vec<char>)
    ensures
        final(out)@ == old(out)@ + wrapper_json(w@),
{
    let ghost base = out@;
    push_lit("{\"player\":", out);
    push_player_json(&w.player, out);
    push_lit(",\"local_data\":", out);
    push_lit("{\"board_position\":[", out);
    push_uint(w.local_data.board_position[0] as u64, out);
    push_lit(",", out);
    push_uint(w.local_data.board_position[1] as u64, out);
    push_lit("]}", out);
    push_lit(",\"socket_addr\":", out);
    push_quoted(&w.socket_addr, out);
    push_lit("}", out);
    proof {
        assert(out@ =~= base + wrapper_json(w@));
    }
}

/// Appends the canonical JSON text of the player list to `out`.
fn push_players_array(ps: &Vec<PlayerRedisWrapper>, out: &mut Vec<char>)
    ensures
        final(out)@ == old(out)@ + players_array_json(player_views(ps@)),
{
    let ghost base = out@;
    let ghost items = player_views(ps@).map_values(|w: WrapperV| wrapper_json(w));
    push_lit("[", out);
    let n = ps.len();
    let mut i: usize = 0;
    proof {
        assert(join_comma(items.take(0)) =~= Seq::<char>::empty());
    }
    while i < n
        invariant
            i <= n,
            n == ps@.len(),
            items == player_views(ps@).map_values(|w: WrapperV| wrapper_json(w)),
            items.len() == n,
            out@ == base + "["@ + join_comma(items.take(i as int)),
        decreases n - i,
    {
        if i > 0 {
            out.push(',');
        }
        push_wrapper_json(&ps[i], out);
        proof {
            assert(items[i as int] == wrapper_json(player_views(ps@)[i as int]));
            assert(items.take(i + 1) =~= items.take(i as int).push(items[i as int]));
            crate::json::lemma_join_comma_push(items.take(i as int), items[i as int]);
            assert(out@ =~= base + "["@ + join_comma(items.take(i + 1)));
        }
        i += 1;
    }
    push_lit("]", out);
    proof {
        assert(items.take(n as int) =~= items);
        assert(out@ =~= base + players_array_json(player_views(ps@)));
    }
}

/// Appends the canonical JSON text of a byte list to `out`.
fn push_bytes_array(bs: &Vec<u8>, out: &mut Vec<char>)
    ensures
        final(out)@ == old(out)@ + bytes_array_json(bs@),
{
    let ghost base = out@;
    let ghost items = bs@.map_values(|b: u8| dec_of(b as int));
    push_lit("[", out);
    let n = bs.len();
    let mut i: usize = 0;
    proof {
        assert(join_comma(items.take(0)) =~= Seq::<char>::empty());
    }
    while i < n
        invariant
            i <= n,
            n == bs@.len(),
            items == bs@.map_values(|b: u8| dec_of(b as int)),
            items.len() == n,
            out@ == base + "["@ + join_comma(items.take(i as int)),
        decreases n - i,
    {
        if i > 0 {
            out.push(',');
        }
        push_uint(bs[i] as u64, out);
        proof {
            assert(items[i as int] == dec_of(bs@[i as int] as int));
            assert(items.take(i + 1) =~= items.take(i as int).push(items[i as int]));
            crate::json::lemma_join_comma_push(items.take(i as int), items[i as int]);
            assert(out@ =~= base + "["@ + join_comma(items.take(i + 1)));
        }
        i += 1;
    }
    push_lit("]", out);
    proof {
        assert(items.take(n as int) =~= items);
        assert(out@ =~= base + bytes_array_json(bs@));
    }
}

/// Appends the canonical JSON text of a list of strings to `out`.
fn push_strings_array(ss: &Vec<String>, out: &mut Vec<char>)
    ensures
        final(out)@ == old(out)@ + strings_array_json(ss.deep_view()),
{
    let ghost base = out@;
    let ghost items = ss.deep_view().map_values(|s: Seq<char>| json_quote(s));
    push_lit("[", out);
    let n = ss.len();
    let mut i: usize = 0;
    proof {
        assert(join_comma(items.take(0)) =~= Seq::<char>::empty());
    }
    while i < n
        invariant
            i <= n,
            n == ss@.len(),
            items == ss.deep_view().map_values(|s: Seq<char>| json_quote(s)),
            items.len() == n,
            out@ == base + "["@ + join_comma(items.take(i as int)),
        decreases n - i,
    {
        if i > 0 {
            out.push(',');
        }
        push_quoted(&ss[i], out);
        proof {
            assert(ss.deep_view()[i as int] == ss@[i as int]@);
            assert(items[i as int] == json_quote(ss@[i as int]@));
            assert(items.take(i + 1) =~= items.take(i as int).push(items[i as int]));
            crate::json::lemma_join_comma_push(items.take(i as int), items[i as int]);
            assert(out@ =~= base + "["@ + join_comma(items.take(i + 1)));
        }
        i += 1;
    }
    push_lit("]", out);
    proof {
        assert(items.take(n as int) =~= items);
        assert(out@ =~= base + strings_array_json(ss.deep_view()));
    }
}

/// Whether `c` is a lower-case hexadecimal digit.
pub open spec fn is_lower_hex(c: char) -> bool {
    crate::strutil::is_digit(c) || (97 <= c as int && c as int <= 102)
}

/// The shape of a hyphenated version-4 UUID: 36 characters, hyphens at the
/// four fixed offsets, lower-case hexadecimal digits everywhere else, and
/// the version digit at its fixed place.
pub open spec fn hyphenated_uuid_v4(s: Seq<char>) -> bool {
    &&& s.len() == 36
    &&& s[8] == '-' && s[13] == '-' && s[18] == '-' && s[23] == '-'
    &&& s[14] == '4'
    &&& forall|i: int|
        0 <= i < 36 && i != 8 && i != 13 && i != 18 && i != 23 ==> is_lower_hex(#[trigger] s[i])
}

impl Room {
    /// Relies on `uuid::Uuid::new_v4` and its hyphenated form: a fresh
    /// random version-4 UUID, rendered as its 36-character lower-case
    /// hexadecimal-and-hyphen text, the version digit set.  Used as a
    /// room's durable primary key; its freshness is statistical and is not
    /// stated.
    #[verifier::external_body]
    pub fn gen_private_id() -> (r: String)
        ensures
            hyphenated_uuid_v4(r@),
    {
        uuid::Uuid::new_v4().as_hyphenated().to_string()
    }

    /// Relies on `rand::random_range`: a uniformly random value within the
    /// given range, here the human-shareable join-code range.
    #[verifier::external_body]
    pub fn gen_public_id() -> (r: u32)
        ensures
            10_000 <= r < 100_000,
    {
        rand::random_range(10_000..100_000u32)
    }

    /// The room serialized to its canonical string form, carried in success
    /// responses.
    pub fn to_string(&self) -> (s: String)
        ensures
            s@ == room_json(self@),
    {
        let mut out: Vec<char> = Vec::new();
        push_lit("{\"private_id\":", &mut out);
        push_quoted(&self.private_id, &mut out);
        push_lit(",\"public_id\":", &mut out);
        push_uint(self.public_id as u64, &mut out);
        push_lit(",\"players\":", &mut out);
        push_players_array(&self.players, &mut out);
        push_lit(",\"_players\":", &mut out);
        push_bytes_array(&self._players, &mut out);
        push_lit(",\"max_players\":", &mut out);
        push_uint(self.max_players as u64, &mut out);
        push_lit(",\"leader\":", &mut out);
        push_wrapper_json(&self.leader, &mut out);
        push_lit(",\"started\":", &mut out);
        push_bool(self.started, &mut out);
        push_lit(",\"private\":", &mut out);
        push_bool(self.private, &mut out);
        push_lit(",\"player_adresses\":", &mut out);
        push_strings_array(&self.player_adresses, &mut out);
        push_lit("}", &mut out);
        proof {
            assert(out@ =~= room_json(self@));
        }
        crate::strutil::chars_to_string(&out)
    }
}

} // verus!
