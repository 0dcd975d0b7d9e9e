//! The properties the lobby core guarantees across its operations, stated
//! and proved once over the mathematical models that the functions'
//! contracts speak of.

use vstd::prelude::*;
use crate::codec::{players_ok, wrapper_ok};
use crate::req_utils::{authorize_view, FetchOutcomeV};
use crate::room::{distinct_suids, from_leader_view, has_suid, join_view, RoomV};
use crate::store::{hash_of_room, room_of_hash, RoomHashV};
use crate::strutil::lemma_dec_roundtrip;
use crate::wrapper::WrapperV;
use crate::handle_req::{create_room_post, success_envelope};

verus! {

/// A room fresh from creation is led by its requester, holds exactly the
/// requester as its one member, and satisfies the room invariants.
pub proof fn lemma_created_room(leader: WrapperV, private_id: Seq<char>, public_id: u32)
    ensures
        from_leader_view(leader, private_id, public_id).leader == leader,
        from_leader_view(leader, private_id, public_id).players =~= seq![leader],
        from_leader_view(leader, private_id, public_id).players.len() == 1,
        from_leader_view(leader, private_id, public_id).wf(),
{
    let r = from_leader_view(leader, private_id, public_id);
    assert(r.players[0].player.suid == r.leader.player.suid);
}

/// A successful create-room command answers with a room led by the
/// resolved requester, holding exactly the requester, with its join code in
/// the public range.
pub proof fn lemma_create_room_result(
    identity: (u16, FetchOutcomeV, FetchOutcomeV),
    s0: Seq<(Seq<char>, RoomHashV)>,
    s1: Seq<(Seq<char>, RoomHashV)>,
    resp: Seq<char>,
    requester: WrapperV,
) -> (room: RoomV)
    requires
        create_room_post(identity, s0, s1, Ok(resp)),
        identity.0 == 200,
        authorize_view(identity.1, identity.2) == Result::<WrapperV, u16>::Ok(requester),
    ensures
        room.leader.player.suid == requester.player.suid,
        room.players.len() == 1,
        room.players[0] == requester,
        10_000 <= room.public_id < 100_000,
        resp == success_envelope(room),
        room.wf(),
{
    reveal(create_room_post);
    let room = choose|room: RoomV|
        {
            &&& #[trigger] room.wf()
            &&& room == from_leader_view(requester, room.private_id, room.public_id)
            &&& crate::room::hyphenated_uuid_v4(room.private_id)
            &&& 10_000 <= room.public_id < 100_000
            &&& Ok::<Seq<char>, u16>(resp) == Ok::<Seq<char>, u16>(success_envelope(room))
            &&& crate::store::store_lookup(s1, room.private_id) == Some(hash_of_room(room))
            &&& forall|k: Seq<char>| k != room.private_id ==> crate::store::store_lookup(s1, k)
                == crate::store::store_lookup(s0, k)
        };
    room
}

/// Joining is idempotent: a player whose identifier is already a member
/// leaves the room exactly as it was.
pub proof fn lemma_join_idempotent(r: RoomV, p: WrapperV)
    requires
        has_suid(r.players, p.player.suid),
    ensures
        join_view(r, p) == r,
{
}

/// Joining never duplicates an identifier: a well-formed room with a free
/// slot stays well-formed, so its members' identifiers stay distinct.
pub proof fn lemma_join_no_duplicate(r: RoomV, p: WrapperV)
    requires
        r.wf(),
        r.players.len() < r.max_players,
    ensures
        join_view(r, p).wf(),
        distinct_suids(join_view(r, p).players),
{
    let j = join_view(r, p);
    if has_suid(r.players, p.player.suid) {
    } else {
        let w = choose|i: int|
            0 <= i < r.players.len() && r.players[i].player.suid == r.leader.player.suid;
        assert(j.players[w].player.suid == j.leader.player.suid);
        assert forall|a: int, b: int| 0 <= a < b < j.players.len() implies j.players[a].player.suid
            != j.players[b].player.suid by {
            if b < r.players.len() {
            } else {
                assert(j.players[b] == p);
                if j.players[a].player.suid == p.player.suid {
                    assert(has_suid(r.players, p.player.suid));
                }
            }
        }
    }
}

/// Creating a room and joining it twice leaves the creator as leader and
/// the members' identifiers exactly the three players' identifiers,
/// however they overlap.
pub proof fn lemma_sequential_joins(
    a: WrapperV,
    b: WrapperV,
    c: WrapperV,
    private_id: Seq<char>,
    public_id: u32,
)
    ensures
        ({
            let r2 = join_view(join_view(from_leader_view(a, private_id, public_id), b), c);
            &&& r2.leader.player.suid == a.player.suid
            &&& forall|s: Seq<char>|
                has_suid(r2.players, s) <==> (s == a.player.suid || s == b.player.suid || s
                    == c.player.suid)
            &&& r2.wf()
        }),
{
    let r0 = from_leader_view(a, private_id, public_id);
    let r1 = join_view(r0, b);
    let r2 = join_view(r1, c);
    assert(r0.players[0] == a);
    lemma_created_room(a, private_id, public_id);
    lemma_join_no_duplicate(r0, b);
    lemma_join_no_duplicate(r1, c);
    assert(r2.players[0] == a);
    assert forall|s: Seq<char>|
        has_suid(r2.players, s) <==> (s == a.player.suid || s == b.player.suid || s
            == c.player.suid) by {
        if has_suid(r2.players, s) {
            let i = choose|i: int| 0 <= i < r2.players.len() && r2.players[i].player.suid == s;
            assert(r2.players[i] == a || r2.players[i] == b || r2.players[i] == c);
        }
        if s == a.player.suid {
            assert(r2.players[0].player.suid == s);
            assert(has_suid(r2.players, s));
        }
        if s == b.player.suid {
            if has_suid(r0.players, s) {
                assert(r2.players[0].player.suid == s);
                assert(has_suid(r2.players, s));
            } else {
                assert(r1.players[1] == b);
                assert(r2.players[1].player.suid == s);
                assert(has_suid(r2.players, s));
            }
        }
        if s == c.player.suid {
            if has_suid(r1.players, s) {
                let i = choose|i: int|
                    0 <= i < r1.players.len() && r1.players[i].player.suid == s;
                assert(r2.players[i].player.suid == s);
                assert(has_suid(r2.players, s));
            } else {
                assert(r2.players[r1.players.len() as int] == c);
                assert(has_suid(r2.players, s));
            }
        }
    }
}

/// Persisting a room and reading it back reproduces its identifiers, its
/// bound, its flags, its leader and its player list exactly; only the
/// connection addresses and the cached blob, which are not persisted, come
/// back empty.
pub proof fn lemma_room_hash_roundtrip(room: RoomV)
    requires
        players_ok(room.players),
        wrapper_ok(room.leader),
    ensures
        room_of_hash(hash_of_room(room)) == Some(
            (RoomV {
                players_blob: Seq::<u8>::empty(),
                player_adresses: Seq::<Seq<char>>::empty(),
                ..room
            }),
        ),
{
    let h = hash_of_room(room);
    lemma_dec_roundtrip(room.public_id as int, u32::MAX as int);
    lemma_dec_roundtrip(room.max_players as int, 255);
    crate::codec::lemma_players_roundtrip(room.players);
    crate::codec::lemma_wrapper_roundtrip(room.leader);
    assert(crate::strutil::dec_of(1int) =~= seq!['1']);
    assert(crate::strutil::dec_of(0int) =~= seq!['0']);
    lemma_dec_roundtrip(1, 255);
    lemma_dec_roundtrip(0, 255);
    assert(room_of_hash(h).unwrap() =~= (RoomV {
        players_blob: Seq::<u8>::empty(),
        player_adresses: Seq::<Seq<char>>::empty(),
        ..room
    }));
}

} // verus!
