//! The room store: generates room identifiers, persists a room as the hash
//! representation a key-value backend keeps, and reconstructs a room from
//! persisted state.
//!
//! A room's hash holds every scalar field as a string plus one binary blob
//! for the player list and one for the leader.  Reconstruction is all or
//! nothing: a hash with any field missing or unparseable yields no room,
//! never a partially-populated one.  Lookups walk the entries newest first,
//! so writing a key again shadows what was there: the last writer wins.

use vstd::prelude::*;
use crate::codec::{dec_players, dec_wrapper, enc_players, enc_wrapper, players_ok, wrapper_ok};
use crate::room::{from_leader_view, player_views, Room, RoomV};
use crate::strutil::{dec_of, parse_dec, spec_parse_dec, string_to_chars};
use crate::wrapper::PlayerRedisWrapper;

verus! {

/// Mathematical model of a [`RoomHash`].
#[verifier::ext_equal]
pub ghost struct RoomHashV {
    pub private_id: Option<Seq<char>>,
    pub public_id: Option<Seq<char>>,
    pub max_players: Option<Seq<char>>,
    pub started: Option<Seq<char>>,
    pub private: Option<Seq<char>>,
    pub leader: Option<Seq<u8>>,
    pub players: Option<Seq<u8>>,
}

/// A room as the hash backend stores it: one value per field, each possibly
/// absent.
#[derive(Debug)]
pub struct RoomHash {
    pub private_id: Option<String>,
    pub public_id: Option<String>,
    pub max_players: Option<String>,
    pub started: Option<String>,
    pub private: Option<String>,
    pub leader: Option<Vec<u8>>,
    pub players: Option<Vec<u8>>,
}

impl View for RoomHash {
    type V = RoomHashV;

    open spec fn view(&self) -> RoomHashV {
        RoomHashV {
            private_id: match self.private_id {
                Option::Some(s) => Some(s@),
                Option::None => None,
            },
            public_id: match self.public_id {
                Option::Some(s) => Some(s@),
                Option::None => None,
            },
            max_players: match self.max_players {
                Option::Some(s) => Some(s@),
                Option::None => None,
            },
            started: match self.started {
                Option::Some(s) => Some(s@),
                Option::None => None,
            },
            private: match self.private {
                Option::Some(s) => Some(s@),
                Option::None => None,
            },
            leader: match self.leader {
                Option::Some(b) => Some(b@),
                Option::None => None,
            },
            players: match self.players {
                Option::Some(b) => Some(b@),
                Option::None => None,
            },
        }
    }
}

/// The hash a room is written as: every scalar as its decimal or `"0"`/`"1"`
/// text, the leader and the player list as blobs.
pub open spec fn hash_of_room(r: RoomV) -> RoomHashV {
    RoomHashV {
        private_id: Some(r.private_id),
        public_id: Some(dec_of(r.public_id as int)),
        max_players: Some(dec_of(r.max_players as int)),
        started: Some(if r.started { seq!['1'] } else { seq!['0'] }),
        private: Some(if r.private { seq!['1'] } else { seq!['0'] }),
        leader: Some(enc_wrapper(r.leader)),
        players: Some(enc_players(r.players)),
    }
}

/// How a persisted boolean field reads back: a byte-sized numeral, zero
/// meaning false and anything else true.
pub open spec fn make_bool(s: Option<Seq<char>>) -> Option<bool> {
    match s {
        Option::None => None,
        Option::Some(t) => match spec_parse_dec(t, 255) {
            Option::None => None,
            Option::Some(v) => Some(v != 0),
        },
    }
}

/// The room a hash reconstructs to, if every field is present and parses.
/// Connection addresses and the blob cache are not persisted and come back
/// empty.
pub open spec fn room_of_hash(h: RoomHashV) -> Option<RoomV> {
    if h.private_id is Some && h.public_id is Some && h.max_players is Some && h.leader is Some
        && h.players is Some {
        let public_id = spec_parse_dec(h.public_id.unwrap(), u32::MAX as int);
        let max_players = spec_parse_dec(h.max_players.unwrap(), 255);
        let started = make_bool(h.started);
        let private = make_bool(h.private);
        let leader = dec_wrapper(h.leader.unwrap());
        let players = dec_players(h.players.unwrap());
        if public_id is Some && max_players is Some && started is Some && private is Some
            && leader is Some && players is Some {
            Some(
                RoomV {
                    private_id: h.private_id.unwrap(),
                    public_id: public_id.unwrap() as u32,
                    players: players.unwrap(),
                    players_blob: Seq::<u8>::empty(),
                    max_players: max_players.unwrap() as u8,
                    leader: leader.unwrap(),
                    started: started.unwrap(),
                    private: private.unwrap(),
                    player_adresses: Seq::<Seq<char>>::empty(),
                },
            )
        } else {
            None
        }
    } else {
        None
    }
}

/// The hash a room writes; also yields the facts that let it be read back.
pub fn room_to_hash(room: &Room) -> (h: RoomHash)
    ensures
        h@ == hash_of_room(room@),
        wrapper_ok(room@.leader),
        players_ok(room@.players),
{
    let mut leader_blob: Vec<u8> = Vec::new();
    crate::codec::encode_wrapper(&room.leader, &mut leader_blob);
    let mut players_blob: Vec<u8> = Vec::new();
    crate::codec::encode_players(&room.players, &mut players_blob);
    let h = RoomHash {
        private_id: Some(room.private_id.clone()),
        public_id: Some(crate::strutil::dec_string_u64(room.public_id as u64)),
        max_players: Some(crate::strutil::dec_string_u64(room.max_players as u64)),
        started: Some(
            if room.started {
                crate::strutil::dec_string_u64(1)
            } else {
                crate::strutil::dec_string_u64(0)
            },
        ),
        private: Some(
            if room.private {
                crate::strutil::dec_string_u64(1)
            } else {
                crate::strutil::dec_string_u64(0)
            },
        ),
        leader: Some(leader_blob),
        players: Some(players_blob),
    };
    proof {
        assert(leader_blob@ =~= enc_wrapper(room@.leader));
        assert(players_blob@ =~= enc_players(room@.players));
        assert(dec_of(1int) =~= seq!['1']);
        assert(dec_of(0int) =~= seq!['0']);
        assert(h@ =~= hash_of_room(room@));
    }
    h
}

/// Reconstructs a room from a hash; exactly [`room_of_hash`].
pub fn room_from_hash(h: &RoomHash) -> (r: Option<Room>)
    ensures
        r is Some <==> room_of_hash(h@) is Some,
        r matches Some(room) ==> room_of_hash(h@) == Some(room@),
{
    let private_id = match &h.private_id {
        Option::Some(s) => s.clone(),
        Option::None => {
            return None;
        },
    };
    let public_id_s = match &h.public_id {
        Option::Some(s) => s,
        Option::None => {
            return None;
        },
    };
    let max_players_s = match &h.max_players {
        Option::Some(s) => s,
        Option::None => {
            return None;
        },
    };
    let started_s = match &h.started {
        Option::Some(s) => s,
        Option::None => {
            return None;
        },
    };
    let private_s = match &h.private {
        Option::Some(s) => s,
        Option::None => {
            return None;
        },
    };
    let leader_b = match &h.leader {
        Option::Some(b) => b,
        Option::None => {
            return None;
        },
    };
    let players_b = match &h.players {
        Option::Some(b) => b,
        Option::None => {
            return None;
        },
    };
    let public_chars = string_to_chars(public_id_s.as_str());
    let public_id = match parse_dec(&public_chars, 0xFFFF_FFFF) {
        Option::Some(v) => v as u32,
        Option::None => {
            return None;
        },
    };
    let max_chars = string_to_chars(max_players_s.as_str());
    let max_players = match parse_dec(&max_chars, 255) {
        Option::Some(v) => v as u8,
        Option::None => {
            return None;
        },
    };
    let started_chars = string_to_chars(started_s.as_str());
    let started = match parse_dec(&started_chars, 255) {
        Option::Some(v) => v != 0,
        Option::None => {
            return None;
        },
    };
    let private_chars = string_to_chars(private_s.as_str());
    let private = match parse_dec(&private_chars, 255) {
        Option::Some(v) => v != 0,
        Option::None => {
            return None;
        },
    };
    let leader = match crate::codec::decode_wrapper(leader_b.as_slice(), 0) {
        Option::Some((w, j)) => {
            if j == leader_b.len() {
                w
            } else {
                return None;
            }
        },
        Option::None => {
            return None;
        },
    };
    let players = match crate::codec::decode_players(players_b.as_slice()) {
        Option::Some(ps) => ps,
        Option::None => {
            return None;
        },
    };
    let room = Room {
        private_id,
        public_id,
        players,
        _players: Vec::new(),
        max_players,
        leader,
        started,
        private,
        player_adresses: Vec::new(),
    };
    proof {
        assert(room@ =~= room_of_hash(h@).unwrap());
    }
    Some(room)
}

/// What a key reads as: the hash of the newest entry under it.
pub open spec fn store_lookup(entries: Seq<(Seq<char>, RoomHashV)>, key: Seq<char>) -> Option<
    RoomHashV,
>
    decreases entries.len(),
{
    if entries.len() == 0 {
        None
    } else if entries[0].0 == key {
        Some(entries[0].1)
    } else {
        store_lookup(entries.drop_first(), key)
    }
}

/// The walk behind [`store_lookup_public`], from position `i` on.  An
/// entry counts only when it is what its key currently reads as: one
/// shadowed by a newer write under the same key is dead history and is
/// never served.
pub open spec fn store_lookup_public_at(
    entries: Seq<(Seq<char>, RoomHashV)>,
    code: u32,
    i: int,
) -> Option<RoomV>
    decreases entries.len() - i,
{
    if !(0 <= i && i < entries.len()) {
        None
    } else {
        let live = forall|j: int| 0 <= j < i ==> entries[j].0 != entries[i].0;
        let head = room_of_hash(entries[i].1);
        if live && head is Some && head.unwrap().public_id == code {
            head
        } else {
            store_lookup_public_at(entries, code, i + 1)
        }
    }
}

/// The newest live entry that reconstructs to a room with join code `code`.
pub open spec fn store_lookup_public(entries: Seq<(Seq<char>, RoomHashV)>, code: u32) -> Option<
    RoomV,
> {
    store_lookup_public_at(entries, code, 0)
}

/// The room store: room identifiers, persistence, reconstruction.  The hash
/// backend is held in memory; every operation on it is modelled by
/// [`store_lookup`] over the entry list, newest entry first.
#[derive(Debug)]
pub struct RoomStore {
    entries: Vec<(String, RoomHash)>,
}

impl View for RoomStore {
    type V = Seq<(Seq<char>, RoomHashV)>;

    closed spec fn view(&self) -> Seq<(Seq<char>, RoomHashV)> {
        self.entries@.map_values(|e: (String, RoomHash)| (e.0@, e.1@))
    }
}

impl RoomStore {
    /// An empty store.
    pub fn new() -> (s: Self)
        ensures
            s@ == Seq::<(Seq<char>, RoomHashV)>::empty(),
    {
        let s = RoomStore { entries: Vec::new() };
        proof {
            assert(s@ =~= Seq::<(Seq<char>, RoomHashV)>::empty());
        }
        s
    }

    /// Writes `hash` under `key`: the key now reads as `hash`, every other
    /// key reads as before.
    pub fn put(&mut self, key: String, hash: RoomHash)
        ensures
            store_lookup(final(self)@, key@) == Some(hash@),
            forall|k: Seq<char>| k != key@ ==> store_lookup(final(self)@, k) == store_lookup(
                old(self)@,
                k,
            ),
    {
        let ghost o = self@;
        self.entries.insert(0, (key, hash));
        proof {
            assert(self@ =~= seq![(key@, hash@)] + o);
            assert(self@.drop_first() =~= o);
        }
    }

    /// The hash under `key`, if any; exactly [`store_lookup`].
    pub fn get<'a>(&'a self, key: &String) -> (r: Option<&'a RoomHash>)
        ensures
            r is Some <==> store_lookup(self@, key@) is Some,
            r matches Some(h) ==> store_lookup(self@, key@) == Some(h@),
    {
        let n = self.entries.len();
        let mut i: usize = 0;
        proof {
            assert(self@.skip(0) =~= self@);
        }
        while i < n
            invariant
                i <= n,
                n == self.entries@.len(),
                store_lookup(self@, key@) == store_lookup(self@.skip(i as int), key@),
            decreases n - i,
        {
            proof {
                assert(self@.skip(i as int)[0] == self@[i as int]);
                assert(self@.skip(i as int).drop_first() =~= self@.skip(i + 1));
            }
            if self.entries[i].0.eq(key) {
                return Some(&self.entries[i].1);
            }
            i += 1;
        }
        proof {
            assert(self@.skip(n as int) =~= Seq::<(Seq<char>, RoomHashV)>::empty());
        }
        None
    }

    /// Builds a room with `leader` as its creator and persists every field
    /// under the room's fresh private id.  The room is returned; it reads
    /// back from the store under its private id.
    pub fn create(&mut self, leader: PlayerRedisWrapper) -> (room: Room)
        ensures
            room@ == from_leader_view(leader@, room@.private_id, room@.public_id),
            room@.wf(),
            crate::room::hyphenated_uuid_v4(room@.private_id),
            10_000 <= room@.public_id < 100_000,
            players_ok(room@.players),
            wrapper_ok(room@.leader),
            store_lookup(final(self)@, room@.private_id) == Some(hash_of_room(room@)),
            forall|k: Seq<char>| k != room@.private_id ==> store_lookup(final(self)@, k)
                == store_lookup(old(self)@, k),
    {
        let private_id = Room::gen_private_id();
        let public_id = Room::gen_public_id();
        let room = Room::from_leader(leader, private_id.clone(), public_id);
        let hash = room_to_hash(&room);
        self.put(private_id, hash);
        room
    }

    /// Reads the hash under `room_id` and reconstructs the room: nothing if
    /// the key is absent or any field is missing or corrupted.
    pub fn load(&self, room_id: &String) -> (r: Option<Room>)
        ensures
            r is None <==> match store_lookup(self@, room_id@) {
                Option::None => true,
                Option::Some(h) => room_of_hash(h) is None,
            },
            r matches Some(room) ==> store_lookup(self@, room_id@) matches Some(h)
                && room_of_hash(h) == Some(room@),
    {
        match self.get(room_id) {
            Option::Some(h) => room_from_hash(h),
            Option::None => None,
        }
    }

    /// Finds the newest room whose public join code is `code`, never
    /// serving an entry that a newer write under the same key has shadowed;
    /// exactly [`store_lookup_public`].
    pub fn load_by_public_id(&self, code: u32) -> (r: Option<Room>)
        ensures
            r is Some <==> store_lookup_public(self@, code) is Some,
            r matches Some(room) ==> store_lookup_public(self@, code) == Some(room@),
    {
        let n = self.entries.len();
        let mut i: usize = 0;
        while i < n
            invariant
                i <= n,
                n == self.entries@.len(),
                store_lookup_public(self@, code) == store_lookup_public_at(
                    self@,
                    code,
                    i as int,
                ),
            decreases n - i,
        {
            let mut live = true;
            let mut j: usize = 0;
            while j < i
                invariant
                    j <= i < n,
                    n == self.entries@.len(),
                    live <==> (forall|t: int| 0 <= t < j ==> self@[t].0 != self@[i as int].0),
                decreases i - j,
            {
                if self.entries[j].0.eq(&self.entries[i].0) {
                    proof {
                        assert(self@[j as int].0 == self@[i as int].0);
                    }
                    live = false;
                }
                j += 1;
            }
            if live {
                match room_from_hash(&self.entries[i].1) {
                    Option::Some(room) => {
                        if room.public_id == code {
                            return Some(room);
                        }
                    },
                    Option::None => {},
                }
            }
            i += 1;
        }
        None
    }

    /// Re-serializes the room's player list with `player` appended and
    /// overwrites only the players field of the hash under `room_key`; the
    /// scalar fields stay untouched.  Fails, changing nothing, if the key is
    /// absent or its player blob does not decode.
    ///
    /// This is a read-modify-write in two steps with no lock of its own:
    /// holding the store exclusively for the whole call is what keeps two
    /// concurrent joins from discarding one another's write.
    pub fn append_player(&mut self, room_key: &String, player: &PlayerRedisWrapper) -> (r: Result<
        (),
        (),
    >)
        ensures
            ({
                let looked = store_lookup(old(self)@, room_key@);
                match looked {
                    Option::None => r is Err && final(self)@ == old(self)@,
                    Option::Some(h) => match h.players {
                        Option::None => r is Err && final(self)@ == old(self)@,
                        Option::Some(blob) => match dec_players(blob) {
                            Option::None => r is Err && final(self)@ == old(self)@,
                            Option::Some(ps) => {
                                &&& r is Ok
                                &&& store_lookup(final(self)@, room_key@) == Some(
                                    (RoomHashV {
                                        players: Some(enc_players(ps.push(player@))),
                                        ..h
                                    }),
                                )
                                &&& forall|k: Seq<char>| k != room_key@ ==> store_lookup(
                                    final(self)@,
                                    k,
                                ) == store_lookup(old(self)@, k)
                            },
                        },
                    },
                }
            }),
    {
        let (mut current, hash) = match self.get(room_key) {
            Option::Some(h) => {
                let blob = match &h.players {
                    Option::Some(b) => b,
                    Option::None => {
                        return Err(());
                    },
                };
                match crate::codec::decode_players(blob.as_slice()) {
                    Option::Some(ps) => {
                        let copied = RoomHash {
                            private_id: match &h.private_id {
                                Option::Some(s) => Some(s.clone()),
                                Option::None => None,
                            },
                            public_id: match &h.public_id {
                                Option::Some(s) => Some(s.clone()),
                                Option::None => None,
                            },
                            max_players: match &h.max_players {
                                Option::Some(s) => Some(s.clone()),
                                Option::None => None,
                            },
                            started: match &h.started {
                                Option::Some(s) => Some(s.clone()),
                                Option::None => None,
                            },
                            private: match &h.private {
                                Option::Some(s) => Some(s.clone()),
                                Option::None => None,
                            },
                            leader: match &h.leader {
                                Option::Some(b) => Some(b.clone()),
                                Option::None => None,
                            },
                            players: None,
                        };
                        (ps, copied)
                    },
                    Option::None => {
                        return Err(());
                    },
                }
            },
            Option::None => {
                return Err(());
            },
        };
        let ghost h0 = store_lookup(self@, room_key@).unwrap();
        let ghost ps0 = dec_players(h0.players.unwrap()).unwrap();
        current.push(player.clone());
        let mut blob: Vec<u8> = Vec::new();
        crate::codec::encode_players(&current, &mut blob);
        proof {
            assert(player_views(current@) =~= ps0.push(player@));
        }
        let updated = RoomHash { players: Some(blob), ..hash };
        proof {
            assert(updated@ =~= (RoomHashV { players: Some(enc_players(ps0.push(player@))), ..h0 }));
        }
        self.put(room_key.clone(), updated);
        Ok(())
    }
}

} // verus!
