//! The command dispatcher: one inbound text frame in, one outbound text
//! frame back to the sender.
//!
//! A frame is an envelope `{"destination": ..., "data": ...}` whose data
//! string carries the command payload.  A structurally bad frame, or an
//! unknown destination, is rejected without a response and the connection
//! is torn down by the caller.  A known command is driven through the auth
//! delegate and the room store, and exactly one response envelope goes back
//! to the originating connection: `{"status":200,"room":...}` on success,
//! `{"status":<code>}` on failure.

use vstd::prelude::*;
use vstd::string::StringExecFns;
use crate::codec::{dec_players, enc_players};
use crate::json::{json_quote, obj_lookup, parse_object, push_lit, push_quoted, FieldV, JsonField,
    JsonScalar, ScalarV};
use crate::registry::ConnectionRegistry;
use crate::req_utils::{authorize_view, FetchOutcomeV, IdentityOutcomes, TransportResult};
use crate::room::{has_suid, room_json, Room, RoomV};
use crate::store::{hash_of_room, store_lookup, store_lookup_public, RoomHashV, RoomStore};
use crate::strutil::{dec_of, spec_parse_dec, string_to_chars};
use crate::wrapper::{PlayerRedisWrapper, WrapperV};

verus! {

/// The outer envelope of an inbound frame.
#[derive(Debug)]
pub struct GeneralRequest {
    pub destination: String,
    pub data: String,
}

/// The payload of a create-room command.
#[derive(Debug)]
pub struct CreateRoomRequestData {
    pub jwt: String,
}

/// The payload of a join-room command.
#[derive(Debug)]
pub struct JoinRoomRequestData {
    pub jwt: String,
    pub room_id: String,
}

/// A recognized command with its payload.
#[derive(Debug)]
pub enum RequestJsonType {
    CreateRoom(CreateRoomRequestData),
    JoinRoom(JoinRoomRequestData),
}

/// Mathematical model of a [`RequestJsonType`].
pub ghost enum RequestV {
    CreateRoom { jwt: Seq<char> },
    JoinRoom { jwt: Seq<char>, room_id: Seq<char> },
}

impl View for RequestJsonType {
    type V = RequestV;

    open spec fn view(&self) -> RequestV {
        match self {
            RequestJsonType::CreateRoom(d) => RequestV::CreateRoom { jwt: d.jwt@ },
            RequestJsonType::JoinRoom(d) => RequestV::JoinRoom {
                jwt: d.jwt@,
                room_id: d.room_id@,
            },
        }
    }
}

/// The destination and data of a frame's outer envelope, both strings.
pub open spec fn envelope_of(text: Seq<char>) -> Option<(Seq<char>, Seq<char>)> {
    match parse_object(text) {
        Option::None => None,
        Option::Some(m) => {
            let dest = obj_lookup(m, "destination"@);
            let data = obj_lookup(m, "data"@);
            if (dest matches Some(FieldV::Scalar(ScalarV::Str(_)))) && (data matches Some(
                FieldV::Scalar(ScalarV::Str(_)),
            )) {
                Some((dest.unwrap()->Scalar_0->Str_0, data.unwrap()->Scalar_0->Str_0))
            } else {
                None
            }
        },
    }
}

/// The credential inside a create-room payload.
pub open spec fn create_data_of(text: Seq<char>) -> Option<Seq<char>> {
    match parse_object(text) {
        Option::None => None,
        Option::Some(m) => match obj_lookup(m, "jwt"@) {
            Option::Some(FieldV::Scalar(ScalarV::Str(s))) => Some(s),
            _ => None,
        },
    }
}

/// The credential and room id inside a join-room payload; the room id may
/// come as a string or as a number, which reads as its decimal text.
pub open spec fn join_data_of(text: Seq<char>) -> Option<(Seq<char>, Seq<char>)> {
    match parse_object(text) {
        Option::None => None,
        Option::Some(m) => {
            let jwt = obj_lookup(m, "jwt"@);
            let room_id = obj_lookup(m, "room_id"@);
            if jwt matches Some(FieldV::Scalar(ScalarV::Str(_))) {
                match room_id {
                    Option::Some(FieldV::Scalar(ScalarV::Str(s))) => Some(
                        (jwt.unwrap()->Scalar_0->Str_0, s),
                    ),
                    Option::Some(FieldV::Scalar(ScalarV::UInt(v))) => Some(
                        (jwt.unwrap()->Scalar_0->Str_0, dec_of(v as int)),
                    ),
                    _ => None,
                }
            } else {
                None
            }
        },
    }
}

/// The typed command a whole frame parses to, if its envelope is sound, its
/// destination known, and its payload well-formed.
pub open spec fn request_of(text: Seq<char>) -> Option<RequestV> {
    match envelope_of(text) {
        Option::None => None,
        Option::Some((dest, data)) => if dest == "create-room"@ {
            match create_data_of(data) {
                Option::Some(jwt) => Some(RequestV::CreateRoom { jwt }),
                Option::None => None,
            }
        } else if dest == "join-room"@ {
            match join_data_of(data) {
                Option::Some((jwt, room_id)) => Some(RequestV::JoinRoom { jwt, room_id }),
                Option::None => None,
            }
        } else {
            None
        },
    }
}

/// The failure response envelope: the status code alone.
pub open spec fn failure_envelope(status: u16) -> Seq<char> {
    "{\"status\":"@ + dec_of(status as int) + "}"@
}

/// The success response envelope: status 200 and the room's canonical
/// string form, carried as one JSON string.
pub open spec fn success_envelope(room: RoomV) -> Seq<char> {
    "{\"status\":200,\"room\":"@ + json_quote(room_json(room)) + "}"@
}

/// Builds the failure response envelope for `status`.
pub fn build_failure(status: u16) -> (s: String)
    ensures
        s@ == failure_envelope(status),
{
    let mut out: Vec<char> = Vec::new();
    push_lit("{\"status\":", &mut out);
    crate::strutil::push_dec_u64(status as u64, &mut out);
    push_lit("}", &mut out);
    proof {
        assert(out@ =~= failure_envelope(status));
    }
    crate::strutil::chars_to_string(&out)
}

/// Builds the success response envelope for `room`.
pub fn build_success(room: &Room) -> (s: String)
    ensures
        s@ == success_envelope(room@),
{
    let mut out: Vec<char> = Vec::new();
    push_lit("{\"status\":200,\"room\":", &mut out);
    let text = room.to_string();
    push_quoted(&text, &mut out);
    push_lit("}", &mut out);
    proof {
        assert(out@ =~= success_envelope(room@));
    }
    crate::strutil::chars_to_string(&out)
}

/// Parses a frame's outer envelope; exactly [`envelope_of`].
pub fn parse_envelope(text: &String) -> (r: Result<GeneralRequest, ()>)
    ensures
        r is Ok <==> envelope_of(text@) is Some,
        r matches Ok(env) ==> envelope_of(text@) == Some((env.destination@, env.data@)),
{
    let chars = string_to_chars(text.as_str());
    let obj = match crate::json::parse_object_x(&chars) {
        Option::Some(m) => m,
        Option::None => {
            return Err(());
        },
    };
    let destination = match crate::json::obj_get(&obj, &String::from_str("destination")) {
        Option::Some(JsonField::Scalar(JsonScalar::Str(s))) => s.clone(),
        _ => {
            return Err(());
        },
    };
    let data = match crate::json::obj_get(&obj, &String::from_str("data")) {
        Option::Some(JsonField::Scalar(JsonScalar::Str(s))) => s.clone(),
        _ => {
            return Err(());
        },
    };
    Ok(GeneralRequest { destination, data })
}

/// Parses a frame into its typed command; exactly [`request_of`].  The
/// caller reads the credential out of the command to drive the identity
/// service before dispatching.
pub fn parse_request(text: &String) -> (r: Result<RequestJsonType, ()>)
    ensures
        r is Ok <==> request_of(text@) is Some,
        r matches Ok(req) ==> request_of(text@) == Some(req@),
{
    let envelope = match parse_envelope(text) {
        Ok(env) => env,
        Err(()) => {
            return Err(());
        },
    };
    let dest = &envelope.destination;
    let data = &envelope.data;
    let data_chars = string_to_chars(data.as_str());
    let inner = match crate::json::parse_object_x(&data_chars) {
        Option::Some(m) => m,
        Option::None => {
            return Err(());
        },
    };
    if dest.eq(&String::from_str("create-room")) {
        match crate::json::obj_get(&inner, &String::from_str("jwt")) {
            Option::Some(JsonField::Scalar(JsonScalar::Str(s))) => Ok(
                RequestJsonType::CreateRoom(CreateRoomRequestData { jwt: s.clone() }),
            ),
            _ => Err(()),
        }
    } else if dest.eq(&String::from_str("join-room")) {
        let jwt = match crate::json::obj_get(&inner, &String::from_str("jwt")) {
            Option::Some(JsonField::Scalar(JsonScalar::Str(s))) => s.clone(),
            _ => {
                return Err(());
            },
        };
        match crate::json::obj_get(&inner, &String::from_str("room_id")) {
            Option::Some(JsonField::Scalar(JsonScalar::Str(s))) => Ok(
                RequestJsonType::JoinRoom(JoinRoomRequestData { jwt, room_id: s.clone() }),
            ),
            Option::Some(JsonField::Scalar(JsonScalar::UInt(v))) => Ok(
                RequestJsonType::JoinRoom(
                    JoinRoomRequestData { jwt, room_id: crate::strutil::dec_string_u64(*v) },
                ),
            ),
            _ => Err(()),
        }
    } else {
        Err(())
    }
}

/// What handling a create-room command does: how the response relates to
/// the identity service's answers, and the store afterwards to the store
/// before.  The fresh room's two identifiers are random, so they are bound
/// existentially, pinned to their ranges.
#[verifier::opaque]
pub open spec fn create_room_post(
    identity: (u16, FetchOutcomeV, FetchOutcomeV),
    s0: Seq<(Seq<char>, RoomHashV)>,
    s1: Seq<(Seq<char>, RoomHashV)>,
    r: Result<Seq<char>, u16>,
) -> bool {
    if identity.0 != 200 {
        r == Err::<Seq<char>, u16>(identity.0) && s1 == s0
    } else {
        match authorize_view(identity.1, identity.2) {
            Err(c) => r == Err::<Seq<char>, u16>(c) && s1 == s0,
            Ok(p) => exists|room: RoomV|
                {
                    &&& #[trigger] room.wf()
                    &&& room == crate::room::from_leader_view(p, room.private_id, room.public_id)
                    &&& crate::room::hyphenated_uuid_v4(room.private_id)
                    &&& 10_000 <= room.public_id < 100_000
                    &&& r == Ok::<Seq<char>, u16>(success_envelope(room))
                    &&& store_lookup(s1, room.private_id) == Some(hash_of_room(room))
                    &&& forall|k: Seq<char>| k != room.private_id ==> store_lookup(s1, k)
                        == store_lookup(s0, k)
                },
        }
    }
}

/// Handles a create-room command: verify the credential, resolve the
/// caller's profile, create and persist a room led by the caller, and
/// answer with the room's canonical form; exactly [`create_room_post`].
pub fn create_room(
    request: &CreateRoomRequestData,
    store: &mut RoomStore,
    identity: &IdentityOutcomes,
) -> (r: Result<String, u16>)
    ensures
        ({
            let rv = match r {
                Ok(s) => Ok::<Seq<char>, u16>(s@),
                Err(c) => Err::<Seq<char>, u16>(c),
            };
            create_room_post(
                (identity.verify.status_code(), identity.verify_body@, identity.profile_body@),
                old(store)@,
                final(store)@,
                rv,
            )
        }),
{
    proof {
        reveal(create_room_post);
    }
    let status: u16 = PlayerRedisWrapper::check_auth(&identity.verify);
    if status != 200 {
        return Err(status);
    }
    let current_player = match crate::req_utils::authorize_player(
        &identity.verify_body,
        &identity.profile_body,
    ) {
        Ok(player) => player,
        Err(status) => {
            return Err(status);
        },
    };
    let room = store.create(current_player);
    let resp = build_success(&room);
    proof {
        assert(create_room_post(
            (identity.verify.status_code(), identity.verify_body@, identity.profile_body@),
            old(store)@,
            store@,
            Ok::<Seq<char>, u16>(resp@),
        ));
    }
    Ok(resp)
}

/// What handling a join-room command does.  The room is found by its public
/// join code; a member joining again gets the room unchanged; a full room
/// rejects the membership; otherwise the player list is re-serialized with
/// the caller appended and written back under the room's private id.
#[verifier::opaque]
pub open spec fn join_room_post(
    identity: (u16, FetchOutcomeV, FetchOutcomeV),
    room_id: Seq<char>,
    s0: Seq<(Seq<char>, RoomHashV)>,
    s1: Seq<(Seq<char>, RoomHashV)>,
    r: Result<Seq<char>, u16>,
) -> bool {
    if identity.0 != 200 {
        r == Err::<Seq<char>, u16>(identity.0) && s1 == s0
    } else {
        match authorize_view(identity.1, identity.2) {
            Err(c) => r == Err::<Seq<char>, u16>(c) && s1 == s0,
            Ok(p) => match spec_parse_dec(room_id, u32::MAX as int) {
                Option::None => r == Err::<Seq<char>, u16>(crate::ws_status::UNAUTHORIZED) && s1
                    == s0,
                Option::Some(code) => match store_lookup_public(s0, code as u32) {
                    Option::None => r == Err::<Seq<char>, u16>(crate::ws_status::UNAUTHORIZED)
                        && s1 == s0,
                    Option::Some(room) => if has_suid(room.players, p.player.suid) {
                        r == Ok::<Seq<char>, u16>(success_envelope(room)) && s1 == s0
                    } else if room.players.len() >= room.max_players {
                        r == Err::<Seq<char>, u16>(crate::ws_status::UNAUTHORIZED) && s1 == s0
                    } else {
                        let joined = RoomV { players: room.players.push(p), ..room };
                        match store_lookup(s0, room.private_id) {
                            Option::None => r == Err::<Seq<char>, u16>(
                                crate::ws_status::ROOM_UPDATE_PLAYERS,
                            ) && s1 == s0,
                            Option::Some(h) => match h.players {
                                Option::None => r == Err::<Seq<char>, u16>(
                                    crate::ws_status::ROOM_UPDATE_PLAYERS,
                                ) && s1 == s0,
                                Option::Some(blob) => match dec_players(blob) {
                                    Option::None => r == Err::<Seq<char>, u16>(
                                        crate::ws_status::ROOM_UPDATE_PLAYERS,
                                    ) && s1 == s0,
                                    Option::Some(ps) => {
                                        &&& r == Ok::<Seq<char>, u16>(success_envelope(joined))
                                        &&& store_lookup(s1, room.private_id) == Some(
                                            (RoomHashV {
                                                players: Some(enc_players(ps.push(p))),
                                                ..h
                                            }),
                                        )
                                        &&& forall|k: Seq<char>| k != room.private_id
                                            ==> store_lookup(s1, k) == store_lookup(s0, k)
                                    },
                                },
                            },
                        }
                    },
                },
            },
        }
    }
}

/// Handles a join-room command; exactly [`join_room_post`].
pub fn join_room(
    request: &JoinRoomRequestData,
    store: &mut RoomStore,
    identity: &IdentityOutcomes,
) -> (r: Result<String, u16>)
    ensures
        ({
            let rv = match r {
                Ok(s) => Ok::<Seq<char>, u16>(s@),
                Err(c) => Err::<Seq<char>, u16>(c),
            };
            join_room_post(
                (identity.verify.status_code(), identity.verify_body@, identity.profile_body@),
                request.room_id@,
                old(store)@,
                final(store)@,
                rv,
            )
        }),
{
    proof {
        reveal(join_room_post);
    }
    let status: u16 = PlayerRedisWrapper::check_auth(&identity.verify);
    if status != 200 {
        return Err(status);
    }
    let current_player = match crate::req_utils::authorize_player(
        &identity.verify_body,
        &identity.profile_body,
    ) {
        Ok(player) => player,
        Err(status) => {
            return Err(status);
        },
    };
    let id_chars = string_to_chars(request.room_id.as_str());
    let code = match crate::strutil::parse_dec(&id_chars, 0xFFFF_FFFF) {
        Option::Some(v) => v as u32,
        Option::None => {
            return Err(crate::ws_status::UNAUTHORIZED);
        },
    };
    let mut room = match store.load_by_public_id(code) {
        Option::Some(room) => room,
        Option::None => {
            return Err(crate::ws_status::UNAUTHORIZED);
        },
    };
    if room.contains_suid(&current_player.player.suid) {
        let resp = build_success(&room);
        return Ok(resp);
    }
    let ghost loaded = room@;
    let ghost pv = current_player@;
    match room.add_player(current_player.clone()) {
        Ok(()) => {},
        Err(()) => {
            return Err(crate::ws_status::UNAUTHORIZED);
        },
    }
    proof {
        assert(room@ == (RoomV { players: loaded.players.push(pv), ..loaded }));
    }
    match store.append_player(&room.private_id, &current_player) {
        Ok(()) => {},
        Err(()) => {
            return Err(crate::ws_status::ROOM_UPDATE_PLAYERS);
        },
    }
    let resp = build_success(&room);
    Ok(resp)
}

/// The text of the one response a handled command produces: the success
/// envelope the handler built, or the failure envelope of its status.
pub open spec fn response_text(res: Result<Seq<char>, u16>) -> Seq<char> {
    match res {
        Ok(s) => s,
        Err(c) => failure_envelope(c),
    }
}

/// Turns one inbound frame into one outbound frame addressed back to its
/// sender.  A frame that does not parse as a known command yields `Err` and
/// no response: the caller tears the connection down.  A known command is
/// handled against the store, and exactly one response -- the handled
/// command's outcome as an envelope -- is handed to the registry for the
/// originating connection; a sender whose connection has meanwhile closed
/// is not retried.
#[verifier::rlimit(100)]
#[verifier::spinoff_prover]
pub fn handle_req(
    text: &String,
    registry: &mut ConnectionRegistry,
    current_connection: &String,
    store: &mut RoomStore,
    identity: &IdentityOutcomes,
) -> (r: Result<(), ()>)
    ensures
        request_of(text@) is None ==> r is Err && final(store)@ == old(store)@
            && final(registry).sent() == old(registry).sent(),
        request_of(text@) is Some ==> final(registry).ids() == old(registry).ids(),
        request_of(text@) matches Some(RequestV::CreateRoom { jwt }) ==> r is Ok && (exists|
            res: Result<Seq<char>, u16>,
        |
            create_room_post(
                (identity.verify.status_code(), identity.verify_body@, identity.profile_body@),
                old(store)@,
                final(store)@,
                res,
            ) && final(registry).sent() == old(registry).sent().push(
                (current_connection@, response_text(res)),
            )),
        request_of(text@) matches Some(RequestV::JoinRoom { jwt, room_id }) ==> r is Ok && (exists|
            res: Result<Seq<char>, u16>,
        |
            join_room_post(
                (identity.verify.status_code(), identity.verify_body@, identity.profile_body@),
                room_id,
                old(store)@,
                final(store)@,
                res,
            ) && final(registry).sent() == old(registry).sent().push(
                (current_connection@, response_text(res)),
            )),
{
    let request = match parse_request(text) {
        Ok(req) => req,
        Err(()) => {
            return Err(());
        },
    };
    let ghost idv = (identity.verify.status_code(), identity.verify_body@, identity.profile_body@);
    let ghost sent0 = registry.sent();
    match request {
        RequestJsonType::CreateRoom(data) => {
            let out = create_room(&data, store, identity);
            let ghost rv = match &out {
                Ok(s) => Ok::<Seq<char>, u16>(s@),
                Err(c) => Err::<Seq<char>, u16>(*c),
            };
            proof {
                assert(create_room_post(idv, old(store)@, store@, rv));
            }
            let response = match out {
                Ok(json) => json,
                Err(status) => build_failure(status),
            };
            proof {
                assert(response@ == response_text(rv));
            }
            let _delivery = registry.send(current_connection, response);
            proof {
                assert(registry.sent() == sent0.push((current_connection@, response_text(rv))));
                assert(exists|res: Result<Seq<char>, u16>|
                    create_room_post(
                        (
                            identity.verify.status_code(),
                            identity.verify_body@,
                            identity.profile_body@,
                        ),
                        old(store)@,
                        store@,
                        res,
                    ) && registry.sent() == sent0.push((current_connection@, response_text(res))));
            }
            Ok(())
        },
        RequestJsonType::JoinRoom(data) => {
            let out = join_room(&data, store, identity);
            let ghost rv = match &out {
                Ok(s) => Ok::<Seq<char>, u16>(s@),
                Err(c) => Err::<Seq<char>, u16>(*c),
            };
            proof {
                assert(join_room_post(idv, data.room_id@, old(store)@, store@, rv));
                assert(request_of(text@) == Some(
                    RequestV::JoinRoom { jwt: data.jwt@, room_id: data.room_id@ },
                ));
            }
            let response = match out {
                Ok(json) => json,
                Err(status) => build_failure(status),
            };
            proof {
                assert(response@ == response_text(rv));
            }
            let _delivery = registry.send(current_connection, response);
            proof {
                assert(registry.sent() == sent0.push((current_connection@, response_text(rv))));
                match request_of(text@) {
                    Option::Some(RequestV::JoinRoom { jwt: j2, room_id: rid2 }) => {
                        assert(rid2 == data.room_id@);
                        assert(join_room_post(
                            (
                                identity.verify.status_code(),
                                identity.verify_body@,
                                identity.profile_body@,
                            ),
                            rid2,
                            old(store)@,
                            store@,
                            rv,
                        ));
                        assert(exists|res: Result<Seq<char>, u16>|
                            join_room_post(
                                (
                                    identity.verify.status_code(),
                                    identity.verify_body@,
                                    identity.profile_body@,
                                ),
                                rid2,
                                old(store)@,
                                store@,
                                res,
                            ) && registry.sent() == sent0.push(
                                (current_connection@, response_text(res)),
                            ));
                    },
                    _ => {},
                }
            }
            Ok(())
        },
    }
}

} // verus!
