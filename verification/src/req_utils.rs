//! Outcomes of the calls to the external identity service, and the
//! auth-delegation pipeline that turns them into a verified player profile.
//!
//! The network calls themselves happen outside the library; the caller hands
//! in what came back over the wire and the functions here make every
//! decision: status mapping, identifier extraction and profile parsing.

use vstd::prelude::*;
use crate::json::{obj_lookup, parse_object, FieldV, JsonField, JsonScalar, ScalarV};
use crate::player::{Player, PlayerV};
use crate::strutil::string_to_chars;
use crate::wrapper::{PlayerRedisWrapper, WrapperV};

verus! {

/// What a single HTTP round trip to the identity service produced, reduced
/// to the one thing the verification step reads: the response status.
#[derive(Clone, Debug)]
pub enum TransportResult {
    /// The request itself failed; the delegate was unreachable.
    Failed,
    /// The request completed with this HTTP status code.
    Status(u16),
}

impl TransportResult {
    /// The status code the auth delegate reports for this outcome.
    pub open spec fn status_code(&self) -> u16 {
        match self {
            TransportResult::Failed => crate::ws_status::DELEGATE_UNREACHABLE,
            TransportResult::Status(s) => *s,
        }
    }
}

/// What fetching a response body from the identity service produced.
#[derive(Clone, Debug)]
pub enum FetchOutcome {
    /// The request itself failed before any response arrived.
    RequestFailed,
    /// A response arrived but its body could not be read as text.
    BodyUnreadable,
    /// The response body, as text.
    Body(String),
}

/// Mathematical model of a [`FetchOutcome`].
pub ghost enum FetchOutcomeV {
    RequestFailed,
    BodyUnreadable,
    Body(Seq<char>),
}

impl View for FetchOutcome {
    type V = FetchOutcomeV;

    open spec fn view(&self) -> FetchOutcomeV {
        match self {
            FetchOutcome::RequestFailed => FetchOutcomeV::RequestFailed,
            FetchOutcome::BodyUnreadable => FetchOutcomeV::BodyUnreadable,
            FetchOutcome::Body(s) => FetchOutcomeV::Body(s@),
        }
    }
}

/// Everything the identity service answered while one command was handled:
/// the verification status, the verification body carrying the caller's
/// identifier, and the profile body.
#[derive(Debug)]
pub struct IdentityOutcomes {
    pub verify: TransportResult,
    pub verify_body: FetchOutcome,
    pub profile_body: FetchOutcome,
}

/// The identifier inside a token-verification body: the `suid` string field
/// of the body's JSON object.
pub open spec fn suid_of_body(text: Seq<char>) -> Option<Seq<char>> {
    match parse_object(text) {
        Option::None => None,
        Option::Some(m) => match obj_lookup(m, "suid"@) {
            Option::Some(FieldV::Scalar(ScalarV::Str(s))) => Some(s),
            _ => None,
        },
    }
}

/// The player inside a profile body: the three name strings and the three
/// statistics counters, each counter within `u32`.
pub open spec fn player_of_profile(text: Seq<char>) -> Option<PlayerV> {
    match parse_object(text) {
        Option::None => None,
        Option::Some(m) => {
            let suid = obj_lookup(m, "suid"@);
            let username = obj_lookup(m, "username"@);
            let displayname = obj_lookup(m, "displayname"@);
            let stats = obj_lookup(m, "statistics"@);
            if suid matches Some(FieldV::Scalar(ScalarV::Str(_)))
                && username matches Some(FieldV::Scalar(ScalarV::Str(_)))
                && displayname matches Some(FieldV::Scalar(ScalarV::Str(_)))
                && stats matches Some(FieldV::Obj(_)) {
                let sm = stats.unwrap()->Obj_0;
                let won = crate::json::inner_lookup(sm, "games_won"@);
                let played = crate::json::inner_lookup(sm, "games_played"@);
                let written = crate::json::inner_lookup(sm, "words_written"@);
                if (won matches Some(ScalarV::UInt(w)) && w <= u32::MAX) && (played matches Some(
                    ScalarV::UInt(p),
                ) && p <= u32::MAX) && (written matches Some(ScalarV::UInt(x)) && x <= u32::MAX) {
                    Some(
                        PlayerV {
                            suid: suid.unwrap()->Scalar_0->Str_0,
                            username: username.unwrap()->Scalar_0->Str_0,
                            displayname: displayname.unwrap()->Scalar_0->Str_0,
                            statistics: crate::player::GameStatistics {
                                games_won: (won.unwrap()->UInt_0) as u32,
                                games_played: (played.unwrap()->UInt_0) as u32,
                                words_written: (written.unwrap()->UInt_0) as u32,
                            },
                        },
                    )
                } else {
                    None
                }
            } else {
                None
            }
        },
    }
}

/// What resolving the caller's identifier from the verification call's
/// outcome yields: the identifier, or the status of the failing sub-step.
pub open spec fn resolve_suid_view(verify_body: FetchOutcomeV) -> Result<Seq<char>, u16> {
    match verify_body {
        FetchOutcomeV::RequestFailed => Err(crate::ws_status::PARSE_ACCOUNT_API_RES),
        FetchOutcomeV::BodyUnreadable => Err(crate::ws_status::UNAUTHORIZED),
        FetchOutcomeV::Body(t) => match suid_of_body(t) {
            Option::None => Err(crate::ws_status::PARSE_ACCOUNT_API_RES_TEXT),
            Option::Some(s) => Ok(s),
        },
    }
}

/// What the whole auth delegation yields: a verified, freshly wrapped
/// player profile, or the status of the failing sub-step.
pub open spec fn authorize_view(verify_body: FetchOutcomeV, profile_body: FetchOutcomeV) -> Result<
    WrapperV,
    u16,
> {
    match resolve_suid_view(verify_body) {
        Err(c) => Err(c),
        Ok(_) => match profile_body {
            FetchOutcomeV::Body(p) => match player_of_profile(p) {
                Option::Some(pl) => Ok(
                    WrapperV {
                        player: pl,
                        board_position: seq![0u8, 0u8],
                        socket_addr: Seq::<char>::empty(),
                    },
                ),
                Option::None => Err(crate::ws_status::PLAYER_PARSE),
            },
            _ => Err(crate::ws_status::PLAYER_PARSE),
        },
    }
}

/// Extracts the caller's stable identifier from the token-verification
/// response; exactly [`resolve_suid_view`].  The caller fetches the profile
/// under this identifier before finishing the delegation with
/// [`authorize_player`].
pub fn resolve_suid(verify_body: &FetchOutcome) -> (r: Result<String, u16>)
    ensures
        ({
            let spec_r = resolve_suid_view(verify_body@);
            match r {
                Ok(s) => spec_r == Ok::<Seq<char>, u16>(s@),
                Err(c) => spec_r == Err::<Seq<char>, u16>(c),
            }
        }),
{
    let text = match verify_body {
        FetchOutcome::RequestFailed => {
            return Err(crate::ws_status::PARSE_ACCOUNT_API_RES);
        },
        FetchOutcome::BodyUnreadable => {
            return Err(crate::ws_status::UNAUTHORIZED);
        },
        FetchOutcome::Body(t) => t,
    };
    let chars = string_to_chars(text.as_str());
    let obj = match crate::json::parse_object_x(&chars) {
        Option::Some(m) => m,
        Option::None => {
            return Err(crate::ws_status::PARSE_ACCOUNT_API_RES_TEXT);
        },
    };
    let key = String::from_str("suid");
    match crate::json::obj_get(&obj, &key) {
        Option::Some(JsonField::Scalar(JsonScalar::Str(s))) => Ok(s.clone()),
        _ => Err(crate::ws_status::PARSE_ACCOUNT_API_RES_TEXT),
    }
}

/// Parses a profile body as a player; exactly [`player_of_profile`].
pub fn parse_player_profile(text: &String) -> (r: Option<Player>)
    ensures
        r is Some <==> player_of_profile(text@) is Some,
        r matches Some(p) ==> player_of_profile(text@) == Some(p@),
{
    let chars = string_to_chars(text.as_str());
    let obj = match crate::json::parse_object_x(&chars) {
        Option::Some(m) => m,
        Option::None => {
            return None;
        },
    };
    let suid = match crate::json::obj_get(&obj, &String::from_str("suid")) {
        Option::Some(JsonField::Scalar(JsonScalar::Str(s))) => s.clone(),
        _ => {
            return None;
        },
    };
    let username = match crate::json::obj_get(&obj, &String::from_str("username")) {
        Option::Some(JsonField::Scalar(JsonScalar::Str(s))) => s.clone(),
        _ => {
            return None;
        },
    };
    let displayname = match crate::json::obj_get(&obj, &String::from_str("displayname")) {
        Option::Some(JsonField::Scalar(JsonScalar::Str(s))) => s.clone(),
        _ => {
            return None;
        },
    };
    let stats = match crate::json::obj_get(&obj, &String::from_str("statistics")) {
        Option::Some(JsonField::Obj(m)) => m,
        _ => {
            return None;
        },
    };
    let games_won = match crate::json::inner_get(stats, &String::from_str("games_won")) {
        Option::Some(JsonScalar::UInt(v)) => {
            if *v <= 0xFFFF_FFFF {
                *v as u32
            } else {
                return None;
            }
        },
        _ => {
            return None;
        },
    };
    let games_played = match crate::json::inner_get(stats, &String::from_str("games_played")) {
        Option::Some(JsonScalar::UInt(v)) => {
            if *v <= 0xFFFF_FFFF {
                *v as u32
            } else {
                return None;
            }
        },
        _ => {
            return None;
        },
    };
    let words_written = match crate::json::inner_get(stats, &String::from_str("words_written")) {
        Option::Some(JsonScalar::UInt(v)) => {
            if *v <= 0xFFFF_FFFF {
                *v as u32
            } else {
                return None;
            }
        },
        _ => {
            return None;
        },
    };
    let p = Player {
        suid,
        username,
        displayname,
        statistics: crate::player::GameStatistics { games_won, games_played, words_written },
    };
    proof {
        assert(p@ =~= player_of_profile(text@).unwrap());
    }
    Some(p)
}

/// The auth delegation, decided from what came back over the wire: resolve
/// the caller's identifier from the verification body, then the profile
/// body as a player, and wrap it; exactly [`authorize_view`].
pub fn authorize_player(verify_body: &FetchOutcome, profile_body: &FetchOutcome) -> (r: Result<
    PlayerRedisWrapper,
    u16,
>)
    ensures
        ({
            let spec_r = authorize_view(verify_body@, profile_body@);
            match r {
                Ok(w) => spec_r == Ok::<WrapperV, u16>(w@),
                Err(c) => spec_r == Err::<WrapperV, u16>(c),
            }
        }),
{
    match resolve_suid(verify_body) {
        Err(c) => {
            return Err(c);
        },
        Ok(_suid) => {},
    }
    let profile = match profile_body {
        FetchOutcome::Body(t) => t,
        _ => {
            return Err(crate::ws_status::PLAYER_PARSE);
        },
    };
    match parse_player_profile(profile) {
        Option::Some(player) => {
            let w = PlayerRedisWrapper::from_inner(player);
            proof {
                assert(w@ =~= authorize_view(verify_body@, profile_body@).unwrap());
            }
            Ok(w)
        },
        Option::None => Err(crate::ws_status::PLAYER_PARSE),
    }
}

} // verus!
