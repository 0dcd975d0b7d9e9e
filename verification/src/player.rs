//! The player identity as the external identity service hands it out.

use vstd::prelude::*;
use crate::req_utils::TransportResult;

verus! {

/// Cumulative game statistics carried in a player's profile.
#[derive(Clone, Copy, Debug, PartialEq, Eq, Structural)]
pub struct GameStatistics {
    pub games_won: u32,
    pub games_played: u32,
    pub words_written: u32,
}

/// Mathematical model of a [`Player`].
#[verifier::ext_equal]
pub ghost struct PlayerV {
    pub suid: Seq<char>,
    pub username: Seq<char>,
    pub displayname: Seq<char>,
    pub statistics: GameStatistics,
}

/// A player's external identity: the stable unique identifier issued by the
/// identity service (the equality key), the names, and the statistics.
#[derive(Debug)]
pub struct Player {
    /// Stable unique identifier; the equality key for players.
    pub suid: String,
    /// Lowercase name, can be occupied by others.
    pub username: String,
    /// Name with special characters etc., displayed in normal circumstances.
    pub displayname: String,
    /// The player's statistics.
    pub statistics: GameStatistics,
}

impl View for Player {
    type V = PlayerV;

    open spec fn view(&self) -> PlayerV {
        PlayerV {
            suid: self.suid@,
            username: self.username@,
            displayname: self.displayname@,
            statistics: self.statistics,
        }
    }
}

impl Clone for Player {
    fn clone(&self) -> (res: Self)
        ensures
            res == *self,
    {
        Player {
            suid: self.suid.clone(),
            username: self.username.clone(),
            displayname: self.displayname.clone(),
            statistics: self.statistics,
        }
    }
}

impl PartialEq for Player {
    /// Two players are the same player exactly when their stable unique
    /// identifiers agree; names and statistics do not take part.
    fn eq(&self, other: &Self) -> bool {
        self.suid == other.suid
    }
}

impl vstd::std_specs::cmp::PartialEqSpecImpl for Player {
    open spec fn obeys_eq_spec() -> bool {
        true
    }

    open spec fn eq_spec(&self, other: &Self) -> bool {
        self.suid@ == other.suid@
    }
}

impl Default for GameStatistics {
    /// Every counter starts at zero.
    fn default() -> (res: Self)
        ensures
            res == (GameStatistics { games_won: 0, games_played: 0, words_written: 0 }),
    {
        GameStatistics { games_won: 0, games_played: 0, words_written: 0 }
    }
}

impl Default for Player {
    /// The blank profile: empty identifier and names, zeroed statistics.
    fn default() -> (res: Self)
        ensures
            res@.suid == Seq::<char>::empty(),
            res@.username == Seq::<char>::empty(),
            res@.displayname == Seq::<char>::empty(),
            res@.statistics == (GameStatistics { games_won: 0, games_played: 0, words_written: 0 }),
    {
        Player {
            suid: String::new(),
            username: String::new(),
            displayname: String::new(),
            statistics: GameStatistics::default(),
        }
    }
}

impl Player {
    /// A blank player, to be filled from a parsed profile.
    pub fn new() -> (res: Self)
        ensures
            res@.suid == Seq::<char>::empty(),
            res@.username == Seq::<char>::empty(),
            res@.displayname == Seq::<char>::empty(),
            res@.statistics == (GameStatistics { games_won: 0, games_played: 0, words_written: 0 }),
    {
        Player::default()
    }

    /// Binary deserialization for transport in websocket tunnels and the
    /// store: succeeds exactly on a complete, well-formed player blob.
    pub fn from_bytes(input: &[u8]) -> (r: Result<Self, ()>)
        ensures
            r is Ok <==> crate::codec::dec_player(input@) is Some,
            r matches Ok(p) ==> crate::codec::dec_player(input@) == Some(p@),
    {
        match crate::codec::decode_player(input, 0) {
            Some((p, j)) => {
                if j == input.len() {
                    Ok(p)
                } else {
                    Err(())
                }
            },
            None => Err(()),
        }
    }

    /// Binary serialization for transport: the framed encoding of `self`.
    pub fn to_bytes(&self) -> (r: Result<Vec<u8>, ()>)
        ensures
            r matches Ok(b) && b@ == crate::codec::enc_player(self@),
            crate::codec::player_ok(self@),
    {
        let mut out: Vec<u8> = Vec::new();
        crate::codec::encode_player(self, &mut out);
        proof {
            assert(out@ =~= crate::codec::enc_player(self@));
        }
        Ok(out)
    }

    /// As [`Self::to_bytes`]; the encoding cannot fail, so nothing is
    /// checked.
    pub fn to_bytes_unchecked(&self) -> (b: Vec<u8>)
        ensures
            b@ == crate::codec::enc_player(self@),
            crate::codec::player_ok(self@),
    {
        let mut out: Vec<u8> = Vec::new();
        crate::codec::encode_player(self, &mut out);
        proof {
            assert(out@ =~= crate::codec::enc_player(self@));
        }
        out
    }

    /// Maps the outcome of the identity service's token-verification call to
    /// the status the auth delegate reports: a transport failure means the
    /// delegate was unreachable, anything else passes the HTTP status on.
    pub fn check_auth(outcome: &TransportResult) -> (status: u16)
        ensures
            status == outcome.status_code(),
    {
        match outcome {
            TransportResult::Failed => crate::ws_status::DELEGATE_UNREACHABLE,
            TransportResult::Status(s) => *s,
        }
    }
}

} // verus!
