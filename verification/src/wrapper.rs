//! The player as the room store and the connection layer carry it: the
//! external identity plus per-connection data that only lives while the
//! player is connected.

use vstd::prelude::*;
use crate::player::{GameStatistics, Player, PlayerV};
use crate::req_utils::TransportResult;

verus! {

/// Game data that only lives for the lifetime of a game.
#[derive(Clone, Copy, Debug)]
pub struct LocalGameData {
    /// Where on the start-screen whiteboard this player's sprite frame lies.
    pub board_position: [u8; 2],
}

/// Mathematical model of a [`PlayerRedisWrapper`].
#[verifier::ext_equal]
pub ghost struct WrapperV {
    pub player: PlayerV,
    pub board_position: Seq<u8>,
    pub socket_addr: Seq<char>,
}

/// A player as stored and transported by the lobby: the identity itself,
/// the per-game data, and the connection identifier under which the player
/// is registered while connected.
#[derive(Debug)]
pub struct PlayerRedisWrapper {
    /// The external identity.
    pub player: Player,
    /// Data stored temporarily for each game.
    pub local_data: LocalGameData,
    /// Connection identifier kept in the registry; used to find and remove
    /// the player when the connection closes.
    pub socket_addr: String,
}

impl View for PlayerRedisWrapper {
    type V = WrapperV;

    open spec fn view(&self) -> WrapperV {
        WrapperV {
            player: self.player@,
            board_position: self.local_data.board_position@,
            socket_addr: self.socket_addr@,
        }
    }
}

impl Clone for PlayerRedisWrapper {
    fn clone(&self) -> (res: Self)
        ensures
            res@ == self@,
    {
        PlayerRedisWrapper {
            player: self.player.clone(),
            local_data: self.local_data,
            socket_addr: self.socket_addr.clone(),
        }
    }
}

impl PartialEq for PlayerRedisWrapper {
    /// Wrapped players compare as the players they carry: by stable unique
    /// identifier alone.  The membership check of a room rests on this.
    fn eq(&self, other: &Self) -> bool {
        self.player.suid == other.player.suid
    }
}

impl vstd::std_specs::cmp::PartialEqSpecImpl for PlayerRedisWrapper {
    open spec fn obeys_eq_spec() -> bool {
        true
    }

    open spec fn eq_spec(&self, other: &Self) -> bool {
        self.player.suid@ == other.player.suid@
    }
}

impl Default for LocalGameData {
    /// The board origin.
    fn default() -> (res: Self)
        ensures
            res.board_position@ == seq![0u8, 0u8],
    {
        LocalGameData { board_position: [0, 0] }
    }
}

impl Default for PlayerRedisWrapper {
    /// A blank player at the board origin with no connection identifier.
    fn default() -> (res: Self)
        ensures
            res@.player.suid == Seq::<char>::empty(),
            res@.player.username == Seq::<char>::empty(),
            res@.player.displayname == Seq::<char>::empty(),
            res@.player.statistics == (GameStatistics { games_won: 0, games_played: 0, words_written: 0 }),
            res@.board_position == seq![0u8, 0u8],
            res@.socket_addr == Seq::<char>::empty(),
    {
        PlayerRedisWrapper {
            player: Player::default(),
            local_data: LocalGameData::default(),
            socket_addr: String::new(),
        }
    }
}

impl PlayerRedisWrapper {
    /// A blank wrapped player, to be filled from a parsed profile.
    pub fn new() -> (res: Self)
        ensures
            res@.player.suid == Seq::<char>::empty(),
            res@.socket_addr == Seq::<char>::empty(),
    {
        PlayerRedisWrapper::default()
    }

    /// Binary deserialization for transport in websocket tunnels and the
    /// store: succeeds exactly on a complete, well-formed blob.
    pub fn from_bytes(input: &[u8]) -> (r: Result<Self, ()>)
        ensures
            r is Ok <==> crate::codec::dec_wrapper(input@) is Some,
            r matches Ok(w) ==> crate::codec::dec_wrapper(input@) == Some(w@),
    {
        match crate::codec::decode_wrapper(input, 0) {
            Some((w, j)) => {
                if j == input.len() {
                    Ok(w)
                } else {
                    Err(())
                }
            },
            None => Err(()),
        }
    }

    /// Binary serialization for transport: the framed encoding of `self`.
    pub fn to_bytes(&self) -> (r: Result<Vec<u8>, ()>)
        ensures
            r matches Ok(b) && b@ == crate::codec::enc_wrapper(self@),
            crate::codec::wrapper_ok(self@),
    {
        let mut out: Vec<u8> = Vec::new();
        crate::codec::encode_wrapper(self, &mut out);
        proof {
            assert(out@ =~= crate::codec::enc_wrapper(self@));
        }
        Ok(out)
    }

    /// As [`Self::to_bytes`]; the encoding cannot fail, so nothing is
    /// checked.
    pub fn to_bytes_unchecked(&self) -> (b: Vec<u8>)
        ensures
            b@ == crate::codec::enc_wrapper(self@),
            crate::codec::wrapper_ok(self@),
    {
        let mut out: Vec<u8> = Vec::new();
        crate::codec::encode_wrapper(self, &mut out);
        proof {
            assert(out@ =~= crate::codec::enc_wrapper(self@));
        }
        out
    }

    /// Wraps a bare identity: per-game data and connection identifier start
    /// at their defaults.
    pub fn from_inner(player: Player) -> (res: Self)
        ensures
            res@.player == player@,
            res@.board_position == seq![0u8, 0u8],
            res@.socket_addr == Seq::<char>::empty(),
    {
        PlayerRedisWrapper {
            player,
            local_data: LocalGameData::default(),
            socket_addr: String::new(),
        }
    }

    /// Maps the outcome of the identity service's token-verification call to
    /// the status the auth delegate reports; see [`Player::check_auth`].
    pub fn check_auth(outcome: &TransportResult) -> (status: u16)
        ensures
            status == outcome.status_code(),
    {
        Player::check_auth(outcome)
    }
}

} // verus!
