//! The binary framing of players for the persistence backend's blob field.
//!
//! A player list is stored as one length-prefixed binary blob: every number
//! is little-endian, every string is its character count (8 bytes) followed
//! by one 4-byte code point per character, and every list is its length
//! (8 bytes) followed by its items.  Decoding rejects any blob that is
//! truncated, carries an invalid code point, or has bytes left over.

use vstd::prelude::*;
use vstd::bytes::{
    spec_u32_from_le_bytes, spec_u32_to_le_bytes, spec_u64_from_le_bytes, spec_u64_to_le_bytes,
    lemma_auto_spec_u32_to_from_le_bytes, lemma_auto_spec_u64_to_from_le_bytes, u32_from_le_bytes,
    u32_to_le_bytes, u64_from_le_bytes, u64_to_le_bytes,
};
use crate::strutil::{char_code, char_from_u32, chars_to_string, is_scalar_value, string_to_chars,
    valid_char, valid_chars};
use crate::player::{GameStatistics, Player, PlayerV};
use crate::wrapper::{LocalGameData, PlayerRedisWrapper, WrapperV};

verus! {

/// The 4-byte little-endian encoding of `v`.
pub open spec fn enc_u32(v: u32) -> Seq<u8> {
    spec_u32_to_le_bytes(v)
}

/// The 8-byte little-endian encoding of `v`.
pub open spec fn enc_u64(v: u64) -> Seq<u8> {
    spec_u64_to_le_bytes(v)
}

/// Reads 4 little-endian bytes at `i`; the value and the next position.
pub open spec fn dec_u32_at(b: Seq<u8>, i: int) -> Option<(u32, int)> {
    if 0 <= i && i + 4 <= b.len() {
        Some((spec_u32_from_le_bytes(b.subrange(i, i + 4)), i + 4))
    } else {
        None
    }
}

/// Reads 8 little-endian bytes at `i`; the value and the next position.
pub open spec fn dec_u64_at(b: Seq<u8>, i: int) -> Option<(u64, int)> {
    if 0 <= i && i + 8 <= b.len() {
        Some((spec_u64_from_le_bytes(b.subrange(i, i + 8)), i + 8))
    } else {
        None
    }
}

/// The characters of `s`, each as its 4-byte code point.
pub open spec fn enc_chars(s: Seq<char>) -> Seq<u8>
    decreases s.len(),
{
    if s.len() == 0 {
        Seq::<u8>::empty()
    } else {
        enc_u32(s[0] as u32) + enc_chars(s.drop_first())
    }
}

/// A string: its character count, then its characters.
pub open spec fn enc_str(s: Seq<char>) -> Seq<u8> {
    enc_u64(s.len() as u64) + enc_chars(s)
}

/// Reads `count` code points at `i`; rejects any that is no Unicode scalar
/// value.
pub open spec fn dec_chars_at(b: Seq<u8>, i: int, count: int) -> Option<(Seq<char>, int)>
    decreases count,
{
    if count <= 0 {
        Some((Seq::<char>::empty(), i))
    } else {
        match dec_u32_at(b, i) {
            Option::None => None,
            Option::Some((code, j)) => if is_scalar_value(code) {
                match dec_chars_at(b, j, count - 1) {
                    Option::None => None,
                    Option::Some((rest, k)) => Some((seq![code as char] + rest, k)),
                }
            } else {
                None
            },
        }
    }
}

/// Reads a length-prefixed string at `i`.
pub open spec fn dec_str_at(b: Seq<u8>, i: int) -> Option<(Seq<char>, int)> {
    match dec_u64_at(b, i) {
        Option::None => None,
        Option::Some((n, j)) => dec_chars_at(b, j, n as int),
    }
}

/// Whether `s` can be framed and recovered: its characters are Unicode
/// scalar values and its length fits the 8-byte count.
pub open spec fn str_ok(s: Seq<char>) -> bool {
    valid_chars(s) && s.len() <= u64::MAX
}

/// The character encoding takes 4 bytes per character.
pub proof fn lemma_enc_chars_len(s: Seq<char>)
    ensures
        enc_chars(s).len() == 4 * s.len(),
    decreases s.len(),
{
    lemma_auto_spec_u32_to_from_le_bytes();
    if s.len() > 0 {
        lemma_enc_chars_len(s.drop_first());
    }
}

/// Appending one character appends its 4 bytes.
pub proof fn lemma_enc_chars_push(s: Seq<char>, c: char)
    ensures
        enc_chars(s.push(c)) == enc_chars(s) + enc_u32(c as u32),
    decreases s.len(),
{
    lemma_auto_spec_u32_to_from_le_bytes();
    if s.len() == 0 {
        assert(s.push(c).drop_first() =~= Seq::<char>::empty());
        assert(s.push(c)[0] == c);
        assert(enc_u32(c as u32).len() == 4);
        assert(enc_chars(Seq::<char>::empty()) =~= Seq::<u8>::empty());
        assert(enc_chars(s) =~= Seq::<u8>::empty());
        assert(enc_chars(s.push(c)) == enc_u32(c as u32) + enc_chars(s.push(c).drop_first()));
        assert(enc_chars(s.push(c)) =~= enc_chars(s) + enc_u32(c as u32));
    } else {
        assert(s.push(c).drop_first() =~= s.drop_first().push(c));
        lemma_enc_chars_push(s.drop_first(), c);
        assert(s.push(c)[0] == s[0]);
        assert(enc_chars(s.push(c)) =~= enc_chars(s) + enc_u32(c as u32));
    }
}

/// Reading 4 bytes where an encoded value sits yields that value.
pub proof fn lemma_dec_u32_of_enc(b: Seq<u8>, i: int, v: u32)
    requires
        0 <= i,
        i + 4 <= b.len(),
        b.subrange(i, i + 4) == enc_u32(v),
    ensures
        dec_u32_at(b, i) == Some((v, i + 4)),
{
    lemma_auto_spec_u32_to_from_le_bytes();
    assert(spec_u32_to_le_bytes(v).len() == 4);
    assert(spec_u32_from_le_bytes(spec_u32_to_le_bytes(v)) == v);
}

/// Reading 8 bytes where an encoded value sits yields that value.
pub proof fn lemma_dec_u64_of_enc(b: Seq<u8>, i: int, v: u64)
    requires
        0 <= i,
        i + 8 <= b.len(),
        b.subrange(i, i + 8) == enc_u64(v),
    ensures
        dec_u64_at(b, i) == Some((v, i + 8)),
{
    lemma_auto_spec_u64_to_from_le_bytes();
    assert(spec_u64_to_le_bytes(v).len() == 8);
    assert(spec_u64_from_le_bytes(spec_u64_to_le_bytes(v)) == v);
}

/// Reading characters where encoded characters sit yields them back.
pub proof fn lemma_dec_chars_of_enc(b: Seq<u8>, i: int, s: Seq<char>)
    requires
        valid_chars(s),
        0 <= i,
        i + 4 * s.len() <= b.len(),
        b.subrange(i, i + 4 * s.len()) == enc_chars(s),
    ensures
        dec_chars_at(b, i, s.len() as int) == Some((s, i + 4 * s.len())),
    decreases s.len(),
{
    lemma_enc_chars_len(s);
    if s.len() == 0 {
    } else {
        let c = s[0];
        let rest = s.drop_first();
        lemma_enc_chars_len(rest);
        assert(b.subrange(i, i + 4) =~= b.subrange(i, i + 4 * s.len()).subrange(0, 4));
        assert(b.subrange(i, i + 4) == enc_u32(c as u32)) by {
            assert(enc_chars(s).subrange(0, 4) =~= enc_u32(c as u32)) by {
                lemma_auto_spec_u32_to_from_le_bytes();
            }
        }
        lemma_dec_u32_of_enc(b, i, c as u32);
        assert(is_scalar_value(c as u32));
        assert((c as u32) as char == c);
        assert(b.subrange(i + 4, i + 4 + 4 * rest.len()) =~= b.subrange(
            i,
            i + 4 * s.len(),
        ).subrange(4, 4 + 4 * rest.len() as int));
        assert(b.subrange(i + 4, i + 4 + 4 * rest.len()) =~= enc_chars(rest)) by {
            assert(enc_chars(s).subrange(4, 4 + 4 * rest.len() as int) =~= enc_chars(rest)) by {
                lemma_auto_spec_u32_to_from_le_bytes();
            }
        }
        lemma_dec_chars_of_enc(b, i + 4, rest);
        assert(seq![(c as u32) as char] + rest =~= s);
    }
}

/// Reading a string where an encoded string sits yields it back.
pub proof fn lemma_dec_str_of_enc(b: Seq<u8>, i: int, s: Seq<char>)
    requires
        str_ok(s),
        0 <= i,
        i + 8 + 4 * s.len() <= b.len(),
        b.subrange(i, i + 8 + 4 * s.len()) == enc_str(s),
    ensures
        dec_str_at(b, i) == Some((s, i + 8 + 4 * s.len())),
{
    lemma_enc_chars_len(s);
    lemma_auto_spec_u64_to_from_le_bytes();
    assert(b.subrange(i, i + 8) =~= b.subrange(i, i + 8 + 4 * s.len()).subrange(0, 8));
    assert(b.subrange(i, i + 8) =~= enc_u64(s.len() as u64)) by {
        assert(enc_str(s).subrange(0, 8) =~= enc_u64(s.len() as u64));
    }
    lemma_dec_u64_of_enc(b, i, s.len() as u64);
    assert(b.subrange(i + 8, i + 8 + 4 * s.len()) =~= b.subrange(i, i + 8 + 4 * s.len()).subrange(
        8,
        8 + 4 * s.len() as int,
    ));
    assert(b.subrange(i + 8, i + 8 + 4 * s.len()) =~= enc_chars(s)) by {
        assert(enc_str(s).subrange(8, 8 + 4 * s.len() as int) =~= enc_chars(s));
    }
    lemma_dec_chars_of_enc(b, i + 8, s);
}

/// Appends the 4-byte encoding of `v` to `out`.
pub fn encode_u32(v: u32, out: &mut Vec<u8>)
    ensures
        final(out)@ == old(out)@ + enc_u32(v),
{
    let mut bytes = u32_to_le_bytes(v);
    out.append(&mut bytes);
}

/// Appends the 8-byte encoding of `v` to `out`.
pub fn encode_u64(v: u64, out: &mut Vec<u8>)
    ensures
        final(out)@ == old(out)@ + enc_u64(v),
{
    let mut bytes = u64_to_le_bytes(v);
    out.append(&mut bytes);
}

/// Appends the framed encoding of `s` to `out`.
pub fn encode_string(s: &String, out: &mut Vec<u8>)
    ensures
        final(out)@ == old(out)@ + enc_str(s@),
        str_ok(s@),
{
    let ghost base = out@;
    let cs = string_to_chars(s.as_str());
    let n = cs.len();
    encode_u64(n as u64, out);
    let mut i: usize = 0;
    while i < n
        invariant
            i <= n,
            n == cs@.len(),
            cs@ == s@,
            valid_chars(s@),
            out@ == base + enc_u64(n as u64) + enc_chars(cs@.take(i as int)),
        decreases n - i,
    {
        let code = char_code(cs[i]);
        encode_u32(code, out);
        proof {
            assert(cs@.take(i + 1) =~= cs@.take(i as int).push(cs@[i as int]));
            lemma_enc_chars_push(cs@.take(i as int), cs@[i as int]);
            assert(out@ =~= base + enc_u64(n as u64) + enc_chars(cs@.take(i + 1)));
        }
        i += 1;
    }
    proof {
        assert(cs@.take(n as int) =~= cs@);
        assert(out@ =~= base + enc_str(s@));
    }
}

/// Reads 4 little-endian bytes of `b` at `i`; exactly [`dec_u32_at`].
pub fn decode_u32(b: &[u8], i: usize) -> (r: Option<(u32, usize)>)
    requires
        i <= b@.len(),
    ensures
        r is Some <==> dec_u32_at(b@, i as int) is Some,
        r matches Some((v, j)) ==> dec_u32_at(b@, i as int) == Some((v, j as int)) && j <= b@.len(),
{
    if b.len() - i >= 4 {
        let mut tmp: Vec<u8> = Vec::new();
        tmp.push(b[i]);
        tmp.push(b[i + 1]);
        tmp.push(b[i + 2]);
        tmp.push(b[i + 3]);
        proof {
            assert(tmp@ =~= b@.subrange(i as int, i + 4));
        }
        let v = u32_from_le_bytes(tmp.as_slice());
        Some((v, i + 4))
    } else {
        None
    }
}

/// Reads 8 little-endian bytes of `b` at `i`; exactly [`dec_u64_at`].
pub fn decode_u64(b: &[u8], i: usize) -> (r: Option<(u64, usize)>)
    requires
        i <= b@.len(),
    ensures
        r is Some <==> dec_u64_at(b@, i as int) is Some,
        r matches Some((v, j)) ==> dec_u64_at(b@, i as int) == Some((v, j as int)) && j <= b@.len(),
{
    if b.len() - i >= 8 {
        let mut tmp: Vec<u8> = Vec::new();
        tmp.push(b[i]);
        tmp.push(b[i + 1]);
        tmp.push(b[i + 2]);
        tmp.push(b[i + 3]);
        tmp.push(b[i + 4]);
        tmp.push(b[i + 5]);
        tmp.push(b[i + 6]);
        tmp.push(b[i + 7]);
        proof {
            assert(tmp@ =~= b@.subrange(i as int, i + 8));
        }
        let v = u64_from_le_bytes(tmp.as_slice());
        Some((v, i + 8))
    } else {
        None
    }
}

/// Reads a length-prefixed string of `b` at `i`; exactly [`dec_str_at`].
pub fn decode_string(b: &[u8], i: usize) -> (r: Option<(String, usize)>)
    requires
        i <= b@.len(),
    ensures
        r is Some <==> dec_str_at(b@, i as int) is Some,
        r matches Some((s, j)) ==> dec_str_at(b@, i as int) == Some((s@, j as int)) && j <= b@.len(),
{
    let (count, start) = match decode_u64(b, i) {
        Option::Some(p) => p,
        Option::None => {
            return None;
        },
    };
    let ghost total = dec_chars_at(b@, start as int, count as int);
    let mut cs: Vec<char> = Vec::new();
    let mut t: u64 = 0;
    let mut cur: usize = start;
    while t < count
        invariant
            t <= count,
            cur <= b@.len(),
            dec_str_at(b@, i as int) == total,
            ({
                let rest = dec_chars_at(b@, cur as int, count - t);
                total == match rest {
                    Option::None => Option::<(Seq<char>, int)>::None,
                    Option::Some((s, k)) => Option::Some((cs@ + s, k)),
                }
            }),
        decreases count - t,
    {
        let (code, j) = match decode_u32(b, cur) {
            Option::Some(p) => p,
            Option::None => {
                proof {
                    assert(dec_chars_at(b@, cur as int, count - t) is None);
                }
                return None;
            },
        };
        let c = match char_from_u32(code) {
            Option::Some(c) => c,
            Option::None => {
                proof {
                    assert(dec_chars_at(b@, cur as int, count - t) is None);
                }
                return None;
            },
        };
        let ghost prev = cs@;
        cs.push(c);
        proof {
            let rest = dec_chars_at(b@, cur as int, count - t);
            let rest2 = dec_chars_at(b@, j as int, count - t - 1);
            if rest2 is Some {
                let (s2, k2) = rest2.unwrap();
                assert(rest == Some((seq![c] + s2, k2)));
                assert(prev + (seq![c] + s2) =~= cs@ + s2);
            }
        }
        cur = j;
        t = t + 1;
    }
    proof {
        assert(dec_chars_at(b@, cur as int, 0) == Some((Seq::<char>::empty(), cur as int)));
        assert(cs@ + Seq::<char>::empty() =~= cs@);
        assert(total == Some((cs@, cur as int)));
    }
    let s = chars_to_string(&cs);
    Some((s, cur))
}

/// Statistics: three 4-byte counters.
pub open spec fn enc_stats(st: GameStatistics) -> Seq<u8> {
    enc_u32(st.games_won) + enc_u32(st.games_played) + enc_u32(st.words_written)
}

/// Reads three counters at `i`.
pub open spec fn dec_stats_at(b: Seq<u8>, i: int) -> Option<(GameStatistics, int)> {
    match dec_u32_at(b, i) {
        Option::None => None,
        Option::Some((won, j)) => match dec_u32_at(b, j) {
            Option::None => None,
            Option::Some((played, k)) => match dec_u32_at(b, k) {
                Option::None => None,
                Option::Some((written, l)) => Some(
                    (GameStatistics { games_won: won, games_played: played, words_written: written }, l),
                ),
            },
        },
    }
}

/// A player: its three strings, then its statistics.
pub open spec fn enc_player(p: PlayerV) -> Seq<u8> {
    enc_str(p.suid) + enc_str(p.username) + enc_str(p.displayname) + enc_stats(p.statistics)
}

/// Reads a player at `i`.
pub open spec fn dec_player_at(b: Seq<u8>, i: int) -> Option<(PlayerV, int)> {
    match dec_str_at(b, i) {
        Option::None => None,
        Option::Some((suid, j)) => match dec_str_at(b, j) {
            Option::None => None,
            Option::Some((username, k)) => match dec_str_at(b, k) {
                Option::None => None,
                Option::Some((displayname, l)) => match dec_stats_at(b, l) {
                    Option::None => None,
                    Option::Some((st, m)) => Some(
                        (PlayerV { suid, username, displayname, statistics: st }, m),
                    ),
                },
            },
        },
    }
}

/// A wrapped player: the player, the two board bytes, the connection
/// identifier.
pub open spec fn enc_wrapper(w: WrapperV) -> Seq<u8> {
    enc_player(w.player) + w.board_position + enc_str(w.socket_addr)
}

/// Reads a wrapped player at `i`.
pub open spec fn dec_wrapper_at(b: Seq<u8>, i: int) -> Option<(WrapperV, int)> {
    match dec_player_at(b, i) {
        Option::None => None,
        Option::Some((p, j)) => if j + 2 <= b.len() {
            match dec_str_at(b, j + 2) {
                Option::None => None,
                Option::Some((sa, k)) => Some(
                    (
                        WrapperV {
                            player: p,
                            board_position: seq![b[j], b[j + 1]],
                            socket_addr: sa,
                        },
                        k,
                    ),
                ),
            }
        } else {
            None
        },
    }
}

/// A player list without its count prefix.
pub open spec fn enc_wrapper_seq(ps: Seq<WrapperV>) -> Seq<u8>
    decreases ps.len(),
{
    if ps.len() == 0 {
        Seq::<u8>::empty()
    } else {
        enc_wrapper(ps[0]) + enc_wrapper_seq(ps.drop_first())
    }
}

/// The blob a player list is stored as: its count, then its items.
pub open spec fn enc_players(ps: Seq<WrapperV>) -> Seq<u8> {
    enc_u64(ps.len() as u64) + enc_wrapper_seq(ps)
}

/// Reads `count` wrapped players at `i`.
pub open spec fn dec_wrappers_at(b: Seq<u8>, i: int, count: int) -> Option<(Seq<WrapperV>, int)>
    decreases count,
{
    if count <= 0 {
        Some((Seq::<WrapperV>::empty(), i))
    } else {
        match dec_wrapper_at(b, i) {
            Option::None => None,
            Option::Some((w, j)) => match dec_wrappers_at(b, j, count - 1) {
                Option::None => None,
                Option::Some((rest, k)) => Some((seq![w] + rest, k)),
            },
        }
    }
}

/// What a whole player-list blob decodes to: every byte must be consumed.
pub open spec fn dec_players(b: Seq<u8>) -> Option<Seq<WrapperV>> {
    match dec_u64_at(b, 0) {
        Option::None => None,
        Option::Some((n, j)) => match dec_wrappers_at(b, j, n as int) {
            Option::None => None,
            Option::Some((ps, k)) => if k == b.len() {
                Some(ps)
            } else {
                None
            },
        },
    }
}

/// What a whole single-player blob decodes to: every byte must be consumed.
pub open spec fn dec_player(b: Seq<u8>) -> Option<PlayerV> {
    match dec_player_at(b, 0) {
        Option::None => None,
        Option::Some((p, j)) => if j == b.len() {
            Some(p)
        } else {
            None
        },
    }
}

/// What a whole wrapped-player blob decodes to: every byte must be consumed.
pub open spec fn dec_wrapper(b: Seq<u8>) -> Option<WrapperV> {
    match dec_wrapper_at(b, 0) {
        Option::None => None,
        Option::Some((w, j)) => if j == b.len() {
            Some(w)
        } else {
            None
        },
    }
}

/// Whether a player can be framed and recovered.
pub open spec fn player_ok(p: PlayerV) -> bool {
    str_ok(p.suid) && str_ok(p.username) && str_ok(p.displayname)
}

/// Whether a wrapped player can be framed and recovered.
pub open spec fn wrapper_ok(w: WrapperV) -> bool {
    player_ok(w.player) && str_ok(w.socket_addr) && w.board_position.len() == 2
}

/// Whether a player list can be framed and recovered.
pub open spec fn players_ok(ps: Seq<WrapperV>) -> bool {
    (forall|i: int| 0 <= i < ps.len() ==> wrapper_ok(#[trigger] ps[i])) && ps.len() <= u64::MAX
}

/// Reading a player where an encoded player sits yields it back.
pub proof fn lemma_dec_player_of_enc(b: Seq<u8>, i: int, p: PlayerV)
    requires
        player_ok(p),
        0 <= i,
        i + enc_player(p).len() <= b.len(),
        b.subrange(i, i + enc_player(p).len()) == enc_player(p),
    ensures
        dec_player_at(b, i) == Some((p, i + enc_player(p).len())),
{
    lemma_auto_spec_u32_to_from_le_bytes();
    lemma_auto_spec_u64_to_from_le_bytes();
    lemma_enc_chars_len(p.suid);
    lemma_enc_chars_len(p.username);
    lemma_enc_chars_len(p.displayname);
    let e = enc_player(p);
    let s1 = 8 + 4 * p.suid.len() as int;
    let s2 = 8 + 4 * p.username.len() as int;
    let s3 = 8 + 4 * p.displayname.len() as int;
    assert(b.subrange(i, i + s1) =~= e.subrange(0, s1));
    assert(e.subrange(0, s1) =~= enc_str(p.suid));
    lemma_dec_str_of_enc(b, i, p.suid);
    assert(b.subrange(i + s1, i + s1 + s2) =~= e.subrange(s1, s1 + s2));
    assert(e.subrange(s1, s1 + s2) =~= enc_str(p.username));
    lemma_dec_str_of_enc(b, i + s1, p.username);
    assert(b.subrange(i + s1 + s2, i + s1 + s2 + s3) =~= e.subrange(s1 + s2, s1 + s2 + s3));
    assert(e.subrange(s1 + s2, s1 + s2 + s3) =~= enc_str(p.displayname));
    lemma_dec_str_of_enc(b, i + s1 + s2, p.displayname);
    let t = i + s1 + s2 + s3;
    assert(b.subrange(t, t + 4) =~= e.subrange(s1 + s2 + s3, s1 + s2 + s3 + 4));
    assert(e.subrange(s1 + s2 + s3, s1 + s2 + s3 + 4) =~= enc_u32(p.statistics.games_won));
    lemma_dec_u32_of_enc(b, t, p.statistics.games_won);
    assert(b.subrange(t + 4, t + 8) =~= e.subrange(s1 + s2 + s3 + 4, s1 + s2 + s3 + 8));
    assert(e.subrange(s1 + s2 + s3 + 4, s1 + s2 + s3 + 8) =~= enc_u32(p.statistics.games_played));
    lemma_dec_u32_of_enc(b, t + 4, p.statistics.games_played);
    assert(b.subrange(t + 8, t + 12) =~= e.subrange(s1 + s2 + s3 + 8, s1 + s2 + s3 + 12));
    assert(e.subrange(s1 + s2 + s3 + 8, s1 + s2 + s3 + 12) =~= enc_u32(p.statistics.words_written));
    lemma_dec_u32_of_enc(b, t + 8, p.statistics.words_written);
    assert(dec_player_at(b, i) == Some((p, i + enc_player(p).len())));
}

/// Each item's bytes take at least 30 bytes, so positions advance.
pub proof fn lemma_enc_wrapper_len(w: WrapperV)
    ensures
        enc_wrapper(w).len() == enc_player(w.player).len() + w.board_position.len()
            + 8 + 4 * w.socket_addr.len(),
        enc_player(w.player).len() == 36 + 4 * w.player.suid.len() + 4 * w.player.username.len()
            + 4 * w.player.displayname.len(),
{
    lemma_auto_spec_u32_to_from_le_bytes();
    lemma_auto_spec_u64_to_from_le_bytes();
    lemma_enc_chars_len(w.player.suid);
    lemma_enc_chars_len(w.player.username);
    lemma_enc_chars_len(w.player.displayname);
    lemma_enc_chars_len(w.socket_addr);
}

/// Reading a wrapped player where an encoded one sits yields it back.
pub proof fn lemma_dec_wrapper_of_enc(b: Seq<u8>, i: int, w: WrapperV)
    requires
        wrapper_ok(w),
        0 <= i,
        i + enc_wrapper(w).len() <= b.len(),
        b.subrange(i, i + enc_wrapper(w).len()) == enc_wrapper(w),
    ensures
        dec_wrapper_at(b, i) == Some((w, i + enc_wrapper(w).len())),
{
    lemma_enc_wrapper_len(w);
    let e = enc_wrapper(w);
    let pl = enc_player(w.player).len() as int;
    let sl = 8 + 4 * w.socket_addr.len() as int;
    assert(b.subrange(i, i + pl) =~= e.subrange(0, pl));
    assert(e.subrange(0, pl) =~= enc_player(w.player));
    lemma_dec_player_of_enc(b, i, w.player);
    let j = i + pl;
    assert(b[j] == e[pl]);
    assert(b[j + 1] == e[pl + 1]);
    assert(e[pl] == w.board_position[0]);
    assert(e[pl + 1] == w.board_position[1]);
    assert(seq![b[j], b[j + 1]] =~= w.board_position);
    assert(b.subrange(j + 2, j + 2 + sl) =~= e.subrange(pl + 2, pl + 2 + sl));
    assert(e.subrange(pl + 2, pl + 2 + sl) =~= enc_str(w.socket_addr));
    lemma_dec_str_of_enc(b, j + 2, w.socket_addr);
    assert(dec_wrapper_at(b, i) == Some((w, i + enc_wrapper(w).len())));
}

/// Appending one player to a list appends its bytes.
pub proof fn lemma_enc_wrapper_seq_push(ps: Seq<WrapperV>, w: WrapperV)
    ensures
        enc_wrapper_seq(ps.push(w)) == enc_wrapper_seq(ps) + enc_wrapper(w),
    decreases ps.len(),
{
    if ps.len() == 0 {
        assert(ps.push(w).drop_first() =~= Seq::<WrapperV>::empty());
        assert(ps.push(w)[0] == w);
        assert(enc_wrapper_seq(Seq::<WrapperV>::empty()) =~= Seq::<u8>::empty());
        assert(enc_wrapper_seq(ps) =~= Seq::<u8>::empty());
        assert(enc_wrapper_seq(ps.push(w)) =~= enc_wrapper_seq(ps) + enc_wrapper(w));
    } else {
        assert(ps.push(w).drop_first() =~= ps.drop_first().push(w));
        lemma_enc_wrapper_seq_push(ps.drop_first(), w);
        assert(ps.push(w)[0] == ps[0]);
        assert(enc_wrapper_seq(ps.push(w)) =~= enc_wrapper_seq(ps) + enc_wrapper(w));
    }
}

/// Reading players where an encoded list sits yields them back.
pub proof fn lemma_dec_wrappers_of_enc(b: Seq<u8>, i: int, ps: Seq<WrapperV>)
    requires
        forall|t: int| 0 <= t < ps.len() ==> wrapper_ok(#[trigger] ps[t]),
        0 <= i,
        i + enc_wrapper_seq(ps).len() <= b.len(),
        b.subrange(i, i + enc_wrapper_seq(ps).len()) == enc_wrapper_seq(ps),
    ensures
        dec_wrappers_at(b, i, ps.len() as int) == Some((ps, i + enc_wrapper_seq(ps).len())),
    decreases ps.len(),
{
    if ps.len() == 0 {
    } else {
        let w = ps[0];
        let rest = ps.drop_first();
        let e = enc_wrapper_seq(ps);
        let wl = enc_wrapper(w).len() as int;
        let rl = enc_wrapper_seq(rest).len() as int;
        assert(e =~= enc_wrapper(w) + enc_wrapper_seq(rest));
        assert(b.subrange(i, i + wl) =~= e.subrange(0, wl));
        assert(e.subrange(0, wl) =~= enc_wrapper(w));
        lemma_dec_wrapper_of_enc(b, i, w);
        assert(b.subrange(i + wl, i + wl + rl) =~= e.subrange(wl, wl + rl));
        assert(e.subrange(wl, wl + rl) =~= enc_wrapper_seq(rest));
        lemma_dec_wrappers_of_enc(b, i + wl, rest);
        assert(seq![w] + rest =~= ps);
    }
}

/// A whole player-list blob decodes to the list it was made from.
pub proof fn lemma_players_roundtrip(ps: Seq<WrapperV>)
    requires
        players_ok(ps),
    ensures
        dec_players(enc_players(ps)) == Some(ps),
{
    lemma_auto_spec_u64_to_from_le_bytes();
    let b = enc_players(ps);
    let tail = enc_wrapper_seq(ps).len() as int;
    assert(b.subrange(0, 8) =~= enc_u64(ps.len() as u64));
    lemma_dec_u64_of_enc(b, 0, ps.len() as u64);
    assert(b.subrange(8, 8 + tail) =~= enc_wrapper_seq(ps));
    lemma_dec_wrappers_of_enc(b, 8, ps);
}

/// A whole single-player blob decodes to the player it was made from.
pub proof fn lemma_player_roundtrip(p: PlayerV)
    requires
        player_ok(p),
    ensures
        dec_player(enc_player(p)) == Some(p),
{
    let b = enc_player(p);
    assert(b.subrange(0, b.len() as int) =~= b);
    lemma_dec_player_of_enc(b, 0, p);
}

/// A whole wrapped-player blob decodes to the player it was made from.
pub proof fn lemma_wrapper_roundtrip(w: WrapperV)
    requires
        wrapper_ok(w),
    ensures
        dec_wrapper(enc_wrapper(w)) == Some(w),
{
    let b = enc_wrapper(w);
    assert(b.subrange(0, b.len() as int) =~= b);
    lemma_dec_wrapper_of_enc(b, 0, w);
}

/// Appends the encoding of `st` to `out`.
pub fn encode_stats(st: GameStatistics, out: &mut Vec<u8>)
    ensures
        final(out)@ == old(out)@ + enc_stats(st),
{
    let ghost base = out@;
    encode_u32(st.games_won, out);
    encode_u32(st.games_played, out);
    encode_u32(st.words_written, out);
    proof {
        assert(out@ =~= base + enc_stats(st));
    }
}

/// Appends the encoding of `p` to `out`.
pub fn encode_player(p: &Player, out: &mut Vec<u8>)
    ensures
        final(out)@ == old(out)@ + enc_player(p@),
        player_ok(p@),
{
    let ghost base = out@;
    encode_string(&p.suid, out);
    encode_string(&p.username, out);
    encode_string(&p.displayname, out);
    encode_stats(p.statistics, out);
    proof {
        assert(out@ =~= base + enc_player(p@));
    }
}

/// Appends the encoding of `w` to `out`.
pub fn encode_wrapper(w: &PlayerRedisWrapper, out: &mut Vec<u8>)
    ensures
        final(out)@ == old(out)@ + enc_wrapper(w@),
        wrapper_ok(w@),
{
    let ghost base = out@;
    encode_player(&w.player, out);
    out.push(w.local_data.board_position[0]);
    out.push(w.local_data.board_position[1]);
    encode_string(&w.socket_addr, out);
    proof {
        assert(w.local_data.board_position@.len() == 2);
        assert(seq![w.local_data.board_position@[0], w.local_data.board_position@[1]]
            =~= w@.board_position);
        assert(out@ =~= base + enc_wrapper(w@));
    }
}

/// Appends the blob encoding of the player list `ps` to `out`.
pub fn encode_players(ps: &Vec<PlayerRedisWrapper>, out: &mut Vec<u8>)
    ensures
        final(out)@ == old(out)@ + enc_players(crate::room::player_views(ps@)),
        players_ok(crate::room::player_views(ps@)),
{
    let ghost base = out@;
    let ghost views = crate::room::player_views(ps@);
    let n = ps.len();
    encode_u64(n as u64, out);
    let mut i: usize = 0;
    while i < n
        invariant
            i <= n,
            n == ps@.len(),
            views == crate::room::player_views(ps@),
            views.len() == n,
            out@ == base + enc_u64(n as u64) + enc_wrapper_seq(views.take(i as int)),
            forall|t: int| 0 <= t < i ==> wrapper_ok(#[trigger] views[t]),
        decreases n - i,
    {
        encode_wrapper(&ps[i], out);
        proof {
            assert(views[i as int] == ps@[i as int]@);
            assert(views.take(i + 1) =~= views.take(i as int).push(views[i as int]));
            lemma_enc_wrapper_seq_push(views.take(i as int), views[i as int]);
            assert(out@ =~= base + enc_u64(n as u64) + enc_wrapper_seq(views.take(i + 1)));
        }
        i += 1;
    }
    proof {
        assert(views.take(n as int) =~= views);
        assert(out@ =~= base + enc_players(views));
    }
}

/// Reads three counters of `b` at `i`; exactly [`dec_stats_at`].
pub fn decode_stats(b: &[u8], i: usize) -> (r: Option<(GameStatistics, usize)>)
    requires
        i <= b@.len(),
    ensures
        r is Some <==> dec_stats_at(b@, i as int) is Some,
        r matches Some((st, j)) ==> dec_stats_at(b@, i as int) == Some((st, j as int)) && j
            <= b@.len(),
{
    let (won, j) = match decode_u32(b, i) {
        Option::Some(p) => p,
        Option::None => {
            return None;
        },
    };
    let (played, k) = match decode_u32(b, j) {
        Option::Some(p) => p,
        Option::None => {
            return None;
        },
    };
    let (written, l) = match decode_u32(b, k) {
        Option::Some(p) => p,
        Option::None => {
            return None;
        },
    };
    Some((GameStatistics { games_won: won, games_played: played, words_written: written }, l))
}

/// Reads a player of `b` at `i`; exactly [`dec_player_at`].
pub fn decode_player(b: &[u8], i: usize) -> (r: Option<(Player, usize)>)
    requires
        i <= b@.len(),
    ensures
        r is Some <==> dec_player_at(b@, i as int) is Some,
        r matches Some((p, j)) ==> dec_player_at(b@, i as int) == Some((p@, j as int)) && j
            <= b@.len(),
{
    let (suid, j) = match decode_string(b, i) {
        Option::Some(p) => p,
        Option::None => {
            return None;
        },
    };
    let (username, k) = match decode_string(b, j) {
        Option::Some(p) => p,
        Option::None => {
            return None;
        },
    };
    let (displayname, l) = match decode_string(b, k) {
        Option::Some(p) => p,
        Option::None => {
            return None;
        },
    };
    let (statistics, m) = match decode_stats(b, l) {
        Option::Some(p) => p,
        Option::None => {
            return None;
        },
    };
    let p = Player { suid, username, displayname, statistics };
    proof {
        assert(dec_player_at(b@, i as int) matches Some((q, _)) && q =~= p@);
    }
    Some((p, m))
}

/// Reads a wrapped player of `b` at `i`; exactly [`dec_wrapper_at`].
pub fn decode_wrapper(b: &[u8], i: usize) -> (r: Option<(PlayerRedisWrapper, usize)>)
    requires
        i <= b@.len(),
    ensures
        r is Some <==> dec_wrapper_at(b@, i as int) is Some,
        r matches Some((w, j)) ==> dec_wrapper_at(b@, i as int) == Some((w@, j as int)) && j
            <= b@.len(),
{
    let (player, j) = match decode_player(b, i) {
        Option::Some(p) => p,
        Option::None => {
            return None;
        },
    };
    if b.len() - j < 2 {
        return None;
    }
    let board = [b[j], b[j + 1]];
    let (socket_addr, k) = match decode_string(b, j + 2) {
        Option::Some(p) => p,
        Option::None => {
            return None;
        },
    };
    let w = PlayerRedisWrapper {
        player,
        local_data: LocalGameData { board_position: board },
        socket_addr,
    };
    proof {
        assert(w@.board_position =~= seq![b@[j as int], b@[j + 1]]);
        assert(dec_wrapper_at(b@, i as int) matches Some((q, _)) && q =~= w@);
    }
    Some((w, k))
}

/// Decodes a whole player-list blob; exactly [`dec_players`].
pub fn decode_players(b: &[u8]) -> (r: Option<Vec<PlayerRedisWrapper>>)
    ensures
        r is Some <==> dec_players(b@) is Some,
        r matches Some(v) ==> dec_players(b@) == Some(crate::room::player_views(v@)),
{
    let (count, start) = match decode_u64(b, 0) {
        Option::Some(p) => p,
        Option::None => {
            return None;
        },
    };
    let ghost total = dec_wrappers_at(b@, start as int, count as int);
    let mut out: Vec<PlayerRedisWrapper> = Vec::new();
    let mut t: u64 = 0;
    let mut cur: usize = start;
    while t < count
        invariant
            t <= count,
            cur <= b@.len(),
            dec_u64_at(b@, 0) == Some((count, start as int)),
            total == dec_wrappers_at(b@, start as int, count as int),
            ({
                let rest = dec_wrappers_at(b@, cur as int, count - t);
                total == match rest {
                    Option::None => Option::<(Seq<WrapperV>, int)>::None,
                    Option::Some((s, k)) => Option::Some((crate::room::player_views(out@) + s, k)),
                }
            }),
        decreases count - t,
    {
        let (w, j) = match decode_wrapper(b, cur) {
            Option::Some(p) => p,
            Option::None => {
                proof {
                    assert(dec_wrappers_at(b@, cur as int, count - t) is None);
                }
                return None;
            },
        };
        let ghost prev = crate::room::player_views(out@);
        let ghost wv = w@;
        out.push(w);
        proof {
            assert(crate::room::player_views(out@) =~= prev.push(wv));
            let rest = dec_wrappers_at(b@, cur as int, count - t);
            let rest2 = dec_wrappers_at(b@, j as int, count - t - 1);
            if rest2 is Some {
                let (s2, k2) = rest2.unwrap();
                assert(rest == Some((seq![wv] + s2, k2)));
                assert(prev + (seq![wv] + s2) =~= prev.push(wv) + s2);
            }
        }
        cur = j;
        t = t + 1;
    }
    proof {
        assert(dec_wrappers_at(b@, cur as int, 0) == Some((Seq::<WrapperV>::empty(), cur as int)));
        assert(crate::room::player_views(out@) + Seq::<WrapperV>::empty()
            =~= crate::room::player_views(out@));
        assert(total == Some((crate::room::player_views(out@), cur as int)));
    }
    if cur == b.len() {
        Some(out)
    } else {
        None
    }
}

} // verus!
