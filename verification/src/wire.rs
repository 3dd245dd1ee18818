//! The wire codec.
//!
//! Players and full party snapshots travel as publish/subscribe payloads
//! in a structured byte encoding: every field is a length-prefixed chunk
//! (an 8-byte little-endian byte count followed by that many bytes), text
//! fields hold UTF-8, and a party snapshot is its host's textual identity
//! followed by a member count and that many player records. Identities
//! appear as their stable textual encoding, not raw bytes. Decoding is
//! strict: a payload that is not exactly one well-formed message is
//! rejected, and a snapshot is rejected unless its host has an entry and
//! its members are distinct.

use vstd::prelude::*;

use vstd::bytes::{
    lemma_auto_spec_u64_to_from_le_bytes, spec_u64_from_le_bytes, spec_u64_to_le_bytes,
    u64_from_le_bytes, u64_to_le_bytes,
};
use vstd::pervasive::unreached;
use vstd::slice::{slice_index_get, slice_subrange};
use vstd::string::StringSliceAdditionalSpecFns;
use vstd::utf8::{decode_utf8, encode_utf8, encode_utf8_decode_utf8, valid_utf8};

use crate::ident::{peer_text, Player, PlayerId};
use crate::party::{ids_unique, Party};

verus! {

// ---------------------------------------------------------------------
// Trusted UTF-8 validation
// ---------------------------------------------------------------------

/// Relies on std's `str::from_utf8`: it succeeds exactly on valid UTF-8
/// and returns the string slice viewing those same bytes.
#[verifier::external_body]
pub(crate) fn bytes_to_str(v: &[u8]) -> (r: Option<&str>)
    ensures
        r matches Some(s) ==> s.spec_bytes() == v@ && valid_utf8(v@),
        r is None ==> !valid_utf8(v@),
{
    core::str::from_utf8(v).ok()
}

// ---------------------------------------------------------------------
// Chunks: length-prefixed byte fields
// ---------------------------------------------------------------------

/// A chunk: an 8-byte little-endian length followed by the bytes.
pub open spec fn spec_encode_chunk(data: Seq<u8>) -> Seq<u8> {
    spec_u64_to_le_bytes(data.len() as u64) + data
}

/// Reads one chunk off the front of `b`: the chunk's bytes and the rest.
pub open spec fn spec_decode_chunk(b: Seq<u8>) -> Option<(Seq<u8>, Seq<u8>)> {
    if b.len() < 8 {
        None
    } else {
        let n = spec_u64_from_le_bytes(b.subrange(0, 8)) as int;
        if n + 8 <= b.len() {
            Some((b.subrange(8, 8 + n), b.subrange(8 + n, b.len() as int)))
        } else {
            None
        }
    }
}

pub proof fn lemma_chunk_round_trip(data: Seq<u8>, rest: Seq<u8>)
    requires
        data.len() <= u64::MAX,
    ensures
        spec_decode_chunk(spec_encode_chunk(data) + rest) == Some((data, rest)),
{
    lemma_auto_spec_u64_to_from_le_bytes();
    let b = spec_encode_chunk(data) + rest;
    assert(spec_u64_to_le_bytes(data.len() as u64).len() == 8);
    assert(b.subrange(0, 8) =~= spec_u64_to_le_bytes(data.len() as u64));
    assert(spec_u64_from_le_bytes(b.subrange(0, 8)) == data.len() as u64);
    assert(b.subrange(8, 8 + data.len() as int) =~= data);
    assert(b.subrange(8 + data.len() as int, b.len() as int) =~= rest);
}

/// A text chunk: the UTF-8 bytes of the text, as a chunk.
pub open spec fn spec_encode_text_chunk(s: Seq<char>) -> Seq<u8> {
    spec_encode_chunk(encode_utf8(s))
}

/// Reads one text chunk off the front of `b`; the chunk must hold valid
/// UTF-8.
pub open spec fn spec_decode_text_chunk(b: Seq<u8>) -> Option<(Seq<char>, Seq<u8>)> {
    match spec_decode_chunk(b) {
        Some((data, rest)) => if valid_utf8(data) {
            Some((decode_utf8(data), rest))
        } else {
            None
        },
        None => None,
    }
}

pub proof fn lemma_text_chunk_round_trip(s: Seq<char>, rest: Seq<u8>)
    requires
        encode_utf8(s).len() <= u64::MAX,
    ensures
        spec_decode_text_chunk(spec_encode_text_chunk(s) + rest) == Some((s, rest)),
{
    lemma_chunk_round_trip(encode_utf8(s), rest);
    broadcast use vstd::utf8::encode_utf8_valid_utf8;

    encode_utf8_decode_utf8(s);
}

// ---------------------------------------------------------------------
// Exec chunk primitives
// ---------------------------------------------------------------------

/// Appends the bytes of `data` to `out`.
fn push_bytes(out: &mut Vec<u8>, data: &[u8])
    ensures
        final(out)@ == old(out)@ + data@,
{
    let n = data.len();
    let mut i: usize = 0;
    proof {
        assert(out@ =~= old(out)@ + data@.subrange(0, 0));
    }
    while i < n
        invariant
            0 <= i <= n,
            n == data@.len(),
            out@ == old(out)@ + data@.subrange(0, i as int),
        decreases n - i,
    {
        let b = *slice_index_get(data, i);
        out.push(b);
        proof {
            assert(out@ =~= old(out)@ + data@.subrange(0, i + 1 as int));
        }
        i = i + 1;
    }
    proof {
        assert(data@.subrange(0, n as int) =~= data@);
    }
}

/// Appends one chunk holding `data` to `out`.
fn write_chunk(out: &mut Vec<u8>, data: &[u8])
    ensures
        final(out)@ == old(out)@ + spec_encode_chunk(data@),
        data@.len() <= u64::MAX,
{
    let mut len_bytes = u64_to_le_bytes(data.len() as u64);
    out.append(&mut len_bytes);
    push_bytes(out, data);
    proof {
        assert(old(out)@ + spec_u64_to_le_bytes(data@.len() as u64) + data@ =~= old(out)@
            + spec_encode_chunk(data@));
    }
}

/// Appends one text chunk holding `s` to `out`.
fn write_text_chunk(out: &mut Vec<u8>, s: &str)
    ensures
        final(out)@ == old(out)@ + spec_encode_text_chunk(s@),
        encode_utf8(s@).len() <= u64::MAX,
{
    write_chunk(out, s.as_bytes());
}

/// Reads the chunk starting at `pos`, returning its bytes and the
/// position just past it.
fn read_chunk<'a>(b: &'a [u8], pos: usize) -> (r: Option<(&'a [u8], usize)>)
    requires
        pos <= b@.len(),
    ensures
        match r {
            Some(v) => {
                &&& spec_decode_chunk(b@.skip(pos as int)) == Some((v.0@, b@.skip(v.1 as int)))
                &&& pos + 8 <= v.1 <= b@.len()
                &&& v.1 == pos + 8 + v.0@.len()
            },
            None => spec_decode_chunk(b@.skip(pos as int)) is None,
        },
{
    let ghost tail = b@.skip(pos as int);
    let len = b.len();
    if len - pos < 8 {
        return None;
    }
    let len_slice = slice_subrange(b, pos, pos + 8);
    proof {
        assert(len_slice@ =~= tail.subrange(0, 8));
    }
    let n = u64_from_le_bytes(len_slice);
    let remaining = len - pos - 8;
    if n > remaining as u64 {
        return None;
    }
    let n_us = n as usize;
    let data = slice_subrange(b, pos + 8, pos + 8 + n_us);
    proof {
        assert(data@ =~= tail.subrange(8, 8 + n as int));
        assert(b@.skip((pos + 8 + n_us) as int) =~= tail.subrange(8 + n as int, tail.len() as int));
    }
    Some((data, pos + 8 + n_us))
}

/// Reads the text chunk starting at `pos`, returning the text and the
/// position just past it.
fn read_text_chunk(b: &[u8], pos: usize) -> (r: Option<(String, usize)>)
    requires
        pos <= b@.len(),
    ensures
        match r {
            Some(v) => {
                &&& spec_decode_text_chunk(b@.skip(pos as int)) == Some((v.0@, b@.skip(
                    v.1 as int,
                )))
                &&& pos + 8 <= v.1 <= b@.len()
            },
            None => spec_decode_text_chunk(b@.skip(pos as int)) is None,
        },
{
    match read_chunk(b, pos) {
        Some((data, end)) => match bytes_to_str(data) {
            Some(s) => {
                proof {
                    encode_utf8_decode_utf8(s@);
                }
                Some((s.to_owned(), end))
            },
            None => None,
        },
        None => None,
    }
}

// ---------------------------------------------------------------------
// Player messages
// ---------------------------------------------------------------------

/// The wire form of a player: its identity's text, then its name.
pub open spec fn spec_encode_player(id: libp2p::PeerId, name: Seq<char>) -> Seq<u8> {
    spec_encode_text_chunk(peer_text(id)) + spec_encode_text_chunk(name)
}

/// Reads one player record off the front of `b`: its identity text, its
/// name, and the rest.
pub open spec fn spec_decode_player(b: Seq<u8>) -> Option<((Seq<char>, Seq<char>), Seq<u8>)> {
    match spec_decode_text_chunk(b) {
        Some((id_text, rest1)) => match spec_decode_text_chunk(rest1) {
            Some((name, rest2)) => Some(((id_text, name), rest2)),
            None => None,
        },
        None => None,
    }
}

pub proof fn lemma_player_round_trip(id: libp2p::PeerId, name: Seq<char>, rest: Seq<u8>)
    requires
        encode_utf8(peer_text(id)).len() <= u64::MAX,
        encode_utf8(name).len() <= u64::MAX,
    ensures
        spec_decode_player(spec_encode_player(id, name) + rest) == Some(
            ((peer_text(id), name), rest),
        ),
{
    assert(spec_encode_player(id, name) + rest =~= spec_encode_text_chunk(peer_text(id)) + (
    spec_encode_text_chunk(name) + rest));
    lemma_text_chunk_round_trip(peer_text(id), spec_encode_text_chunk(name) + rest);
    lemma_text_chunk_round_trip(name, rest);
}

/// Why a payload was rejected.
#[derive(Clone, Copy, PartialEq, Eq, Structural, Debug)]
pub enum WireError {
    /// The payload is not exactly one well-formed message.
    Malformed,
    /// An identity text in the payload is not the encoding of any peer.
    UnknownPeer,
    /// A snapshot lists the same identity twice.
    DuplicateMember,
    /// A snapshot's host has no member entry.
    HostMissing,
}

impl WireError {
    /// The rejection reason, as published on the rejection topic.
    pub open spec fn spec_describe(self) -> Seq<char> {
        match self {
            WireError::Malformed => "malformed message payload"@,
            WireError::UnknownPeer => "unparseable peer identity in message"@,
            WireError::DuplicateMember => "duplicate member in party snapshot"@,
            WireError::HostMissing => "party snapshot does not contain its host"@,
        }
    }

    /// The rejection reason, as published on the rejection topic.
    pub fn describe(&self) -> (r: String)
        ensures
            r@ == self.spec_describe(),
    {
        match self {
            WireError::Malformed => "malformed message payload".to_owned(),
            WireError::UnknownPeer => "unparseable peer identity in message".to_owned(),
            WireError::DuplicateMember => "duplicate member in party snapshot".to_owned(),
            WireError::HostMissing => "party snapshot does not contain its host".to_owned(),
        }
    }
}

/// Encodes a player for transmission.
pub fn encode_player(player: &Player) -> (r: Vec<u8>)
    ensures
        r@ == spec_encode_player(player.id@, player.name@),
        encode_utf8(peer_text(player.id@)).len() <= u64::MAX,
        encode_utf8(player.name@).len() <= u64::MAX,
{
    let mut out: Vec<u8> = Vec::new();
    let id_text = player.id.encode();
    write_text_chunk(&mut out, id_text.as_str());
    write_text_chunk(&mut out, player.name.as_str());
    proof {
        assert(out@ =~= spec_encode_player(player.id@, player.name@));
    }
    out
}

/// Decodes a player message. Succeeds exactly when the payload is one
/// well-formed player record whose identity text is the encoding of some
/// peer; that peer and the name are returned.
pub fn decode_player(bytes: &[u8]) -> (r: Result<Player, WireError>)
    ensures
        r matches Ok(pl) ==> (spec_decode_player(bytes@) matches Some(d) && d.1.len() == 0 && d.0.0
            == peer_text(pl.id@) && d.0.1 == pl.name@),
        forall|p: libp2p::PeerId|
            (spec_decode_player(bytes@) matches Some(d) && d.1.len() == 0 && d.0.0
                == #[trigger] peer_text(p)) ==> (r matches Ok(pl) && pl.id@ == p),
        r == Err::<Player, WireError>(WireError::Malformed) <==> !(spec_decode_player(bytes@)
            matches Some(d) && d.1.len() == 0),
        r == Err::<Player, WireError>(WireError::UnknownPeer) <==> (spec_decode_player(bytes@)
            matches Some(d) && d.1.len() == 0 && !(exists|p: libp2p::PeerId|
            d.0.0 == peer_text(p))),
{
    proof {
        assert(bytes@.skip(0) =~= bytes@);
    }
    match read_text_chunk(bytes, 0) {
        Some((id_text, pos1)) => {
            match read_text_chunk(bytes, pos1) {
                Some((name, pos2)) => {
                    if pos2 != bytes.len() {
                        proof {
                            assert(bytes@.skip(pos2 as int).len() != 0);
                        }
                        return Err(WireError::Malformed);
                    }
                    proof {
                        assert(bytes@.skip(pos2 as int).len() == 0);
                    }
                    match PlayerId::decode(id_text.as_str()) {
                        Some(id) => Ok(Player { id, name }),
                        None => Err(WireError::UnknownPeer),
                    }
                },
                None => Err(WireError::Malformed),
            }
        },
        None => Err(WireError::Malformed),
    }
}

// ---------------------------------------------------------------------
// Party snapshots
// ---------------------------------------------------------------------

/// The wire form of a member list: the player records, in order.
pub open spec fn spec_encode_members(ms: Seq<(libp2p::PeerId, Seq<char>)>) -> Seq<u8>
    decreases ms.len(),
{
    if ms.len() == 0 {
        Seq::empty()
    } else {
        spec_encode_player(ms.first().0, ms.first().1) + spec_encode_members(ms.drop_first())
    }
}

/// Every member's identity text and name fit in a chunk.
pub open spec fn members_encodable(ms: Seq<(libp2p::PeerId, Seq<char>)>) -> bool {
    forall|i: int|
        #![trigger ms[i]]
        0 <= i < ms.len() ==> encode_utf8(peer_text(ms[i].0)).len() <= u64::MAX && encode_utf8(
            ms[i].1,
        ).len() <= u64::MAX
}

/// The identity texts and names of a member list.
pub open spec fn member_texts(ms: Seq<(libp2p::PeerId, Seq<char>)>) -> Seq<(Seq<char>, Seq<char>)> {
    ms.map_values(|m: (libp2p::PeerId, Seq<char>)| (peer_text(m.0), m.1))
}

/// Reads `count` player records off the front of `b`.
pub open spec fn spec_decode_member_texts(b: Seq<u8>, count: nat) -> Option<
    (Seq<(Seq<char>, Seq<char>)>, Seq<u8>),
>
    decreases count,
{
    if count == 0 {
        Some((Seq::empty(), b))
    } else {
        match spec_decode_player(b) {
            Some((tn, rest)) => match spec_decode_member_texts(rest, (count - 1) as nat) {
                Some((tail, rest2)) => Some((seq![tn] + tail, rest2)),
                None => None,
            },
            None => None,
        }
    }
}

proof fn lemma_encode_members_snoc(ms: Seq<(libp2p::PeerId, Seq<char>)>, m: (libp2p::PeerId, Seq<char>))
    ensures
        spec_encode_members(ms.push(m)) == spec_encode_members(ms) + spec_encode_player(m.0, m.1),
    decreases ms.len(),
{
    if ms.len() == 0 {
        assert(ms.push(m).first() == m);
        assert(ms.push(m).drop_first() =~= Seq::<(libp2p::PeerId, Seq<char>)>::empty());
        assert(spec_encode_members(Seq::<(libp2p::PeerId, Seq<char>)>::empty())
            == Seq::<u8>::empty());
        assert(Seq::<u8>::empty() + spec_encode_player(m.0, m.1) =~= spec_encode_player(
            m.0,
            m.1,
        ));
        assert(spec_encode_player(m.0, m.1) + Seq::<u8>::empty() =~= spec_encode_player(
            m.0,
            m.1,
        ));
    } else {
        assert(ms.push(m).first() == ms.first());
        assert(ms.push(m).drop_first() =~= ms.drop_first().push(m));
        lemma_encode_members_snoc(ms.drop_first(), m);
        assert(spec_encode_player(ms.first().0, ms.first().1) + (spec_encode_members(
            ms.drop_first(),
        ) + spec_encode_player(m.0, m.1)) =~= (spec_encode_player(ms.first().0, ms.first().1)
            + spec_encode_members(ms.drop_first())) + spec_encode_player(m.0, m.1));
    }
}

proof fn lemma_decode_player_progress(b: Seq<u8>)
    ensures
        spec_decode_player(b) matches Some(d) ==> d.1.len() + 16 <= b.len(),
{
    if spec_decode_player(b) is Some {
        let (tn, rest2) = spec_decode_player(b).unwrap();
        let (_, rest1) = spec_decode_text_chunk(b).unwrap();
        assert(rest1.len() + 8 <= b.len());
        assert(rest2.len() + 8 <= rest1.len());
    }
}

proof fn lemma_member_texts_min_len(b: Seq<u8>, count: nat)
    ensures
        spec_decode_member_texts(b, count) is Some ==> 16 * count <= b.len(),
    decreases count,
{
    if count > 0 && spec_decode_member_texts(b, count) is Some {
        let (tn, rest) = spec_decode_player(b).unwrap();
        lemma_decode_player_progress(b);
        lemma_member_texts_min_len(rest, (count - 1) as nat);
    }
}

pub proof fn lemma_members_round_trip(ms: Seq<(libp2p::PeerId, Seq<char>)>, rest: Seq<u8>)
    requires
        members_encodable(ms),
    ensures
        spec_decode_member_texts(spec_encode_members(ms) + rest, ms.len()) == Some(
            (member_texts(ms), rest),
        ),
    decreases ms.len(),
{
    if ms.len() == 0 {
        assert(spec_encode_members(ms) + rest =~= rest);
        assert(member_texts(ms) =~= Seq::<(Seq<char>, Seq<char>)>::empty());
    } else {
        let m = ms.first();
        let tail_bytes = spec_encode_members(ms.drop_first()) + rest;
        assert(spec_encode_members(ms) + rest =~= spec_encode_player(m.0, m.1) + tail_bytes);
        assert(ms[0] == m);
        lemma_player_round_trip(m.0, m.1, tail_bytes);
        assert(forall|i: int|
            0 <= i < ms.drop_first().len() ==> #[trigger] ms.drop_first()[i] == ms[i + 1]);
        lemma_members_round_trip(ms.drop_first(), rest);
        assert(seq![(peer_text(m.0), m.1)] + member_texts(ms.drop_first()) =~= member_texts(ms));
    }
}

/// The wire form of a party snapshot: the host's identity text, the
/// member count, and the member records.
pub open spec fn spec_encode_party(
    host: libp2p::PeerId,
    ms: Seq<(libp2p::PeerId, Seq<char>)>,
) -> Seq<u8> {
    spec_encode_text_chunk(peer_text(host)) + spec_u64_to_le_bytes(ms.len() as u64)
        + spec_encode_members(ms)
}

/// Reads one party snapshot off the front of `b`: the host's identity
/// text, the member texts, and the rest.
pub open spec fn spec_decode_party(b: Seq<u8>) -> Option<
    ((Seq<char>, Seq<(Seq<char>, Seq<char>)>), Seq<u8>),
> {
    match spec_decode_text_chunk(b) {
        Some((host_text, rest1)) => if rest1.len() >= 8 {
            match spec_decode_member_texts(
                rest1.skip(8),
                spec_u64_from_le_bytes(rest1.subrange(0, 8)) as nat,
            ) {
                Some((ms, rest2)) => Some(((host_text, ms), rest2)),
                None => None,
            }
        } else {
            None
        },
        None => None,
    }
}

pub proof fn lemma_party_round_trip(
    host: libp2p::PeerId,
    ms: Seq<(libp2p::PeerId, Seq<char>)>,
    rest: Seq<u8>,
)
    requires
        encode_utf8(peer_text(host)).len() <= u64::MAX,
        members_encodable(ms),
        ms.len() <= u64::MAX,
    ensures
        spec_decode_party(spec_encode_party(host, ms) + rest) == Some(
            ((peer_text(host), member_texts(ms)), rest),
        ),
{
    lemma_auto_spec_u64_to_from_le_bytes();
    let tail = spec_u64_to_le_bytes(ms.len() as u64) + spec_encode_members(ms) + rest;
    assert(spec_encode_party(host, ms) + rest =~= spec_encode_text_chunk(peer_text(host))
        + tail);
    lemma_text_chunk_round_trip(peer_text(host), tail);
    assert(tail.subrange(0, 8) =~= spec_u64_to_le_bytes(ms.len() as u64));
    assert(tail.skip(8) =~= spec_encode_members(ms) + rest);
    lemma_members_round_trip(ms, rest);
}

/// One well-formed party snapshot, and nothing else, in the payload.
pub open spec fn spec_party_frame(b: Seq<u8>) -> Option<
    (Seq<char>, Seq<(Seq<char>, Seq<char>)>),
> {
    match spec_decode_party(b) {
        Some((hm, rest)) => if rest.len() == 0 {
            Some(hm)
        } else {
            None
        },
        None => None,
    }
}

/// Every identity text in the frame is the encoding of some peer.
pub open spec fn texts_are_peers(host_text: Seq<char>, ms: Seq<(Seq<char>, Seq<char>)>) -> bool {
    &&& exists|p: libp2p::PeerId| peer_text(p) == host_text
    &&& forall|i: int|
        #![trigger ms[i]]
        0 <= i < ms.len() ==> exists|p: libp2p::PeerId| peer_text(p) == ms[i].0
}

/// No two members share an identity text.
pub open spec fn member_texts_unique(ms: Seq<(Seq<char>, Seq<char>)>) -> bool {
    forall|i: int, j: int| 0 <= i < j < ms.len() ==> ms[i].0 != ms[j].0
}

/// The host's identity text has a member entry.
pub open spec fn host_text_among(host_text: Seq<char>, ms: Seq<(Seq<char>, Seq<char>)>) -> bool {
    exists|i: int| 0 <= i < ms.len() && (#[trigger] ms[i]).0 == host_text
}

/// The identity texts and names of a scanned record list.
spec fn scanned_texts(ts: Seq<(String, String)>) -> Seq<(Seq<char>, Seq<char>)> {
    ts.map_values(|t: (String, String)| (t.0@, t.1@))
}

/// Encodes a full party snapshot for transmission.
pub fn encode_party(party: &Party) -> (r: Vec<u8>)
    ensures
        r@ == spec_encode_party(party.spec_host(), party.players_seq()),
        encode_utf8(peer_text(party.spec_host())).len() <= u64::MAX,
        members_encodable(party.players_seq()),
        party.players_seq().len() <= u64::MAX,
        forall|q: libp2p::PeerId|
            #[trigger] peer_text(q) == peer_text(party.spec_host()) ==> q == party.spec_host(),
        forall|j: int, q: libp2p::PeerId|
            #![trigger peer_text(q), party.players_seq()[j]]
            (0 <= j < party.players_seq().len() && peer_text(q) == peer_text(
                party.players_seq()[j].0,
            )) ==> q == party.players_seq()[j].0,
{
    let ghost pseq = party.players_seq();
    let mut out: Vec<u8> = Vec::new();
    let host_text = party.host_id().encode();
    write_text_chunk(&mut out, host_text.as_str());
    let players = party.players();
    let n = players.len();
    let mut count_bytes = u64_to_le_bytes(n as u64);
    out.append(&mut count_bytes);
    let ghost base = out@;
    proof {
        assert(pseq.len() == n);
        assert(forall|j: int|
            0 <= j < n ==> #[trigger] pseq[j] == (players@[j].id@, players@[j].name@));
    }
    let mut i: usize = 0;
    proof {
        assert(pseq.take(0) =~= Seq::<(libp2p::PeerId, Seq<char>)>::empty());
        assert(out@ =~= base + spec_encode_members(pseq.take(0)));
    }
    while i < n
        invariant
            0 <= i <= n,
            n == players@.len(),
            n == pseq.len(),
            forall|j: int| 0 <= j < n ==> #[trigger] pseq[j] == (players@[j].id@, players@[j].name@),
            out@ == base + spec_encode_members(pseq.take(i as int)),
            forall|j: int|
                #![trigger pseq[j]]
                0 <= j < i ==> encode_utf8(peer_text(pseq[j].0)).len() <= u64::MAX && encode_utf8(
                    pseq[j].1,
                ).len() <= u64::MAX,
            forall|j: int, q: libp2p::PeerId|
                #![trigger peer_text(q), pseq[j]]
                (0 <= j < i && peer_text(q) == peer_text(pseq[j].0)) ==> q == pseq[j].0,
        decreases n - i,
    {
        let pl = &players[i];
        let id_text = pl.id.encode();
        let ghost before = out@;
        write_text_chunk(&mut out, id_text.as_str());
        write_text_chunk(&mut out, pl.name.as_str());
        proof {
            assert(id_text@ == peer_text(pseq[i as int].0));
            assert(out@ =~= before + spec_encode_player(pseq[i as int].0, pseq[i as int].1));
            assert(pseq.take(i + 1 as int) =~= pseq.take(i as int).push(pseq[i as int]));
            lemma_encode_members_snoc(pseq.take(i as int), pseq[i as int]);
            assert(out@ =~= base + spec_encode_members(pseq.take(i + 1 as int)));
        }
        i = i + 1;
    }
    proof {
        assert(pseq.take(n as int) =~= pseq);
        assert(out@ =~= spec_encode_party(party.spec_host(), pseq));
    }
    out
}

/// Decodes a party snapshot. Succeeds exactly when the payload is one
/// well-formed snapshot whose identity texts all parse, whose members are
/// distinct, and whose host has an entry; the well-formed party is
/// returned.
pub fn decode_party(bytes: &[u8]) -> (r: Result<Party, WireError>)
    ensures
        r matches Ok(party) ==> (spec_party_frame(bytes@) matches Some(hm) && {
            &&& party.wf()
            &&& peer_text(party.spec_host()) == hm.0
            &&& party.players_seq().len() == hm.1.len()
            &&& (forall|i: int|
                #![trigger party.players_seq()[i]]
                0 <= i < hm.1.len() ==> peer_text(party.players_seq()[i].0) == hm.1[i].0
                    && party.players_seq()[i].1 == hm.1[i].1)
        }),
        forall|i: int, p: libp2p::PeerId|
            #![trigger peer_text(p), spec_party_frame(bytes@).unwrap().1[i]]
            (r matches Ok(party) && spec_party_frame(bytes@) matches Some(hm) && 0 <= i
                < hm.1.len() && hm.1[i].0 == peer_text(p)) ==> (r matches Ok(party)
                && party.players_seq()[i].0 == p),
        forall|p: libp2p::PeerId|
            (r matches Ok(party) && spec_party_frame(bytes@) matches Some(hm) && hm.0
                == #[trigger] peer_text(p)) ==> (r matches Ok(party) && party.spec_host() == p),
        r is Ok <==> (spec_party_frame(bytes@) matches Some(hm) && texts_are_peers(hm.0, hm.1)
            && member_texts_unique(hm.1) && host_text_among(hm.0, hm.1)),
        r == Err::<Party, WireError>(WireError::Malformed) <==> spec_party_frame(bytes@) is None,
        r == Err::<Party, WireError>(WireError::UnknownPeer) <==> (spec_party_frame(bytes@)
            matches Some(hm) && !texts_are_peers(hm.0, hm.1)),
        r == Err::<Party, WireError>(WireError::DuplicateMember) <==> (spec_party_frame(bytes@)
            matches Some(hm) && texts_are_peers(hm.0, hm.1) && !member_texts_unique(hm.1)),
        r == Err::<Party, WireError>(WireError::HostMissing) <==> (spec_party_frame(bytes@)
            matches Some(hm) && texts_are_peers(hm.0, hm.1) && member_texts_unique(hm.1)
            && !host_text_among(hm.0, hm.1)),
{
    proof {
        assert(bytes@.skip(0) =~= bytes@);
    }
    let host_read = read_text_chunk(bytes, 0);
    let (host_text, pos1) = match host_read {
        Some(v) => v,
        None => {
            return Err(WireError::Malformed);
        },
    };
    if bytes.len() - pos1 < 8 {
        return Err(WireError::Malformed);
    }
    let count_slice = slice_subrange(bytes, pos1, pos1 + 8);
    proof {
        assert(count_slice@ =~= bytes@.skip(pos1 as int).subrange(0, 8));
    }
    let count = u64_from_le_bytes(count_slice);
    let start = pos1 + 8;
    proof {
        assert(bytes@.skip(start as int) =~= bytes@.skip(pos1 as int).skip(8));
    }
    let remaining = bytes.len() - start;
    if count > remaining as u64 {
        proof {
            lemma_member_texts_min_len(bytes@.skip(start as int), count as nat);
        }
        return Err(WireError::Malformed);
    }
    let count_us = count as usize;

    // First pass: frame the member records.
    let mut texts: Vec<(String, String)> = Vec::new();
    let mut pos = start;
    let mut i: usize = 0;
    proof {
        assert(scanned_texts(texts@) =~= Seq::<(Seq<char>, Seq<char>)>::empty());
        let opt0 = spec_decode_member_texts(bytes@.skip(pos as int), (count_us - i) as nat);
        if opt0 is Some {
            assert(scanned_texts(texts@) + opt0.unwrap().0 =~= opt0.unwrap().0);
        }
    }
    while i < count_us
        invariant
            0 <= i <= count_us,
            start <= pos <= bytes@.len(),
            texts@.len() == i,
            pos1 + 8 == start,
            pos1 <= bytes@.len(),
            count_us == count,
            spec_decode_text_chunk(bytes@) == Some((host_text@, bytes@.skip(pos1 as int))),
            bytes@.skip(pos1 as int).len() >= 8,
            count == spec_u64_from_le_bytes(bytes@.skip(pos1 as int).subrange(0, 8)),
            bytes@.skip(start as int) == bytes@.skip(pos1 as int).skip(8),
            spec_decode_member_texts(bytes@.skip(start as int), count_us as nat) == (
            match spec_decode_member_texts(bytes@.skip(pos as int), (count_us - i) as nat) {
                Some(t) => Some((scanned_texts(texts@) + t.0, t.1)),
                None => None,
            }),
        decreases count_us - i,
    {
        let ghost tail_before = bytes@.skip(pos as int);
        let first_read = read_text_chunk(bytes, pos);
        let (id_text, pos2) = match first_read {
            Some(v) => v,
            None => {
                proof {
                    assert(spec_decode_player(tail_before) is None);
                    assert(spec_decode_member_texts(tail_before, (count_us - i) as nat) is None);
                    assert(spec_decode_party(bytes@) is None);
                }
                return Err(WireError::Malformed);
            },
        };
        let second_read = read_text_chunk(bytes, pos2);
        let (name, pos3) = match second_read {
            Some(v) => v,
            None => {
                proof {
                    assert(spec_decode_player(tail_before) is None);
                    assert(spec_decode_member_texts(tail_before, (count_us - i) as nat) is None);
                    assert(spec_decode_party(bytes@) is None);
                }
                return Err(WireError::Malformed);
            },
        };
        proof {
            assert(spec_decode_player(tail_before) == Some(
                ((id_text@, name@), bytes@.skip(pos3 as int)),
            ));
            let ghost new_scanned = scanned_texts(texts@).push((id_text@, name@));
            assert(scanned_texts(texts@.push((id_text, name))) =~= new_scanned);
            let ghost opt = spec_decode_member_texts(
                bytes@.skip(pos3 as int),
                (count_us - i - 1) as nat,
            );
            if opt is Some {
                let t = opt.unwrap();
                assert(seq![(id_text@, name@)] + t.0 =~= Seq::<(Seq<char>, Seq<char>)>::empty().push((id_text@, name@)) + t.0);
                assert(scanned_texts(texts@) + (seq![(id_text@, name@)] + t.0) =~= new_scanned
                    + t.0);
            }
        }
        texts.push((id_text, name));
        pos = pos3;
        i = i + 1;
    }
    proof {
        assert(spec_decode_member_texts(bytes@.skip(pos as int), 0) == Some(
            (Seq::<(Seq<char>, Seq<char>)>::empty(), bytes@.skip(pos as int)),
        ));
        assert(scanned_texts(texts@) + Seq::<(Seq<char>, Seq<char>)>::empty() =~= scanned_texts(
            texts@,
        ));
        assert(spec_decode_member_texts(bytes@.skip(start as int), count_us as nat) == Some(
            (scanned_texts(texts@), bytes@.skip(pos as int)),
        ));
    }
    if pos != bytes.len() {
        proof {
            assert(bytes@.skip(pos as int).len() != 0);
        }
        return Err(WireError::Malformed);
    }
    proof {
        assert(bytes@.skip(pos as int).len() == 0);
        assert(spec_party_frame(bytes@) == Some((host_text@, scanned_texts(texts@))));
    }
    let ghost ms = scanned_texts(texts@);

    // Second pass: parse the identities.
    let host_id = match PlayerId::decode(host_text.as_str()) {
        Some(h) => h,
        None => {
            return Err(WireError::UnknownPeer);
        },
    };
    let mut players: Vec<Player> = Vec::new();
    let mut k: usize = 0;
    while k < count_us
        invariant
            0 <= k <= count_us,
            texts@.len() == count_us,
            ms == scanned_texts(texts@),
            ms.len() == count_us,
            spec_party_frame(bytes@) == Some((host_text@, ms)),
            players@.len() == k,
            host_text@ == peer_text(host_id@),
            forall|j: int|
                #![trigger players@[j]]
                0 <= j < k ==> peer_text(players@[j].id@) == ms[j].0 && players@[j].name@
                    == ms[j].1,
            forall|j: int, p: libp2p::PeerId|
                #![trigger peer_text(p), ms[j]]
                (0 <= j < k && ms[j].0 == peer_text(p)) ==> players@[j as int].id@ == p,
        decreases count_us - k,
    {
        let t = &texts[k];
        proof {
            assert(ms[k as int] == (t.0@, t.1@));
        }
        match PlayerId::decode(t.0.as_str()) {
            Some(id) => {
                let name = t.1.clone();
                players.push(Player { id, name });
            },
            None => {
                proof {
                    assert(!(exists|p: libp2p::PeerId| peer_text(p) == ms[k as int].0));
                }
                return Err(WireError::UnknownPeer);
            },
        }
        k = k + 1;
    }
    proof {
        assert(texts_are_peers(host_text@, ms)) by {
            assert(peer_text(host_id@) == host_text@);
            assert(forall|i2: int|
                #![trigger ms[i2]]
                0 <= i2 < ms.len() ==> peer_text(players@[i2].id@) == ms[i2].0);
        }
    }

    // Distinct members.
    let mut a: usize = 0;
    while a < count_us
        invariant
            0 <= a <= count_us,
            players@.len() == count_us,
            ms.len() == count_us,
            spec_party_frame(bytes@) == Some((host_text@, ms)),
            texts_are_peers(host_text@, ms),
            forall|j: int|
                #![trigger players@[j]]
                0 <= j < count_us ==> peer_text(players@[j].id@) == ms[j].0 && players@[j].name@
                    == ms[j].1,
            forall|j: int, p: libp2p::PeerId|
                #![trigger peer_text(p), ms[j]]
                (0 <= j < count_us && ms[j].0 == peer_text(p)) ==> players@[j as int].id@
                    == p,
            forall|x: int, y: int|
                0 <= x < y < count_us && x < a ==> players@[x].id@ != players@[y].id@,
        decreases count_us - a,
    {
        let mut b2: usize = a + 1;
        while b2 < count_us
            invariant
                0 <= a < count_us,
                a + 1 <= b2 <= count_us || b2 == a + 1,
                players@.len() == count_us,
                ms.len() == count_us,
                spec_party_frame(bytes@) == Some((host_text@, ms)),
                texts_are_peers(host_text@, ms),
                forall|j: int|
                    #![trigger players@[j]]
                    0 <= j < count_us ==> peer_text(players@[j].id@) == ms[j].0
                        && players@[j].name@ == ms[j].1,
                forall|j: int, p: libp2p::PeerId|
                    #![trigger peer_text(p), ms[j]]
                    (0 <= j < count_us && ms[j].0 == peer_text(p)) ==> players@[
                        j as int
                    ].id@ == p,
                forall|y: int| a < y < b2 ==> players@[a as int].id@ != players@[y].id@,
            decreases count_us - b2,
        {
            if players[a].id == players[b2].id {
                proof {
                    assert(ms[a as int].0 == ms[b2 as int].0);
                    assert(!member_texts_unique(ms));
                }
                return Err(WireError::DuplicateMember);
            }
            b2 = b2 + 1;
        }
        a = a + 1;
    }
    proof {
        assert(member_texts_unique(ms)) by {
            assert forall|x: int, y: int| 0 <= x < y < ms.len() implies ms[x].0 != ms[y].0 by {
                if ms[x].0 == ms[y].0 {
                    assert(ms[x].0 == peer_text(players@[x].id@));
                    assert(ms[y].0 == peer_text(players@[y].id@));
                    assert(players@[x as int].id@ == players@[y].id@);
                }
            }
        }
    }

    // The host must have an entry.
    let mut m: usize = 0;
    let mut host_found = false;
    while m < count_us
        invariant
            0 <= m <= count_us,
            players@.len() == count_us,
            host_found <==> exists|j: int| 0 <= j < m && players@[j as int].id@ == host_id@,
        decreases count_us - m,
    {
        if players[m].id == host_id {
            host_found = true;
        }
        m = m + 1;
    }
    if !host_found {
        proof {
            assert(!host_text_among(host_text@, ms)) by {
                if host_text_among(host_text@, ms) {
                    let j = choose|j: int| 0 <= j < ms.len() && (#[trigger] ms[j]).0 == host_text@;
                    assert(players@[j].id@ == host_id@);
                }
            }
        }
        return Err(WireError::HostMissing);
    }
    proof {
        assert(host_text_among(host_text@, ms)) by {
            let j = choose|j: int| 0 <= j < players@.len() && players@[j as int].id@ == host_id@;
            assert(ms[j].0 == peer_text(players@[j].id@));
        }
        assert(ids_unique(players@.map_values(|pl: Player| (pl.id@, pl.name@)))) by {
            assert forall|x: int, y: int|
                #![trigger players@[x], players@[y]]
                0 <= x < y < players@.len() implies players@[x].id@ != players@[y].id@ by {
                if players@[x as int].id@ == players@[y].id@ {
                    assert(ms[x].0 == ms[y].0);
                }
            }
            assert(forall|x: int|
                0 <= x < players@.len() ==> players@.map_values(
                    |pl: Player| (pl.id@, pl.name@),
                )[x].0 == #[trigger] players@[x].id@);
        }
    }
    let party = Party::from_members(players, host_id);
    proof {
        assert(party.players_seq().len() == ms.len());
    }
    Ok(party)
}

/// Law: a well-formed party encoded to its wire form decodes back to a
/// party with the same host and the identical member entries.
pub fn party_wire_round_trip(party: &Party) -> (r: Party)
    requires
        party.wf(),
    ensures
        r.wf(),
        r.spec_host() == party.spec_host(),
        r.players_seq() == party.players_seq(),
        r.members() == party.members(),
{
    let bytes = encode_party(party);
    proof {
        lemma_party_round_trip(party.spec_host(), party.players_seq(), Seq::<u8>::empty());
        assert(bytes@ + Seq::<u8>::empty() =~= bytes@);
        let hm = (peer_text(party.spec_host()), member_texts(party.players_seq()));
        assert(spec_party_frame(bytes@) == Some(hm));
        assert(texts_are_peers(hm.0, hm.1)) by {
            assert(peer_text(party.spec_host()) == hm.0);
            assert(forall|i: int|
                #![trigger hm.1[i]]
                0 <= i < hm.1.len() ==> hm.1[i] == (
                peer_text(party.players_seq()[i].0),
                party.players_seq()[i].1,
                ));
        }
        assert(member_texts_unique(hm.1)) by {
            assert forall|x: int, y: int| 0 <= x < y < hm.1.len() implies hm.1[x].0 != hm.1[y].0
                by {
                if hm.1[x].0 == hm.1[y].0 {
                    assert(peer_text(party.players_seq()[x].0) == peer_text(
                        party.players_seq()[y].0,
                    ));
                }
            }
        }
        assert(host_text_among(hm.0, hm.1)) by {
            crate::party::lemma_members_map_contains(
                party.players_seq(),
                party.spec_host(),
            );
            let i = choose|i: int|
                0 <= i < party.players_seq().len() && party.players_seq()[i].0
                    == party.spec_host();
            assert((#[trigger] hm.1[i]).0 == peer_text(party.spec_host()));
        }
    }
    match decode_party(bytes.as_slice()) {
        Ok(p) => {
            proof {
                let hm = (peer_text(party.spec_host()), member_texts(party.players_seq()));
                assert(p.players_seq() =~= party.players_seq()) by {
                    assert forall|i: int|
                        0 <= i < party.players_seq().len() implies #[trigger] p.players_seq()[i]
                        == party.players_seq()[i] by {
                        assert(hm.1[i].0 == peer_text(party.players_seq()[i].0));
                        assert(p.players_seq()[i].0 == party.players_seq()[i].0);
                        assert(p.players_seq()[i].1 == hm.1[i].1);
                    }
                }
            }
            p
        },
        Err(_) => unreached(),
    }
}

/// Law: a player encoded to its wire form decodes back to a player with
/// the identical identity and name.
pub fn player_wire_round_trip(player: &Player) -> (r: Player)
    ensures
        r.id == player.id,
        r.name@ == player.name@,
{
    let bytes = encode_player(player);
    proof {
        lemma_player_round_trip(player.id@, player.name@, Seq::<u8>::empty());
        assert(bytes@ + Seq::<u8>::empty() =~= bytes@);
    }
    match decode_player(bytes.as_slice()) {
        Ok(pl) => {
            proof {
                crate::ident::lemma_player_id_of_peer(player.id@, pl.id);
                crate::ident::lemma_player_id_of_peer(player.id@, player.id);
            }
            pl
        },
        Err(_) => unreached(),
    }
}

} // verus!
