//! Player identities.
//!
//! A player is identified by the peer identity of its network node, a
//! cryptographically derived value owned by the transport layer. The
//! identity serialises to a stable human-readable textual encoding that
//! round-trips exactly.

use vstd::prelude::*;

verus! {

// ---------------------------------------------------------------------
// Trusted declarations for the peer identity type of the transport layer.
// ---------------------------------------------------------------------

#[verifier::external_type_specification]
#[verifier::external_body]
pub struct ExPeerId(libp2p::PeerId);

/// Relies on `PeerId`'s derived `PartialEq`, which compares the underlying
/// multihash bytes: two peer identities are equal exactly when they are the
/// same identity.
pub assume_specification[ <libp2p::PeerId as PartialEq>::eq ](
    a: &libp2p::PeerId,
    b: &libp2p::PeerId,
) -> (r: bool)
    ensures
        r == (a == b),
;

/// The textual (base58) encoding of a peer identity. It is a pure function
/// of the identity: the same peer always encodes to the same text.
pub uninterp spec fn peer_text(p: libp2p::PeerId) -> Seq<char>;

/// Relies on `PeerId::to_base58`: the base58 encoding of the identity's
/// multihash bytes, a deterministic function of the identity alone. Base58
/// encoding is a bijection between texts over its alphabet and byte
/// strings, and the multihash bytes determine the identity, so no other
/// peer shares this peer's text.
#[verifier::external_body]
fn peer_to_base58(p: &libp2p::PeerId) -> (r: String)
    ensures
        r@ == peer_text(*p),
        forall|q: libp2p::PeerId| #[trigger] peer_text(q) == r@ ==> q == *p,
{
    p.to_base58()
}

/// Relies on `PeerId`'s `FromStr` impl: it base58-decodes the text and
/// rebuilds the identity from the decoded multihash bytes. Base58 encoding
/// is a bijection between texts over its alphabet and byte strings, so
/// parsing the encoding of a peer yields exactly that peer, and a parse
/// can only succeed on the encoding of some peer.
#[verifier::external_body]
fn peer_from_base58(s: &str) -> (r: Option<libp2p::PeerId>)
    ensures
        r matches Some(p) ==> s@ == peer_text(p),
        forall|p: libp2p::PeerId| s@ == peer_text(p) ==> r == Some(p),
{
    match <libp2p::PeerId as core::str::FromStr>::from_str(s) {
        Ok(p) => Some(p),
        Err(_) => None,
    }
}

// ---------------------------------------------------------------------
// PlayerId
// ---------------------------------------------------------------------

/// A player's identity: a wrapper around the network peer identity.
/// Equality and hashing delegate to the identity.
#[derive(Clone, Copy, Hash)]
pub struct PlayerId {
    peer: libp2p::PeerId,
}

impl View for PlayerId {
    type V = libp2p::PeerId;

    closed spec fn view(&self) -> libp2p::PeerId {
        self.peer
    }
}

impl PlayerId {
    /// Wraps a peer identity.
    pub fn new(peer_id: libp2p::PeerId) -> (r: PlayerId)
        ensures
            r@ == peer_id,
    {
        PlayerId { peer: peer_id }
    }

    /// The underlying peer identity.
    pub fn peer_id(self) -> (r: libp2p::PeerId)
        ensures
            r == self@,
    {
        self.peer
    }

    /// Encodes the identity to its stable textual form. No other peer's
    /// identity encodes to the same text.
    pub fn encode(&self) -> (r: String)
        ensures
            r@ == peer_text(self@),
            forall|q: libp2p::PeerId| #[trigger] peer_text(q) == r@ ==> q == self@,
    {
        peer_to_base58(&self.peer)
    }

    /// Decodes a textual identity. Succeeds exactly on the encodings of
    /// peer identities, and the encoding of a peer decodes to that peer.
    pub fn decode(s: &str) -> (r: Option<PlayerId>)
        ensures
            r matches Some(id) ==> s@ == peer_text(id@),
            forall|p: libp2p::PeerId| s@ == peer_text(p) ==> (r matches Some(id) && id@ == p),
    {
        match peer_from_base58(s) {
            Some(p) => Some(PlayerId { peer: p }),
            None => None,
        }
    }
}

impl PartialEq for PlayerId {
    fn eq(&self, other: &PlayerId) -> (r: bool) {
        self.peer == other.peer
    }
}

impl vstd::std_specs::cmp::PartialEqSpecImpl for PlayerId {
    open spec fn obeys_eq_spec() -> bool {
        true
    }

    open spec fn eq_spec(&self, other: &PlayerId) -> bool {
        self@ == other@
    }
}

/// The player identity that wraps a given peer identity.
pub closed spec fn player_id_of_peer(p: libp2p::PeerId) -> PlayerId {
    PlayerId { peer: p }
}

/// `player_id_of_peer` is the inverse of the view: it wraps exactly the
/// given peer, and two identities with the same view are the same value.
pub proof fn lemma_player_id_of_peer(p: libp2p::PeerId, id: PlayerId)
    ensures
        player_id_of_peer(p)@ == p,
        id@ == p ==> id == player_id_of_peer(p),
{
}

impl From<libp2p::PeerId> for PlayerId {
    fn from(peer_id: libp2p::PeerId) -> (r: PlayerId) {
        PlayerId { peer: peer_id }
    }
}

impl vstd::std_specs::convert::FromSpecImpl<libp2p::PeerId> for PlayerId {
    open spec fn obeys_from_spec() -> bool {
        true
    }

    open spec fn from_spec(peer_id: libp2p::PeerId) -> PlayerId {
        player_id_of_peer(peer_id)
    }
}

/// Law: encoding a player identity to its textual form and decoding the
/// text back always succeeds and yields the identical identity; the
/// failure branch is proved unreachable.
pub fn player_id_round_trip(p: PlayerId) -> (q: PlayerId)
    ensures
        q == p,
{
    let text = p.encode();
    let decoded = PlayerId::decode(text.as_str());
    proof {
        assert(decoded matches Some(id) && id@ == p@);
    }
    match decoded {
        Some(q) => q,
        None => vstd::pervasive::unreached(),
    }
}

// ---------------------------------------------------------------------
// Player
// ---------------------------------------------------------------------

/// A party member: an identity together with a display name. Created
/// locally when a user creates or joins a lobby and transmitted verbatim
/// in join messages.
pub struct Player {
    pub id: PlayerId,
    pub name: String,
}

} // verus!
