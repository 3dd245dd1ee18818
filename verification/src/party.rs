//! The replicated party.
//!
//! A party is a mapping from player identities to players plus a
//! designated host. Insertion order is irrelevant: the mathematical
//! model is the map from peer identity to display name. The party is
//! created non-empty (pre-populated with the host on the host path, or
//! with a provisional host entry on the client path) and membership only
//! grows; re-insertion under an existing identity silently overwrites.

use vstd::prelude::*;

use crate::ident::{Player, PlayerId};

verus! {

/// The map described by an association sequence of (identity, name)
/// entries; a later entry for the same identity overwrites an earlier one.
pub open spec fn members_map(s: Seq<(libp2p::PeerId, Seq<char>)>) -> Map<
    libp2p::PeerId,
    Seq<char>,
>
    decreases s.len(),
{
    if s.len() == 0 {
        Map::empty()
    } else {
        members_map(s.drop_last()).insert(s.last().0, s.last().1)
    }
}

/// No two entries of the sequence share an identity.
pub open spec fn ids_unique(s: Seq<(libp2p::PeerId, Seq<char>)>) -> bool {
    forall|i: int, j: int| 0 <= i < j < s.len() ==> s[i].0 != s[j].0
}

/// The index of the entry for `k`.
pub open spec fn entry_index(s: Seq<(libp2p::PeerId, Seq<char>)>, k: libp2p::PeerId) -> int {
    choose|i: int| 0 <= i < s.len() && s[i].0 == k
}

/// Insertion into the association sequence: overwrite in place when the
/// identity is present, append otherwise.
pub open spec fn seq_insert(
    s: Seq<(libp2p::PeerId, Seq<char>)>,
    k: libp2p::PeerId,
    v: Seq<char>,
) -> Seq<(libp2p::PeerId, Seq<char>)> {
    if exists|i: int| 0 <= i < s.len() && s[i].0 == k {
        s.update(entry_index(s, k), (k, v))
    } else {
        s.push((k, v))
    }
}

pub proof fn lemma_members_map_contains(s: Seq<(libp2p::PeerId, Seq<char>)>, k: libp2p::PeerId)
    ensures
        members_map(s).contains_key(k) <==> exists|i: int| 0 <= i < s.len() && s[i].0 == k,
    decreases s.len(),
{
    if s.len() > 0 {
        lemma_members_map_contains(s.drop_last(), k);
        if s.last().0 == k {
            assert(s[s.len() - 1].0 == k);
        } else if members_map(s).contains_key(k) {
            let i = choose|i: int| 0 <= i < s.drop_last().len() && s.drop_last()[i].0 == k;
            assert(s[i].0 == k);
        } else if exists|i: int| 0 <= i < s.len() && s[i].0 == k {
            let i = choose|i: int| 0 <= i < s.len() && s[i].0 == k;
            assert(s.drop_last()[i].0 == k);
        }
    }
}

pub proof fn lemma_members_map_index(s: Seq<(libp2p::PeerId, Seq<char>)>, i: int)
    requires
        ids_unique(s),
        0 <= i < s.len(),
    ensures
        members_map(s).contains_key(s[i].0),
        members_map(s)[s[i].0] == s[i].1,
    decreases s.len(),
{
    if i == s.len() - 1 {
    } else {
        assert(s.drop_last()[i] == s[i]);
        lemma_members_map_index(s.drop_last(), i);
        assert(s[i].0 != s.last().0);
    }
}

pub proof fn lemma_members_map_push(s: Seq<(libp2p::PeerId, Seq<char>)>, k: libp2p::PeerId, v: Seq<char>)
    ensures
        members_map(s.push((k, v))) == members_map(s).insert(k, v),
{
    assert(s.push((k, v)).drop_last() =~= s);
    assert(s.push((k, v)).last() == (k, v));
}

pub proof fn lemma_members_map_update(s: Seq<(libp2p::PeerId, Seq<char>)>, i: int, v: Seq<char>)
    requires
        ids_unique(s),
        0 <= i < s.len(),
    ensures
        members_map(s.update(i, (s[i].0, v))) == members_map(s).insert(s[i].0, v),
    decreases s.len(),
{
    let k = s[i].0;
    let t = s.update(i, (k, v));
    if i == s.len() - 1 {
        assert(t.drop_last() =~= s.drop_last());
        assert(t.last() == (k, v));
        assert(members_map(s.drop_last()).insert(s.last().0, s.last().1).insert(k, v)
            =~= members_map(s.drop_last()).insert(k, v));
    } else {
        assert(t.drop_last() =~= s.drop_last().update(i, (k, v)));
        assert(s.drop_last()[i] == s[i]);
        lemma_members_map_update(s.drop_last(), i, v);
        assert(t.last() == s.last());
        assert(k != s.last().0);
        assert(members_map(s.drop_last()).insert(k, v).insert(s.last().0, s.last().1)
            =~= members_map(s.drop_last()).insert(s.last().0, s.last().1).insert(k, v));
    }
}

pub proof fn lemma_members_map_remove(s: Seq<(libp2p::PeerId, Seq<char>)>, i: int)
    requires
        ids_unique(s),
        0 <= i < s.len(),
    ensures
        members_map(s.remove(i)) == members_map(s).remove(s[i].0),
    decreases s.len(),
{
    let k = s[i].0;
    let t = s.remove(i);
    if i == s.len() - 1 {
        assert(t =~= s.drop_last());
        lemma_members_map_contains(s.drop_last(), k);
        assert(forall|j: int| 0 <= j < s.drop_last().len() ==> s.drop_last()[j].0 != k);
        assert(!members_map(s.drop_last()).contains_key(k));
        assert(members_map(s.drop_last()).insert(k, s.last().1).remove(k)
            =~= members_map(s.drop_last()));
    } else {
        assert(t.drop_last() =~= s.drop_last().remove(i));
        assert(s.drop_last()[i] == s[i]);
        lemma_members_map_remove(s.drop_last(), i);
        assert(t.last() == s.last());
        assert(k != s.last().0);
        assert(members_map(s.drop_last()).remove(k).insert(s.last().0, s.last().1)
            =~= members_map(s.drop_last()).insert(s.last().0, s.last().1).remove(k));
    }
}

// ---------------------------------------------------------------------
// Party
// ---------------------------------------------------------------------

/// The party: players keyed by identity, plus the host's identity.
/// Invariant: the party is non-empty, identities are unique, and the
/// host always has a corresponding entry.
pub struct Party {
    players: Vec<Player>,
    host_id: PlayerId,
}

impl Party {
    /// The association sequence of (identity, name) entries, in insertion
    /// order. The order carries no meaning; `members` is the model.
    pub closed spec fn players_seq(self) -> Seq<(libp2p::PeerId, Seq<char>)> {
        self.players@.map_values(|pl: Player| (pl.id@, pl.name@))
    }

    /// The host's identity.
    pub closed spec fn spec_host(self) -> libp2p::PeerId {
        self.host_id@
    }

    /// The mathematical model: the map from identity to display name.
    pub open spec fn members(self) -> Map<libp2p::PeerId, Seq<char>> {
        members_map(self.players_seq())
    }

    /// Well-formedness: non-empty, unique identities, host present.
    pub open spec fn wf(self) -> bool {
        &&& ids_unique(self.players_seq())
        &&& self.players_seq().len() >= 1
        &&& self.members().contains_key(self.spec_host())
    }

    /// A new party containing exactly the given player, seated as host.
    pub fn new(host_player: Player) -> (r: Party)
        ensures
            r.wf(),
            r.spec_host() == host_player.id@,
            r.members() == Map::<libp2p::PeerId, Seq<char>>::empty().insert(
                host_player.id@,
                host_player.name@,
            ),
            r.players_seq() == seq![(host_player.id@, host_player.name@)],
    {
        let host_id = host_player.id;
        let mut players: Vec<Player> = Vec::new();
        let ghost empty_seq = players@.map_values(|pl: Player| (pl.id@, pl.name@));
        proof {
            assert(empty_seq =~= Seq::<(libp2p::PeerId, Seq<char>)>::empty());
        }
        players.push(host_player);
        let r = Party { players, host_id };
        proof {
            assert(r.players_seq() =~= seq![(host_player.id@, host_player.name@)]);
            assert(r.players_seq().drop_last() =~= Seq::<(libp2p::PeerId, Seq<char>)>::empty());
            assert(members_map(Seq::<(libp2p::PeerId, Seq<char>)>::empty())
                =~= Map::<libp2p::PeerId, Seq<char>>::empty());
            assert(r.players_seq().last() == (host_player.id@, host_player.name@));
            lemma_members_map_index(r.players_seq(), 0);
            assert(r.members() =~= Map::<libp2p::PeerId, Seq<char>>::empty().insert(
                host_player.id@,
                host_player.name@,
            ));
        }
        r
    }

    /// The number of members.
    pub fn len(&self) -> (r: usize)
        ensures
            r == self.players_seq().len(),
    {
        self.players.len()
    }

    /// The host's identity.
    pub fn host_id(&self) -> (r: PlayerId)
        ensures
            r@ == self.spec_host(),
    {
        self.host_id
    }

    /// The members, in insertion order.
    pub fn players(&self) -> (r: &Vec<Player>)
        ensures
            r@.map_values(|pl: Player| (pl.id@, pl.name@)) == self.players_seq(),
    {
        &self.players
    }

    /// The index of the entry for `id`, if present.
    fn index_of(&self, id: &PlayerId) -> (r: Option<usize>)
        ensures
            match r {
                Some(i) => 0 <= i < self.players_seq().len() && self.players_seq()[i as int].0
                    == id@,
                None => forall|i: int|
                    0 <= i < self.players_seq().len() ==> self.players_seq()[i].0 != id@,
            },
    {
        let n = self.players.len();
        let mut i: usize = 0;
        while i < n
            invariant
                n == self.players_seq().len(),
                0 <= i <= n,
                forall|j: int| 0 <= j < i ==> self.players_seq()[j].0 != id@,
            decreases n - i,
        {
            if self.players[i].id == *id {
                assert(self.players_seq()[i as int].0 == id@);
                return Some(i);
            }
            i = i + 1;
        }
        None
    }

    /// Whether `id` has an entry.
    pub fn contains(&self, id: &PlayerId) -> (r: bool)
        ensures
            r == self.members().contains_key(id@),
    {
        proof {
            lemma_members_map_contains(self.players_seq(), id@);
        }
        match self.index_of(id) {
            Some(_) => true,
            None => false,
        }
    }

    /// The member with identity `id`, if present.
    pub fn get(&self, id: &PlayerId) -> (r: Option<&Player>)
        requires
            self.wf(),
        ensures
            match r {
                Some(pl) => self.members().contains_key(id@) && pl.id@ == id@ && pl.name@
                    == self.members()[id@],
                None => !self.members().contains_key(id@),
            },
    {
        proof {
            lemma_members_map_contains(self.players_seq(), id@);
        }
        match self.index_of(id) {
            Some(i) => {
                proof {
                    lemma_members_map_index(self.players_seq(), i as int);
                }
                Some(&self.players[i])
            },
            None => None,
        }
    }

    /// Inserts a player, keyed by its identity; re-insertion under an
    /// existing identity overwrites that entry with the new player.
    pub fn insert(&mut self, player: Player)
        requires
            old(self).wf(),
        ensures
            final(self).wf(),
            final(self).spec_host() == old(self).spec_host(),
            final(self).members() == old(self).members().insert(player.id@, player.name@),
            final(self).players_seq() == seq_insert(
                old(self).players_seq(),
                player.id@,
                player.name@,
            ),
            final(self).players_seq().len() == if old(self).members().contains_key(player.id@) {
                old(self).players_seq().len()
            } else {
                old(self).players_seq().len() + 1
            },
    {
        proof {
            lemma_members_map_contains(old(self).players_seq(), player.id@);
        }
        let ghost old_seq = old(self).players_seq();
        match self.index_of(&player.id) {
            Some(i) => {
                let ghost pid = player.id@;
                let ghost pname = player.name@;
                self.players[i] = player;
                proof {
                    assert(self.players_seq() =~= old_seq.update(i as int, (pid, pname)));
                    assert(old_seq[i as int].0 == pid);
                    let i0 = entry_index(old_seq, pid);
                    assert(0 <= i0 < old_seq.len() && old_seq[i0].0 == pid);
                    assert(i0 == i as int);
                    lemma_members_map_update(old_seq, i as int, pname);
                    assert(ids_unique(self.players_seq()));
                    lemma_members_map_contains(self.players_seq(), old(self).spec_host());
                    lemma_members_map_contains(old_seq, old(self).spec_host());
                }
            },
            None => {
                let ghost pid = player.id@;
                let ghost pname = player.name@;
                self.players.push(player);
                proof {
                    assert(self.players_seq() =~= old_seq.push((pid, pname)));
                    lemma_members_map_push(old_seq, pid, pname);
                    assert(ids_unique(self.players_seq()));
                    lemma_members_map_contains(self.players_seq(), old(self).spec_host());
                    lemma_members_map_contains(old_seq, old(self).spec_host());
                }
            },
        }
    }

    /// Assembles a party from a validated member list: at least one
    /// member, distinct identities, and an entry for the host.
    pub fn from_members(players: Vec<Player>, host_id: PlayerId) -> (r: Party)
        requires
            ids_unique(players@.map_values(|pl: Player| (pl.id@, pl.name@))),
            players@.len() >= 1,
            exists|i: int| 0 <= i < players@.len() && players@[i as int].id@ == host_id@,
        ensures
            r.wf(),
            r.spec_host() == host_id@,
            r.players_seq() == players@.map_values(|pl: Player| (pl.id@, pl.name@)),
    {
        let r = Party { players, host_id };
        proof {
            let i = choose|i: int|
                0 <= i < r.players@.len() && r.players@[i as int].id@ == host_id@;
            assert(r.players_seq()[i].0 == host_id@);
            lemma_members_map_contains(r.players_seq(), host_id@);
        }
        r
    }

    /// Removes and returns the entry for `id`, if present. Removal can
    /// unseat the host entry, so well-formedness is not preserved in
    /// general; the caller replaces the party after taking the entry out.
    pub fn remove(&mut self, id: &PlayerId) -> (r: Option<Player>)
        requires
            old(self).wf(),
        ensures
            ids_unique(final(self).players_seq()),
            final(self).spec_host() == old(self).spec_host(),
            match r {
                Some(pl) => {
                    &&& old(self).members().contains_key(id@)
                    &&& pl.id@ == id@
                    &&& pl.name@ == old(self).members()[id@]
                    &&& final(self).members() == old(self).members().remove(id@)
                },
                None => {
                    &&& !old(self).members().contains_key(id@)
                    &&& final(self).members() == old(self).members()
                    &&& *final(self) == *old(self)
                },
            },
    {
        proof {
            lemma_members_map_contains(old(self).players_seq(), id@);
        }
        let ghost old_seq = old(self).players_seq();
        match self.index_of(id) {
            Some(i) => {
                proof {
                    lemma_members_map_index(old_seq, i as int);
                    lemma_members_map_remove(old_seq, i as int);
                }
                let pl = self.players.remove(i);
                proof {
                    assert(self.players_seq() =~= old_seq.remove(i as int));
                    assert(ids_unique(self.players_seq()));
                }
                Some(pl)
            },
            None => None,
        }
    }
}

// ---------------------------------------------------------------------
// Laws
// ---------------------------------------------------------------------

/// The model of a sequence of insertions applied in order.
pub open spec fn insert_all(
    members: Map<libp2p::PeerId, Seq<char>>,
    entries: Seq<(libp2p::PeerId, Seq<char>)>,
) -> Map<libp2p::PeerId, Seq<char>>
    decreases entries.len(),
{
    if entries.len() == 0 {
        members
    } else {
        insert_all(members, entries.drop_last()).insert(entries.last().0, entries.last().1)
    }
}

/// Law: for every sequence of insertions into a party whose host entry is
/// present, the host entry is still present afterwards (and the party can
/// only have grown, hence stays non-empty).
pub proof fn lemma_insertions_preserve_host_entry(
    members: Map<libp2p::PeerId, Seq<char>>,
    host: libp2p::PeerId,
    entries: Seq<(libp2p::PeerId, Seq<char>)>,
)
    requires
        members.contains_key(host),
    ensures
        insert_all(members, entries).contains_key(host),
    decreases entries.len(),
{
    if entries.len() > 0 {
        lemma_insertions_preserve_host_entry(members, host, entries.drop_last());
    }
}

/// Law: inserting two players with the same identity leaves exactly one
/// entry for that identity, carrying the name inserted last.
pub proof fn lemma_duplicate_insert_overwrites(
    members: Map<libp2p::PeerId, Seq<char>>,
    id: libp2p::PeerId,
    first_name: Seq<char>,
    last_name: Seq<char>,
)
    ensures
        members.insert(id, first_name).insert(id, last_name) == members.insert(id, last_name),
        members.insert(id, first_name).insert(id, last_name)[id] == last_name,
{
    assert(members.insert(id, first_name).insert(id, last_name) =~= members.insert(
        id,
        last_name,
    ));
}

/// Law: the same, at the level of the stored entries: a second insertion
/// under an identity overwrites the first in place and adds no row, so
/// the party holds exactly one entry for that identity.
pub proof fn lemma_seq_insert_overwrites(
    s: Seq<(libp2p::PeerId, Seq<char>)>,
    id: libp2p::PeerId,
    first_name: Seq<char>,
    last_name: Seq<char>,
)
    requires
        ids_unique(s),
    ensures
        seq_insert(seq_insert(s, id, first_name), id, last_name) == seq_insert(s, id, last_name),
        seq_insert(seq_insert(s, id, first_name), id, last_name).len() == seq_insert(
            s,
            id,
            last_name,
        ).len(),
{
    if exists|i: int| 0 <= i < s.len() && s[i].0 == id {
        let i0 = entry_index(s, id);
        assert(0 <= i0 < s.len() && s[i0].0 == id);
        let t1 = s.update(i0, (id, first_name));
        assert(seq_insert(s, id, first_name) == t1);
        assert(t1[i0].0 == id);
        assert(exists|i: int| 0 <= i < t1.len() && t1[i].0 == id);
        let j0 = entry_index(t1, id);
        assert(0 <= j0 < t1.len() && t1[j0].0 == id);
        assert(forall|i: int| 0 <= i < t1.len() && i != i0 ==> #[trigger] t1[i] == s[i]);
        assert(j0 == i0);
        assert(t1.update(i0, (id, last_name)) =~= s.update(i0, (id, last_name)));
    } else {
        let t1 = s.push((id, first_name));
        assert(seq_insert(s, id, first_name) == t1);
        assert(t1[s.len() as int].0 == id);
        assert(exists|i: int| 0 <= i < t1.len() && t1[i].0 == id);
        let j0 = entry_index(t1, id);
        assert(0 <= j0 < t1.len() && t1[j0].0 == id);
        assert(forall|i: int| 0 <= i < s.len() ==> #[trigger] t1[i] == s[i]);
        assert(j0 == s.len() as int);
        assert(t1.update(s.len() as int, (id, last_name)) =~= s.push((id, last_name)));
    }
}

} // verus!
