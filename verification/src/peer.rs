//! Peer identities and sets of peers.
use vstd::prelude::*;

use crate::bytes::bytes_equal;

verus! {

broadcast use vstd::array::group_array_axioms;

/// The identity of a peer: a multihash, that is the code of a hash function and
/// a digest of at most 64 bytes. Bytes behind the digest are zero.
#[derive(Debug, Clone, Copy, PartialEq, Eq, Hash)]
pub struct PeerId {
    code: u64,
    size: u8,
    digest: [u8; 64],
}

impl PeerId {
    /// The code of the hash function.
    pub closed spec fn code(self) -> u64 {
        self.code
    }

    /// The digest.
    pub closed spec fn digest(self) -> Seq<u8> {
        self.digest@.take(self.size as int)
    }

    /// The digest fits and is followed by zeros.
    pub closed spec fn wf(self) -> bool {
        &&& self.size <= 64
        &&& forall|i: int| self.size <= i < 64 ==> self.digest[i] == 0
    }

    /// The peer with the given hash code and digest. There is none if the digest
    /// is longer than 64 bytes.
    pub fn new(code: u64, digest: &[u8]) -> (peer: Option<PeerId>)
        ensures
            peer is Some <==> digest@.len() <= 64,
            peer matches Some(peer) ==> peer.wf() && peer.code() == code && peer.digest()
                == digest@,
    {
        if digest.len() > 64 {
            return None;
        }
        let mut padded: [u8; 64] = [0u8; 64];
        let mut index: usize = 0;
        while index < digest.len()
            invariant
                index <= digest@.len() <= 64,
                forall|i: int| 0 <= i < index ==> padded[i] == digest@[i],
                forall|i: int| index <= i < 64 ==> padded[i] == 0,
            decreases digest@.len() - index,
        {
            padded[index] = digest[index];
            index = index + 1;
        }
        let peer = PeerId { code, size: digest.len() as u8, digest: padded };
        assert(peer.digest() =~= digest@);
        Some(peer)
    }

    /// Whether both identities are the same.
    pub fn equals(&self, other: &PeerId) -> (same: bool)
        ensures
            same == (*self == *other),
    {
        self.code == other.code && self.size == other.size && bytes_equal(
            &self.digest,
            &other.digest,
        )
    }
}

/// Two peers are the same exactly if their hash codes and digests are.
pub proof fn peers_differ_by_code_or_digest(left: PeerId, right: PeerId)
    requires
        left.wf(),
        right.wf(),
    ensures
        left == right <==> left.code() == right.code() && left.digest() == right.digest(),
{
    if left.code() == right.code() && left.digest() == right.digest() {
        assert(left.digest().len() == left.size);
        assert(right.digest().len() == right.size);
        assert forall|i: int| 0 <= i < 64 implies left.digest[i] == right.digest[i] by {
            if i < left.size {
                assert(left.digest()[i] == right.digest()[i]);
            }
        }
        assert(left.digest =~= right.digest);
    }
}

/// Whether `peers` holds `peer`.
pub fn contains_peer(peers: &[PeerId], peer: &PeerId) -> (found: bool)
    ensures
        found == peers@.contains(*peer),
{
    let mut index: usize = 0;
    while index < peers.len()
        invariant
            index <= peers@.len(),
            forall|i: int| 0 <= i < index ==> peers@[i] != *peer,
        decreases peers@.len() - index,
    {
        if peers[index].equals(peer) {
            return true;
        }
        index = index + 1;
    }
    false
}

/// A finite set of peers.
#[derive(Debug)]
pub struct PeerSet {
    peers: Vec<PeerId>,
}

impl View for PeerSet {
    type V = Set<PeerId>;

    closed spec fn view(&self) -> Set<PeerId> {
        self.peers@.to_set()
    }
}

impl PeerSet {
    /// The empty set.
    pub fn new() -> (set: PeerSet)
        ensures
            set@ == Set::<PeerId>::empty(),
    {
        let set = PeerSet { peers: Vec::new() };
        assert(set@ =~= Set::<PeerId>::empty());
        set
    }

    /// Whether a peer belongs to the set.
    pub fn contains(&self, peer: &PeerId) -> (found: bool)
        ensures
            found == self@.contains(*peer),
    {
        contains_peer(self.peers.as_slice(), peer)
    }

    /// Adds a peer.
    pub fn insert(&mut self, peer: PeerId)
        ensures
            final(self)@ == old(self)@.insert(peer),
    {
        if !self.contains(&peer) {
            proof {
                self.peers@.lemma_push_to_set_commute(peer);
            }
            self.peers.push(peer);
        } else {
            assert(self@.insert(peer) =~= self@);
        }
    }

    /// The members of the set other than `peer`.
    pub fn without(&self, peer: &PeerId) -> (rest: PeerSet)
        ensures
            rest@ == self@.remove(*peer),
    {
        let mut peers: Vec<PeerId> = Vec::new();
        let mut index: usize = 0;
        while index < self.peers.len()
            invariant
                index <= self.peers@.len(),
                peers@.to_set() =~= self.peers@.take(index as int).to_set().remove(*peer),
            decreases self.peers@.len() - index,
        {
            let next = self.peers[index];
            proof {
                let seen = self.peers@.take(index as int);
                assert(self.peers@.take(index + 1) =~= seen.push(next));
                seen.lemma_push_to_set_commute(next);
                peers@.lemma_push_to_set_commute(next);
            }
            if !next.equals(peer) {
                peers.push(next);
            }
            index = index + 1;
        }
        assert(self.peers@.take(self.peers@.len() as int) =~= self.peers@);
        PeerSet { peers }
    }

    /// The members of the set that stand in `others`.
    pub fn among(&self, others: &[PeerId]) -> (common: PeerSet)
        ensures
            common@ == self@.intersect(others@.to_set()),
    {
        let mut peers: Vec<PeerId> = Vec::new();
        let mut index: usize = 0;
        while index < self.peers.len()
            invariant
                index <= self.peers@.len(),
                peers@.to_set() =~= self.peers@.take(index as int).to_set().intersect(
                    others@.to_set(),
                ),
            decreases self.peers@.len() - index,
        {
            let next = self.peers[index];
            proof {
                let seen = self.peers@.take(index as int);
                assert(self.peers@.take(index + 1) =~= seen.push(next));
                seen.lemma_push_to_set_commute(next);
                peers@.lemma_push_to_set_commute(next);
            }
            if contains_peer(others, &next) {
                peers.push(next);
            }
            index = index + 1;
        }
        assert(self.peers@.take(self.peers@.len() as int) =~= self.peers@);
        PeerSet { peers }
    }

    /// The same set.
    pub fn copy(&self) -> (same: PeerSet)
        ensures
            same@ == self@,
    {
        let mut same = PeerSet::new();
        same.extend(self.peers.as_slice());
        assert(same@ =~= self@);
        same
    }

    /// Adds every peer of `others`.
    pub fn extend(&mut self, others: &[PeerId])
        ensures
            final(self)@ == old(self)@.union(others@.to_set()),
    {
        let mut index: usize = 0;
        while index < others.len()
            invariant
                index <= others@.len(),
                self@ =~= old(self)@.union(others@.take(index as int).to_set()),
            decreases others@.len() - index,
        {
            let next = others[index];
            proof {
                let seen = others@.take(index as int);
                assert(others@.take(index + 1) =~= seen.push(next));
                seen.lemma_push_to_set_commute(next);
            }
            self.insert(next);
            index = index + 1;
        }
        assert(others@.take(others@.len() as int) =~= others@);
    }
}

} // verus!
