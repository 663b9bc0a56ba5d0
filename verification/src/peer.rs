//! The registry of known peers.

use vstd::prelude::*;

use crate::strmap::StrMap;

verus! {

/// A peer of the network: its unique id and the address on which it listens
/// for inbound connections.
#[derive(Debug)]
pub struct Peer {
    /// A unique identifier for the peer.
    pub id: String,
    /// The address (host:port) on which this peer listens.
    pub listen_addr: String,
}

impl Peer {
    /// Creates a new peer with the given id and address.
    pub fn new(id: String, addr: String) -> (r: Self)
        ensures
            r.id == id,
            r.listen_addr == addr,
    {
        Self { id, listen_addr: addr }
    }
}

impl Clone for Peer {
    /// A field-for-field copy.
    fn clone(&self) -> (r: Self)
        ensures
            r.id@ == self.id@,
            r.listen_addr@ == self.listen_addr@,
    {
        Self { id: self.id.clone(), listen_addr: self.listen_addr.clone() }
    }
}

/// The store of known peers, keyed by id.  A peer registered again under the
/// same id replaces the earlier entry; peers are never removed.
#[derive(Debug)]
pub struct PeerManager {
    peers: StrMap,
}

impl View for PeerManager {
    type V = Map<Seq<char>, Seq<char>>;

    /// The registry as a map from peer id to listen address.
    closed spec fn view(&self) -> Map<Seq<char>, Seq<char>> {
        self.peers@
    }
}

impl PeerManager {
    /// The registry holds at most one entry per peer id.
    pub closed spec fn wf(&self) -> bool {
        self.peers.wf()
    }

    /// Creates an empty registry.
    pub fn new() -> (r: Self)
        ensures
            r@ == Map::<Seq<char>, Seq<char>>::empty(),
            r.wf(),
    {
        Self { peers: StrMap::new() }
    }

    /// Registers `peer` under its id; the last write for an id wins.
    pub fn add_peer(&mut self, peer: Peer)
        requires
            old(self).wf(),
        ensures
            final(self)@ == old(self)@.insert(peer.id@, peer.listen_addr@),
            final(self).wf(),
    {
        let Peer { id, listen_addr } = peer;
        self.peers.insert(id, listen_addr);
    }

    /// Returns a snapshot of the registry: one `Peer` per registered id, with
    /// the most recently written address, and no id repeated.
    pub fn get_all_peers(&self) -> (r: Vec<Peer>)
        requires
            self.wf(),
        ensures
            r@.len() == self@.len(),
            forall|i: int| 0 <= i < r@.len() ==> self@.contains_key(#[trigger] r@[i].id@)
                && self@[r@[i].id@] == r@[i].listen_addr@,
            forall|i: int, j: int| 0 <= i < j < r@.len() ==> r@[i].id@ != r@[j].id@,
            forall|k: Seq<char>| self@.contains_key(k) ==> exists|i: int|
                0 <= i < r@.len() && #[trigger] r@[i].id@ == k,
    {
        proof {
            self.peers.lemma_pairs();
        }
        let pairs = self.peers.to_pairs();
        let ghost pview = self.peers.pairs();
        let n = pairs.len();
        let mut out: Vec<Peer> = Vec::new();
        let mut i: usize = 0;
        while i < n
            invariant
                n == pairs@.len(),
                pairs@.map_values(|e: (String, String)| (e.0@, e.1@)) == pview,
                0 <= i <= n,
                out@.len() == i,
                forall|k: int| 0 <= k < i ==> #[trigger] out@[k].id@ == pview[k].0
                    && out@[k].listen_addr@ == pview[k].1,
            decreases n - i,
        {
            assert(pview[i as int] == (pairs@[i as int].0@, pairs@[i as int].1@));
            let id = pairs[i].0.clone();
            let listen_addr = pairs[i].1.clone();
            out.push(Peer { id, listen_addr });
            i = i + 1;
        }
        proof {
            self.peers.lemma_pairs();
            assert forall|k: Seq<char>| self@.contains_key(k) implies exists|i: int|
                0 <= i < out@.len() && #[trigger] out@[i].id@ == k by {
                let i = choose|i: int| 0 <= i < pview.len() && #[trigger] pview[i].0 == k;
                assert(out@[i].id@ == k);
            }
        }
        out
    }
}

} // verus!
