//! The node's message dispatcher.
//!
//! `ConsensusState` is the handle the rest of the node uses: it owns the
//! peer registry and the round state machine, routes each inbound message to
//! the matching handler, and plans broadcasts.  Callers that share one
//! `ConsensusState` across tasks guard it so that each dispatch runs alone;
//! the networking itself stays outside the library.

use vstd::prelude::*;

use crate::codec::{encode_message, spec_encode};
use crate::message::{MessageView, P2PMessage};
use crate::peer::{Peer, PeerManager};
use crate::state::{
    precommit_applied, prevote_applied, proposal_applied, ConsensusCore, HandlerError,
};

verus! {

/// The dispatcher's effect on the registry and the state machine, by
/// message kind: a `PeerInfo` registers the sender, the three vote-bearing
/// kinds drive the corresponding state-machine operation, and a `Commit` is
/// only observed.
pub open spec fn dispatched(
    pre: ConsensusState,
    post: ConsensusState,
    msg: MessageView,
) -> bool {
    match msg {
        MessageView::PeerInfo { node_id, listen_addr } => {
            &&& post.peer_manager@ == pre.peer_manager@.insert(node_id, listen_addr)
            &&& post.consensus_core == pre.consensus_core
            &&& post.node_id == pre.node_id
            &&& post.listen_addr == pre.listen_addr
        },
        MessageView::Proposal { proposer_id, round, block } => {
            &&& proposal_applied(pre.consensus_core, post.consensus_core, round, block)
            &&& post.peer_manager == pre.peer_manager
            &&& post.node_id == pre.node_id
            &&& post.listen_addr == pre.listen_addr
        },
        MessageView::Prevote { voter_id, round, block_hash } => {
            &&& prevote_applied(pre.consensus_core, post.consensus_core, voter_id, block_hash)
            &&& post.peer_manager == pre.peer_manager
            &&& post.node_id == pre.node_id
            &&& post.listen_addr == pre.listen_addr
        },
        MessageView::Precommit { voter_id, round, block_hash } => {
            &&& precommit_applied(pre.consensus_core, post.consensus_core, voter_id, block_hash)
            &&& post.peer_manager == pre.peer_manager
            &&& post.node_id == pre.node_id
            &&& post.listen_addr == pre.listen_addr
        },
        MessageView::Commit { block_hash, round } => post == pre,
    }
}

/// The node's primary handle: its identity, the peer registry and the round
/// state machine.
#[derive(Debug)]
pub struct ConsensusState {
    /// The unique id of this node.
    pub node_id: String,
    /// The address (host:port) on which this node listens.
    pub listen_addr: String,
    /// The registry of known peers.
    pub peer_manager: PeerManager,
    /// The round state machine.
    pub consensus_core: ConsensusCore,
}

impl ConsensusState {
    /// The registry and both vote books are well formed.
    pub open spec fn wf(&self) -> bool {
        self.peer_manager.wf() && self.consensus_core.wf()
    }

    /// Creates the node's state: an empty registry and a fresh state
    /// machine, with every per-round field at its starting value.
    pub fn new(node_id: String, listen_addr: String) -> (r: Self)
        ensures
            r.node_id@ == node_id@,
            r.listen_addr@ == listen_addr@,
            r.peer_manager@ == Map::<Seq<char>, Seq<char>>::empty(),
            r.consensus_core.node_id@ == node_id@,
            r.consensus_core.listen_addr@ == listen_addr@,
            r.consensus_core.validators.validators@.len() == 1,
            r.consensus_core.validators.validators@[0]@ == node_id@,
            r.consensus_core.round_state.round == 0,
            r.consensus_core.round_state.step == crate::types::Step::Propose,
            r.consensus_core.round_state.proposal is None,
            r.consensus_core.round_state.locked_block_hash is None,
            r.consensus_core.round_state.prevotes@ == Map::<Seq<char>, Seq<char>>::empty(),
            r.consensus_core.round_state.precommits@ == Map::<Seq<char>, Seq<char>>::empty(),
            r.consensus_core.params.quorum_threshold_num == 67,
            r.consensus_core.params.quorum_threshold_den == 100,
            r.wf(),
    {
        let peer_manager = PeerManager::new();
        let consensus_core = ConsensusCore::new(node_id.clone(), listen_addr.clone());
        Self { node_id, listen_addr, peer_manager, consensus_core }
    }

    /// Routes one inbound message: a `PeerInfo` into the registry, the
    /// other kinds into the state machine.  No handler of the current logic
    /// fails; the error path is reserved.
    pub fn process_p2p_message(&mut self, msg: P2PMessage) -> (r: Result<(), HandlerError>)
        requires
            old(self).wf(),
        ensures
            r is Ok,
            dispatched(*old(self), *final(self), msg@),
            final(self).wf(),
    {
        match msg {
            P2PMessage::PeerInfo { node_id, listen_addr } => {
                let peer = Peer::new(node_id, listen_addr);
                self.peer_manager.add_peer(peer);
                Ok(())
            },
            P2PMessage::Proposal { proposer_id, round, block } => self.consensus_core.on_proposal(
                proposer_id,
                round,
                block,
            ),
            P2PMessage::Prevote { voter_id, round, block_hash } => self.consensus_core.on_prevote(
                voter_id,
                round,
                block_hash,
            ),
            P2PMessage::Precommit { voter_id, round, block_hash } => self
                .consensus_core
                .on_precommit(voter_id, round, block_hash),
            P2PMessage::Commit { block_hash, round } => self.consensus_core.on_commit(
                block_hash,
                round,
            ),
        }
    }

    /// Plans a broadcast of `msg`: one send attempt per registered peer,
    /// each carrying the peer's address and the message's wire text.  The
    /// attempts are independent; how one of them fares concerns no other
    /// and is never an error of the broadcast.  The caller performs them.
    pub fn broadcast_frames(&self, msg: &P2PMessage) -> (r: Vec<(Peer, String)>)
        requires
            self.wf(),
        ensures
            r@.len() == self.peer_manager@.len(),
            forall|i: int| 0 <= i < r@.len() ==> {
                &&& self.peer_manager@.contains_key(#[trigger] r@[i].0.id@)
                &&& self.peer_manager@[r@[i].0.id@] == r@[i].0.listen_addr@
                &&& r@[i].1@ == spec_encode(msg@)
            },
            forall|i: int, j: int| 0 <= i < j < r@.len() ==> r@[i].0.id@ != r@[j].0.id@,
            forall|k: Seq<char>| self.peer_manager@.contains_key(k) ==> exists|i: int|
                0 <= i < r@.len() && #[trigger] r@[i].0.id@ == k,
    {
        let peers = self.peer_manager.get_all_peers();
        let text = encode_message(msg);
        let n = peers.len();
        let mut out: Vec<(Peer, String)> = Vec::new();
        let mut i: usize = 0;
        while i < n
            invariant
                n == peers@.len(),
                text@ == spec_encode(msg@),
                0 <= i <= n,
                out@.len() == i,
                forall|k: int| 0 <= k < n ==> {
                    &&& self.peer_manager@.contains_key(#[trigger] peers@[k].id@)
                    &&& self.peer_manager@[peers@[k].id@] == peers@[k].listen_addr@
                },
                forall|k: int, l: int| 0 <= k < l < n ==> peers@[k].id@ != peers@[l].id@,
                forall|k: int| 0 <= k < i ==> #[trigger] out@[k].0.id@ == peers@[k].id@
                    && out@[k].0.listen_addr@ == peers@[k].listen_addr@ && out@[k].1@
                    == spec_encode(msg@),
            decreases n - i,
        {
            let peer = peers[i].clone();
            let frame = text.clone();
            out.push((peer, frame));
            i = i + 1;
        }
        proof {
            assert forall|k: Seq<char>| self.peer_manager@.contains_key(k) implies exists|i: int|
                0 <= i < out@.len() && #[trigger] out@[i].0.id@ == k by {
                let j = choose|j: int| 0 <= j < peers@.len() && #[trigger] peers@[j].id@ == k;
                assert(out@[j].0.id@ == k);
            }
        }
        out
    }
}

} // verus!
