//! The five message kinds exchanged between nodes.

use vstd::prelude::*;

verus! {

/// The mathematical value of a message: its kind and the views of its
/// fields.
pub enum MessageView {
    /// A node announcing its id and listen address.
    PeerInfo { node_id: Seq<char>, listen_addr: Seq<char> },
    /// A block proposal for a round.
    Proposal { proposer_id: Seq<char>, round: u64, block: Seq<char> },
    /// A prevote for a round and block.
    Prevote { voter_id: Seq<char>, round: u64, block_hash: Seq<char> },
    /// A precommit for a round and block.
    Precommit { voter_id: Seq<char>, round: u64, block_hash: Seq<char> },
    /// A commit announcement for a block at a round.
    Commit { block_hash: Seq<char>, round: u64 },
}

/// A message that can be exchanged with a peer.
#[derive(Debug, Clone)]
pub enum P2PMessage {
    /// A handshake: a node announces its id and listen address.
    PeerInfo { node_id: String, listen_addr: String },
    /// A block proposal for a given round.
    Proposal { proposer_id: String, round: u64, block: String },
    /// A prevote for a given round and block.
    Prevote { voter_id: String, round: u64, block_hash: String },
    /// A precommit for a given round and block.
    Precommit { voter_id: String, round: u64, block_hash: String },
    /// A final commit announcement for a block at a specific round.
    Commit { block_hash: String, round: u64 },
}

impl View for P2PMessage {
    type V = MessageView;

    open spec fn view(&self) -> MessageView {
        match self {
            P2PMessage::PeerInfo { node_id, listen_addr } => MessageView::PeerInfo {
                node_id: node_id@,
                listen_addr: listen_addr@,
            },
            P2PMessage::Proposal { proposer_id, round, block } => MessageView::Proposal {
                proposer_id: proposer_id@,
                round: *round,
                block: block@,
            },
            P2PMessage::Prevote { voter_id, round, block_hash } => MessageView::Prevote {
                voter_id: voter_id@,
                round: *round,
                block_hash: block_hash@,
            },
            P2PMessage::Precommit { voter_id, round, block_hash } => MessageView::Precommit {
                voter_id: voter_id@,
                round: *round,
                block_hash: block_hash@,
            },
            P2PMessage::Commit { block_hash, round } => MessageView::Commit {
                block_hash: block_hash@,
                round: *round,
            },
        }
    }
}

impl P2PMessage {
    /// Returns the name of the message's kind, as it appears on the wire.
    pub fn msg_type(&self) -> (r: &'static str)
        ensures
            match self@ {
                MessageView::PeerInfo { .. } => r@ == "PeerInfo"@,
                MessageView::Proposal { .. } => r@ == "Proposal"@,
                MessageView::Prevote { .. } => r@ == "Prevote"@,
                MessageView::Precommit { .. } => r@ == "Precommit"@,
                MessageView::Commit { .. } => r@ == "Commit"@,
            },
    {
        match self {
            P2PMessage::PeerInfo { .. } => "PeerInfo",
            P2PMessage::Proposal { .. } => "Proposal",
            P2PMessage::Prevote { .. } => "Prevote",
            P2PMessage::Precommit { .. } => "Precommit",
            P2PMessage::Commit { .. } => "Commit",
        }
    }
}

} // verus!
