use round_node::codec::encode_message;
use round_node::message::P2PMessage;
use round_node::node::ConsensusState;
use round_node::types::Step;

fn new_state() -> ConsensusState {
    ConsensusState::new("local".to_string(), "127.0.0.1:7000".to_string())
}

#[test]
fn fresh_state_has_a_fresh_core() {
    let cs = ConsensusState::new("n".to_string(), "127.0.0.1:7000".to_string());
    assert_eq!(cs.node_id.as_str(), "n");
    assert_eq!(cs.listen_addr.as_str(), "127.0.0.1:7000");
    assert_eq!(cs.peer_manager.get_all_peers().len(), 0);
    assert_eq!(cs.consensus_core.node_id.as_str(), "n");
    assert_eq!(cs.consensus_core.round_state.round, 0);
    assert!(cs.consensus_core.round_state.step == Step::Propose);
    assert!(cs.consensus_core.round_state.proposal.is_none());
    assert!(cs.consensus_core.round_state.locked_block_hash.is_none());
    assert_eq!(cs.consensus_core.round_state.prevotes.len(), 0);
    assert_eq!(cs.consensus_core.round_state.precommits.len(), 0);
    assert_eq!(cs.consensus_core.validators.len(), 1);
    assert!(cs.consensus_core.validators.contains("n"));
}

#[test]
fn dispatch_peer_info_registers_sender() {
    let mut cs = new_state();
    cs.process_p2p_message(P2PMessage::PeerInfo {
        node_id: "A".to_string(),
        listen_addr: "10.0.0.1:7000".to_string(),
    })
    .unwrap();
    cs.process_p2p_message(P2PMessage::PeerInfo {
        node_id: "A".to_string(),
        listen_addr: "10.0.0.1:7001".to_string(),
    })
    .unwrap();
    let peers = cs.peer_manager.get_all_peers();
    assert_eq!(peers.len(), 1);
    assert_eq!(peers[0].id.as_str(), "A");
    assert_eq!(peers[0].listen_addr.as_str(), "10.0.0.1:7001");
}

#[test]
fn dispatch_votes_reach_the_state_machine() {
    let mut cs = new_state();
    cs.process_p2p_message(P2PMessage::Prevote {
        voter_id: "v1".to_string(),
        round: 1,
        block_hash: "h1".to_string(),
    })
    .unwrap();
    cs.process_p2p_message(P2PMessage::Prevote {
        voter_id: "v1".to_string(),
        round: 1,
        block_hash: "h2".to_string(),
    })
    .unwrap();
    cs.process_p2p_message(P2PMessage::Precommit {
        voter_id: "v2".to_string(),
        round: 1,
        block_hash: "h2".to_string(),
    })
    .unwrap();
    assert_eq!(cs.consensus_core.round_state.prevotes.len(), 1);
    assert_eq!(cs.consensus_core.round_state.prevotes.get("v1").unwrap().as_str(), "h2");
    assert_eq!(cs.consensus_core.round_state.precommits.len(), 1);
}

#[test]
fn dispatch_proposal_respects_round_and_step() {
    let mut cs = new_state();
    cs.consensus_core.start_new_round("block-A".to_string());
    cs.process_p2p_message(P2PMessage::Proposal {
        proposer_id: "p1".to_string(),
        round: 1,
        block: "block-X".to_string(),
    })
    .unwrap();
    assert_eq!(cs.consensus_core.round_state.proposal.as_deref(), Some("block-X"));
}

#[test]
fn dispatch_commit_changes_nothing() {
    let mut cs = new_state();
    cs.consensus_core.start_new_round("block-A".to_string());
    cs.process_p2p_message(P2PMessage::Commit { block_hash: "h".to_string(), round: 1 })
        .unwrap();
    assert_eq!(cs.consensus_core.round_state.round, 1);
    assert!(cs.consensus_core.round_state.step == Step::Propose);
    assert_eq!(cs.consensus_core.round_state.proposal.as_deref(), Some("block-A"));
}

#[test]
fn broadcast_plans_one_attempt_per_peer() {
    let mut cs = new_state();
    for (id, addr) in [("A", "1.1.1.1:1"), ("B", "2.2.2.2:2"), ("C", "not an address")] {
        cs.process_p2p_message(P2PMessage::PeerInfo {
            node_id: id.to_string(),
            listen_addr: addr.to_string(),
        })
        .unwrap();
    }
    let msg = P2PMessage::Prevote {
        voter_id: "local".to_string(),
        round: 1,
        block_hash: "h".to_string(),
    };
    let frames = cs.broadcast_frames(&msg);
    assert_eq!(frames.len(), 3);
    let expected = encode_message(&msg);
    let mut ids: Vec<&str> = Vec::new();
    for (peer, frame) in frames.iter() {
        assert_eq!(frame, &expected);
        ids.push(peer.id.as_str());
    }
    ids.sort();
    assert_eq!(ids, vec!["A", "B", "C"]);
}

#[test]
fn broadcast_with_empty_registry_plans_nothing() {
    let cs = new_state();
    let msg = P2PMessage::Commit { block_hash: "h".to_string(), round: 1 };
    assert_eq!(cs.broadcast_frames(&msg).len(), 0);
}
