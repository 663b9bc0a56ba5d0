use round_node::state::ConsensusCore;
use round_node::types::ConsensusParams;
use round_node::types::RoundState;
use round_node::types::Step;

#[test]
fn new_core_starts_at_round_zero() {
    let core = ConsensusCore::new("n1".to_string(), "127.0.0.1:7000".to_string());
    assert_eq!(core.round_state.round, 0);
    assert!(core.round_state.step == Step::Propose);
    assert!(core.round_state.proposal.is_none());
    assert!(core.round_state.locked_block_hash.is_none());
    assert_eq!(core.round_state.prevotes.len(), 0);
    assert_eq!(core.round_state.precommits.len(), 0);
    assert_eq!(core.validators.len(), 1);
    assert!(core.validators.contains("n1"));
    assert!(!core.validators.contains("n2"));
    assert_eq!(core.params.quorum_threshold_num, 67);
    assert_eq!(core.params.quorum_threshold_den, 100);
}

#[test]
fn two_rounds_with_no_votes() {
    let mut core = ConsensusCore::new("n1".to_string(), "127.0.0.1:7000".to_string());
    core.start_new_round("block-A".to_string());
    assert_eq!(core.round_state.round, 1);
    assert!(core.round_state.step == Step::Propose);
    core.start_new_round("block-B".to_string());
    assert_eq!(core.round_state.round, 2);
    assert!(core.round_state.step == Step::Propose);
    assert_eq!(core.round_state.proposal.as_deref(), Some("block-B"));
    assert_eq!(core.round_state.prevotes.len(), 0);
    assert_eq!(core.round_state.precommits.len(), 0);
}

#[test]
fn new_round_clears_votes_and_lock() {
    let mut core = ConsensusCore::new("n1".to_string(), "127.0.0.1:7000".to_string());
    core.start_new_round("block-A".to_string());
    core.on_prevote("v1".to_string(), 1, "h1".to_string()).unwrap();
    core.on_prevote("v2".to_string(), 1, "h1".to_string()).unwrap();
    core.on_precommit("v1".to_string(), 1, "h1".to_string()).unwrap();
    core.round_state.locked_block_hash = Some("h1".to_string());
    core.start_new_round("block-B".to_string());
    assert_eq!(core.round_state.prevotes.len(), 0);
    assert_eq!(core.round_state.precommits.len(), 0);
    assert!(core.round_state.locked_block_hash.is_none());
    assert!(core.round_state.step == Step::Propose);
}

#[test]
fn stale_proposal_is_ignored() {
    let mut core = ConsensusCore::new("n1".to_string(), "127.0.0.1:7000".to_string());
    for _ in 0..5 {
        core.start_new_round("block".to_string());
    }
    assert_eq!(core.round_state.round, 5);
    core.on_proposal("p1".to_string(), 3, "stale-block".to_string()).unwrap();
    assert_eq!(core.round_state.proposal.as_deref(), Some("block"));
}

#[test]
fn proposal_outside_propose_step_is_ignored() {
    let mut core = ConsensusCore::new("n1".to_string(), "127.0.0.1:7000".to_string());
    core.start_new_round("block-A".to_string());
    core.round_state.step = Step::Prevote;
    core.on_proposal("p1".to_string(), 1, "block-X".to_string()).unwrap();
    assert_eq!(core.round_state.proposal.as_deref(), Some("block-A"));
}

#[test]
fn current_proposal_is_replaced() {
    let mut core = ConsensusCore::new("n1".to_string(), "127.0.0.1:7000".to_string());
    core.start_new_round("block-A".to_string());
    core.on_proposal("p1".to_string(), 1, "block-X".to_string()).unwrap();
    assert_eq!(core.round_state.proposal.as_deref(), Some("block-X"));
    core.on_proposal("p2".to_string(), 7, "block-Y".to_string()).unwrap();
    assert_eq!(core.round_state.proposal.as_deref(), Some("block-Y"));
}

#[test]
fn repeated_prevote_overwrites() {
    let mut core = ConsensusCore::new("n1".to_string(), "127.0.0.1:7000".to_string());
    core.on_prevote("v1".to_string(), 1, "h1".to_string()).unwrap();
    core.on_prevote("v1".to_string(), 1, "h2".to_string()).unwrap();
    assert_eq!(core.round_state.prevotes.len(), 1);
    assert_eq!(core.round_state.prevotes.get("v1").unwrap().as_str(), "h2");
}

#[test]
fn repeated_precommit_overwrites() {
    let mut core = ConsensusCore::new("n1".to_string(), "127.0.0.1:7000".to_string());
    core.on_precommit("v1".to_string(), 9, "h1".to_string()).unwrap();
    core.on_precommit("v1".to_string(), 2, "h2".to_string()).unwrap();
    assert_eq!(core.round_state.precommits.len(), 1);
    assert_eq!(core.round_state.precommits.get("v1").unwrap().as_str(), "h2");
}

#[test]
fn vote_round_argument_is_not_checked() {
    let mut core = ConsensusCore::new("n1".to_string(), "127.0.0.1:7000".to_string());
    core.start_new_round("block-A".to_string());
    core.on_prevote("v1".to_string(), 99, "h1".to_string()).unwrap();
    assert_eq!(core.round_state.prevotes.len(), 1);
    assert_eq!(core.round_state.prevotes.get("v1").unwrap().as_str(), "h1");
}

#[test]
fn commit_mutates_nothing() {
    let mut core = ConsensusCore::new("n1".to_string(), "127.0.0.1:7000".to_string());
    core.start_new_round("block-A".to_string());
    core.on_prevote("v1".to_string(), 1, "h1".to_string()).unwrap();
    core.on_commit("h1".to_string(), 1).unwrap();
    assert_eq!(core.round_state.round, 1);
    assert!(core.round_state.step == Step::Propose);
    assert_eq!(core.round_state.proposal.as_deref(), Some("block-A"));
    assert_eq!(core.round_state.prevotes.len(), 1);
}

#[test]
fn round_state_new_is_empty() {
    let rs = RoundState::new();
    assert_eq!(rs.round, 0);
    assert!(rs.step == Step::Propose);
    assert!(rs.proposal.is_none());
    assert!(rs.locked_block_hash.is_none());
    assert_eq!(rs.prevotes.len(), 0);
    assert_eq!(rs.precommits.len(), 0);
    let d = RoundState::default();
    assert_eq!(d.round, 0);
    assert!(d.step == Step::Propose);
}

#[test]
fn default_params_are_the_67_percent_ratio() {
    let p = ConsensusParams::default();
    assert_eq!(p.quorum_threshold_num, 67);
    assert_eq!(p.quorum_threshold_den, 100);
}
