use round_node::peer::{Peer, PeerManager};
use round_node::validator::ValidatorSet;

#[test]
fn peer_reregistration_updates_address() {
    let mut pm = PeerManager::new();
    pm.add_peer(Peer::new("A".to_string(), "10.0.0.1:7000".to_string()));
    pm.add_peer(Peer::new("A".to_string(), "10.0.0.1:7001".to_string()));
    let peers = pm.get_all_peers();
    assert_eq!(peers.len(), 1);
    assert_eq!(peers[0].id.as_str(), "A");
    assert_eq!(peers[0].listen_addr.as_str(), "10.0.0.1:7001");
}

#[test]
fn registry_holds_every_id_once() {
    let mut pm = PeerManager::new();
    pm.add_peer(Peer::new("A".to_string(), "1.1.1.1:1".to_string()));
    pm.add_peer(Peer::new("B".to_string(), "2.2.2.2:2".to_string()));
    pm.add_peer(Peer::new("C".to_string(), "3.3.3.3:3".to_string()));
    pm.add_peer(Peer::new("B".to_string(), "4.4.4.4:4".to_string()));
    let peers = pm.get_all_peers();
    assert_eq!(peers.len(), 3);
    let mut ids: Vec<&str> = peers.iter().map(|p| p.id.as_str()).collect();
    ids.sort();
    assert_eq!(ids, vec!["A", "B", "C"]);
    let b = peers.iter().find(|p| p.id.as_str() == "B").unwrap();
    assert_eq!(b.listen_addr.as_str(), "4.4.4.4:4");
}

#[test]
fn empty_registry_has_no_peers() {
    let pm = PeerManager::new();
    assert_eq!(pm.get_all_peers().len(), 0);
}

#[test]
fn validator_set_membership_and_size() {
    let vs = ValidatorSet::new_simple(vec!["a".to_string(), "b".to_string()]);
    assert_eq!(vs.len(), 2);
    assert!(vs.contains("a"));
    assert!(vs.contains("b"));
    assert!(!vs.contains("c"));
}
