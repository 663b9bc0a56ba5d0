use round_node::codec::{decode_message, encode_message};
use round_node::message::P2PMessage;

#[test]
fn encode_peer_info_exact() {
    let m = P2PMessage::PeerInfo {
        node_id: "A".to_string(),
        listen_addr: "10.0.0.1:7000".to_string(),
    };
    assert_eq!(
        encode_message(&m),
        "{\"PeerInfo\":{\"node_id\":\"A\",\"listen_addr\":\"10.0.0.1:7000\"}}"
    );
}

#[test]
fn encode_commit_exact() {
    let m = P2PMessage::Commit { block_hash: "h1".to_string(), round: 42 };
    assert_eq!(encode_message(&m), "{\"Commit\":{\"block_hash\":\"h1\",\"round\":42}}");
}

#[test]
fn encode_proposal_exact() {
    let m = P2PMessage::Proposal {
        proposer_id: "p".to_string(),
        round: 0,
        block: "b".to_string(),
    };
    assert_eq!(
        encode_message(&m),
        "{\"Proposal\":{\"proposer_id\":\"p\",\"round\":0,\"block\":\"b\"}}"
    );
}

#[test]
fn round_trip_peer_info() {
    let m = P2PMessage::PeerInfo {
        node_id: "node-1".to_string(),
        listen_addr: "127.0.0.1:7001".to_string(),
    };
    match decode_message(encode_message(&m).as_str()) {
        Some(P2PMessage::PeerInfo { node_id, listen_addr }) => {
            assert_eq!(node_id.as_str(), "node-1");
            assert_eq!(listen_addr.as_str(), "127.0.0.1:7001");
        },
        _ => panic!("wrong decode"),
    }
}

#[test]
fn round_trip_proposal() {
    let m = P2PMessage::Proposal {
        proposer_id: "p1".to_string(),
        round: 18446744073709551615,
        block: "block-xyz".to_string(),
    };
    match decode_message(encode_message(&m).as_str()) {
        Some(P2PMessage::Proposal { proposer_id, round, block }) => {
            assert_eq!(proposer_id.as_str(), "p1");
            assert_eq!(round, 18446744073709551615);
            assert_eq!(block.as_str(), "block-xyz");
        },
        _ => panic!("wrong decode"),
    }
}

#[test]
fn round_trip_prevote() {
    let m = P2PMessage::Prevote {
        voter_id: "v1".to_string(),
        round: 7,
        block_hash: "h7".to_string(),
    };
    match decode_message(encode_message(&m).as_str()) {
        Some(P2PMessage::Prevote { voter_id, round, block_hash }) => {
            assert_eq!(voter_id.as_str(), "v1");
            assert_eq!(round, 7);
            assert_eq!(block_hash.as_str(), "h7");
        },
        _ => panic!("wrong decode"),
    }
}

#[test]
fn round_trip_precommit() {
    let m = P2PMessage::Precommit {
        voter_id: "v2".to_string(),
        round: 1000,
        block_hash: "h".to_string(),
    };
    match decode_message(encode_message(&m).as_str()) {
        Some(P2PMessage::Precommit { voter_id, round, block_hash }) => {
            assert_eq!(voter_id.as_str(), "v2");
            assert_eq!(round, 1000);
            assert_eq!(block_hash.as_str(), "h");
        },
        _ => panic!("wrong decode"),
    }
}

#[test]
fn round_trip_commit() {
    let m = P2PMessage::Commit { block_hash: "h9".to_string(), round: 9 };
    match decode_message(encode_message(&m).as_str()) {
        Some(P2PMessage::Commit { block_hash, round }) => {
            assert_eq!(block_hash.as_str(), "h9");
            assert_eq!(round, 9);
        },
        _ => panic!("wrong decode"),
    }
}

#[test]
fn round_trip_with_escaped_characters() {
    let m = P2PMessage::PeerInfo {
        node_id: "a\"b\\c\nd".to_string(),
        listen_addr: "".to_string(),
    };
    let text = encode_message(&m);
    assert_eq!(
        text,
        "{\"PeerInfo\":{\"node_id\":\"a\\u0022b\\u005cc\\u000ad\",\"listen_addr\":\"\"}}"
    );
    match decode_message(text.as_str()) {
        Some(P2PMessage::PeerInfo { node_id, listen_addr }) => {
            assert_eq!(node_id.as_str(), "a\"b\\c\nd");
            assert_eq!(listen_addr.as_str(), "");
        },
        _ => panic!("wrong decode"),
    }
}

#[test]
fn decode_accepts_exact_text() {
    let text = "{\"Prevote\":{\"voter_id\":\"v1\",\"round\":3,\"block_hash\":\"hh\"}}";
    match decode_message(text) {
        Some(P2PMessage::Prevote { voter_id, round, block_hash }) => {
            assert_eq!(voter_id.as_str(), "v1");
            assert_eq!(round, 3);
            assert_eq!(block_hash.as_str(), "hh");
        },
        _ => panic!("wrong decode"),
    }
}

#[test]
fn decode_rejects_truncated_text() {
    let m = P2PMessage::Commit { block_hash: "h1".to_string(), round: 42 };
    let text = encode_message(&m);
    for cut in 0..text.len() {
        assert!(decode_message(&text[..cut]).is_none());
    }
}

#[test]
fn decode_rejects_trailing_text() {
    let m = P2PMessage::Commit { block_hash: "h1".to_string(), round: 42 };
    let mut text = encode_message(&m);
    text.push(' ');
    assert!(decode_message(text.as_str()).is_none());
}

#[test]
fn decode_rejects_garbage() {
    assert!(decode_message("").is_none());
    assert!(decode_message("hello").is_none());
    assert!(decode_message("{\"Vote\":{}}").is_none());
    assert!(decode_message("{\"Commit\":{\"block_hash\":\"h\",\"round\":}}").is_none());
}

#[test]
fn decode_rejects_number_beyond_u64() {
    let text = "{\"Commit\":{\"block_hash\":\"h\",\"round\":18446744073709551616}}";
    assert!(decode_message(text).is_none());
}

#[test]
fn msg_type_names() {
    let peer = P2PMessage::PeerInfo { node_id: "a".to_string(), listen_addr: "b".to_string() };
    let prop = P2PMessage::Proposal {
        proposer_id: "a".to_string(),
        round: 1,
        block: "b".to_string(),
    };
    let prev = P2PMessage::Prevote {
        voter_id: "a".to_string(),
        round: 1,
        block_hash: "b".to_string(),
    };
    let prec = P2PMessage::Precommit {
        voter_id: "a".to_string(),
        round: 1,
        block_hash: "b".to_string(),
    };
    let com = P2PMessage::Commit { block_hash: "b".to_string(), round: 1 };
    assert_eq!(peer.msg_type(), "PeerInfo");
    assert_eq!(prop.msg_type(), "Proposal");
    assert_eq!(prev.msg_type(), "Prevote");
    assert_eq!(prec.msg_type(), "Precommit");
    assert_eq!(com.msg_type(), "Commit");
}
