use eth2_libp2p::behaviour::{
    Behaviour, BehaviourEvent, GossipsubEvent, GossipsubMessage, IdentifyEvent, IdentifyInfo,
    InboundEvent, RPCMessage,
};
use eth2_libp2p::message::{ssz_encode, Attestation, BeaconBlock, PubsubMessage};

fn gossip(source: Vec<u8>, data: Vec<u8>) -> InboundEvent<u32> {
    InboundEvent::Gossipsub(GossipsubEvent::Message(GossipsubMessage {
        source,
        data,
        topics: vec!["beacon_block".to_string()],
    }))
}

fn info(n: u8) -> IdentifyInfo {
    IdentifyInfo {
        public_key: vec![1, 2],
        protocol_version: "eth2/1.0".to_string(),
        agent_version: "node".to_string(),
        listen_addrs: (0..n).map(|i| vec![i, i]).collect(),
        protocols: vec!["/ping".to_string()],
        observed_addr: vec![9],
    }
}

#[test]
fn poll_on_empty_queue_is_pending() {
    let mut b: Behaviour<u32> = Behaviour::new();
    assert!(b.poll().is_none());
    assert!(b.poll().is_none());
}

#[test]
fn events_come_out_in_injection_order() {
    let mut b: Behaviour<u32> = Behaviour::new();
    let data = ssz_encode(&PubsubMessage::Block(BeaconBlock { body: vec![3] }));
    b.inject_event(InboundEvent::Rpc(RPCMessage::PeerDialed(vec![1])));
    b.inject_event(gossip(vec![2], data));
    b.inject_event(InboundEvent::Rpc(RPCMessage::RPC(vec![3], 77)));
    match b.poll() {
        Some(BehaviourEvent::PeerDialed(p)) => assert_eq!(p, vec![1]),
        _ => panic!("expected the dialed peer first"),
    }
    match b.poll() {
        Some(BehaviourEvent::GossipMessage { source, topics, message }) => {
            assert_eq!(source, vec![2]);
            assert_eq!(topics, vec!["beacon_block".to_string()]);
            assert_eq!(message, PubsubMessage::Block(BeaconBlock { body: vec![3] }));
        }
        _ => panic!("expected the gossip message second"),
    }
    match b.poll() {
        Some(BehaviourEvent::RPC(p, e)) => {
            assert_eq!(p, vec![3]);
            assert_eq!(e, 77);
        }
        _ => panic!("expected the exchange third"),
    }
    assert!(b.poll().is_none());
}

#[test]
fn malformed_gossip_is_dropped() {
    let mut b: Behaviour<u32> = Behaviour::new();
    b.inject_event(gossip(vec![1], vec![5, 0, 0, 0, 0, 0, 0, 0]));
    b.inject_event(gossip(vec![1], vec![0, 0]));
    assert!(b.poll().is_none());
    let data = ssz_encode(&PubsubMessage::Attestation(Attestation { body: vec![] }));
    b.inject_event(InboundEvent::Rpc(RPCMessage::PeerDialed(vec![4])));
    b.inject_event(gossip(vec![1], vec![1, 0, 0, 0]));
    b.inject_event(gossip(vec![6], data));
    assert!(matches!(b.poll(), Some(BehaviourEvent::PeerDialed(_))));
    match b.poll() {
        Some(BehaviourEvent::GossipMessage { source, message, .. }) => {
            assert_eq!(source, vec![6]);
            assert_eq!(message, PubsubMessage::Attestation(Attestation { body: vec![] }));
        }
        _ => panic!("expected the valid gossip message"),
    }
    assert!(b.poll().is_none());
}

#[test]
fn identify_truncates_to_twenty_addresses() {
    let mut b: Behaviour<u32> = Behaviour::new();
    let regs = b.inject_event(InboundEvent::Identify(IdentifyEvent::Identified {
        peer_id: vec![8, 8],
        info: info(25),
    }));
    assert_eq!(regs.len(), 20);
    for (i, (peer, addr)) in regs.iter().enumerate() {
        assert_eq!(peer, &vec![8, 8]);
        assert_eq!(addr, &vec![i as u8, i as u8]);
    }
    match b.poll() {
        Some(BehaviourEvent::Identified(peer, info)) => {
            assert_eq!(peer, vec![8, 8]);
            let expected: Vec<Vec<u8>> = (0..20u8).map(|i| vec![i, i]).collect();
            assert_eq!(info.listen_addrs, expected);
            assert_eq!(info.agent_version, "node");
            assert_eq!(info.observed_addr, vec![9]);
        }
        _ => panic!("expected one identification"),
    }
    assert!(b.poll().is_none());
}

#[test]
fn identify_keeps_short_address_lists() {
    let mut b: Behaviour<u32> = Behaviour::new();
    let regs = b.inject_identify_event(IdentifyEvent::Identified { peer_id: vec![1], info: info(3) });
    assert_eq!(regs, vec![(vec![1], vec![0, 0]), (vec![1], vec![1, 1]), (vec![1], vec![2, 2])]);
    match b.poll() {
        Some(BehaviourEvent::Identified(_, info)) => assert_eq!(info.listen_addrs.len(), 3),
        _ => panic!("expected one identification"),
    }
}

#[test]
fn identify_with_exactly_twenty_addresses() {
    let mut b: Behaviour<u32> = Behaviour::new();
    let regs = b.inject_identify_event(IdentifyEvent::Identified { peer_id: vec![1], info: info(20) });
    assert_eq!(regs.len(), 20);
}

#[test]
fn other_events_are_not_reported() {
    let mut b: Behaviour<u32> = Behaviour::new();
    let regs = b.inject_event(InboundEvent::Identify(IdentifyEvent::Error { peer_id: vec![1] }));
    assert!(regs.is_empty());
    b.inject_event(InboundEvent::Identify(IdentifyEvent::SendBack { peer_id: vec![1] }));
    b.inject_event(InboundEvent::Ping);
    b.inject_event(InboundEvent::Discovery);
    b.inject_gossipsub_event(GossipsubEvent::Subscribed { peer_id: vec![1], topic: "t".to_string() });
    b.inject_gossipsub_event(GossipsubEvent::Unsubscribed { peer_id: vec![1], topic: "t".to_string() });
    assert!(b.poll().is_none());
}

#[test]
fn publish_fans_out_identical_bytes() {
    let b: Behaviour<u32> = Behaviour::new();
    let message = PubsubMessage::Block(BeaconBlock { body: vec![1, 2] });
    let sends = b.publish(vec!["topicA".to_string(), "topicB".to_string()], &message);
    assert_eq!(sends.len(), 2);
    assert_eq!(sends[0].0, "topicA");
    assert_eq!(sends[1].0, "topicB");
    assert_eq!(sends[0].1, vec![0, 0, 0, 0, 2, 0, 0, 0, 1, 2]);
    assert_eq!(sends[0].1, sends[1].1);
}

#[test]
fn publish_on_no_topics_sends_nothing() {
    let b: Behaviour<u32> = Behaviour::new();
    let message = PubsubMessage::Attestation(Attestation { body: vec![1] });
    assert!(b.publish(vec![], &message).is_empty());
}
