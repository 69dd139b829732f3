use wg_core::channel::EventQueue;
use wg_core::control::{parse_request, Command, UpdateEvent};
use wg_core::iface::{apply_event, ConfigError};
use wg_core::ip::Prefix;
use wg_core::message::handle_datagram;
use wg_core::message::InboundAction;
use wg_core::peer::Endpoint;
use wg_core::state::State;

fn info(
    key_byte: u8,
    ips: Vec<Prefix>,
) -> wg_core::peer::PeerInfo {
    wg_core::peer::PeerInfo {
        pub_key: vec![key_byte; 32],
        psk: Some(vec![9; 32]),
        endpoint: Some(Endpoint { is_v6: false, addr: 0xcb00_7105, port: 51820 }),
        allowed_ips: ips,
    }
}

fn v4(a: u8, b: u8, c: u8, d: u8) -> u128 {
    ((a as u128) << 24) | ((b as u128) << 16) | ((c as u128) << 8) | (d as u128)
}

#[test]
fn route_longest_prefix() {
    let mut st = State::new();
    let (ha, _) = st.insert_peer(info(
        1,
        vec![
            Prefix { is_v6: false, addr: v4(10, 0, 0, 0), masklen: 16 },
            Prefix { is_v6: false, addr: v4(10, 0, 1, 0), masklen: 24 },
        ],
    ));
    let (hb, _) = st.insert_peer(info(
        2,
        vec![Prefix { is_v6: false, addr: v4(10, 1, 0, 0), masklen: 16 }],
    ));
    assert_eq!(st.route(false, v4(10, 0, 1, 5)), Some(ha));
    assert_eq!(st.route(false, v4(10, 0, 9, 9)), Some(ha));
    assert_eq!(st.route(false, v4(10, 1, 2, 3)), Some(hb));
    assert_eq!(st.route(false, v4(192, 168, 1, 1)), None);
    assert_eq!(st.route(true, v4(10, 0, 1, 5)), None);
}

#[test]
fn route_default_prefix_matches_everything() {
    let mut st = State::new();
    let (h, _) = st.insert_peer(info(
        1,
        vec![Prefix { is_v6: false, addr: 0, masklen: 0 }],
    ));
    assert_eq!(st.route(false, v4(8, 8, 8, 8)), Some(h));
    assert_eq!(st.route(true, 1234567), None);
}

#[test]
fn index_lookup_and_uniqueness() {
    let mut st = State::new();
    let (ha, ia) = st.insert_peer(info(1, vec![]));
    let (hb, ib) = st.insert_peer(info(2, vec![]));
    assert_ne!(ia, ib);
    assert_eq!(st.lookup_by_index(ia), Some(ha));
    assert_eq!(st.lookup_by_index(ib), Some(hb));
    assert_eq!(st.lookup_by_index(777), None);
}

#[test]
fn rebind_replaces_prior_index_entry() {
    let mut st = State::new();
    let (h, old_idx) = st.insert_peer(info(1, vec![]));
    let new_idx = st.rebind_index(h);
    assert_ne!(old_idx, new_idx);
    assert_eq!(st.lookup_by_index(old_idx), None);
    assert_eq!(st.lookup_by_index(new_idx), Some(h));
}

#[test]
fn expire_removes_index_entry() {
    let mut st = State::new();
    let (h, idx) = st.insert_peer(info(1, vec![]));
    st.complete_handshake(h, 4242);
    assert_eq!(st.lookup_by_index(idx), Some(h));
    st.expire_session(h);
    assert_eq!(st.lookup_by_index(idx), None);
}

#[test]
fn pubkey_lookup() {
    let mut st = State::new();
    let (h, _) = st.insert_peer(info(7, vec![]));
    assert_eq!(st.lookup_by_pubkey(&vec![7; 32]), Some(h));
    assert_eq!(st.lookup_by_pubkey(&vec![8; 32]), None);
}

#[test]
fn unknown_session_index_datagram_is_dropped() {
    let mut st = State::new();
    let (_, idx) = st.insert_peer(info(1, vec![]));
    let before = wg_core::control::get_response(&st);
    // type 4 (transport data), little-endian receiver index that nobody owns
    let stranger = idx.wrapping_add(100);
    let mut dgram = vec![4u8];
    dgram.extend_from_slice(&stranger.to_le_bytes());
    dgram.extend_from_slice(&[0xaa; 16]);
    let src = Endpoint { is_v6: false, addr: v4(198, 51, 100, 7), port: 9999 };
    let act = handle_datagram(&mut st, src, &dgram);
    assert!(matches!(act, InboundAction::Drop));
    let after = wg_core::control::get_response(&st);
    assert_eq!(before, after);
}

#[test]
fn known_session_index_datagram_is_delivered_and_updates_endpoint() {
    let mut st = State::new();
    let (h, idx) = st.insert_peer(info(1, vec![]));
    let mut dgram = vec![4u8];
    dgram.extend_from_slice(&idx.to_le_bytes());
    dgram.extend_from_slice(&[0xbb; 8]);
    let src = Endpoint { is_v6: false, addr: v4(198, 51, 100, 7), port: 9999 };
    match handle_datagram(&mut st, src, &dgram) {
        InboundAction::Deliver { peer, payload } => {
            assert_eq!(peer, h);
            assert_eq!(payload, vec![0xbb; 8]);
        }
        _ => panic!("expected delivery"),
    }
    assert_eq!(st.peers[h].info.endpoint, Some(src));
}

#[test]
fn handshake_response_establishes_session() {
    let mut st = State::new();
    let (h, idx) = st.insert_peer(info(1, vec![]));
    let dgram = wg_core::message::build_response(77, idx, &vec![0xcc; 4]);
    let src = Endpoint { is_v6: false, addr: v4(203, 0, 113, 5), port: 51820 };
    match handle_datagram(&mut st, src, &dgram) {
        InboundAction::HandshakeReply { peer, their_index, payload } => {
            assert_eq!(peer, h);
            assert_eq!(their_index, 77);
            assert_eq!(payload, vec![0xcc; 4]);
        }
        _ => panic!("expected handshake reply"),
    }
    // a second response for the same index no longer matches a sent handshake
    let act = handle_datagram(&mut st, src, &dgram);
    assert!(matches!(act, InboundAction::Drop));
}

#[test]
fn apply_event_rejections_leave_state_unchanged() {
    let mut st = State::new();
    // peer before private key
    let r = apply_event(&mut st, UpdateEvent::UpdatePeer(info(1, vec![])));
    assert_eq!(r.err(), Some(ConfigError::NoPrivateKey));
    let r = apply_event(&mut st, UpdateEvent::PrivateKey(vec![0x11; 32]));
    assert!(r.is_ok());
    // no pre-shared key
    let mut no_psk = info(2, vec![]);
    no_psk.psk = None;
    let r = apply_event(&mut st, UpdateEvent::UpdatePeer(no_psk));
    assert_eq!(r.err(), Some(ConfigError::MissingPresharedKey));
    // no endpoint
    let mut no_ep = info(3, vec![]);
    no_ep.endpoint = None;
    let r = apply_event(&mut st, UpdateEvent::UpdatePeer(no_ep));
    assert_eq!(r.err(), Some(ConfigError::MissingEndpoint));
    let before = wg_core::control::get_response(&st);
    // register one peer for real
    let r = apply_event(
        &mut st,
        UpdateEvent::UpdatePeer(info(4, vec![Prefix { is_v6: false, addr: v4(10, 0, 0, 0), masklen: 8 }])),
    );
    assert!(r.is_ok());
    // duplicate public key
    let r = apply_event(&mut st, UpdateEvent::UpdatePeer(info(4, vec![])));
    assert_eq!(r.err(), Some(ConfigError::DuplicatePublicKey));
    // overlapping allowed prefix of another peer
    let r = apply_event(
        &mut st,
        UpdateEvent::UpdatePeer(info(5, vec![Prefix { is_v6: false, addr: v4(10, 0, 1, 0), masklen: 24 }])),
    );
    assert_eq!(r.err(), Some(ConfigError::OverlappingAllowedIp));
    // the rejections since `before` added exactly one peer and nothing else
    let after = wg_core::control::get_response(&st);
    assert_eq!(st.peers.len(), 1);
    assert!(after.len() > before.len());
}

#[test]
fn set_then_get_scenario() {
    let mut st = State::new();
    let pk_hex = "1111111111111111111111111111111111111111111111111111111111111111";
    let peer_hex = "2222222222222222222222222222222222222222222222222222222222222222";
    let psk_hex = "3333333333333333333333333333333333333333333333333333333333333333";
    let frame1 = format!("SET 1\nprivate_key={}\n\n", pk_hex).into_bytes();
    let cmd = parse_request(&frame1).unwrap();
    let mut sent = Vec::new();
    match cmd {
        Command::SetConfig(ver, items) => {
            assert_eq!(ver, 1);
            for ev in items {
                if let Some(d) = apply_event(&mut st, ev).unwrap() {
                    sent.push(d);
                }
            }
        }
        _ => panic!("expected SET"),
    }
    assert_eq!(sent.len(), 0);
    let frame2 = format!(
        "SET 1\npublic_key={}\nallowed_ip=10.0.0.2/32\nendpoint=203.0.113.5:51820\npreshared_key={}\n\n",
        peer_hex, psk_hex
    )
    .into_bytes();
    match parse_request(&frame2).unwrap() {
        Command::SetConfig(_, items) => {
            assert_eq!(items.len(), 1);
            for ev in items {
                if let Some(d) = apply_event(&mut st, ev).unwrap() {
                    sent.push(d);
                }
            }
        }
        _ => panic!("expected SET"),
    }
    // exactly one outbound datagram, to the configured endpoint, first byte
    // marking a handshake initiation
    assert_eq!(sent.len(), 1);
    assert_eq!(sent[0].bytes[0], 1);
    assert_eq!(
        sent[0].endpoint,
        Endpoint { is_v6: false, addr: v4(203, 0, 113, 5), port: 51820 }
    );
    // the sender index embedded in the datagram is installed already
    let idx = u32::from_le_bytes([sent[0].bytes[1], sent[0].bytes[2], sent[0].bytes[3], sent[0].bytes[4]]);
    assert!(st.lookup_by_index(idx).is_some());
    // a GET lists the peer
    let frame3 = b"GET 1\n\n".to_vec();
    match parse_request(&frame3).unwrap() {
        Command::GetConfig(v) => assert_eq!(v, 1),
        _ => panic!("expected GET"),
    }
    let text = String::from_utf8(wg_core::control::get_response(&st)).unwrap();
    assert!(text.contains(&format!("private_key={}\n", pk_hex)));
    assert!(text.contains(&format!("public_key={}\n", peer_hex)));
    assert!(text.contains("allowed_ip=10.0.0.2/32\n"));
    assert!(text.contains("endpoint=203.0.113.5:51820\n"));
    assert!(text.ends_with("errno=0\n\n"));
}

#[test]
fn get_is_idempotent() {
    let mut st = State::new();
    st.set_private_key(vec![0x42; 32]);
    st.insert_peer(info(1, vec![Prefix { is_v6: false, addr: v4(10, 0, 0, 0), masklen: 24 }]));
    let r1 = wg_core::control::get_response(&st);
    let r2 = wg_core::control::get_response(&st);
    assert_eq!(r1, r2);
}

#[test]
fn overlapping_set_rejected_without_mutation() {
    let mut st = State::new();
    st.set_private_key(vec![0x42; 32]);
    let ok = apply_event(
        &mut st,
        UpdateEvent::UpdatePeer(info(1, vec![Prefix { is_v6: false, addr: v4(10, 0, 0, 0), masklen: 24 }])),
    );
    assert!(ok.is_ok());
    let before = wg_core::control::get_response(&st);
    let r = apply_event(
        &mut st,
        UpdateEvent::UpdatePeer(info(2, vec![Prefix { is_v6: false, addr: v4(10, 0, 0, 128), masklen: 25 }])),
    );
    assert_eq!(r.err(), Some(ConfigError::OverlappingAllowedIp));
    let after = wg_core::control::get_response(&st);
    assert_eq!(before, after);
}

#[test]
fn bounded_queue_backpressure_loses_nothing() {
    let mut q = EventQueue::new(2);
    assert!(q.offer(UpdateEvent::ListenPort(1)).is_none());
    assert!(q.offer(UpdateEvent::ListenPort(2)).is_none());
    // the queue is full: the event comes back to the producer instead of
    // being dropped
    let back = q.offer(UpdateEvent::ListenPort(3));
    assert!(matches!(back, Some(UpdateEvent::ListenPort(3))));
    assert_eq!(q.len(), 2);
    // events leave in arrival order
    assert!(matches!(q.take(), Some(UpdateEvent::ListenPort(1))));
    assert!(q.offer(back.unwrap()).is_none());
    assert!(matches!(q.take(), Some(UpdateEvent::ListenPort(2))));
    assert!(matches!(q.take(), Some(UpdateEvent::ListenPort(3))));
    assert!(q.take().is_none());
}
