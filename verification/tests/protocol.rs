use wg_core::bytes::{format_u64_dec, parse_u16_dec};
use wg_core::control::{parse_endpoint, parse_prefix, parse_request, parse_v4_addr, set_response};
use wg_core::control::{Command, ControlError};
use wg_core::iface::{control_socket_path, utun_decode, utun_encode};
use wg_core::ip::Prefix;
use wg_core::message::{build_data, build_initiation, classify_datagram, dest_of_packet, Datagram};
use wg_core::peer::Endpoint;

fn parse_err(frame: &str) -> ControlError {
    parse_request(&frame.as_bytes().to_vec()).err().expect("expected a parse error")
}

#[test]
fn parse_error_truncated() {
    assert_eq!(parse_err("GET 1\n"), ControlError::Truncated);
}

#[test]
fn parse_error_unknown_command() {
    assert_eq!(parse_err("BLA 1\n\n"), ControlError::UnknownCommand);
    assert_eq!(parse_err("\n\n"), ControlError::UnknownCommand);
}

#[test]
fn parse_error_bad_version() {
    assert_eq!(parse_err("SET x\n\n"), ControlError::BadVersion);
    assert_eq!(parse_err("SET \n\n"), ControlError::BadVersion);
    assert_eq!(parse_err("SET 70000\n\n"), ControlError::BadVersion);
}

#[test]
fn parse_error_bad_line() {
    assert_eq!(parse_err("SET 1\nnoequals\n\n"), ControlError::BadLine);
    assert_eq!(parse_err("GET 1\nstray=1\n\n"), ControlError::BadLine);
}

#[test]
fn parse_error_unknown_key() {
    assert_eq!(parse_err("SET 1\nfwmark=1\n\n"), ControlError::UnknownKey);
}

#[test]
fn parse_error_bad_value() {
    assert_eq!(parse_err("SET 1\nprivate_key=zz\n\n"), ControlError::BadValue);
    // odd-length hex
    assert_eq!(parse_err("SET 1\nprivate_key=abc\n\n"), ControlError::BadValue);
    // right alphabet, wrong length
    assert_eq!(parse_err("SET 1\nprivate_key=abcd\n\n"), ControlError::BadValue);
    assert_eq!(parse_err("SET 1\nlisten_port=65536\n\n"), ControlError::BadValue);
    let pk = "11".repeat(32);
    assert_eq!(
        parse_err(&format!("SET 1\npublic_key={}\nallowed_ip=10.0.0.2/33\n\n", pk)),
        ControlError::BadValue
    );
    assert_eq!(
        parse_err(&format!("SET 1\npublic_key={}\nendpoint=1.2.3:99\n\n", pk)),
        ControlError::BadValue
    );
}

#[test]
fn parse_error_orphan_attribute() {
    assert_eq!(
        parse_err("SET 1\nallowed_ip=10.0.0.2/32\n\n"),
        ControlError::OrphanAttribute
    );
    assert_eq!(parse_err("SET 1\nendpoint=1.2.3.4:5\n\n"), ControlError::OrphanAttribute);
}

#[test]
fn parse_set_keeps_every_item_in_order() {
    let pk = "aa".repeat(32);
    let frame = format!(
        "SET 7\nlisten_port=51820\nprivate_key={}\nlisten_port=7\n\n",
        pk
    );
    match parse_request(&frame.into_bytes()).unwrap() {
        Command::SetConfig(ver, items) => {
            assert_eq!(ver, 7);
            assert_eq!(items.len(), 3);
            assert!(matches!(items[0], wg_core::control::UpdateEvent::ListenPort(51820)));
            assert!(matches!(&items[1], wg_core::control::UpdateEvent::PrivateKey(k) if k == &vec![0xaa; 32]));
            assert!(matches!(items[2], wg_core::control::UpdateEvent::ListenPort(7)));
        }
        _ => panic!("expected SET"),
    }
}

#[test]
fn set_response_bytes() {
    assert_eq!(set_response(), b"errno=0\nerrno=0\n\n".to_vec());
}

#[test]
fn v4_addr_parsing() {
    assert_eq!(parse_v4_addr(&b"255.255.255.255".to_vec()), Some(0xffff_ffff));
    assert_eq!(parse_v4_addr(&b"10.0.0.2".to_vec()), Some(0x0a00_0002));
    assert_eq!(parse_v4_addr(&b"1.2.3".to_vec()), None);
    assert_eq!(parse_v4_addr(&b"1.2.3.256".to_vec()), None);
    assert_eq!(parse_v4_addr(&b"1.2.3.x".to_vec()), None);
    assert_eq!(parse_v4_addr(&b"".to_vec()), None);
}

#[test]
fn prefix_and_endpoint_parsing() {
    assert_eq!(
        parse_prefix(&b"10.0.0.2/32".to_vec()),
        Some(Prefix { is_v6: false, addr: 0x0a00_0002, masklen: 32 })
    );
    assert_eq!(parse_prefix(&b"10.0.0.2".to_vec()), None);
    assert_eq!(parse_prefix(&b"10.0.0.2/33".to_vec()), None);
    assert_eq!(
        parse_endpoint(&b"203.0.113.5:51820".to_vec()),
        Some(Endpoint { is_v6: false, addr: 0xcb00_7105, port: 51820 })
    );
    assert_eq!(parse_endpoint(&b"203.0.113.5".to_vec()), None);
    assert_eq!(parse_endpoint(&b"203.0.113.5:65536".to_vec()), None);
}

#[test]
fn u16_decimal_parsing() {
    assert_eq!(parse_u16_dec(&b"0".to_vec()), Some(0));
    assert_eq!(parse_u16_dec(&b"65535".to_vec()), Some(65535));
    assert_eq!(parse_u16_dec(&b"65536".to_vec()), None);
    assert_eq!(parse_u16_dec(&b"007".to_vec()), Some(7));
    assert_eq!(parse_u16_dec(&b"".to_vec()), None);
    assert_eq!(parse_u16_dec(&b"1a".to_vec()), None);
}

#[test]
fn decimal_formatting() {
    assert_eq!(format_u64_dec(0), b"0".to_vec());
    assert_eq!(format_u64_dec(51820), b"51820".to_vec());
    assert_eq!(format_u64_dec(10), b"10".to_vec());
}

#[test]
fn initiation_frame_layout() {
    let d = build_initiation(0x0102_0304, &vec![0xaa, 0xbb]);
    assert_eq!(d, vec![1, 0x04, 0x03, 0x02, 0x01, 0xaa, 0xbb]);
}

#[test]
fn data_frame_round_trip() {
    let d = build_data(0xdead_beef, &vec![7, 8, 9]);
    assert_eq!(d[0], 4);
    match classify_datagram(&d) {
        Datagram::Data { receiver, payload } => {
            assert_eq!(receiver, 0xdead_beef);
            assert_eq!(payload, vec![7, 8, 9]);
        }
        _ => panic!("expected data"),
    }
}

#[test]
fn malformed_datagrams() {
    assert!(matches!(classify_datagram(&vec![]), Datagram::Malformed));
    assert!(matches!(classify_datagram(&vec![9, 1, 2, 3, 4]), Datagram::Malformed));
    // a data datagram shorter than its index field
    assert!(matches!(classify_datagram(&vec![4, 1, 2]), Datagram::Malformed));
    assert!(matches!(classify_datagram(&vec![3, 0, 0]), Datagram::Cookie));
}

#[test]
fn utun_framing() {
    assert_eq!(utun_decode(&vec![0, 0, 0, 2, 0x45, 0x00]), Some(vec![0x45, 0x00]));
    assert_eq!(utun_decode(&vec![0, 0]), None);
    assert_eq!(utun_encode(&vec![0x45, 0x11]), vec![0, 0, 0, 2, 0x45, 0x11]);
}

#[test]
fn socket_path_derivation() {
    let p = control_socket_path(&b"utun4".to_vec());
    assert_eq!(p, b"/var/run/wireguard/utun4.sock".to_vec());
    let q = control_socket_path(&b"utun5".to_vec());
    assert_ne!(p, q);
}

#[test]
fn packet_destination_extraction() {
    // a minimal IPv4 header: version 4, destination 10.0.0.2 at bytes 16..20
    let mut v4_packet = vec![0x45u8; 20];
    v4_packet[16] = 10;
    v4_packet[17] = 0;
    v4_packet[18] = 0;
    v4_packet[19] = 2;
    assert_eq!(dest_of_packet(&v4_packet), Some((false, 0x0a00_0002)));
    // a minimal IPv6 header: version 6, destination ::1 at bytes 24..40
    let mut v6_packet = vec![0u8; 40];
    v6_packet[0] = 0x60;
    v6_packet[39] = 1;
    assert_eq!(dest_of_packet(&v6_packet), Some((true, 1)));
    assert_eq!(dest_of_packet(&vec![0x45; 10]), None);
    assert_eq!(dest_of_packet(&vec![0x10; 40]), None);
}

#[test]
fn v6_prefix_and_endpoint_parsing() {
    assert_eq!(
        parse_prefix(&b"fd00:0:0:0:0:0:0:0/8".to_vec()),
        Some(Prefix { is_v6: true, addr: 0xfd00u128 << 112, masklen: 8 })
    );
    assert_eq!(parse_prefix(&b"fd00:0:0:0:0:0:0:0/129".to_vec()), None);
    // zero-compression is outside the accepted eight-group form
    assert_eq!(parse_prefix(&b"fd00::/8".to_vec()), None);
    assert_eq!(parse_prefix(&b"fd00:0:0:0:0:0:0:0:1/8".to_vec()), None);
    assert_eq!(
        parse_endpoint(&b"[fd00:0:0:0:0:0:0:1]:51820".to_vec()),
        Some(Endpoint { is_v6: true, addr: (0xfd00u128 << 112) | 1, port: 51820 })
    );
    assert_eq!(parse_endpoint(&b"[fd00:0:0:0:0:0:0:1]51820".to_vec()), None);
    assert_eq!(parse_endpoint(&b"[fd00:0:0:0:0:0:0:1:51820".to_vec()), None);
}

#[test]
fn v6_endpoint_text_round_trip() {
    let e = Endpoint { is_v6: true, addr: (0x2001_0db8u128 << 96) | 1, port: 443 };
    let text = wg_core::peer::endpoint_text_vec(&e);
    assert_eq!(parse_endpoint(&text), Some(e));
}

#[test]
fn v6_allowed_ip_via_control_text() {
    let pk = "bb".repeat(32);
    let frame = format!("SET 1\npublic_key={}\nallowed_ip=fd00:0:0:0:0:0:0:0/64\n\n", pk);
    match parse_request(&frame.into_bytes()).unwrap() {
        Command::SetConfig(_, items) => {
            assert_eq!(items.len(), 1);
            match &items[0] {
                wg_core::control::UpdateEvent::UpdatePeer(info) => {
                    assert_eq!(
                        info.allowed_ips,
                        vec![Prefix { is_v6: true, addr: 0xfd00u128 << 112, masklen: 64 }]
                    );
                }
                _ => panic!("expected a peer block"),
            }
        }
        _ => panic!("expected SET"),
    }
}
