use houserat::network::{arp_request_frame, parse_packet};
use houserat::{Event, Ipv4Address, MacAddress, NetworkAddresses};

const CLIENT: [u8; 6] = [0x02, 0x11, 0x22, 0x33, 0x44, 0x55];
const ROUTER: [u8; 6] = [0x02, 0xaa, 0xbb, 0xcc, 0xdd, 0xee];

fn dhcp_frame(source_port: u16, destination_port: u16) -> Vec<u8> {
    let mut f = vec![0xff; 6];
    f.extend_from_slice(&CLIENT);
    f.extend_from_slice(&[0x08, 0x00]);
    // IPv4 header: version 4, five words, total length 28, UDP.
    f.extend_from_slice(&[0x45, 0, 0, 28, 0, 0, 0, 0, 64, 17, 0, 0, 0, 0, 0, 0, 255, 255, 255, 255]);
    f.extend_from_slice(&source_port.to_be_bytes());
    f.extend_from_slice(&destination_port.to_be_bytes());
    f.extend_from_slice(&[0, 8, 0, 0]);
    f
}

fn arp_frame(op: u16, sender_ip: [u8; 4], target_ip: [u8; 4]) -> Vec<u8> {
    let mut f = ROUTER.to_vec();
    f.extend_from_slice(&CLIENT);
    f.extend_from_slice(&[0x08, 0x06, 0, 1, 0x08, 0x00, 6, 4]);
    f.extend_from_slice(&op.to_be_bytes());
    f.extend_from_slice(&CLIENT);
    f.extend_from_slice(&sender_ip);
    f.extend_from_slice(&ROUTER);
    f.extend_from_slice(&target_ip);
    f
}

#[test]
fn dhcp_request_is_connected() {
    match parse_packet(&dhcp_frame(68, 67)) {
        Event::Connected(mac) => assert_eq!(mac, MacAddress::new(CLIENT)),
        other => panic!("unexpected {:?}", other),
    }
}

#[test]
fn other_udp_is_ignored() {
    assert!(matches!(parse_packet(&dhcp_frame(67, 68)), Event::Ignored));
    assert!(matches!(parse_packet(&dhcp_frame(68, 53)), Event::Ignored));
    let mut tcp = dhcp_frame(68, 67);
    tcp[23] = 6;
    assert!(matches!(parse_packet(&tcp), Event::Ignored));
}

#[test]
fn arp_reply_is_alive() {
    match parse_packet(&arp_frame(2, [192, 168, 1, 20], [192, 168, 1, 1])) {
        Event::Alive { mac, ip } => {
            assert_eq!(mac, MacAddress::new(CLIENT));
            assert_eq!(ip, Ipv4Address { bits: u32::from_be_bytes([192, 168, 1, 20]) });
        }
        other => panic!("unexpected {:?}", other),
    }
}

#[test]
fn gratuitous_arp_is_alive() {
    let ev = parse_packet(&arp_frame(1, [10, 0, 0, 7], [10, 0, 0, 7]));
    assert!(matches!(ev, Event::Alive { ip: Ipv4Address { bits: 0x0a000007 }, .. }));
}

#[test]
fn directed_arp_request_is_ignored() {
    assert!(matches!(parse_packet(&arp_frame(1, [10, 0, 0, 7], [10, 0, 0, 1])), Event::Ignored));
    assert!(matches!(parse_packet(&arp_frame(3, [10, 0, 0, 7], [10, 0, 0, 7])), Event::Ignored));
}

#[test]
fn other_ethertype_and_short_frames_are_ignored() {
    let mut ipv6 = dhcp_frame(68, 67);
    ipv6[12] = 0x86;
    ipv6[13] = 0xdd;
    assert!(matches!(parse_packet(&ipv6), Event::Ignored));
    assert!(matches!(parse_packet(&[]), Event::Ignored));
    assert!(matches!(parse_packet(&[0u8; 13]), Event::Ignored));
    let arp = arp_frame(2, [1, 2, 3, 4], [5, 6, 7, 8]);
    assert!(matches!(parse_packet(&arp[..41]), Event::Ignored));
    let dhcp = dhcp_frame(68, 67);
    assert!(matches!(parse_packet(&dhcp[..41]), Event::Ignored));
}

#[test]
fn ipv4_total_length_bounds_the_udp_header() {
    let mut f = dhcp_frame(68, 67);
    f[17] = 27;
    assert!(matches!(parse_packet(&f), Event::Ignored));
    let mut g = dhcp_frame(68, 67);
    g[14] = 0x46;
    g[17] = 32;
    g.splice(34..34, [1u8, 1, 1, 1]);
    assert!(matches!(parse_packet(&g), Event::Connected(_)));
}

#[test]
fn arp_request_frame_layout() {
    let us = NetworkAddresses::new(MacAddress::new(ROUTER), Ipv4Address { bits: 0xc0a80101 });
    let them = NetworkAddresses::new(MacAddress::new(CLIENT), Ipv4Address { bits: 0xc0a80114 });
    let frame = arp_request_frame(&us, &them);
    let mut expected = CLIENT.to_vec();
    expected.extend_from_slice(&ROUTER);
    expected.extend_from_slice(&[0x08, 0x06, 0, 1, 0x08, 0x00, 6, 4, 0, 1]);
    expected.extend_from_slice(&ROUTER);
    expected.extend_from_slice(&[192, 168, 1, 1]);
    expected.extend_from_slice(&CLIENT);
    expected.extend_from_slice(&[192, 168, 1, 20]);
    assert_eq!(frame.len(), 42);
    assert_eq!(frame, expected);
    assert!(matches!(parse_packet(&frame), Event::Ignored));
}
