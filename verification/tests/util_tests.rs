use libp2p::PeerId;
use libp2p_kad_fastboot::util::{extract_ip_multiaddr, ip_protocol_is_private, ipaddr_to_multiaddr, is_private_ip, split_peer_id};
use libp2p_kad_fastboot::{IpAddr, Multiaddr, Protocol};

fn peer(text: &str) -> PeerId {
    text.parse().unwrap()
}

fn addr(protocols: Vec<Protocol>) -> Multiaddr {
    Multiaddr { protocols }
}

fn ip4(a: u8, b: u8, c: u8, d: u8) -> Protocol {
    Protocol::Ip4(u32::from_be_bytes([a, b, c, d]))
}

fn ip6(segments: [u16; 8]) -> Protocol {
    let mut bits: u128 = 0;
    for s in segments {
        bits = (bits << 16) | s as u128;
    }
    Protocol::Ip6(bits)
}

const PEER_A: &str = "QmNnooDu7bfjPFoTZYxMNLWUQJyrVwtbZg5gBMjTezGAJN";
const PEER_B: &str = "QmQCU2EcMqAqQPR2i9bChDtGNJchTbq5TbXJJ16u19uLTa";

#[test]
fn split_peer_id_takes_components_before_the_peer() {
    let a = peer(PEER_A);
    let m = addr(vec![Protocol::Other("/dnsaddr/bootstrap.libp2p.io".to_string()), Protocol::P2p(a)]);
    let (base, id) = split_peer_id(m).unwrap();
    assert_eq!(id, a);
    assert_eq!(base, addr(vec![Protocol::Other("/dnsaddr/bootstrap.libp2p.io".to_string())]));
}

#[test]
fn split_peer_id_stops_at_the_first_peer() {
    let a = peer(PEER_A);
    let b = peer(PEER_B);
    let m = addr(vec![ip4(1, 2, 3, 4), Protocol::Udp(9091), Protocol::P2p(a), Protocol::QuicV1, Protocol::P2p(b)]);
    let (base, id) = split_peer_id(m).unwrap();
    assert_eq!(id, a);
    assert_eq!(base, addr(vec![ip4(1, 2, 3, 4), Protocol::Udp(9091)]));
}

#[test]
fn split_peer_id_of_a_leading_peer_has_an_empty_base() {
    let a = peer(PEER_A);
    let (base, id) = split_peer_id(addr(vec![Protocol::P2p(a), Protocol::QuicV1])).unwrap();
    assert_eq!(id, a);
    assert!(base.protocols.is_empty());
}

#[test]
fn split_peer_id_without_peer_is_none() {
    assert!(split_peer_id(addr(vec![ip4(1, 2, 3, 4), Protocol::Udp(1)])).is_none());
    assert!(split_peer_id(Multiaddr::empty()).is_none());
}

#[test]
fn extract_ip_multiaddr_takes_the_first_ip() {
    let m = addr(vec![Protocol::Other("/dns/example.com".to_string()), ip4(8, 8, 8, 8), ip6([0, 0, 0, 0, 0, 0, 0, 1])]);
    assert_eq!(extract_ip_multiaddr(&m), Some(addr(vec![ip4(8, 8, 8, 8)])));
    let m6 = addr(vec![ip6([0x2001, 0xdb8, 0, 0, 0, 0, 0, 1]), Protocol::Udp(5)]);
    assert_eq!(extract_ip_multiaddr(&m6), Some(addr(vec![ip6([0x2001, 0xdb8, 0, 0, 0, 0, 0, 1])])));
}

#[test]
fn extract_ip_multiaddr_without_ip_is_none() {
    assert_eq!(extract_ip_multiaddr(&addr(vec![Protocol::Udp(5), Protocol::QuicV1])), None);
    assert_eq!(extract_ip_multiaddr(&Multiaddr::empty()), None);
}

#[test]
fn private_ipv4_ranges() {
    for (octets, private) in [
        ([10, 0, 0, 1], true),
        ([10, 255, 255, 255], true),
        ([172, 16, 0, 1], true),
        ([172, 31, 255, 255], true),
        ([172, 15, 255, 255], false),
        ([172, 32, 0, 0], false),
        ([192, 168, 1, 1], true),
        ([192, 169, 0, 0], false),
        ([127, 0, 0, 1], true),
        ([169, 254, 10, 10], true),
        ([169, 253, 0, 0], false),
        ([0, 0, 0, 0], true),
        ([0, 0, 0, 1], false),
        ([8, 8, 8, 8], false),
        ([1, 2, 3, 4], false),
    ] {
        let m = addr(vec![ip4(octets[0], octets[1], octets[2], octets[3])]);
        assert_eq!(is_private_ip(&m), private, "{:?}", octets);
    }
}

#[test]
fn private_ipv6_ranges() {
    for (segments, private) in [
        ([0, 0, 0, 0, 0, 0, 0, 1], true),
        ([0, 0, 0, 0, 0, 0, 0, 0], true),
        ([0xfc00, 0, 0, 0, 0, 0, 0, 1], true),
        ([0xfdff, 0xffff, 0, 0, 0, 0, 0, 0], true),
        ([0xfe00, 0, 0, 0, 0, 0, 0, 0], false),
        ([0xfe80, 0, 0, 0, 0, 0, 0, 1], true),
        ([0xfebf, 0xffff, 0, 0, 0, 0, 0, 0], true),
        ([0xfec0, 0, 0, 0, 0, 0, 0, 0], false),
        ([0x2001, 0xdb8, 0, 0, 0, 0, 0, 1], false),
        ([0, 0, 0, 0, 0, 0, 0, 2], false),
    ] {
        let m = addr(vec![ip6(segments)]);
        assert_eq!(is_private_ip(&m), private, "{:?}", segments);
    }
}

#[test]
fn is_private_ip_looks_at_every_ip() {
    let m = addr(vec![ip4(8, 8, 8, 8), Protocol::Other("/tcp/1".to_string()), ip4(10, 0, 0, 1)]);
    assert!(is_private_ip(&m));
    let m = addr(vec![ip4(10, 0, 0, 1), ip4(8, 8, 8, 8)]);
    assert!(is_private_ip(&m));
    let m = addr(vec![ip4(8, 8, 8, 8), ip6([0x2001, 0xdb8, 0, 0, 0, 0, 0, 1])]);
    assert!(!is_private_ip(&m));
}

#[test]
fn is_private_ip_without_ip_is_false() {
    assert!(!is_private_ip(&addr(vec![Protocol::Udp(1), Protocol::QuicV1])));
    assert!(!is_private_ip(&Multiaddr::empty()));
}

#[test]
fn ip_protocol_is_private_of_other_components_is_false() {
    assert!(!ip_protocol_is_private(&Protocol::Udp(0)));
    assert!(!ip_protocol_is_private(&Protocol::Other("/ip4/10.0.0.1".to_string())));
    assert!(ip_protocol_is_private(&ip4(127, 0, 0, 1)));
}

#[test]
fn ipaddr_to_multiaddr_has_one_component() {
    assert_eq!(ipaddr_to_multiaddr(&IpAddr::V4(0x01020304)), addr(vec![Protocol::Ip4(0x01020304)]));
    assert_eq!(ipaddr_to_multiaddr(&IpAddr::V6(1)), addr(vec![Protocol::Ip6(1)]));
}

// The laws, on concrete values.

#[test]
fn law_private_is_private_of_extracted() {
    // With one IP component, the two agree.
    for m in [
        addr(vec![Protocol::Udp(1), ip4(192, 168, 0, 1)]),
        addr(vec![ip4(8, 8, 8, 8), Protocol::Udp(1)]),
        addr(vec![Protocol::QuicV1, ip6([0xfe80, 0, 0, 0, 0, 0, 0, 1])]),
    ] {
        let extracted = extract_ip_multiaddr(&m).unwrap();
        assert_eq!(is_private_ip(&m), is_private_ip(&extracted));
    }
    // With more, a private first IP makes the address private, but not the converse.
    let m = addr(vec![ip4(192, 168, 0, 1), ip4(8, 8, 8, 8)]);
    assert!(is_private_ip(&extract_ip_multiaddr(&m).unwrap()) && is_private_ip(&m));
    let m = addr(vec![ip4(8, 8, 8, 8), ip4(192, 168, 0, 1)]);
    assert!(!is_private_ip(&extract_ip_multiaddr(&m).unwrap()) && is_private_ip(&m));
    let none = addr(vec![Protocol::Udp(1)]);
    assert!(extract_ip_multiaddr(&none).is_none());
    assert!(!is_private_ip(&none));
}

#[test]
fn law_ip_multiaddr_roundtrip() {
    for ip in [IpAddr::V4(0x0a000001), IpAddr::V4(0x08080808), IpAddr::V6(1), IpAddr::V6(0x2001_0db8 << 96)] {
        let m = ipaddr_to_multiaddr(&ip);
        assert_eq!(extract_ip_multiaddr(&m), Some(m.clone()));
        assert!(split_peer_id(m.clone()).is_none());
    }
    assert!(is_private_ip(&ipaddr_to_multiaddr(&IpAddr::V4(0x0a000001))));
    assert!(!is_private_ip(&ipaddr_to_multiaddr(&IpAddr::V4(0x08080808))));
}

#[test]
fn law_split_undoes_append() {
    let a = peer(PEER_A);
    let base = addr(vec![ip4(1, 2, 3, 4), Protocol::Udp(9091), Protocol::QuicV1]);
    let full = base.clone().with(Protocol::P2p(a)).with(Protocol::Other("/p2p-circuit".to_string()));
    assert_eq!(split_peer_id(full), Some((base, a)));
}

#[test]
fn same_as_compares_components_and_peers() {
    let a = peer(PEER_A);
    let b = peer(PEER_B);
    let m = addr(vec![ip4(1, 2, 3, 4), Protocol::P2p(a)]);
    assert!(m.same_as(&m.clone()));
    assert!(!m.same_as(&addr(vec![ip4(1, 2, 3, 4), Protocol::P2p(b)])));
    assert!(!m.same_as(&addr(vec![ip4(1, 2, 3, 4)])));
    assert!(Protocol::Other("/tcp/1".to_string()).same_as(&Protocol::Other("/tcp/1".to_string())));
    assert!(!Protocol::Udp(1).same_as(&Protocol::Udp(2)));
    assert!(!Protocol::Ip4(0).same_as(&Protocol::Ip6(0)));
}

#[test]
fn push_and_with_append_components() {
    let mut m = Multiaddr::empty();
    m.push(Protocol::QuicV1);
    assert_eq!(m.clone().with(Protocol::Udp(7)), addr(vec![Protocol::QuicV1, Protocol::Udp(7)]));
}
