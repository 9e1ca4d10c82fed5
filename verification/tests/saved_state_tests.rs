use libp2p::PeerId;
use libp2p_kad_fastboot::peer::KademliaState;
use libp2p_kad_fastboot::saved_state::{kademlia_state_from_json, kademlia_state_to_json};
use libp2p_kad_fastboot::{Multiaddr, Protocol};

const PEER_A: &str = "QmNnooDu7bfjPFoTZYxMNLWUQJyrVwtbZg5gBMjTezGAJN";
const PEER_B: &str = "QmQCU2EcMqAqQPR2i9bChDtGNJchTbq5TbXJJ16u19uLTa";

fn peer(text: &str) -> PeerId {
    text.parse().unwrap()
}

fn addr(protocols: Vec<Protocol>) -> Multiaddr {
    Multiaddr { protocols }
}

fn sample_state() -> KademliaState {
    vec![
        (
            peer(PEER_A),
            vec![
                addr(vec![Protocol::Ip4(0x01020304), Protocol::Udp(9091), Protocol::QuicV1]),
                addr(vec![Protocol::Ip6(1), Protocol::Other("/tcp/4001".to_string())]),
            ],
        ),
        (peer(PEER_B), vec![]),
        (peer(PEER_B), vec![addr(vec![Protocol::Other("/dnsaddr/bootstrap.libp2p.io".to_string())])]),
    ]
}

#[test]
fn multiaddr_text_is_libp2p_text() {
    let m = addr(vec![Protocol::Ip4(0x01020304), Protocol::Udp(9091), Protocol::QuicV1, Protocol::P2p(peer(PEER_A))]);
    assert_eq!(m.to_text(), format!("/ip4/1.2.3.4/udp/9091/quic-v1/p2p/{PEER_A}"));
    assert_eq!(addr(vec![Protocol::Ip6(1)]).to_text(), "/ip6/::1");
    assert_eq!(Multiaddr::empty().to_text(), "");
}

#[test]
fn the_saved_table_is_the_table_read_back() {
    let state = sample_state();
    let json = kademlia_state_to_json(&state);
    assert_eq!(kademlia_state_from_json(&json), Some(state));
    let empty: KademliaState = vec![];
    assert_eq!(kademlia_state_from_json(&kademlia_state_to_json(&empty)), Some(empty));
}

#[test]
fn the_file_is_libp2p_json() {
    let state = sample_state();
    let wire: Vec<(PeerId, Vec<libp2p::Multiaddr>)> = state
        .iter()
        .map(|(p, addrs)| (*p, addrs.iter().map(|a| a.to_text().parse().unwrap()).collect()))
        .collect();
    assert_eq!(kademlia_state_to_json(&state), serde_json::to_string_pretty(&wire).unwrap());
}

#[test]
fn a_file_in_libp2p_json_reads() {
    let json = format!("[[\"{PEER_A}\", [\"/ip4/10.0.0.1/udp/9091/quic-v1\"]], [\"{PEER_B}\", []]]");
    let state = kademlia_state_from_json(&json).unwrap();
    assert_eq!(
        state,
        vec![
            (peer(PEER_A), vec![addr(vec![Protocol::Ip4(0x0a000001), Protocol::Udp(9091), Protocol::QuicV1])]),
            (peer(PEER_B), vec![]),
        ]
    );
}

#[test]
fn a_file_that_is_no_table_reads_as_none() {
    assert_eq!(kademlia_state_from_json("not json"), None);
    assert_eq!(kademlia_state_from_json("{}"), None);
    assert_eq!(kademlia_state_from_json(&format!("[[\"{PEER_A}\", [\"/nonsense\"]]]")), None);
    assert_eq!(kademlia_state_from_json("[[\"peer\", []]]"), None);
}
