use libp2p::kad::store::MemoryStore;
use libp2p::kad::QueryId;
use libp2p::PeerId;
use libp2p_kad_fastboot::bootstrap::{bootstrap_fallback, bootstrap_peers, bootstrap_peers_from, ipfs_bootstrap_nodes};
use libp2p_kad_fastboot::log::route_message;
use libp2p_kad_fastboot::options::{Options, KAD_STATE_PATH, LOCAL_KEY_PATH};
use libp2p_kad_fastboot::peer::{
    kademlia_initialized, listen_address, BootstrapOutcome, Event, Peer, RoutingEntry, RoutingOutcome, KAD_FASTBOOT_AGENT,
    PORT_QUIC,
};
use libp2p_kad_fastboot::{IpAddr, Multiaddr, Protocol};

const PEER_A: &str = "QmNnooDu7bfjPFoTZYxMNLWUQJyrVwtbZg5gBMjTezGAJN";
const PEER_B: &str = "QmQCU2EcMqAqQPR2i9bChDtGNJchTbq5TbXJJ16u19uLTa";

fn peer(text: &str) -> PeerId {
    text.parse().unwrap()
}

fn addr(protocols: Vec<Protocol>) -> Multiaddr {
    Multiaddr { protocols }
}

fn v4(a: u8, b: u8, c: u8, d: u8) -> u32 {
    u32::from_be_bytes([a, b, c, d])
}

/// Two distinct query identifiers, from a Kademlia behaviour that is never run.
fn query_ids() -> (QueryId, QueryId) {
    let local = peer(PEER_A);
    let mut kad = libp2p::kad::Behaviour::new(local, MemoryStore::new(local));
    let first = kad.get_closest_peers(peer(PEER_B));
    let second = kad.get_closest_peers(peer(PEER_B));
    (first, second)
}

fn new_peer(external: Vec<IpAddr>) -> Peer {
    Peer::new(peer(PEER_A), &vec![IpAddr::V4(0)], &external, None)
}

#[test]
fn listen_address_is_quic_over_udp() {
    assert_eq!(
        listen_address(&IpAddr::V4(0)),
        addr(vec![Protocol::Ip4(0), Protocol::Udp(PORT_QUIC), Protocol::QuicV1])
    );
    assert_eq!(PORT_QUIC, 9091);
}

#[test]
fn new_peer_holds_each_address_once() {
    let p = Peer::new(
        peer(PEER_A),
        &vec![IpAddr::V4(0), IpAddr::V6(1), IpAddr::V4(0)],
        &vec![IpAddr::V4(v4(8, 8, 8, 8)), IpAddr::V4(v4(8, 8, 8, 8)), IpAddr::V4(v4(10, 0, 0, 1))],
        None,
    );
    assert_eq!(p.local_peer_id(), peer(PEER_A));
    assert_eq!(p.listen_addresses().len(), 2);
    assert!(p.listen_addresses().contains(&listen_address(&IpAddr::V4(0))));
    assert!(p.listen_addresses().contains(&listen_address(&IpAddr::V6(1))));
    assert_eq!(p.external_addresses().len(), 2);
    assert!(p.external_addresses().contains(&addr(vec![Protocol::Ip4(v4(8, 8, 8, 8))])));
    assert!(p.external_addresses().contains(&addr(vec![Protocol::Ip4(v4(10, 0, 0, 1))])));
    assert!(p.bootstrap_query_id().is_none());
}

#[test]
fn update_external_address_adds_public_new_addresses() {
    let mut p = new_peer(vec![]);
    let public = addr(vec![Protocol::Ip4(v4(1, 2, 3, 4)), Protocol::Udp(9091)]);
    assert!(p.update_external_address(&public));
    assert_eq!(p.external_addresses(), &vec![public.clone()]);
    // Idempotent: the second call adds nothing.
    assert!(!p.update_external_address(&public));
    assert_eq!(p.external_addresses(), &vec![public.clone()]);
}

#[test]
fn update_external_address_refuses_private_addresses() {
    let mut p = new_peer(vec![]);
    for a in [
        addr(vec![Protocol::Ip4(v4(192, 168, 1, 1))]),
        addr(vec![Protocol::Ip6(1)]),
        addr(vec![Protocol::Ip4(0)]),
    ] {
        assert!(!p.update_external_address(&a));
    }
    assert!(p.external_addresses().is_empty());
}

#[test]
fn announce_keeps_the_public_external_addresses() {
    let mut p = new_peer(vec![IpAddr::V4(v4(10, 0, 0, 1)), IpAddr::V4(v4(8, 8, 8, 8)), IpAddr::V4(v4(127, 0, 0, 1))]);
    let announced = p.announce_external_addresses();
    assert_eq!(announced, vec![addr(vec![Protocol::Ip4(v4(8, 8, 8, 8))])]);
    assert_eq!(p.external_addresses(), &announced);
    // Announcing again changes nothing more.
    assert!(!p.update_external_address(&announced[0]));
}

#[test]
fn take_kademlia_state_lists_each_peer_address() {
    let a = peer(PEER_A);
    let b = peer(PEER_B);
    let a1 = addr(vec![Protocol::Ip4(v4(1, 1, 1, 1))]);
    let a2 = addr(vec![Protocol::Ip4(v4(2, 2, 2, 2))]);
    let b1 = addr(vec![Protocol::Ip6(5)]);
    let state = vec![(a, vec![a1.clone(), a2.clone()]), (b, vec![]), (b, vec![b1.clone()])];
    let mut p = Peer::new(a, &vec![], &vec![], Some(state));
    assert!(p.output_metric(None).starts_with("] fastboot,"));
    let loads = p.take_kademlia_state();
    assert_eq!(loads, Some(vec![(a, a1), (a, a2), (b, b1)]));
    assert!(p.take_kademlia_state().is_none());
    assert!(p.output_metric(None).starts_with("] bootstrap,"));
}

#[test]
fn take_kademlia_state_of_an_empty_table_is_some() {
    let mut p = Peer::new(peer(PEER_A), &vec![], &vec![], Some(vec![]));
    assert_eq!(p.take_kademlia_state(), Some(vec![]));
    assert_eq!(new_peer(vec![]).take_kademlia_state(), None);
}

#[test]
fn kademlia_is_initialized_by_one_success() {
    assert!(!kademlia_initialized(&vec![]));
    assert!(!kademlia_initialized(&vec![RoutingOutcome::Pending, RoutingOutcome::Failed]));
    assert!(kademlia_initialized(&vec![RoutingOutcome::Failed, RoutingOutcome::Success]));
}

#[test]
fn start_bootstrap_waits_for_the_query() {
    let (q, _) = query_ids();
    let mut p = new_peer(vec![]);
    assert!(!p.start_bootstrap(None));
    assert!(p.bootstrap_query_id().is_none());
    assert!(p.start_bootstrap(Some(q)));
    assert_eq!(p.bootstrap_query_id(), Some(q));
}

#[test]
fn shutdown_tick_and_closed_connections() {
    let mut p = new_peer(vec![]);
    let r = p.handle_event(&Event::Shutdown);
    assert!(r.stop && !r.save_state && !r.report_metric && r.dial.is_empty() && r.remove_peer.is_none());
    let r = p.handle_event(&Event::Tick);
    assert!(r.save_state && !r.stop && !r.report_metric);
    let r = p.handle_event(&Event::ConnectionClosed(peer(PEER_B)));
    assert_eq!(r.remove_peer, Some(peer(PEER_B)));
    assert!(!r.stop && !r.save_state);
    let r = p.handle_event(&Event::Other);
    assert!(!r.stop && !r.save_state && r.remove_peer.is_none() && r.dial.is_empty());
}

#[test]
fn identify_of_a_fastboot_peer_dials_its_public_addresses() {
    let mut p = new_peer(vec![]);
    let public = addr(vec![Protocol::Ip4(v4(1, 2, 3, 4)), Protocol::Udp(9091), Protocol::QuicV1]);
    let private = addr(vec![Protocol::Ip4(v4(10, 0, 0, 1)), Protocol::Udp(9091), Protocol::QuicV1]);
    let r = p.handle_event(&Event::IdentifyReceived {
        agent_version: KAD_FASTBOOT_AGENT.to_string(),
        listen_addrs: vec![private.clone(), public.clone()],
    });
    assert_eq!(r.dial, vec![public.clone()]);
    let r = p.handle_event(&Event::IdentifyReceived {
        agent_version: "rust-libp2p/0.1".to_string(),
        listen_addrs: vec![public.clone()],
    });
    assert!(r.dial.is_empty());
    assert_eq!(KAD_FASTBOOT_AGENT, "kad-fastboot/0.0.1");
}

#[test]
fn bootstrap_completion_saves_reports_and_stops_once() {
    let (q, other) = query_ids();
    let mut p = new_peer(vec![]);
    p.start_bootstrap(Some(q));
    // Another query changes nothing.
    let r = p.handle_event(&Event::BootstrapProgressed { id: other, outcome: BootstrapOutcome::Progress { last: true } });
    assert!(!r.stop && !r.save_state);
    assert_eq!(p.bootstrap_query_id(), Some(q));
    // A step that is not the last changes nothing.
    let r = p.handle_event(&Event::BootstrapProgressed { id: q, outcome: BootstrapOutcome::Progress { last: false } });
    assert!(!r.stop && !r.save_state);
    assert_eq!(p.bootstrap_query_id(), Some(q));
    // The last step ends the wait.
    let r = p.handle_event(&Event::BootstrapProgressed { id: q, outcome: BootstrapOutcome::Progress { last: true } });
    assert!(r.save_state && r.report_metric && r.stop);
    assert!(p.bootstrap_query_id().is_none());
    // The same report again does nothing.
    let r = p.handle_event(&Event::BootstrapProgressed { id: q, outcome: BootstrapOutcome::Progress { last: true } });
    assert!(!r.stop && !r.save_state && !r.report_metric);
}

#[test]
fn bootstrap_failure_ends_the_wait_without_stopping() {
    let (q, _) = query_ids();
    let mut p = new_peer(vec![]);
    p.start_bootstrap(Some(q));
    let r = p.handle_event(&Event::BootstrapProgressed { id: q, outcome: BootstrapOutcome::Failure });
    assert!(!r.stop && !r.save_state && !r.report_metric);
    assert!(p.bootstrap_query_id().is_none());
}

#[test]
fn saved_state_keeps_connected_entries() {
    let a = peer(PEER_A);
    let b = peer(PEER_B);
    let a1 = addr(vec![Protocol::Ip4(v4(1, 1, 1, 1))]);
    let b1 = addr(vec![Protocol::Ip4(v4(2, 2, 2, 2))]);
    let entries = vec![
        RoutingEntry { peer: a, addresses: vec![a1.clone()], connected: true },
        RoutingEntry { peer: b, addresses: vec![b1.clone()], connected: false },
        RoutingEntry { peer: b, addresses: vec![], connected: true },
    ];
    assert_eq!(Peer::save_kademlia_state(&entries), vec![(a, vec![a1]), (b, vec![])]);
    assert!(Peer::save_kademlia_state(&vec![]).is_empty());
}

#[test]
fn metric_line_names_status_peer_and_time() {
    let p = new_peer(vec![]);
    let line = p.output_metric(Some(3725));
    assert_eq!(line, format!("] bootstrap,{},01:62:05", peer(PEER_A)));
    assert_eq!(p.output_metric(None), format!("] bootstrap,{},00:00:00", peer(PEER_A)));
    // Logged, the line is written without its bracket.
    assert_eq!(route_message(&line, "INFO"), Some(format!("bootstrap,{},01:62:05", peer(PEER_A))));
}

#[test]
fn ipfs_bootstrap_nodes_are_four() {
    let nodes = ipfs_bootstrap_nodes();
    assert_eq!(nodes.len(), 4);
    assert!(nodes.iter().all(|n| n.starts_with("/dnsaddr/bootstrap.libp2p.io/p2p/Qm")));
}

#[test]
fn bootstrap_peers_are_parsed_with_libp2p() {
    let peers = bootstrap_peers();
    assert_eq!(peers.len(), 4);
    let base = addr(vec![Protocol::Other("/dnsaddr/bootstrap.libp2p.io".to_string())]);
    assert_eq!(peers[0], (base.clone(), peer(PEER_A)));
    assert_eq!(peers[1], (base.clone(), peer(PEER_B)));
    assert_eq!(peers[3].1, peer("QmcZf59bWwK5XFi76CZX8cbJ4BhTzzA3gU1ZjYZcYW3dwt"));
}

#[test]
fn bootstrap_peers_from_skips_unparsed_and_peerless() {
    let a = peer(PEER_A);
    let parsed = vec![
        None,
        Some(addr(vec![Protocol::Ip4(v4(1, 2, 3, 4))])),
        Some(addr(vec![Protocol::Ip4(v4(5, 6, 7, 8)), Protocol::P2p(a)])),
    ];
    assert_eq!(bootstrap_peers_from(&parsed), vec![(addr(vec![Protocol::Ip4(v4(5, 6, 7, 8))]), a)]);
}

#[test]
fn options_defaults() {
    let o = Options::defaults();
    assert_eq!(o.listen_addresses, vec![IpAddr::V4(0)]);
    assert!(o.external_addresses.is_empty());
    assert_eq!(o.local_key_path, LOCAL_KEY_PATH);
    assert_eq!(o.kad_state_file, KAD_STATE_PATH);
    assert_eq!(KAD_STATE_PATH, "./kademlia_state.json");
}

#[test]
fn bootstrap_fallback_only_without_success() {
    assert!(bootstrap_fallback(&vec![RoutingOutcome::Pending, RoutingOutcome::Success]).is_empty());
    let fallback = bootstrap_fallback(&vec![RoutingOutcome::Failed]);
    assert_eq!(fallback.len(), 4);
    assert_eq!(fallback[0].1, peer(PEER_A));
    assert_eq!(bootstrap_fallback(&vec![]).len(), 4);
}

#[test]
fn without_a_query_only_shutdown_stops() {
    let (q, _) = query_ids();
    let mut p = new_peer(vec![]);
    for outcome in [BootstrapOutcome::Progress { last: true }, BootstrapOutcome::Progress { last: false }, BootstrapOutcome::Failure] {
        let r = p.handle_event(&Event::BootstrapProgressed { id: q, outcome });
        assert!(!r.stop && !r.report_metric && !r.save_state);
        assert!(p.bootstrap_query_id().is_none());
    }
    assert!(p.handle_event(&Event::Shutdown).stop);
}
