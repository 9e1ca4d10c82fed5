//! Where the routing table of a peer comes from: the table it saved, or the
//! public IPFS bootstrap nodes.

use vstd::prelude::*;

use libp2p::PeerId;

use crate::address::{multiaddr_from_text, option_view, parse_multiaddr, Multiaddr, ProtocolView};
use crate::peer::{kademlia_initialized, RoutingOutcome};
use crate::util::{lemma_peer_split, peer_split, split_peer_id};

verus! {

/// The multiaddresses of the public IPFS bootstrap nodes.
pub open spec fn ipfs_bootstrap_texts() -> Seq<Seq<char>> {
    seq![
        "/dnsaddr/bootstrap.libp2p.io/p2p/QmNnooDu7bfjPFoTZYxMNLWUQJyrVwtbZg5gBMjTezGAJN"@,
        "/dnsaddr/bootstrap.libp2p.io/p2p/QmQCU2EcMqAqQPR2i9bChDtGNJchTbq5TbXJJ16u19uLTa"@,
        "/dnsaddr/bootstrap.libp2p.io/p2p/QmbLHAnMoJPWSCR5Zhtx6BHJX9KiKNN6tpvbUcqanj75Nb"@,
        "/dnsaddr/bootstrap.libp2p.io/p2p/QmcZf59bWwK5XFi76CZX8cbJ4BhTzzA3gU1ZjYZcYW3dwt"@,
    ]
}

/// The multiaddresses of the public IPFS bootstrap nodes.
pub fn ipfs_bootstrap_nodes() -> (nodes: Vec<&'static str>)
    ensures
        nodes@.map_values(|t: &str| t@) == ipfs_bootstrap_texts(),
{
    let nodes = vec![
        "/dnsaddr/bootstrap.libp2p.io/p2p/QmNnooDu7bfjPFoTZYxMNLWUQJyrVwtbZg5gBMjTezGAJN",
        "/dnsaddr/bootstrap.libp2p.io/p2p/QmQCU2EcMqAqQPR2i9bChDtGNJchTbq5TbXJJ16u19uLTa",
        "/dnsaddr/bootstrap.libp2p.io/p2p/QmbLHAnMoJPWSCR5Zhtx6BHJX9KiKNN6tpvbUcqanj75Nb",
        "/dnsaddr/bootstrap.libp2p.io/p2p/QmcZf59bWwK5XFi76CZX8cbJ4BhTzzA3gU1ZjYZcYW3dwt",
    ];
    assert(nodes@.map_values(|t: &str| t@) =~= ipfs_bootstrap_texts());
    nodes
}

/// The view of a list of (address, peer) pairs.
pub open spec fn entries_view(entries: Seq<(Multiaddr, PeerId)>) -> Seq<(Seq<ProtocolView>, PeerId)> {
    entries.map_values(|e: (Multiaddr, PeerId)| (e.0@, e.1))
}

/// The bootstrap peers found in a list of parsed multiaddresses: for each one that
/// parsed and names a peer, in order, its address without the peer, and the peer.
pub open spec fn bootstrap_entries(parsed: Seq<Option<Seq<ProtocolView>>>) -> Seq<(Seq<ProtocolView>, PeerId)>
    decreases parsed.len(),
{
    if parsed.len() == 0 {
        seq![]
    } else {
        let before = bootstrap_entries(parsed.drop_last());
        match parsed.last() {
            Some(m) => match peer_split(m) {
                Some(entry) => before.push(entry),
                None => before,
            },
            None => before,
        }
    }
}

/// The bootstrap peers found in a list of parsed multiaddresses (those that did
/// not parse are `None`).
pub fn bootstrap_peers_from(parsed: &Vec<Option<Multiaddr>>) -> (peers: Vec<(Multiaddr, PeerId)>)
    ensures
        entries_view(peers@) == bootstrap_entries(parsed@.map_values(|m: Option<Multiaddr>| option_view(m))),
{
    let ghost all = parsed@.map_values(|m: Option<Multiaddr>| option_view(m));
    let mut peers: Vec<(Multiaddr, PeerId)> = Vec::new();
    let n = parsed.len();
    for i in 0..n
        invariant
            n == parsed@.len(),
            all == parsed@.map_values(|m: Option<Multiaddr>| option_view(m)),
            entries_view(peers@) == bootstrap_entries(all.take(i as int)),
    {
        assert(all.take(i + 1).drop_last() =~= all.take(i as int));
        assert(all.take(i + 1).last() == option_view(parsed@[i as int]));
        let ghost before = peers@;
        match &parsed[i] {
            Some(m) => {
                match split_peer_id(m.clone()) {
                    Some((base, id)) => {
                        proof {
                            lemma_peer_split(m@, base@, id);
                        }
                        peers.push((base, id));
                        assert(entries_view(peers@) =~= entries_view(before).push((base@, id)));
                    },
                    None => {},
                }
            },
            None => {},
        }
    }
    assert(all.take(n as int) =~= all);
    peers
}

/// The IPFS bootstrap peers, as the program parses them with libp2p.
pub fn bootstrap_peers() -> (peers: Vec<(Multiaddr, PeerId)>)
    ensures
        entries_view(peers@) == bootstrap_entries(
            ipfs_bootstrap_texts().map_values(|t: Seq<char>| multiaddr_from_text(t)),
        ),
{
    let nodes = ipfs_bootstrap_nodes();
    let mut parsed: Vec<Option<Multiaddr>> = Vec::new();
    for i in 0..nodes.len()
        invariant
            nodes@.map_values(|t: &str| t@) == ipfs_bootstrap_texts(),
            parsed@.len() == i,
            forall|j: int| 0 <= j < i ==> option_view(#[trigger] parsed@[j]) == multiaddr_from_text(nodes@[j]@),
    {
        parsed.push(parse_multiaddr(nodes[i]));
    }
    assert(parsed@.map_values(|m: Option<Multiaddr>| option_view(m)) =~= ipfs_bootstrap_texts().map_values(
        |t: Seq<char>| multiaddr_from_text(t),
    ));
    bootstrap_peers_from(&parsed)
}

/// The peers to add to the routing table after loading the saved one: none
/// where loading added an address, the IPFS bootstrap peers otherwise.
pub fn bootstrap_fallback(outcomes: &Vec<RoutingOutcome>) -> (peers: Vec<(Multiaddr, PeerId)>)
    ensures
        outcomes@.contains(RoutingOutcome::Success) ==> peers@.len() == 0,
        !outcomes@.contains(RoutingOutcome::Success) ==> entries_view(peers@) == bootstrap_entries(
            ipfs_bootstrap_texts().map_values(|t: Seq<char>| multiaddr_from_text(t)),
        ),
{
    if kademlia_initialized(outcomes) {
        Vec::new()
    } else {
        bootstrap_peers()
    }
}

} // verus!
