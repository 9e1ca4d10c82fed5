//! The state of a fast-booting Kademlia peer and the decisions it takes.
//!
//! The peer itself (the swarm, the timers, the files) is run by the program;
//! this module holds what the peer knows and decides, event by event.
//!
//! The listen and external addresses are sets, kept as `Vec`s without
//! duplicates (the type invariant of `Peer`).

use vstd::prelude::*;

use libp2p::kad::QueryId;
use libp2p::PeerId;

use crate::address::{peer_id_base58, peer_id_to_base58, IpAddr, Multiaddr, Protocol, ProtocolView};
use crate::log::routed_line;
use crate::text::{decimal, digit_char, is_whitespace, push_two_digits, string_from_chars, strip_leading, trim, trim_end, trim_start, two_digits};
use crate::util::{address_is_private, ip_component, ip_is_non_public, ipaddr_to_multiaddr, is_private_ip, lemma_ip_multiaddr};

verus! {

/// The agent string of this program, announced through identify.
pub const KAD_FASTBOOT_AGENT: &'static str = "kad-fastboot/0.0.1";

/// The UDP port of the QUIC listener.
pub const PORT_QUIC: u16 = 9091;

/// The interval of Kademlia's periodic bootstrap, in seconds.
pub const KADEMLIA_BOOTSTRAP_INTERVAL: u64 = 300;

/// The identifier of a Kademlia query, carried through unchanged.
#[verifier::external_type_specification]
#[verifier::external_body]
pub struct ExQueryId(QueryId);

/// Tells whether two query identifiers are the same (`QueryId`'s derived `==`).
#[verifier::external_body]
fn query_id_eq(a: &QueryId, b: &QueryId) -> (same: bool)
    ensures
        same == (*a == *b),
{
    a == b
}

/// The view of a list of multiaddresses.
pub open spec fn addresses_view(addresses: Seq<Multiaddr>) -> Seq<Seq<ProtocolView>> {
    addresses.map_values(|m: Multiaddr| m@)
}

/// The address the peer listens on for an IP address: QUIC over UDP on `PORT_QUIC`.
pub open spec fn listen_view(ip: IpAddr) -> Seq<ProtocolView> {
    seq![ip_component(ip), ProtocolView::Udp(PORT_QUIC), ProtocolView::QuicV1]
}

/// The QUIC listen address for an IP address.
pub fn listen_address(ip: &IpAddr) -> (address: Multiaddr)
    ensures
        address@ == listen_view(*ip),
{
    let address = ipaddr_to_multiaddr(ip).with(Protocol::Udp(PORT_QUIC)).with(Protocol::QuicV1);
    assert(address@ =~= listen_view(*ip));
    address
}

/// Tells whether a list of multiaddresses holds one, as `HashSet::contains`.
pub fn contains_address(addresses: &Vec<Multiaddr>, address: &Multiaddr) -> (found: bool)
    ensures
        found == addresses_view(addresses@).contains(address@),
{
    let n = addresses.len();
    for i in 0..n
        invariant
            n == addresses@.len(),
            forall|j: int| 0 <= j < i ==> #[trigger] addresses@[j]@ != address@,
    {
        if addresses[i].same_as(address) {
            assert(addresses_view(addresses@)[i as int] == address@);
            return true;
        }
    }
    proof {
        if addresses_view(addresses@).contains(address@) {
            let k = choose|k: int| 0 <= k < n && addresses_view(addresses@)[k] == address@;
            assert(addresses@[k]@ == address@);
        }
    }
    false
}

/// Adds a multiaddress to a list that is used as a set, as `HashSet::insert`:
/// true, and the address appended, where it was not in the list; false, and the
/// list unchanged, where it was.
pub fn insert_address(addresses: &mut Vec<Multiaddr>, address: Multiaddr) -> (inserted: bool)
    ensures
        inserted == !addresses_view(old(addresses)@).contains(address@),
        addresses_view(final(addresses)@) == if inserted {
            addresses_view(old(addresses)@).push(address@)
        } else {
            addresses_view(old(addresses)@)
        },
{
    if contains_address(addresses, &address) {
        false
    } else {
        let ghost a = address@;
        addresses.push(address);
        assert(addresses_view(addresses@) =~= addresses_view(old(addresses)@).push(a));
        true
    }
}

/// What a peer knows, as mathematical values.
pub struct PeerView {
    pub local_peer_id: PeerId,
    pub listen_addresses: Seq<Seq<ProtocolView>>,
    pub external_addresses: Seq<Seq<ProtocolView>>,
    pub kademlia_state: Option<Seq<(PeerId, Seq<Seq<ProtocolView>>)>>,
    pub bootstrap_query_id: Option<QueryId>,
}

/// The routing table that a peer saves and loads again: each peer with its
/// addresses.
pub type KademliaState = Vec<(PeerId, Vec<Multiaddr>)>;

/// The view of a saved routing table.
pub open spec fn state_view(state: Seq<(PeerId, Vec<Multiaddr>)>) -> Seq<(PeerId, Seq<Seq<ProtocolView>>)> {
    state.map_values(|e: (PeerId, Vec<Multiaddr>)| (e.0, addresses_view(e.1@)))
}

/// What a peer knows: its identity, the addresses it listens on and those it
/// announces, the routing table it was started with, and the bootstrap query it
/// waits for.
pub struct Peer {
    local_peer_id: PeerId,
    listen_addresses: Vec<Multiaddr>,
    external_addresses: Vec<Multiaddr>,
    kademlia_state: Option<KademliaState>,
    bootstrap_query_id: Option<QueryId>,
}

impl View for Peer {
    type V = PeerView;

    closed spec fn view(&self) -> PeerView {
        PeerView {
            local_peer_id: self.local_peer_id,
            listen_addresses: addresses_view(self.listen_addresses@),
            external_addresses: addresses_view(self.external_addresses@),
            kademlia_state: match self.kademlia_state {
                Some(state) => Some(state_view(state@)),
                None => None,
            },
            bootstrap_query_id: self.bootstrap_query_id,
        }
    }
}

/// What `update_external_address` does: a public address that the peer does not
/// announce yet is added, and the call answers whether it was.
pub open spec fn update_external(p: PeerView, address: Seq<ProtocolView>) -> (PeerView, bool) {
    if !address_is_private(address) && !p.external_addresses.contains(address) {
        (PeerView { external_addresses: p.external_addresses.push(address), ..p }, true)
    } else {
        (p, false)
    }
}

/// The public multiaddresses of a list, in order.
pub open spec fn keep_public(addresses: Seq<Seq<ProtocolView>>) -> Seq<Seq<ProtocolView>>
    decreases addresses.len(),
{
    if addresses.len() == 0 {
        addresses
    } else if address_is_private(addresses.last()) {
        keep_public(addresses.drop_last())
    } else {
        keep_public(addresses.drop_last()).push(addresses.last())
    }
}

/// The view of a list of (peer, address) pairs.
pub open spec fn loads_view(loads: Seq<(PeerId, Multiaddr)>) -> Seq<(PeerId, Seq<ProtocolView>)> {
    loads.map_values(|e: (PeerId, Multiaddr)| (e.0, e.1@))
}

/// The (peer, address) pairs of a routing table, in order.
pub open spec fn load_list(state: Seq<(PeerId, Seq<Seq<ProtocolView>>)>) -> Seq<(PeerId, Seq<ProtocolView>)>
    decreases state.len(),
{
    if state.len() == 0 {
        Seq::empty()
    } else {
        let (peer, addresses) = state.last();
        load_list(state.drop_last()) + addresses.map_values(|a: Seq<ProtocolView>| (peer, a))
    }
}


/// What the swarm reports of a bootstrap query: a step of progress (the last
/// one, or not), or a failure.
#[derive(Clone, Copy, Debug, PartialEq, Eq, Structural)]
pub enum BootstrapOutcome {
    Progress { last: bool },
    Failure,
}

/// What happens to a running peer.
pub enum Event {
    /// The process is asked to terminate.
    Shutdown,
    /// The periodic timer fires.
    Tick,
    /// A connection to a peer closed.
    ConnectionClosed(PeerId),
    /// A peer identified itself.
    IdentifyReceived { agent_version: String, listen_addrs: Vec<Multiaddr> },
    /// A bootstrap query made progress or failed.
    BootstrapProgressed { id: QueryId, outcome: BootstrapOutcome },
    /// Anything else the swarm reports; the peer only logs it.
    Other,
}

/// An event, as a mathematical value.
pub enum EventView {
    Shutdown,
    Tick,
    ConnectionClosed(PeerId),
    IdentifyReceived { agent_version: Seq<char>, listen_addrs: Seq<Seq<ProtocolView>> },
    BootstrapProgressed { id: QueryId, outcome: BootstrapOutcome },
    Other,
}

impl View for Event {
    type V = EventView;

    open spec fn view(&self) -> EventView {
        match self {
            Event::Shutdown => EventView::Shutdown,
            Event::Tick => EventView::Tick,
            Event::ConnectionClosed(peer) => EventView::ConnectionClosed(*peer),
            Event::IdentifyReceived { agent_version, listen_addrs } => EventView::IdentifyReceived {
                agent_version: agent_version@,
                listen_addrs: addresses_view(listen_addrs@),
            },
            Event::BootstrapProgressed { id, outcome } => EventView::BootstrapProgressed {
                id: *id,
                outcome: *outcome,
            },
            Event::Other => EventView::Other,
        }
    }
}

/// What the program is to do after an event, in this order: remove a peer from
/// the routing table, dial addresses, save the routing table, report the
/// bootstrap metric, stop.
pub struct Reaction {
    pub remove_peer: Option<PeerId>,
    pub dial: Vec<Multiaddr>,
    pub save_state: bool,
    pub report_metric: bool,
    pub stop: bool,
}

/// A reaction, as a mathematical value.
pub struct ReactionView {
    pub remove_peer: Option<PeerId>,
    pub dial: Seq<Seq<ProtocolView>>,
    pub save_state: bool,
    pub report_metric: bool,
    pub stop: bool,
}

impl View for Reaction {
    type V = ReactionView;

    open spec fn view(&self) -> ReactionView {
        ReactionView {
            remove_peer: self.remove_peer,
            dial: addresses_view(self.dial@),
            save_state: self.save_state,
            report_metric: self.report_metric,
            stop: self.stop,
        }
    }
}

/// The reaction that does nothing.
pub open spec fn quiet() -> ReactionView {
    ReactionView {
        remove_peer: None,
        dial: Seq::empty(),
        save_state: false,
        report_metric: false,
        stop: false,
    }
}

/// The peer's decision on an event: its next state and what the program is to do.
///
/// A shutdown stops; the timer saves the routing table; a closed connection
/// removes its peer from the routing table; a peer that identifies itself with
/// this program's agent is dialed on its public listen addresses. A report on
/// the bootstrap query the peer waits for ends the wait where it is the last
/// step (saving, reporting the metric and stopping) or a failure. Nothing else
/// changes the peer or asks for anything.
pub open spec fn next(p: PeerView, e: EventView) -> (PeerView, ReactionView) {
    match e {
        EventView::Shutdown => (p, ReactionView { stop: true, ..quiet() }),
        EventView::Tick => (p, ReactionView { save_state: true, ..quiet() }),
        EventView::ConnectionClosed(peer) => (p, ReactionView { remove_peer: Some(peer), ..quiet() }),
        EventView::IdentifyReceived { agent_version, listen_addrs } => {
            if agent_version == KAD_FASTBOOT_AGENT@ {
                (p, ReactionView { dial: keep_public(listen_addrs), ..quiet() })
            } else {
                (p, quiet())
            }
        },
        EventView::BootstrapProgressed { id, outcome } => {
            if p.bootstrap_query_id == Some(id) {
                match outcome {
                    BootstrapOutcome::Progress { last } => {
                        if last {
                            (
                                PeerView { bootstrap_query_id: None, ..p },
                                ReactionView { save_state: true, report_metric: true, stop: true, ..quiet() },
                            )
                        } else {
                            (p, quiet())
                        }
                    },
                    BootstrapOutcome::Failure => (PeerView { bootstrap_query_id: None, ..p }, quiet()),
                }
            } else {
                (p, quiet())
            }
        },
        EventView::Other => (p, quiet()),
    }
}

/// What `add_address` answered for one (peer, address) pair.
#[derive(Clone, Copy, Debug, PartialEq, Eq, Structural)]
pub enum RoutingOutcome {
    Success,
    Pending,
    Failed,
}

/// Tells whether loading a routing table initialized Kademlia: whether any address
/// was added to the routing table.
pub fn kademlia_initialized(outcomes: &Vec<RoutingOutcome>) -> (initialized: bool)
    ensures
        initialized == outcomes@.contains(RoutingOutcome::Success),
{
    for i in 0..outcomes.len()
        invariant
            forall|j: int| 0 <= j < i ==> outcomes@[j] != RoutingOutcome::Success,
    {
        if outcomes[i] == RoutingOutcome::Success {
            assert(outcomes@[i as int] == RoutingOutcome::Success);
            return true;
        }
    }
    false
}

/// One entry of Kademlia's routing table: a peer, its addresses, and whether it
/// is connected.
pub struct RoutingEntry {
    pub peer: PeerId,
    pub addresses: Vec<Multiaddr>,
    pub connected: bool,
}

/// The routing table that is saved: the connected entries, in order.
pub open spec fn saved_state(entries: Seq<RoutingEntry>) -> Seq<(PeerId, Seq<Seq<ProtocolView>>)>
    decreases entries.len(),
{
    if entries.len() == 0 {
        Seq::empty()
    } else {
        let before = saved_state(entries.drop_last());
        let e = entries.last();
        if e.connected {
            before.push((e.peer, addresses_view(e.addresses@)))
        } else {
            before
        }
    }
}

/// A copy of a list of multiaddresses.
pub fn copy_addresses(addresses: &Vec<Multiaddr>) -> (copy: Vec<Multiaddr>)
    ensures
        addresses_view(copy@) == addresses_view(addresses@),
{
    let mut copy: Vec<Multiaddr> = Vec::new();
    let n = addresses.len();
    for i in 0..n
        invariant
            n == addresses@.len(),
            addresses_view(copy@) == addresses_view(addresses@).take(i as int),
    {
        let ghost before = copy@;
        copy.push(addresses[i].clone());
        assert(addresses_view(copy@) =~= addresses_view(before).push(addresses@[i as int]@));
        assert(addresses_view(addresses@).take(i + 1) =~= addresses_view(addresses@).take(i as int).push(
            addresses@[i as int]@,
        ));
    }
    assert(addresses_view(addresses@).take(addresses.len() as int) =~= addresses_view(addresses@));
    copy
}

/// `format!("{:02}:{:02}:{:02}", s / 3600, s / 60, s % 60)` of the elapsed
/// seconds `s`, and `00:00:00` where the bootstrap never started. (The middle
/// field counts all minutes, not those of the hour.)
pub open spec fn timing_text(elapsed: Option<u64>) -> Seq<char> {
    match elapsed {
        Some(s) => two_digits(s as nat / 3600) + seq![':'] + two_digits(s as nat / 60) + seq![':']
            + two_digits(s as nat % 60),
        None => seq!['0', '0', ':', '0', '0', ':', '0', '0'],
    }
}

/// How the peer was bootstrapped: `fastboot` while it holds a saved routing
/// table, `bootstrap` otherwise.
pub open spec fn status_text(p: PeerView) -> Seq<char> {
    if p.kademlia_state is Some {
        seq!['f', 'a', 's', 't', 'b', 'o', 'o', 't']
    } else {
        seq!['b', 'o', 'o', 't', 's', 't', 'r', 'a', 'p']
    }
}

/// The metric line: `] status,peer,timing`.
pub open spec fn metric_text(p: PeerView, elapsed: Option<u64>) -> Seq<char> {
    seq![']', ' '] + status_text(p) + seq![','] + peer_id_base58(p.local_peer_id) + seq![',']
        + timing_text(elapsed)
}

/// The time the bootstrap took, as `hh:mm:ss` (see `timing_text`).
pub fn format_elapsed(elapsed: Option<u64>) -> (text: String)
    ensures
        text@ == timing_text(elapsed),
{
    let mut chars: Vec<char> = Vec::new();
    match elapsed {
        Some(s) => {
            push_two_digits(s / 3600, &mut chars);
            chars.push(':');
            push_two_digits(s / 60, &mut chars);
            chars.push(':');
            push_two_digits(s % 60, &mut chars);
        },
        None => {
            chars.push('0');
            chars.push('0');
            chars.push(':');
            chars.push('0');
            chars.push('0');
            chars.push(':');
            chars.push('0');
            chars.push('0');
        },
    }
    assert(chars@ =~= timing_text(elapsed));
    string_from_chars(&chars)
}

/// The last character of a decimal number is a digit.
proof fn lemma_two_digits_last(n: nat)
    ensures
        two_digits(n).len() > 0,
        two_digits(n).last() == digit_char(n % 10),
{
    if n >= 10 {
        assert(decimal(n) == decimal(n / 10).push(digit_char(n % 10)));
    }
}

/// The address lists of a peer are sets: no address occurs twice.
pub open spec fn peer_view_wf(p: PeerView) -> bool {
    p.listen_addresses.no_duplicates() && p.external_addresses.no_duplicates()
}

impl Peer {
    #[verifier::type_invariant]
    spec fn addresses_are_sets(self) -> bool {
        peer_view_wf(self@)
    }

    /// The peer's state before it runs: its identity, a QUIC listen address for
    /// each listen IP, an external address for each external IP (each once), the
    /// routing table it loads, and no bootstrap query.
    pub fn new(
        local_peer_id: PeerId,
        listen_ips: &Vec<IpAddr>,
        external_ips: &Vec<IpAddr>,
        kademlia_state: Option<KademliaState>,
    ) -> (peer: Peer)
        ensures
            peer@.local_peer_id == local_peer_id,
            peer@.listen_addresses.to_set() == listen_ips@.map_values(|ip: IpAddr| listen_view(ip)).to_set(),
            peer@.external_addresses.to_set() == external_ips@.map_values(
                |ip: IpAddr| seq![ip_component(ip)],
            ).to_set(),
            peer@.kademlia_state == match kademlia_state {
                Some(state) => Some(state_view(state@)),
                None => None::<Seq<(PeerId, Seq<Seq<ProtocolView>>)>>,
            },
            peer@.bootstrap_query_id is None,
            peer_view_wf(peer@),
    {
        let mut listen_addresses: Vec<Multiaddr> = Vec::new();
        let ghost listen_target = listen_ips@.map_values(|ip: IpAddr| listen_view(ip));
        for i in 0..listen_ips.len()
            invariant
                listen_target == listen_ips@.map_values(|ip: IpAddr| listen_view(ip)),
                addresses_view(listen_addresses@).no_duplicates(),
                addresses_view(listen_addresses@).to_set() == listen_target.take(i as int).to_set(),
        {
            let ghost before = addresses_view(listen_addresses@);
            insert_address(&mut listen_addresses, listen_address(&listen_ips[i]));
            proof {
                lemma_insert_keeps_set(before, addresses_view(listen_addresses@), listen_target, i as int);
            }
        }
        assert(listen_target.take(listen_ips.len() as int) =~= listen_target);
        let mut external_addresses: Vec<Multiaddr> = Vec::new();
        let ghost external_target = external_ips@.map_values(|ip: IpAddr| seq![ip_component(ip)]);
        for i in 0..external_ips.len()
            invariant
                external_target == external_ips@.map_values(|ip: IpAddr| seq![ip_component(ip)]),
                addresses_view(external_addresses@).no_duplicates(),
                addresses_view(external_addresses@).to_set() == external_target.take(i as int).to_set(),
        {
            let ghost before = addresses_view(external_addresses@);
            insert_address(&mut external_addresses, ipaddr_to_multiaddr(&external_ips[i]));
            proof {
                lemma_insert_keeps_set(before, addresses_view(external_addresses@), external_target, i as int);
            }
        }
        assert(external_target.take(external_ips.len() as int) =~= external_target);
        Peer {
            local_peer_id,
            listen_addresses,
            external_addresses,
            kademlia_state,
            bootstrap_query_id: None,
        }
    }

    /// Adds an address to those the peer announces, where it is public and new;
    /// returns whether it did (and so whether the swarm is to announce it).
    pub fn update_external_address(&mut self, address: &Multiaddr) -> (added: bool)
        ensures
            (final(self)@, added) == update_external(old(self)@, address@),
    {
        proof {
            use_type_invariant(&*self);
        }
        if is_private_ip(address) {
            return false;
        }
        let mut external: Vec<Multiaddr> = Vec::new();
        std::mem::swap(&mut external, &mut self.external_addresses);
        let inserted = insert_address(&mut external, address.clone());
        proof {
            if inserted {
                lemma_push_no_duplicates(addresses_view(old(self).external_addresses@), address@);
            }
        }
        self.external_addresses = external;
        inserted
    }

    /// Announces again what the peer announced: empties its external addresses,
    /// then adds each of them back with `update_external_address`. Returns the
    /// addresses it added, which the swarm is to announce: the public ones.
    pub fn announce_external_addresses(&mut self) -> (announced: Vec<Multiaddr>)
        ensures
            addresses_view(announced@) == keep_public(old(self)@.external_addresses),
            final(self)@ == (PeerView { external_addresses: addresses_view(announced@), ..old(self)@ }),
    {
        proof {
            use_type_invariant(&*self);
        }
        let mut drained: Vec<Multiaddr> = Vec::new();
        std::mem::swap(&mut drained, &mut self.external_addresses);
        let ghost all = addresses_view(drained@);
        assert(self@.external_addresses =~= Seq::<Seq<ProtocolView>>::empty());
        assert(self@ == (PeerView { external_addresses: Seq::empty(), ..old(self)@ }));
        let ghost start = self@;
        assert(all.take(0) =~= Seq::<Seq<ProtocolView>>::empty());
        assert(all.no_duplicates());
        let mut announced: Vec<Multiaddr> = Vec::new();
        let n = drained.len();
        for i in 0..n
            invariant
                n == drained@.len(),
                all == addresses_view(drained@),
                all.no_duplicates(),
                self@ == (PeerView { external_addresses: keep_public(all.take(i as int)), ..start }),
                addresses_view(announced@) == keep_public(all.take(i as int)),
        {
            assert(all.take(i + 1).drop_last() =~= all.take(i as int));
            assert(all.take(i + 1).last() == drained@[i as int]@);
            proof {
                if keep_public(all.take(i as int)).contains(all[i as int]) {
                    lemma_keep_public_subset(all.take(i as int), all[i as int]);
                    let k = choose|k: int| 0 <= k < i && #[trigger] all.take(i as int)[k] == all[i as int];
                    assert(all[k] == all[i as int]);
                }
            }
            let added = self.update_external_address(&drained[i]);
            if added {
                let ghost before = announced@;
                announced.push(drained[i].clone());
                assert(addresses_view(announced@) =~= addresses_view(before).push(all[i as int]));
            }
        }
        assert(all.take(n as int) =~= all);
        announced
    }

    /// Hands out the routing table the peer was started with, leaving none: where
    /// it holds one, each (peer, address) pair that the routing table is to be
    /// loaded with, in order; `None` where it holds none.
    pub fn take_kademlia_state(&mut self) -> (loads: Option<Vec<(PeerId, Multiaddr)>>)
        ensures
            match old(self)@.kademlia_state {
                Some(state) => loads matches Some(l) && loads_view(l@) == load_list(state),
                None => loads is None,
            },
            final(self)@ == (PeerView { kademlia_state: None, ..old(self)@ }),
    {
        proof {
            use_type_invariant(&*self);
        }
        let mut taken: Option<KademliaState> = None;
        std::mem::swap(&mut taken, &mut self.kademlia_state);
        let mut loads: Vec<(PeerId, Multiaddr)> = Vec::new();
        match &taken {
            Some(state) => {
                let ghost sv = state_view(state@);
                for i in 0..state.len()
                    invariant
                        sv == state_view(state@),
                        loads_view(loads@) == load_list(sv.take(i as int)),
                {
                    assert(sv.take(i + 1).drop_last() =~= sv.take(i as int));
                    let ghost before = loads_view(loads@);
                    let peer = state[i].0;
                    let addresses = &state[i].1;
                    let ghost added = addresses_view(addresses@).map_values(
                        |a: Seq<ProtocolView>| (peer, a),
                    );
                    for j in 0..addresses.len()
                        invariant
                            loads_view(loads@) == before + added.take(j as int),
                            added == addresses_view(addresses@).map_values(
                                |a: Seq<ProtocolView>| (peer, a),
                            ),
                    {
                        let ghost prev = loads_view(loads@);
                        loads.push((peer, addresses[j].clone()));
                        assert(loads_view(loads@) =~= prev.push((peer, addresses@[j as int]@)));
                        assert(added.take(j + 1) =~= added.take(j as int).push((peer, addresses@[j as int]@)));
                    }
                    assert(added.take(addresses.len() as int) =~= added);
                    assert(sv.take(i + 1).last() == (peer, addresses_view(addresses@)));
                }
                assert(sv.take(state.len() as int) =~= sv);
                Some(loads)
            },
            None => None,
        }
    }

    /// Records the outcome of starting the bootstrap: the query to wait for, if
    /// Kademlia started one. Returns whether it did, and so whether the bootstrap
    /// time starts now.
    pub fn start_bootstrap(&mut self, query: Option<QueryId>) -> (started: bool)
        ensures
            started == query is Some,
            final(self)@ == match query {
                Some(id) => PeerView { bootstrap_query_id: Some(id), ..old(self)@ },
                None => old(self)@,
            },
    {
        proof {
            use_type_invariant(&*self);
        }
        match query {
            Some(id) => {
                self.bootstrap_query_id = Some(id);
                true
            },
            None => false,
        }
    }

    /// Decides what to do on an event (see `next`).
    pub fn handle_event(&mut self, event: &Event) -> (reaction: Reaction)
        ensures
            (final(self)@, reaction@) == next(old(self)@, event@),
    {
        proof {
            use_type_invariant(&*self);
        }
        let mut reaction = Reaction {
            remove_peer: None,
            dial: Vec::new(),
            save_state: false,
            report_metric: false,
            stop: false,
        };
        assert(reaction@.dial =~= Seq::<Seq<ProtocolView>>::empty());
        assert(reaction@ == quiet());
        match event {
            Event::Shutdown => {
                reaction.stop = true;
            },
            Event::Tick => {
                reaction.save_state = true;
            },
            Event::ConnectionClosed(peer) => {
                reaction.remove_peer = Some(*peer);
            },
            Event::IdentifyReceived { agent_version, listen_addrs } => {
                let agent = String::from_str(KAD_FASTBOOT_AGENT);
                if *agent_version == agent {
                    let mut dial: Vec<Multiaddr> = Vec::new();
                    let ghost all = addresses_view(listen_addrs@);
                    for i in 0..listen_addrs.len()
                        invariant
                            all == addresses_view(listen_addrs@),
                            addresses_view(dial@) == keep_public(all.take(i as int)),
                    {
                        assert(all.take(i + 1).drop_last() =~= all.take(i as int));
                        assert(all.take(i + 1).last() == listen_addrs@[i as int]@);
                        if !is_private_ip(&listen_addrs[i]) {
                            let ghost before = dial@;
                            dial.push(listen_addrs[i].clone());
                            assert(addresses_view(dial@) =~= addresses_view(before).push(all[i as int]));
                        }
                    }
                    assert(all.take(listen_addrs.len() as int) =~= all);
                    reaction.dial = dial;
                }
            },
            Event::BootstrapProgressed { id, outcome } => {
                let waited_for = match self.bootstrap_query_id {
                    Some(q) => query_id_eq(&q, id),
                    None => false,
                };
                if waited_for {
                    match outcome {
                        BootstrapOutcome::Progress { last } => {
                            if *last {
                                self.bootstrap_query_id = None;
                                reaction.save_state = true;
                                reaction.report_metric = true;
                                reaction.stop = true;
                            }
                        },
                        BootstrapOutcome::Failure => {
                            self.bootstrap_query_id = None;
                        },
                    }
                }
            },
            Event::Other => {},
        }
        reaction
    }

    /// The routing table to save, out of Kademlia's routing table: each connected
    /// peer with its addresses, in order.
    pub fn save_kademlia_state(entries: &Vec<RoutingEntry>) -> (state: KademliaState)
        ensures
            state_view(state@) == saved_state(entries@),
    {
        let mut state: KademliaState = Vec::new();
        for i in 0..entries.len()
            invariant
                state_view(state@) == saved_state(entries@.take(i as int)),
        {
            assert(entries@.take(i + 1).drop_last() =~= entries@.take(i as int));
            assert(entries@.take(i + 1).last() == entries@[i as int]);
            let entry = &entries[i];
            if entry.connected {
                let ghost before = state@;
                state.push((entry.peer, copy_addresses(&entry.addresses)));
                assert(state_view(state@) =~= state_view(before).push(
                    (entry.peer, addresses_view(entry.addresses@)),
                ));
            }
        }
        assert(entries@.take(entries.len() as int) =~= entries@);
        state
    }

    /// The metric line the peer logs once bootstrapped, given the seconds since
    /// the bootstrap started (`None` where it never started). Logged, it is
    /// written as `status,peer,timing`, whatever its level.
    #[verifier::rlimit(30)]
    pub fn output_metric(&self, elapsed_secs: Option<u64>) -> (line: String)
        ensures
            line@ == metric_text(self@, elapsed_secs),
            forall|level: Seq<char>|
                routed_line(line@, level) == Some(
                    status_text(self@) + seq![','] + peer_id_base58(self@.local_peer_id) + seq![',']
                        + timing_text(elapsed_secs),
                ),
    {
        let prefix = "] ";
        let comma = ",";
        let status = match self.kademlia_state {
            Some(_) => "fastboot",
            None => "bootstrap",
        };
        proof {
            reveal_strlit("] ");
            reveal_strlit(",");
            reveal_strlit("fastboot");
            reveal_strlit("bootstrap");
        }
        assert(status@ == status_text(self@));
        let peer = peer_id_to_base58(&self.local_peer_id);
        let timing = format_elapsed(elapsed_secs);
        let mut line = String::from_str(prefix);
        line.append(status);
        line.append(comma);
        line.append(peer.as_str());
        line.append(comma);
        line.append(timing.as_str());
        let ghost body = status_text(self@) + seq![','] + peer@ + seq![','] + timing@;
        assert(line@ =~= seq![']', ' '] + body);
        proof {
            let m = line@;
            assert(m.drop_first() =~= seq![' '] + body);
            assert(strip_leading(m.drop_first(), ']') == m.drop_first());
            assert(strip_leading(m, ']') == m.drop_first());
            assert((seq![' '] + body).drop_first() =~= body);
            assert(body[0] == status_text(self@)[0]);
            assert(!is_whitespace(body[0]));
            assert(trim_start(body) == body);
            assert(trim_start(seq![' '] + body) == body);
            match elapsed_secs {
                Some(s) => {
                    lemma_two_digits_last(s as nat % 60);
                    assert(timing_text(elapsed_secs).last() == two_digits(s as nat % 60).last());
                },
                None => {},
            }
            assert(body.last() == timing@.last());
            assert(!is_whitespace(body.last()));
            assert(trim_end(body) == body);
            assert(trim(strip_leading(m, ']')) == body);
        }
        line
    }

    /// The peer's identity.
    pub fn local_peer_id(&self) -> (id: PeerId)
        ensures
            id == self@.local_peer_id,
    {
        self.local_peer_id
    }

    /// The addresses the peer listens on.
    pub fn listen_addresses(&self) -> (addresses: &Vec<Multiaddr>)
        ensures
            addresses_view(addresses@) == self@.listen_addresses,
    {
        &self.listen_addresses
    }

    /// The addresses the peer announces.
    pub fn external_addresses(&self) -> (addresses: &Vec<Multiaddr>)
        ensures
            addresses_view(addresses@) == self@.external_addresses,
    {
        &self.external_addresses
    }

    /// The bootstrap query the peer waits for.
    pub fn bootstrap_query_id(&self) -> (id: Option<QueryId>)
        ensures
            id == self@.bootstrap_query_id,
    {
        self.bootstrap_query_id
    }
}

/// What `keep_public` keeps comes from the list.
pub proof fn lemma_keep_public_subset(addresses: Seq<Seq<ProtocolView>>, a: Seq<ProtocolView>)
    requires
        keep_public(addresses).contains(a),
    ensures
        addresses.contains(a),
    decreases addresses.len(),
{
    if addresses.len() > 0 {
        let rest = addresses.drop_last();
        if keep_public(rest).contains(a) {
            lemma_keep_public_subset(rest, a);
            let k = choose|k: int| 0 <= k < rest.len() && rest[k] == a;
            assert(addresses[k] == a);
        } else {
            assert(a == addresses.last());
        }
    }
}

// ---------------------------------------------------------------------------
// Laws
// ---------------------------------------------------------------------------

/// A shutdown stops the peer, asks for nothing else, and changes nothing.
pub proof fn lemma_shutdown_only_stops(p: PeerView)
    ensures
        next(p, EventView::Shutdown) == (p, ReactionView { stop: true, ..quiet() }),
{
}

/// Only the report of the bootstrap query the peer waits for changes the peer,
/// and it only ends the wait.
pub proof fn lemma_only_own_bootstrap_changes_peer(p: PeerView, e: EventView)
    ensures
        next(p, e).0 == p || (e matches EventView::BootstrapProgressed { id, outcome } && p.bootstrap_query_id
            == Some(id) && next(p, e).0 == PeerView { bootstrap_query_id: None, ..p }),
{
}

/// The peer stops on a shutdown, or when the bootstrap query it waits for
/// reports its last step; on nothing else.
pub proof fn lemma_stop_only_on_shutdown_or_completion(p: PeerView, e: EventView)
    ensures
        next(p, e).1.stop <==> (e is Shutdown || (e matches EventView::BootstrapProgressed { id, outcome }
            && p.bootstrap_query_id == Some(id) && outcome == BootstrapOutcome::Progress { last: true })),
{
}

/// The metric is reported only after the routing table is saved, and then the
/// peer stops.
pub proof fn lemma_metric_comes_with_save_and_stop(p: PeerView, e: EventView)
    ensures
        next(p, e).1.report_metric ==> next(p, e).1.save_state && next(p, e).1.stop,
{
}

/// Once the peer waits for no bootstrap query, only a shutdown stops it and no
/// metric is reported.
pub proof fn lemma_no_completion_without_query(p: PeerView, e: EventView)
    requires
        p.bootstrap_query_id is None,
    ensures
        next(p, e).1.stop ==> e is Shutdown,
        !next(p, e).1.report_metric,
        next(p, e).0 == p,
{
}

/// A bootstrap report that ended the wait does nothing when it comes again.
pub proof fn lemma_completion_happens_once(p: PeerView, e: EventView)
    requires
        e is BootstrapProgressed,
        next(p, e).0 != p,
    ensures
        next(next(p, e).0, e) == (next(p, e).0, quiet()),
{
}

/// The peer dials only public addresses.
pub proof fn lemma_dials_are_public(p: PeerView, e: EventView)
    ensures
        forall|i: int| 0 <= i < next(p, e).1.dial.len() ==> !address_is_private(#[trigger] next(p, e).1.dial[i]),
{
    if let EventView::IdentifyReceived { agent_version, listen_addrs } = e {
        lemma_keep_public_is_public(listen_addrs);
    }
}

/// Every event keeps the address lists sets.
pub proof fn lemma_next_keeps_wf(p: PeerView, e: EventView)
    requires
        peer_view_wf(p),
    ensures
        peer_view_wf(next(p, e).0),
{
}

/// Adding an external address twice adds it once: the second call changes
/// nothing and answers false.
pub proof fn lemma_update_external_idempotent(p: PeerView, address: Seq<ProtocolView>)
    ensures
        update_external(update_external(p, address).0, address) == (update_external(p, address).0, false),
{
    let p1 = update_external(p, address).0;
    if update_external(p, address).1 {
        assert(p1.external_addresses[p.external_addresses.len() as int] == address);
        assert(p1.external_addresses.contains(address));
    }
}

/// What the peer announces is public.
pub proof fn lemma_keep_public_is_public(addresses: Seq<Seq<ProtocolView>>)
    ensures
        forall|i: int| 0 <= i < keep_public(addresses).len() ==> !address_is_private(#[trigger] keep_public(addresses)[i]),
    decreases addresses.len(),
{
    if addresses.len() > 0 {
        let rest = addresses.drop_last();
        lemma_keep_public_is_public(rest);
        if !address_is_private(addresses.last()) {
            assert forall|i: int| 0 <= i < keep_public(addresses).len() implies !address_is_private(
                #[trigger] keep_public(addresses)[i],
            ) by {
                if i < keep_public(rest).len() {
                    assert(keep_public(addresses)[i] == keep_public(rest)[i]);
                }
            }
        }
    }
}

/// Announcing the external addresses again changes nothing more: every address
/// the peer then announces is public, and adding it again answers false.
pub proof fn lemma_announced_are_settled(p: PeerView, i: int)
    requires
        0 <= i < keep_public(p.external_addresses).len(),
    ensures
        !address_is_private(keep_public(p.external_addresses)[i]),
        update_external(
            PeerView { external_addresses: keep_public(p.external_addresses), ..p },
            keep_public(p.external_addresses)[i],
        ).1 == false,
{
    lemma_keep_public_is_public(p.external_addresses);
    assert(keep_public(p.external_addresses).contains(keep_public(p.external_addresses)[i]));
}

/// A multiaddress that holds no private IP address.
pub open spec fn is_public_address(a: Seq<ProtocolView>) -> bool {
    !address_is_private(a)
}

/// `keep_public` is the filter of public addresses.
proof fn lemma_keep_public_is_filter(addresses: Seq<Seq<ProtocolView>>)
    ensures
        keep_public(addresses) == addresses.filter(|a: Seq<ProtocolView>| is_public_address(a)),
    decreases addresses.len(),
{
    reveal_with_fuel(Seq::<Seq<ProtocolView>>::filter, 1);
    if addresses.len() > 0 {
        lemma_keep_public_is_filter(addresses.drop_last());
    }
}

/// On an identify from a peer of this program, the peer dials exactly the listen
/// addresses it was told that hold no private IP, all of them, in order; on an
/// identify from any other agent it dials nothing.
pub proof fn lemma_identify_dials_public_listen_addresses(
    p: PeerView,
    agent_version: Seq<char>,
    listen_addrs: Seq<Seq<ProtocolView>>,
)
    ensures
        next(p, EventView::IdentifyReceived { agent_version, listen_addrs }).1.dial == if agent_version
            == KAD_FASTBOOT_AGENT@ {
            listen_addrs.filter(|a: Seq<ProtocolView>| is_public_address(a))
        } else {
            Seq::<Seq<ProtocolView>>::empty()
        },
        agent_version == KAD_FASTBOOT_AGENT@ ==> forall|i: int|
            0 <= i < listen_addrs.len() && !address_is_private(#[trigger] listen_addrs[i]) ==> next(
                p,
                EventView::IdentifyReceived { agent_version, listen_addrs },
            ).1.dial.contains(listen_addrs[i]),
{
    lemma_keep_public_is_filter(listen_addrs);
    if agent_version == KAD_FASTBOOT_AGENT@ {
        assert forall|i: int|
            0 <= i < listen_addrs.len() && !address_is_private(#[trigger] listen_addrs[i]) implies next(
            p,
            EventView::IdentifyReceived { agent_version, listen_addrs },
        ).1.dial.contains(listen_addrs[i]) by {
            listen_addrs.lemma_filter_contains(|a: Seq<ProtocolView>| is_public_address(a), i);
        }
    }
}

/// The pairs of a routing table, as one sequence per entry.
pub open spec fn entry_pairs(state: Seq<(PeerId, Seq<Seq<ProtocolView>>)>) -> Seq<Seq<(PeerId, Seq<ProtocolView>)>> {
    state.map_values(
        |e: (PeerId, Seq<Seq<ProtocolView>>)| e.1.map_values(|a: Seq<ProtocolView>| (e.0, a)),
    )
}

/// Loading a routing table loads every address of every entry with that entry's
/// peer, entry after entry, address after address, and nothing else: the load
/// list is the concatenation of the entries' (peer, address) pairs. Each pair of
/// the table is in it, and its length is the number of addresses in the table.
pub proof fn lemma_load_list_is_every_pair(state: Seq<(PeerId, Seq<Seq<ProtocolView>>)>)
    ensures
        load_list(state) == entry_pairs(state).flatten(),
        forall|i: int, k: int|
            0 <= i < state.len() && 0 <= k < state[i].1.len() ==> load_list(state).contains(
                (state[i].0, #[trigger] state[i].1[k]),
            ),
    decreases state.len(),
{
    entry_pairs(state).lemma_flatten_and_flatten_alt_are_equivalent();
    lemma_load_list_is_flatten_alt(state);
    assert forall|i: int, k: int| 0 <= i < state.len() && 0 <= k < state[i].1.len() implies load_list(
        state,
    ).contains((state[i].0, #[trigger] state[i].1[k])) by {
        lemma_load_list_holds(state, i, k);
    }
}

proof fn lemma_load_list_is_flatten_alt(state: Seq<(PeerId, Seq<Seq<ProtocolView>>)>)
    ensures
        load_list(state) == entry_pairs(state).flatten_alt(),
    decreases state.len(),
{
    if state.len() > 0 {
        lemma_load_list_is_flatten_alt(state.drop_last());
        assert(entry_pairs(state).drop_last() =~= entry_pairs(state.drop_last()));
    } else {
        assert(entry_pairs(state) =~= Seq::<Seq<(PeerId, Seq<ProtocolView>)>>::empty());
    }
}

proof fn lemma_load_list_holds(state: Seq<(PeerId, Seq<Seq<ProtocolView>>)>, i: int, k: int)
    requires
        0 <= i < state.len(),
        0 <= k < state[i].1.len(),
    ensures
        load_list(state).contains((state[i].0, state[i].1[k])),
    decreases state.len(),
{
    let before = load_list(state.drop_last());
    let (peer, addresses) = state.last();
    let added = addresses.map_values(|a: Seq<ProtocolView>| (peer, a));
    if i < state.len() - 1 {
        assert(state.drop_last()[i] == state[i]);
        lemma_load_list_holds(state.drop_last(), i, k);
        let j = choose|j: int| 0 <= j < before.len() && before[j] == (state[i].0, state[i].1[k]);
        assert((before + added)[j] == before[j]);
    } else {
        assert((before + added)[before.len() + k] == added[k]);
    }
}

/// The table a save writes holds each connected entry of the routing table, in
/// order, with its peer and all its addresses, and nothing for an entry that is
/// not connected.
pub proof fn lemma_saved_state_is_connected_entries(entries: Seq<RoutingEntry>)
    ensures
        saved_state(entries) == entries.filter(|e: RoutingEntry| e.connected).map_values(
            |e: RoutingEntry| (e.peer, addresses_view(e.addresses@)),
        ),
    decreases entries.len(),
{
    reveal_with_fuel(Seq::<RoutingEntry>::filter, 1);
    let f = |e: RoutingEntry| (e.peer, addresses_view(e.addresses@));
    if entries.len() > 0 {
        lemma_saved_state_is_connected_entries(entries.drop_last());
        let kept = entries.drop_last().filter(|e: RoutingEntry| e.connected);
        if entries.last().connected {
            assert(kept.push(entries.last()).map_values(f) =~= kept.map_values(f).push(f(entries.last())));
        }
    } else {
        assert(entries.filter(|e: RoutingEntry| e.connected).map_values(f) =~= Seq::<
            (PeerId, Seq<Seq<ProtocolView>>),
        >::empty());
    }
}

/// `update_external_address` adds an address exactly when it holds no private IP
/// and is not announced yet, whatever else the address holds; then the address is
/// announced last. Otherwise nothing changes.
pub proof fn lemma_update_external_adds_public_new(p: PeerView, address: Seq<ProtocolView>)
    ensures
        update_external(p, address).1 == (!address_is_private(address) && !p.external_addresses.contains(
            address,
        )),
        update_external(p, address).1 ==> update_external(p, address).0 == (PeerView {
            external_addresses: p.external_addresses.push(address),
            ..p
        }),
        !update_external(p, address).1 ==> update_external(p, address).0 == p,
        !address_is_private(address) ==> update_external(p, address).0.external_addresses.contains(address),
{
    if !address_is_private(address) && !p.external_addresses.contains(address) {
        assert(update_external(p, address).0.external_addresses[p.external_addresses.len() as int] == address);
    }
}

/// Every public IP address given as an external address, and not announced yet,
/// is announced.
pub proof fn lemma_public_ip_is_announced(p: PeerView, ip: IpAddr)
    requires
        !ip_is_non_public(ip_component(ip)),
        !p.external_addresses.contains(seq![ip_component(ip)]),
    ensures
        update_external(p, seq![ip_component(ip)]).1,
{
    lemma_ip_multiaddr(ip);
}

proof fn lemma_push_no_duplicates(s: Seq<Seq<ProtocolView>>, a: Seq<ProtocolView>)
    requires
        s.no_duplicates(),
        !s.contains(a),
    ensures
        s.push(a).no_duplicates(),
{
    assert forall|i: int, j: int|
        0 <= i < s.push(a).len() && 0 <= j < s.push(a).len() && i != j implies s.push(a)[i]
        != s.push(a)[j] by {
        if i == s.len() {
            assert(s[j] == s.push(a)[j]);
        } else if j == s.len() {
            assert(s[i] == s.push(a)[i]);
        }
    }
}

proof fn lemma_insert_keeps_set(
    before: Seq<Seq<ProtocolView>>,
    after: Seq<Seq<ProtocolView>>,
    target: Seq<Seq<ProtocolView>>,
    i: int,
)
    requires
        0 <= i < target.len(),
        before.no_duplicates(),
        before.to_set() == target.take(i).to_set(),
        after == if before.contains(target[i]) { before } else { before.push(target[i]) },
    ensures
        after.no_duplicates(),
        after.to_set() == target.take(i + 1).to_set(),
{
    if !before.contains(target[i]) {
        lemma_push_no_duplicates(before, target[i]);
    }
    assert(target.take(i + 1) =~= target.take(i).push(target[i]));
    assert(after.to_set() =~= target.take(i + 1).to_set()) by {
        assert forall|x: Seq<ProtocolView>| after.contains(x) <==> target.take(i + 1).contains(x) by {
            if after.contains(x) {
                let k = choose|k: int| 0 <= k < after.len() && after[k] == x;
                if k < before.len() {
                    assert(before[k] == x);
                    assert(before.to_set().contains(x));
                    assert(target.take(i).contains(x));
                    let m = choose|m: int| 0 <= m < i && #[trigger] target.take(i)[m] == x;
                    assert(target.take(i + 1)[m] == x);
                } else {
                    assert(target.take(i + 1)[i] == x);
                }
            }
            if target.take(i + 1).contains(x) {
                let m = choose|m: int| 0 <= m < i + 1 && #[trigger] target.take(i + 1)[m] == x;
                if m < i {
                    assert(target.take(i)[m] == x);
                    assert(target.take(i).to_set().contains(x));
                    assert(before.contains(x));
                    let k = choose|k: int| 0 <= k < before.len() && before[k] == x;
                    assert(after[k] == x);
                } else if before.contains(x) {
                    let k = choose|k: int| 0 <= k < before.len() && before[k] == x;
                    assert(after[k] == x);
                } else {
                    assert(after[before.len() as int] == x);
                }
            }
        }
    }
}

} // verus!
