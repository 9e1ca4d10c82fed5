//! Multiaddresses as sequences of protocol components.

use vstd::prelude::*;

use libp2p::multiaddr::Protocol as WireProtocol;
use libp2p::PeerId;

verus! {

/// The identity of a peer, carried through unchanged.
#[verifier::external_type_specification]
#[verifier::external_body]
pub struct ExPeerId(PeerId);

/// An IP address: an IPv4 address by its 32 bits, an IPv6 address by its 128 bits,
/// both most significant bit first.
#[derive(Clone, Copy, Debug, PartialEq, Eq, Structural)]
pub enum IpAddr {
    V4(u32),
    V6(u128),
}

/// One component of a multiaddress. `Other` holds any component that the
/// peer does not look into, by its text form (for instance `/dnsaddr/example.com`).
#[derive(Debug, PartialEq, Eq, Hash)]
pub enum Protocol {
    Ip4(u32),
    Ip6(u128),
    Udp(u16),
    QuicV1,
    P2p(PeerId),
    Other(String),
}

/// What a component is, as a mathematical value.
pub enum ProtocolView {
    Ip4(u32),
    Ip6(u128),
    Udp(u16),
    QuicV1,
    P2p(PeerId),
    Other(Seq<char>),
}

impl View for Protocol {
    type V = ProtocolView;

    open spec fn view(&self) -> ProtocolView {
        match self {
            Protocol::Ip4(a) => ProtocolView::Ip4(*a),
            Protocol::Ip6(a) => ProtocolView::Ip6(*a),
            Protocol::Udp(port) => ProtocolView::Udp(*port),
            Protocol::QuicV1 => ProtocolView::QuicV1,
            Protocol::P2p(id) => ProtocolView::P2p(*id),
            Protocol::Other(text) => ProtocolView::Other(text@),
        }
    }
}

/// A multiaddress: its components, outermost first.
#[derive(Debug, PartialEq, Eq, Hash)]
pub struct Multiaddr {
    pub protocols: Vec<Protocol>,
}

impl View for Multiaddr {
    type V = Seq<ProtocolView>;

    open spec fn view(&self) -> Seq<ProtocolView> {
        self.protocols@.map_values(|p: Protocol| p@)
    }
}

/// Tells whether two peer identities are the same (`PeerId`'s derived `==`).
#[verifier::external_body]
pub(crate) fn peer_id_eq(a: &PeerId, b: &PeerId) -> (same: bool)
    ensures
        same == (*a == *b),
{
    a == b
}

/// The components of the multiaddress written as `text`, or `None` where the
/// text is not a multiaddress (`<libp2p::Multiaddr as FromStr>::from_str`).
pub uninterp spec fn multiaddr_from_text(text: Seq<char>) -> Option<Seq<ProtocolView>>;

/// The view of an optional multiaddress.
pub open spec fn option_view(m: Option<Multiaddr>) -> Option<Seq<ProtocolView>> {
    match m {
        Some(a) => Some(a@),
        None => None,
    }
}

/// Parses a multiaddress with libp2p (`"/ip4/1.2.3.4/udp/9091/quic-v1".parse()`).
/// The contract names the result: parsing is a function of the text alone.
#[verifier::external_body]
pub(crate) fn parse_multiaddr(text: &str) -> (parsed: Option<Multiaddr>)
    ensures
        option_view(parsed) == multiaddr_from_text(text@),
{
    let wire: libp2p::Multiaddr = text.parse().ok()?;
    let protocols = wire.iter().map(|p| match p {
        WireProtocol::Ip4(a) => Protocol::Ip4(a.to_bits()),
        WireProtocol::Ip6(a) => Protocol::Ip6(a.to_bits()),
        WireProtocol::Udp(port) => Protocol::Udp(port),
        WireProtocol::QuicV1 => Protocol::QuicV1,
        WireProtocol::P2p(id) => Protocol::P2p(id),
        other => Protocol::Other(other.to_string()),
    }).collect();
    Some(Multiaddr { protocols })
}

/// The base58 text of a peer identity (`PeerId::to_base58`, which is also its
/// `Display`).
pub uninterp spec fn peer_id_base58(id: PeerId) -> Seq<char>;

/// The text of a peer identity: `PeerId::to_base58`, the bitcoin base58 encoding
/// of the identity's bytes. The text is named, not stated.
#[verifier::external_body]
pub(crate) fn peer_id_to_base58(id: &PeerId) -> (text: String)
    ensures
        text@ == peer_id_base58(*id),
{
    id.to_base58()
}

/// The text of a component as libp2p writes it (`Display` of
/// `multiaddr::Protocol`, for instance `/ip4/1.2.3.4`).
pub uninterp spec fn wire_component_text(p: ProtocolView) -> Seq<char>;

/// The text of a component: libp2p's text, or the text an `Other` component holds.
pub open spec fn protocol_text(p: ProtocolView) -> Seq<char> {
    match p {
        ProtocolView::Other(text) => text,
        _ => wire_component_text(p),
    }
}

/// The text of a multiaddress: the texts of its components, one after the other
/// (as `Display` of `libp2p::Multiaddr` writes it).
pub open spec fn multiaddr_text(s: Seq<ProtocolView>) -> Seq<char>
    decreases s.len(),
{
    if s.len() == 0 {
        Seq::empty()
    } else {
        multiaddr_text(s.drop_last()) + protocol_text(s.last())
    }
}

/// Writes a component as text with libp2p (`Display` of `multiaddr::Protocol`);
/// an `Other` component is its text already.
#[verifier::external_body]
fn component_text(p: &Protocol) -> (text: String)
    ensures
        match p@ {
            ProtocolView::Other(t) => text@ == t,
            _ => text@ == wire_component_text(p@),
        },
{
    match p {
        Protocol::Ip4(a) => WireProtocol::Ip4((*a).into()).to_string(),
        Protocol::Ip6(a) => WireProtocol::Ip6((*a).into()).to_string(),
        Protocol::Udp(port) => WireProtocol::Udp(*port).to_string(),
        Protocol::QuicV1 => WireProtocol::QuicV1.to_string(),
        Protocol::P2p(id) => WireProtocol::P2p(*id).to_string(),
        Protocol::Other(text) => text.clone(),
    }
}

impl Clone for Protocol {
    fn clone(&self) -> (copy: Self)
        ensures
            copy@ == self@,
    {
        match self {
            Protocol::Ip4(a) => Protocol::Ip4(*a),
            Protocol::Ip6(a) => Protocol::Ip6(*a),
            Protocol::Udp(port) => Protocol::Udp(*port),
            Protocol::QuicV1 => Protocol::QuicV1,
            Protocol::P2p(id) => Protocol::P2p(*id),
            Protocol::Other(text) => Protocol::Other(text.clone()),
        }
    }
}

impl Protocol {
    /// Compares two components.
    pub fn same_as(&self, other: &Protocol) -> (same: bool)
        ensures
            same == (self@ == other@),
    {
        match (self, other) {
            (Protocol::Ip4(a), Protocol::Ip4(b)) => *a == *b,
            (Protocol::Ip6(a), Protocol::Ip6(b)) => *a == *b,
            (Protocol::Udp(a), Protocol::Udp(b)) => *a == *b,
            (Protocol::QuicV1, Protocol::QuicV1) => true,
            (Protocol::P2p(a), Protocol::P2p(b)) => peer_id_eq(a, b),
            (Protocol::Other(a), Protocol::Other(b)) => *a == *b,
            _ => false,
        }
    }
}

impl Clone for Multiaddr {
    fn clone(&self) -> (copy: Self)
        ensures
            copy@ == self@,
    {
        let mut protocols: Vec<Protocol> = Vec::new();
        let n = self.protocols.len();
        for i in 0..n
            invariant
                n == self.protocols@.len(),
                protocols@.len() == i,
                forall|j: int| 0 <= j < i ==> #[trigger] protocols@[j]@ == self.protocols@[j]@,
        {
            protocols.push(self.protocols[i].clone());
        }
        let copy = Multiaddr { protocols };
        assert(copy@ =~= self@);
        copy
    }
}

impl Multiaddr {
    /// The multiaddress without components.
    pub fn empty() -> (m: Multiaddr)
        ensures
            m@ == Seq::<ProtocolView>::empty(),
    {
        let m = Multiaddr { protocols: Vec::new() };
        assert(m@ =~= Seq::<ProtocolView>::empty());
        m
    }

    /// Appends a component.
    pub fn push(&mut self, p: Protocol)
        ensures
            final(self)@ == old(self)@.push(p@),
    {
        self.protocols.push(p);
        assert(self@ =~= old(self)@.push(p@));
    }

    /// Like `push`, but consumes the multiaddress.
    pub fn with(self, p: Protocol) -> (m: Multiaddr)
        ensures
            m@ == self@.push(p@),
    {
        let mut m = self;
        m.push(p);
        m
    }

    /// The text of the multiaddress, as libp2p writes it.
    pub fn to_text(&self) -> (text: String)
        ensures
            text@ == multiaddr_text(self@),
    {
        let mut text = String::new();
        let n = self.protocols.len();
        for i in 0..n
            invariant
                n == self@.len(),
                text@ == multiaddr_text(self@.take(i as int)),
        {
            let part = component_text(&self.protocols[i]);
            text.append(part.as_str());
            assert(self@.take(i + 1).drop_last() =~= self@.take(i as int));
        }
        assert(self@.take(n as int) =~= self@);
        text
    }

    /// Compares two multiaddresses component by component.
    pub fn same_as(&self, other: &Multiaddr) -> (same: bool)
        ensures
            same == (self@ == other@),
    {
        let n = self.protocols.len();
        if n != other.protocols.len() {
            assert(self@.len() != other@.len());
            return false;
        }
        for i in 0..n
            invariant
                n == self.protocols@.len(),
                n == other.protocols@.len(),
                forall|j: int| 0 <= j < i ==> #[trigger] self@[j] == other@[j],
        {
            if !self.protocols[i].same_as(&other.protocols[i]) {
                assert(self@[i as int] != other@[i as int]);
                return false;
            }
        }
        assert(self@ =~= other@);
        true
    }
}

} // verus!
