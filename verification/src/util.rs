//! Reading peer identities and IP addresses out of multiaddresses.

use vstd::prelude::*;

use libp2p::PeerId;

use crate::address::{IpAddr, Multiaddr, Protocol, ProtocolView};

verus! {

// ---------------------------------------------------------------------------
// IP address ranges, as the standard library documents them
// ---------------------------------------------------------------------------

/// `Ipv4Addr::is_private`: 10.0.0.0/8, 172.16.0.0/12, 192.168.0.0/16.
pub open spec fn ipv4_is_private(a: u32) -> bool {
    a / 0x100_0000 == 10 || a / 0x10_0000 == 0xac1 || a / 0x1_0000 == 0xc0a8
}

/// `Ipv4Addr::is_loopback`: 127.0.0.0/8.
pub open spec fn ipv4_is_loopback(a: u32) -> bool {
    a / 0x100_0000 == 127
}

/// `Ipv4Addr::is_link_local`: 169.254.0.0/16.
pub open spec fn ipv4_is_link_local(a: u32) -> bool {
    a / 0x1_0000 == 0xa9fe
}

/// `Ipv4Addr::is_unspecified`: 0.0.0.0.
pub open spec fn ipv4_is_unspecified(a: u32) -> bool {
    a == 0
}

/// `Ipv6Addr::is_loopback`: `::1`.
pub open spec fn ipv6_is_loopback(a: u128) -> bool {
    a == 1
}

/// `Ipv6Addr::is_unspecified`: `::`.
pub open spec fn ipv6_is_unspecified(a: u128) -> bool {
    a == 0
}

/// Unique local addresses, fc00::/7.
pub open spec fn ipv6_is_unique_local(a: u128) -> bool {
    a >> 121u128 == 0x7e
}

/// Link-local unicast addresses, fe80::/10.
pub open spec fn ipv6_is_unicast_link_local(a: u128) -> bool {
    a >> 118u128 == 0x3fa
}

/// An IPv4 address that the peer does not announce or dial.
pub open spec fn ipv4_is_non_public(a: u32) -> bool {
    ipv4_is_private(a) || ipv4_is_loopback(a) || ipv4_is_link_local(a) || ipv4_is_unspecified(a)
}

/// An IPv6 address that the peer does not announce or dial.
pub open spec fn ipv6_is_non_public(a: u128) -> bool {
    ipv6_is_loopback(a) || ipv6_is_unspecified(a) || ipv6_is_unique_local(a)
        || ipv6_is_unicast_link_local(a)
}

// ---------------------------------------------------------------------------
// Components of a multiaddress
// ---------------------------------------------------------------------------

pub open spec fn is_ip(p: ProtocolView) -> bool {
    p is Ip4 || p is Ip6
}

pub open spec fn is_peer(p: ProtocolView) -> bool {
    p is P2p
}

/// A component that is an IP address outside the public ranges.
pub open spec fn ip_is_non_public(p: ProtocolView) -> bool {
    match p {
        ProtocolView::Ip4(a) => ipv4_is_non_public(a),
        ProtocolView::Ip6(a) => ipv6_is_non_public(a),
        _ => false,
    }
}

/// The component that stands for an IP address.
pub open spec fn ip_component(ip: IpAddr) -> ProtocolView {
    match ip {
        IpAddr::V4(a) => ProtocolView::Ip4(a),
        IpAddr::V6(a) => ProtocolView::Ip6(a),
    }
}

pub open spec fn has_ip(s: Seq<ProtocolView>) -> bool {
    exists|i: int| 0 <= i < s.len() && is_ip(#[trigger] s[i])
}

pub open spec fn has_peer(s: Seq<ProtocolView>) -> bool {
    exists|i: int| 0 <= i < s.len() && is_peer(#[trigger] s[i])
}

/// `s[i]` is the first IP component of `s`.
pub open spec fn first_ip_at(s: Seq<ProtocolView>, i: int) -> bool {
    &&& 0 <= i < s.len()
    &&& is_ip(s[i])
    &&& forall|j: int| 0 <= j < i ==> !is_ip(#[trigger] s[j])
}

/// `s[i]` is the first peer component of `s`.
pub open spec fn first_peer_at(s: Seq<ProtocolView>, i: int) -> bool {
    &&& 0 <= i < s.len()
    &&& is_peer(s[i])
    &&& forall|j: int| 0 <= j < i ==> !is_peer(#[trigger] s[j])
}

/// `s` contains an IP component that lies outside the public ranges.
pub open spec fn address_is_private(s: Seq<ProtocolView>) -> bool {
    exists|i: int| 0 <= i < s.len() && ip_is_non_public(#[trigger] s[i])
}

/// `s` holds at most one IP component.
pub open spec fn at_most_one_ip(s: Seq<ProtocolView>) -> bool {
    forall|i: int, j: int| 0 <= i < s.len() && 0 <= j < s.len() && is_ip(#[trigger] s[i]) && is_ip(#[trigger] s[j]) ==> i == j
}

/// `a` is the multiaddress made of the first IP component of `s` alone.
pub open spec fn extracts_ip(s: Seq<ProtocolView>, a: Seq<ProtocolView>) -> bool {
    exists|i: int| #[trigger] first_ip_at(s, i) && a == seq![s[i]]
}

/// `s` is `base`, then the component of peer `id`, then anything; `base` holds no peer.
pub open spec fn splits_at_peer(s: Seq<ProtocolView>, base: Seq<ProtocolView>, id: PeerId) -> bool {
    exists|i: int| #[trigger] first_peer_at(s, i) && s[i] == ProtocolView::P2p(id) && base == s.take(i)
}

/// The base and peer that split `s`, where `s` holds a peer.
pub open spec fn peer_split(s: Seq<ProtocolView>) -> Option<(Seq<ProtocolView>, PeerId)> {
    if has_peer(s) {
        Some(choose|split: (Seq<ProtocolView>, PeerId)| splits_at_peer(s, split.0, split.1))
    } else {
        None
    }
}

// ---------------------------------------------------------------------------
// The functions
// ---------------------------------------------------------------------------

/// Tells whether an IP component lies outside the public ranges; any other
/// component does not.
pub fn ip_protocol_is_private(p: &Protocol) -> (private: bool)
    ensures
        private == ip_is_non_public(p@),
{
    match p {
        Protocol::Ip4(a) => {
            let a = *a;
            a / 0x100_0000 == 10 || a / 0x10_0000 == 0xac1 || a / 0x1_0000 == 0xc0a8
                || a / 0x100_0000 == 127 || a / 0x1_0000 == 0xa9fe || a == 0
        },
        Protocol::Ip6(a) => {
            let a = *a;
            a == 1 || a == 0 || a >> 121u128 == 0x7e || a >> 118u128 == 0x3fa
        },
        _ => false,
    }
}

/// Splits the peer identity off a multiaddress: the components before the first
/// `/p2p` component, and the peer of that component.
pub fn split_peer_id(multiaddr: Multiaddr) -> (split: Option<(Multiaddr, PeerId)>)
    ensures
        match split {
            Some((base, id)) => splits_at_peer(multiaddr@, base@, id),
            None => !has_peer(multiaddr@),
        },
{
    let mut base = Multiaddr::empty();
    let n = multiaddr.protocols.len();
    for i in 0..n
        invariant
            n == multiaddr@.len(),
            base@ == multiaddr@.take(i as int),
            forall|j: int| 0 <= j < i ==> !is_peer(#[trigger] multiaddr@[j]),
    {
        match &multiaddr.protocols[i] {
            Protocol::P2p(id) => {
                assert(first_peer_at(multiaddr@, i as int));
                return Some((base, *id));
            },
            other => {
                base.push(other.clone());
                assert(base@ =~= multiaddr@.take(i + 1));
            },
        }
    }
    None
}

/// The first IP component of a multiaddress, as a multiaddress of its own.
pub fn extract_ip_multiaddr(multiaddr: &Multiaddr) -> (ip: Option<Multiaddr>)
    ensures
        match ip {
            Some(a) => extracts_ip(multiaddr@, a@),
            None => !has_ip(multiaddr@),
        },
{
    let n = multiaddr.protocols.len();
    for i in 0..n
        invariant
            n == multiaddr@.len(),
            forall|j: int| 0 <= j < i ==> !is_ip(#[trigger] multiaddr@[j]),
    {
        match &multiaddr.protocols[i] {
            Protocol::Ip4(a) => {
                let result = Multiaddr::empty().with(Protocol::Ip4(*a));
                assert(first_ip_at(multiaddr@, i as int));
                assert(result@ =~= seq![multiaddr@[i as int]]);
                return Some(result);
            },
            Protocol::Ip6(a) => {
                let result = Multiaddr::empty().with(Protocol::Ip6(*a));
                assert(first_ip_at(multiaddr@, i as int));
                assert(result@ =~= seq![multiaddr@[i as int]]);
                return Some(result);
            },
            _ => {},
        }
    }
    None
}

/// Tells whether a multiaddress contains a private IP address: an IPv4 address
/// that is private, loopback, link-local or unspecified, or an IPv6 address that
/// is loopback, unspecified, unique local or link-local. A multiaddress without
/// IP component is not private.
pub fn is_private_ip(multiaddr: &Multiaddr) -> (private: bool)
    ensures
        private == address_is_private(multiaddr@),
{
    let n = multiaddr.protocols.len();
    for i in 0..n
        invariant
            n == multiaddr@.len(),
            forall|j: int| 0 <= j < i ==> !ip_is_non_public(#[trigger] multiaddr@[j]),
    {
        if ip_protocol_is_private(&multiaddr.protocols[i]) {
            assert(ip_is_non_public(multiaddr@[i as int]));
            return true;
        }
    }
    false
}

/// The multiaddress made of one IP component.
pub fn ipaddr_to_multiaddr(ip: &IpAddr) -> (multiaddr: Multiaddr)
    ensures
        multiaddr@ == seq![ip_component(*ip)],
{
    let multiaddr = match ip {
        IpAddr::V4(a) => Multiaddr::empty().with(Protocol::Ip4(*a)),
        IpAddr::V6(a) => Multiaddr::empty().with(Protocol::Ip6(*a)),
    };
    assert(multiaddr@ =~= seq![ip_component(*ip)]);
    multiaddr
}

// ---------------------------------------------------------------------------
// Laws
// ---------------------------------------------------------------------------

/// A multiaddress has at most one first IP component.
pub proof fn lemma_first_ip_unique(s: Seq<ProtocolView>, i: int, j: int)
    requires
        first_ip_at(s, i),
        first_ip_at(s, j),
    ensures
        i == j,
{
    if i < j {
        assert(!is_ip(s[i]));
    } else if j < i {
        assert(!is_ip(s[j]));
    }
}

/// A multiaddress has at most one first peer component.
pub proof fn lemma_first_peer_unique(s: Seq<ProtocolView>, i: int, j: int)
    requires
        first_peer_at(s, i),
        first_peer_at(s, j),
    ensures
        i == j,
{
    if i < j {
        assert(!is_peer(s[i]));
    } else if j < i {
        assert(!is_peer(s[j]));
    }
}

/// `peer_split` is what `split_peer_id` returns: the split where there is one.
pub proof fn lemma_peer_split(s: Seq<ProtocolView>, base: Seq<ProtocolView>, id: PeerId)
    requires
        splits_at_peer(s, base, id),
    ensures
        peer_split(s) == Some((base, id)),
{
    let i = choose|i: int| #[trigger] first_peer_at(s, i) && s[i] == ProtocolView::P2p(id) && base == s.take(i);
    assert(is_peer(s[i]));
    assert(has_peer(s));
    let split = choose|split: (Seq<ProtocolView>, PeerId)| splits_at_peer(s, split.0, split.1);
    assert(splits_at_peer(s, (base, id).0, (base, id).1));
    lemma_split_unique(s, split.0, split.1, base, id);
}

/// What `extract_ip_multiaddr` takes out of a multiaddress is private only where
/// the multiaddress is, and, where the multiaddress holds at most one IP
/// component, exactly where it is. A multiaddress without IP component is not
/// private.
pub proof fn lemma_private_is_private_of_extracted(s: Seq<ProtocolView>, a: Seq<ProtocolView>)
    ensures
        extracts_ip(s, a) ==> (address_is_private(a) ==> address_is_private(s)),
        extracts_ip(s, a) && at_most_one_ip(s) ==> (address_is_private(s) == address_is_private(a)),
        !has_ip(s) ==> !address_is_private(s),
{
    if extracts_ip(s, a) {
        let i = choose|i: int| #[trigger] first_ip_at(s, i) && a == seq![s[i]];
        if address_is_private(a) {
            let k = choose|k: int| 0 <= k < a.len() && ip_is_non_public(#[trigger] a[k]);
            assert(k == 0);
            assert(ip_is_non_public(s[i]));
        }
        if at_most_one_ip(s) && address_is_private(s) {
            let k = choose|k: int| 0 <= k < s.len() && ip_is_non_public(#[trigger] s[k]);
            assert(is_ip(s[k]));
            assert(is_ip(s[i]));
            assert(k == i);
            assert(ip_is_non_public(a[0]));
        }
    }
    if !has_ip(s) && address_is_private(s) {
        let k = choose|k: int| 0 <= k < s.len() && ip_is_non_public(#[trigger] s[k]);
        assert(is_ip(s[k]));
    }
}

/// The multiaddress of an IP address is its own IP part, holds no peer, and is
/// private exactly when the address is.
pub proof fn lemma_ip_multiaddr(ip: IpAddr)
    ensures
        extracts_ip(seq![ip_component(ip)], seq![ip_component(ip)]),
        !has_peer(seq![ip_component(ip)]),
        address_is_private(seq![ip_component(ip)]) == ip_is_non_public(ip_component(ip)),
{
    let s = seq![ip_component(ip)];
    assert(first_ip_at(s, 0));
    if ip_is_non_public(s[0]) {
        assert(address_is_private(s));
    }
}

/// `split_peer_id` pins down its result: at most one base and one peer split a
/// multiaddress.
pub proof fn lemma_split_unique(
    s: Seq<ProtocolView>,
    base1: Seq<ProtocolView>,
    id1: PeerId,
    base2: Seq<ProtocolView>,
    id2: PeerId,
)
    requires
        splits_at_peer(s, base1, id1),
        splits_at_peer(s, base2, id2),
    ensures
        base1 == base2,
        id1 == id2,
{
    let i = choose|i: int| #[trigger] first_peer_at(s, i) && s[i] == ProtocolView::P2p(id1) && base1 == s.take(i);
    let j = choose|j: int| #[trigger] first_peer_at(s, j) && s[j] == ProtocolView::P2p(id2) && base2 == s.take(j);
    lemma_first_peer_unique(s, i, j);
}

/// Appending a peer, and anything after it, to a multiaddress without peer is
/// undone by `split_peer_id`.
pub proof fn lemma_split_after_append(base: Seq<ProtocolView>, id: PeerId, rest: Seq<ProtocolView>)
    requires
        !has_peer(base),
    ensures
        splits_at_peer(base.push(ProtocolView::P2p(id)) + rest, base, id),
{
    let s = base.push(ProtocolView::P2p(id)) + rest;
    let i = base.len() as int;
    assert forall|j: int| 0 <= j < i implies !is_peer(#[trigger] s[j]) by {
        assert(s[j] == base[j]);
    }
    assert(first_peer_at(s, i));
    assert(s.take(i) =~= base);
}

/// What `split_peer_id` splits off is followed, in the multiaddress, by the
/// peer's component: base plus that component is a prefix of the input.
pub proof fn lemma_split_is_prefix(s: Seq<ProtocolView>, base: Seq<ProtocolView>, id: PeerId)
    requires
        splits_at_peer(s, base, id),
    ensures
        !has_peer(base),
        base.len() < s.len(),
        s.take(base.len() as int + 1) == base.push(ProtocolView::P2p(id)),
{
    let i = choose|i: int| #[trigger] first_peer_at(s, i) && s[i] == ProtocolView::P2p(id) && base == s.take(i);
    if has_peer(base) {
        let k = choose|k: int| 0 <= k < base.len() && is_peer(#[trigger] base[k]);
        assert(base[k] == s[k]);
    }
    assert(s.take(base.len() as int + 1) =~= base.push(ProtocolView::P2p(id)));
}

/// The IPv4 address `a.b.c.d`.
pub open spec fn ipv4_of(a: u8, b: u8, c: u8, d: u8) -> u32 {
    ((a as u32) << 24u32) | ((b as u32) << 16u32) | ((c as u32) << 8u32) | (d as u32)
}

/// An IPv4 address `a.b.c.d` is private, loopback, link-local or unspecified
/// exactly when it lies in 10.0.0.0/8, 172.16.0.0/12, 192.168.0.0/16,
/// 127.0.0.0/8, 169.254.0.0/16 or is 0.0.0.0.
pub proof fn lemma_ipv4_non_public_ranges(a: u8, b: u8, c: u8, d: u8)
    ensures
        ip_is_non_public(ProtocolView::Ip4(ipv4_of(a, b, c, d))) <==> (a == 10 || (a == 172 && 16 <= b <= 31)
            || (a == 192 && b == 168) || a == 127 || (a == 169 && b == 254) || (a == 0 && b == 0 && c == 0
            && d == 0)),
{
    let x = ipv4_of(a, b, c, d);
    assert(x / 0x100_0000 == a as u32) by (bit_vector)
        requires
            x == ((a as u32) << 24u32) | ((b as u32) << 16u32) | ((c as u32) << 8u32) | (d as u32),
    ;
    assert(x / 0x1_0000 == (a as u32) * 256 + (b as u32)) by (bit_vector)
        requires
            x == ((a as u32) << 24u32) | ((b as u32) << 16u32) | ((c as u32) << 8u32) | (d as u32),
    ;
    assert(x / 0x10_0000 == (a as u32) * 16 + (b as u32) / 16) by (bit_vector)
        requires
            x == ((a as u32) << 24u32) | ((b as u32) << 16u32) | ((c as u32) << 8u32) | (d as u32),
    ;
    assert((x == 0) == (a == 0 && b == 0 && c == 0 && d == 0)) by (bit_vector)
        requires
            x == ((a as u32) << 24u32) | ((b as u32) << 16u32) | ((c as u32) << 8u32) | (d as u32),
    ;
}

/// An IPv6 address is loopback, unspecified, unique local or link-local exactly
/// when it is `::1` or `::`, or its first segment lies in fc00-fdff (fc00::/7) or
/// in fe80-febf (fe80::/10).
pub proof fn lemma_ipv6_non_public_ranges(a: u128)
    ensures
        ip_is_non_public(ProtocolView::Ip6(a)) <==> (a == 0 || a == 1 || (0xfc00 <= (a >> 112u128) <= 0xfdff)
            || (0xfe80 <= (a >> 112u128) <= 0xfebf)),
{
    assert((a >> 121u128 == 0x7e) == (0xfc00 <= (a >> 112u128) && (a >> 112u128) <= 0xfdff)) by (bit_vector);
    assert((a >> 118u128 == 0x3fa) == (0xfe80 <= (a >> 112u128) && (a >> 112u128) <= 0xfebf)) by (bit_vector);
}

} // verus!
