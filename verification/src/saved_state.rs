//! The file of the saved routing table: a JSON list of `[peer, [address, ...]]`
//! pairs, each peer as its base58 text and each address as its multiaddress text.

use vstd::prelude::*;

use libp2p::PeerId;

use crate::address::{multiaddr_from_text, multiaddr_text, parse_multiaddr, Multiaddr, ProtocolView};
use crate::peer::{addresses_view, state_view, KademliaState};

verus! {

/// The (peer, address texts) pairs of a routing-table file: the JSON text parsed
/// with `serde_json::from_str` as `Vec<(PeerId, Vec<libp2p::Multiaddr>)>`, each
/// address then written as text; `None` where the JSON does not parse so.
pub uninterp spec fn state_texts_from_json(json: Seq<char>) -> Option<Seq<(PeerId, Seq<Seq<char>>)>>;

/// The routing-table file of (peer, address texts) pairs: `serde_json::to_string_pretty`.
pub uninterp spec fn state_texts_json(texts: Seq<(PeerId, Seq<Seq<char>>)>) -> Seq<char>;

/// The view of (peer, texts) pairs.
pub open spec fn texts_view(texts: Seq<(PeerId, Vec<String>)>) -> Seq<(PeerId, Seq<Seq<char>>)> {
    texts.map_values(|e: (PeerId, Vec<String>)| (e.0, e.1@.map_values(|t: String| t@)))
}

/// A multiaddress text that libp2p reads and writes back unchanged.
pub open spec fn text_reads_back(text: Seq<char>) -> bool {
    multiaddr_from_text(text) matches Some(m) && multiaddr_text(m) == text
}

/// Parses a routing-table file with serde_json (peers and multiaddresses by
/// libp2p's serde impls) and writes each address back as text.
#[verifier::external_body]
fn decode_state_json(json: &str) -> (texts: Option<Vec<(PeerId, Vec<String>)>>)
    ensures
        match texts {
            Some(t) => state_texts_from_json(json@) == Some(texts_view(t@)),
            None => state_texts_from_json(json@) is None,
        },
{
    let wire: Vec<(PeerId, Vec<libp2p::Multiaddr>)> = serde_json::from_str(json).ok()?;
    Some(wire.iter().map(|(peer, addrs)| (*peer, addrs.iter().map(|a| a.to_string()).collect())).collect())
}

/// Writes (peer, address texts) pairs as a routing-table file with
/// `serde_json::to_string_pretty`. Writing strings and peers (whose serde impl
/// writes its base58 text) does not fail. Read back with `decode_state_json`, the
/// file gives the same pairs, where each text is one that libp2p reads and writes
/// back unchanged (a peer's base58 text reads back as the same peer).
#[verifier::external_body]
fn encode_state_json(texts: &Vec<(PeerId, Vec<String>)>) -> (json: Option<String>)
    ensures
        json is Some,
        json matches Some(j) ==> j@ == state_texts_json(texts_view(texts@)),
        json matches Some(j) ==> (forall|i: int, k: int|
            0 <= i < texts_view(texts@).len() && 0 <= k < texts_view(texts@)[i].1.len() ==> text_reads_back(
                #[trigger] texts_view(texts@)[i].1[k],
            )) ==> state_texts_from_json(j@) == Some(texts_view(texts@)),
{
    serde_json::to_string_pretty(texts).ok()
}

/// The multiaddresses that a list of texts reads as, or `None` where one does not read.
pub open spec fn addresses_from_texts(texts: Seq<Seq<char>>) -> Option<Seq<Seq<ProtocolView>>>
    decreases texts.len(),
{
    if texts.len() == 0 {
        Some(Seq::empty())
    } else {
        match (addresses_from_texts(texts.drop_last()), multiaddr_from_text(texts.last())) {
            (Some(before), Some(m)) => Some(before.push(m)),
            _ => None,
        }
    }
}

/// The routing table that (peer, address texts) pairs read as, or `None` where an
/// address does not read.
pub open spec fn state_from_texts(texts: Seq<(PeerId, Seq<Seq<char>>)>) -> Option<Seq<(PeerId, Seq<Seq<ProtocolView>>)>>
    decreases texts.len(),
{
    if texts.len() == 0 {
        Some(Seq::empty())
    } else {
        match (state_from_texts(texts.drop_last()), addresses_from_texts(texts.last().1)) {
            (Some(before), Some(addresses)) => Some(before.push((texts.last().0, addresses))),
            _ => None,
        }
    }
}

/// The routing table a routing-table file holds, or `None` where the file does not
/// hold one.
pub open spec fn state_from_json(json: Seq<char>) -> Option<Seq<(PeerId, Seq<Seq<ProtocolView>>)>> {
    match state_texts_from_json(json) {
        Some(texts) => state_from_texts(texts),
        None => None,
    }
}

/// The (peer, address texts) pairs of a routing table.
pub open spec fn state_texts(state: Seq<(PeerId, Seq<Seq<ProtocolView>>)>) -> Seq<(PeerId, Seq<Seq<char>>)> {
    state.map_values(
        |e: (PeerId, Seq<Seq<ProtocolView>>)| (e.0, e.1.map_values(|a: Seq<ProtocolView>| multiaddr_text(a))),
    )
}

/// The view of an optional routing table.
pub open spec fn option_state_view(state: Option<KademliaState>) -> Option<Seq<(PeerId, Seq<Seq<ProtocolView>>)>> {
    match state {
        Some(s) => Some(state_view(s@)),
        None => None,
    }
}

/// Each address of a routing table reads back from its text.
pub open spec fn addresses_read_back(state: Seq<(PeerId, Seq<Seq<ProtocolView>>)>) -> bool {
    forall|i: int, k: int|
        0 <= i < state.len() && 0 <= k < state[i].1.len() ==> multiaddr_from_text(multiaddr_text(#[trigger] state[i].1[k]))
            == Some(state[i].1[k])
}

/// The multiaddresses that a list of texts reads as.
fn addresses_from_text_list(texts: &Vec<String>) -> (addresses: Option<Vec<Multiaddr>>)
    ensures
        match addresses {
            Some(a) => addresses_from_texts(texts@.map_values(|t: String| t@)) == Some(addresses_view(a@)),
            None => addresses_from_texts(texts@.map_values(|t: String| t@)) is None,
        },
{
    let ghost tv = texts@.map_values(|t: String| t@);
    let mut addresses: Vec<Multiaddr> = Vec::new();
    let n = texts.len();
    for i in 0..n
        invariant
            n == texts@.len(),
            tv == texts@.map_values(|t: String| t@),
            addresses_from_texts(tv.take(i as int)) == Some(addresses_view(addresses@)),
    {
        assert(tv.take(i + 1).drop_last() =~= tv.take(i as int));
        assert(tv.take(i + 1).last() == texts@[i as int]@);
        match parse_multiaddr(texts[i].as_str()) {
            Some(m) => {
                let ghost before = addresses@;
                let ghost mv = m@;
                addresses.push(m);
                assert(addresses_view(addresses@) =~= addresses_view(before).push(mv));
            },
            None => {
                proof {
                    lemma_addresses_prefix_none(tv, i as int + 1);
                }
                return None;
            },
        }
    }
    assert(tv.take(n as int) =~= tv);
    Some(addresses)
}

/// Once a prefix does not read, no longer prefix reads.
proof fn lemma_addresses_prefix_none(texts: Seq<Seq<char>>, k: int)
    requires
        0 <= k <= texts.len(),
        addresses_from_texts(texts.take(k)) is None,
    ensures
        addresses_from_texts(texts) is None,
    decreases texts.len() - k,
{
    if k < texts.len() {
        assert(texts.take(k + 1).drop_last() =~= texts.take(k));
        lemma_addresses_prefix_none(texts, k + 1);
    } else {
        assert(texts.take(k) =~= texts);
    }
}

/// Once a prefix does not read, no longer prefix reads.
proof fn lemma_state_prefix_none(texts: Seq<(PeerId, Seq<Seq<char>>)>, k: int)
    requires
        0 <= k <= texts.len(),
        state_from_texts(texts.take(k)) is None,
    ensures
        state_from_texts(texts) is None,
    decreases texts.len() - k,
{
    if k < texts.len() {
        assert(texts.take(k + 1).drop_last() =~= texts.take(k));
        lemma_state_prefix_none(texts, k + 1);
    } else {
        assert(texts.take(k) =~= texts);
    }
}

/// The routing table a routing-table file holds; `None` where the file is not
/// such JSON or an address in it does not read.
pub fn kademlia_state_from_json(json: &str) -> (state: Option<KademliaState>)
    ensures
        option_state_view(state) == state_from_json(json@),
{
    let texts = match decode_state_json(json) {
        Some(t) => t,
        None => return None,
    };
    let ghost tv = texts_view(texts@);
    let mut state: KademliaState = Vec::new();
    let n = texts.len();
    for i in 0..n
        invariant
            n == texts@.len(),
            tv == texts_view(texts@),
            state_texts_from_json(json@) == Some(tv),
            state_from_texts(tv.take(i as int)) == Some(state_view(state@)),
    {
        assert(tv.take(i + 1).drop_last() =~= tv.take(i as int));
        assert(tv.take(i + 1).last() == tv[i as int]);
        let peer = texts[i].0;
        assert(tv[i as int].1 == texts@[i as int].1@.map_values(|t: String| t@));
        match addresses_from_text_list(&texts[i].1) {
            Some(addresses) => {
                let ghost before = state@;
                let ghost av = addresses_view(addresses@);
                state.push((peer, addresses));
                assert(state_view(state@) =~= state_view(before).push((peer, av)));
            },
            None => {
                proof {
                    lemma_state_prefix_none(tv, i as int + 1);
                }
                return None;
            },
        }
    }
    assert(tv.take(n as int) =~= tv);
    Some(state)
}

/// Texts that all read back read as the multiaddresses they were written from.
proof fn lemma_addresses_read_back(addresses: Seq<Seq<ProtocolView>>)
    requires
        forall|k: int| 0 <= k < addresses.len() ==> multiaddr_from_text(multiaddr_text(#[trigger] addresses[k]))
            == Some(addresses[k]),
    ensures
        addresses_from_texts(addresses.map_values(|a: Seq<ProtocolView>| multiaddr_text(a))) == Some(addresses),
    decreases addresses.len(),
{
    let texts = addresses.map_values(|a: Seq<ProtocolView>| multiaddr_text(a));
    if addresses.len() > 0 {
        let rest = addresses.drop_last();
        assert(texts.drop_last() =~= rest.map_values(|a: Seq<ProtocolView>| multiaddr_text(a)));
        assert forall|k: int| 0 <= k < rest.len() implies multiaddr_from_text(multiaddr_text(#[trigger] rest[k]))
            == Some(rest[k]) by {
            assert(rest[k] == addresses[k]);
        }
        lemma_addresses_read_back(rest);
        assert(multiaddr_from_text(texts.last()) == Some(addresses.last()));
        assert(rest.push(addresses.last()) =~= addresses);
    } else {
        assert(texts =~= Seq::<Seq<char>>::empty());
        assert(addresses =~= Seq::<Seq<ProtocolView>>::empty());
    }
}

/// A routing table whose addresses read back from their texts reads back from
/// its (peer, texts) pairs.
proof fn lemma_state_read_back(state: Seq<(PeerId, Seq<Seq<ProtocolView>>)>)
    requires
        addresses_read_back(state),
    ensures
        state_from_texts(state_texts(state)) == Some(state),
    decreases state.len(),
{
    let texts = state_texts(state);
    if state.len() > 0 {
        let rest = state.drop_last();
        assert(texts.drop_last() =~= state_texts(rest));
        assert forall|i: int, k: int| 0 <= i < rest.len() && 0 <= k < rest[i].1.len() implies multiaddr_from_text(
            multiaddr_text(#[trigger] rest[i].1[k]),
        ) == Some(rest[i].1[k]) by {
            assert(rest[i] == state[i]);
        }
        lemma_state_read_back(rest);
        let last = state.last();
        assert forall|k: int| 0 <= k < last.1.len() implies multiaddr_from_text(multiaddr_text(#[trigger] last.1[k]))
            == Some(last.1[k]) by {
            assert(state[state.len() - 1].1[k] == last.1[k]);
        }
        lemma_addresses_read_back(last.1);
        assert(texts.last() == (last.0, last.1.map_values(|a: Seq<ProtocolView>| multiaddr_text(a))));
        assert(rest.push(last) =~= state);
    } else {
        assert(texts =~= Seq::<(PeerId, Seq<Seq<char>>)>::empty());
        assert(state =~= Seq::<(PeerId, Seq<Seq<ProtocolView>>)>::empty());
    }
}

/// The routing-table file of a routing table. It reads back as the same routing
/// table, wherever each address reads back from its text: the table saved is the
/// table loaded on the next start.
pub fn kademlia_state_to_json(state: &KademliaState) -> (json: String)
    ensures
        json@ == state_texts_json(state_texts(state_view(state@))),
        addresses_read_back(state_view(state@)) ==> state_from_json(json@) == Some(state_view(state@)),
{
    let ghost sv = state_view(state@);
    let mut texts: Vec<(PeerId, Vec<String>)> = Vec::new();
    let n = state.len();
    for i in 0..n
        invariant
            n == state@.len(),
            sv == state_view(state@),
            texts_view(texts@) == state_texts(sv.take(i as int)),
    {
        let addresses = &state[i].1;
        let mut list: Vec<String> = Vec::new();
        let m = addresses.len();
        for k in 0..m
            invariant
                m == addresses@.len(),
                list@.map_values(|t: String| t@) == addresses_view(addresses@).take(k as int).map_values(
                    |a: Seq<ProtocolView>| multiaddr_text(a),
                ),
        {
            let ghost before = list@;
            let text = addresses[k].to_text();
            let ghost tv = text@;
            list.push(text);
            assert(list@.map_values(|t: String| t@) =~= before.map_values(|t: String| t@).push(tv));
            assert(addresses_view(addresses@).take(k + 1) =~= addresses_view(addresses@).take(k as int).push(
                addresses@[k as int]@,
            ));
            assert(addresses_view(addresses@).take(k + 1).map_values(|a: Seq<ProtocolView>| multiaddr_text(a))
                =~= addresses_view(addresses@).take(k as int).map_values(
                |a: Seq<ProtocolView>| multiaddr_text(a),
            ).push(multiaddr_text(addresses@[k as int]@)));
        }
        assert(addresses_view(addresses@).take(m as int) =~= addresses_view(addresses@));
        let ghost before = texts@;
        let ghost entry = (state[i as int].0, list@.map_values(|t: String| t@));
        texts.push((state[i].0, list));
        assert(texts_view(texts@) =~= texts_view(before).push(entry));
        assert(sv.take(i + 1) =~= sv.take(i as int).push(sv[i as int]));
        assert(state_texts(sv.take(i + 1)) =~= state_texts(sv.take(i as int)).push(
            (sv[i as int].0, sv[i as int].1.map_values(|a: Seq<ProtocolView>| multiaddr_text(a))),
        ));
    }
    assert(sv.take(n as int) =~= sv);
    let json = encode_state_json(&texts).unwrap();
    proof {
        if addresses_read_back(sv) {
            let tv = texts_view(texts@);
            assert forall|i: int, k: int| 0 <= i < tv.len() && 0 <= k < tv[i].1.len() implies text_reads_back(
                #[trigger] tv[i].1[k],
            ) by {
                assert(tv[i].1[k] == multiaddr_text(sv[i].1[k]));
                assert(multiaddr_from_text(multiaddr_text(sv[i].1[k])) == Some(sv[i].1[k]));
            }
            lemma_state_read_back(sv);
        }
    }
    json
}

} // verus!
