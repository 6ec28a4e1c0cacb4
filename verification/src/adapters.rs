//! Turning the driver's adapters into network interfaces.
//!
//! Of each adapter bound to TCP/IP the driver gives a device name, a hardware
//! address and, through the IP helper, the unicast addresses with their
//! prefix lengths. An adapter whose interface index cannot be resolved is left
//! out of the interface list.
use vstd::prelude::*;

use crate::datalink::{IpAddress, IpPrefix, NetworkInterface};

verus! {

/// The number of bits in an address of `addr`'s family.
pub open spec fn address_bits(addr: IpAddress) -> nat {
    match addr {
        IpAddress::V4(_) => 32,
        IpAddress::V6(_) => 128,
    }
}

/// A prefix no longer than the address it belongs to.
pub open spec fn is_valid_network(p: IpPrefix) -> bool {
    p.prefix <= address_bits(p.addr)
}

/// The networks that an address list yields: those whose prefix fits their
/// address, in the order of the list.
pub open spec fn valid_networks(addresses: Seq<IpPrefix>) -> Seq<IpPrefix> {
    addresses.filter(|p: IpPrefix| is_valid_network(p))
}

/// `ipnetwork::IpNetwork::new(ip, prefix)` succeeds exactly when the prefix
/// is no longer than the address (32 bits for IPv4, 128 for IPv6); this says
/// whether it succeeds for `addr` and `prefix`.
#[verifier::external_body]
fn network_accepts(addr: &IpAddress, prefix: u8) -> (accepted: bool)
    ensures
        accepted == (prefix <= address_bits(*addr)),
{
    match addr {
        IpAddress::V4(octets) => ipnetwork::IpNetwork::new((*octets).into(), prefix).is_ok(),
        IpAddress::V6(octets) => ipnetwork::IpNetwork::new((*octets).into(), prefix).is_ok(),
    }
}

/// Keeps the addresses that form a valid IP network, in order.
pub fn networks_of(addresses: &Vec<IpPrefix>) -> (ips: Vec<IpPrefix>)
    ensures
        ips@ == valid_networks(addresses@),
{
    let ghost pred = |p: IpPrefix| is_valid_network(p);
    let mut ips: Vec<IpPrefix> = Vec::new();
    let mut i: usize = 0;
    proof {
        reveal(Seq::filter);
        assert(addresses@.take(0) =~= Seq::<IpPrefix>::empty());
    }
    while i < addresses.len()
        invariant
            i <= addresses.len(),
            pred == (|p: IpPrefix| is_valid_network(p)),
            ips@ == addresses@.take(i as int).filter(pred),
        decreases addresses.len() - i,
    {
        let p = addresses[i];
        proof {
            addresses@.take(i as int).lemma_filter_push(p, pred);
            assert(addresses@.take(i as int).push(p) =~= addresses@.take(i + 1));
        }
        let accepted = network_accepts(&p.addr, p.prefix);
        if accepted {
            ips.push(p);
        }
        i = i + 1;
    }
    assert(addresses@.take(addresses.len() as int) =~= addresses@);
    ips
}

/// What the driver and the IP helper tell of one adapter.
pub struct AdapterDetails {
    /// The adapter's device name (`\DEVICE\{GUID}`).
    pub name: String,
    /// The adapter's friendly name, where it has one.
    pub friendly_name: Option<String>,
    /// The adapter's MAC address, where its hardware address holds one.
    pub mac: Option<[u8; 6]>,
    /// The adapter's interface index, where it could be resolved.
    pub index: Option<u32>,
    /// The adapter's unicast addresses with their prefix lengths.
    pub addresses: Vec<IpPrefix>,
}

/// `interface` describes the adapter `d`: its device name, its friendly name
/// as description (the device name when it has none), its MAC address, its
/// interface index, its valid networks and no flags.
pub open spec fn describes(interface: NetworkInterface, d: AdapterDetails) -> bool {
    &&& interface.name@ == d.name@
    &&& interface.description@ == match d.friendly_name {
        Some(f) => f@,
        None => d.name@,
    }
    &&& d.index == Some(interface.index)
    &&& interface.mac == d.mac
    &&& interface.ips@ == valid_networks(d.addresses@)
    &&& interface.flags == 0
}

/// The adapters that become interfaces: those whose index is known, in order.
pub open spec fn indexed_adapters(adapters: Seq<AdapterDetails>) -> Seq<AdapterDetails> {
    adapters.filter(|d: AdapterDetails| d.index is Some)
}

/// The positions, in order, of the adapters whose index is known.
pub open spec fn indexed_positions(adapters: Seq<AdapterDetails>) -> Seq<int>
    decreases adapters.len(),
{
    if adapters.len() == 0 {
        Seq::empty()
    } else {
        let earlier = indexed_positions(adapters.drop_last());
        if adapters.last().index is Some {
            earlier.push(adapters.len() - 1)
        } else {
            earlier
        }
    }
}

proof fn lemma_indexed_positions(adapters: Seq<AdapterDetails>)
    ensures
        indexed_positions(adapters).len() == indexed_adapters(adapters).len(),
        forall|k: int|
            0 <= k < indexed_positions(adapters).len() ==> {
                &&& 0 <= #[trigger] indexed_positions(adapters)[k] < adapters.len()
                &&& adapters[indexed_positions(adapters)[k]].index is Some
                &&& indexed_adapters(adapters)[k] == adapters[indexed_positions(adapters)[k]]
            },
        forall|k1: int, k2: int|
            0 <= k1 < k2 < indexed_positions(adapters).len() ==> #[trigger] indexed_positions(
                adapters,
            )[k1] < #[trigger] indexed_positions(adapters)[k2],
        forall|j: int|
            0 <= j < adapters.len() && (#[trigger] adapters[j]).index is Some ==> exists|k: int|
                0 <= k < indexed_positions(adapters).len() && indexed_positions(adapters)[k] == j,
    decreases adapters.len(),
{
    let pred = |d: AdapterDetails| d.index is Some;
    if adapters.len() == 0 {
        reveal(Seq::filter);
    } else {
        let init = adapters.drop_last();
        let last = adapters.last();
        lemma_indexed_positions(init);
        init.lemma_filter_push(last, pred);
        assert(init.push(last) =~= adapters);
        let p = indexed_positions(adapters);
        let q = indexed_positions(init);
        assert forall|k: int| 0 <= k < q.len() implies adapters[q[k]] == init[q[k]] by {}
        assert forall|j: int|
            0 <= j < adapters.len() && (#[trigger] adapters[j]).index is Some implies exists|k: int|
            0 <= k < p.len() && p[k] == j by {
            if j < adapters.len() - 1 {
                assert(adapters[j] == init[j]);
                let k = choose|k: int| 0 <= k < q.len() && q[k] == j;
                assert(p[k] == j);
            } else {
                assert(p[p.len() - 1] == j);
            }
        }
    }
}

/// Every adapter whose interface index is known, the first and the last
/// included, is described by exactly one of the interfaces that `interfaces`
/// gives, in the adapters' order, and every interface describes such an
/// adapter: the interfaces correspond, one for one and in order, to the
/// adapters with a known index.
pub proof fn lemma_interfaces_cover_indexed_adapters(
    adapters: Seq<AdapterDetails>,
    found: Seq<NetworkInterface>,
)
    requires
        found.len() == indexed_adapters(adapters).len(),
        forall|k: int| 0 <= k < found.len() ==> describes(#[trigger] found[k], indexed_adapters(adapters)[k]),
    ensures
        exists|pos: Seq<int>|
            {
                &&& pos.len() == found.len()
                &&& forall|k: int|
                    0 <= k < pos.len() ==> {
                        &&& 0 <= #[trigger] pos[k] < adapters.len()
                        &&& adapters[pos[k]].index is Some
                        &&& describes(found[k], adapters[pos[k]])
                    }
                &&& forall|k1: int, k2: int|
                    0 <= k1 < k2 < pos.len() ==> #[trigger] pos[k1] < #[trigger] pos[k2]
                &&& forall|j: int|
                    0 <= j < adapters.len() && (#[trigger] adapters[j]).index is Some ==> exists|
                        k: int,
                    | 0 <= k < pos.len() && pos[k] == j
            },
{
    lemma_indexed_positions(adapters);
    let pos = indexed_positions(adapters);
    assert forall|k: int| 0 <= k < pos.len() implies {
        &&& 0 <= #[trigger] pos[k] < adapters.len()
        &&& adapters[pos[k]].index is Some
        &&& describes(found[k], adapters[pos[k]])
    } by {
        assert(describes(found[k], indexed_adapters(adapters)[k]));
    }
}

/// Describes an adapter as a network interface; an adapter whose interface
/// index is unknown is not described.
pub fn adapter_interface(d: &AdapterDetails) -> (interface: Option<NetworkInterface>)
    ensures
        d.index is None <==> interface is None,
        interface matches Some(i) ==> describes(i, *d),
{
    let index = match d.index {
        Some(index) => index,
        None => return None,
    };
    let description = match &d.friendly_name {
        Some(f) => f.clone(),
        None => d.name.clone(),
    };
    let ips = networks_of(&d.addresses);
    Some(NetworkInterface { name: d.name.clone(), description, index, mac: d.mac, ips, flags: 0 })
}

/// The network interfaces of the adapters bound to TCP/IP: one for each
/// adapter whose interface index is known, in the adapters' order.
pub fn interfaces(adapters: &Vec<AdapterDetails>) -> (found: Vec<NetworkInterface>)
    ensures
        found.len() == indexed_adapters(adapters@).len(),
        forall|k: int|
            0 <= k < found.len() ==> describes(#[trigger] found[k], indexed_adapters(adapters@)[k]),
        exists|pos: Seq<int>|
            {
                &&& pos.len() == found.len()
                &&& forall|k: int|
                    0 <= k < pos.len() ==> {
                        &&& 0 <= #[trigger] pos[k] < adapters.len()
                        &&& adapters[pos[k]].index is Some
                        &&& describes(found@[k], adapters@[pos[k]])
                    }
                &&& forall|k1: int, k2: int|
                    0 <= k1 < k2 < pos.len() ==> #[trigger] pos[k1] < #[trigger] pos[k2]
                &&& forall|j: int|
                    0 <= j < adapters.len() && (#[trigger] adapters@[j]).index is Some ==> exists|
                        k: int,
                    | 0 <= k < pos.len() && pos[k] == j
            },
{
    let ghost pred = |d: AdapterDetails| d.index is Some;
    let mut found: Vec<NetworkInterface> = Vec::new();
    let mut i: usize = 0;
    proof {
        reveal(Seq::filter);
        assert(adapters@.take(0) =~= Seq::<AdapterDetails>::empty());
    }
    while i < adapters.len()
        invariant
            i <= adapters.len(),
            pred == (|d: AdapterDetails| d.index is Some),
            found.len() == adapters@.take(i as int).filter(pred).len(),
            forall|k: int|
                0 <= k < found.len() ==> describes(
                    #[trigger] found[k],
                    adapters@.take(i as int).filter(pred)[k],
                ),
        decreases adapters.len() - i,
    {
        proof {
            adapters@.take(i as int).lemma_filter_push(adapters@[i as int], pred);
            assert(adapters@.take(i as int).push(adapters@[i as int]) =~= adapters@.take(i + 1));
        }
        match adapter_interface(&adapters[i]) {
            Some(interface) => {
                found.push(interface);
            },
            None => {},
        }
        i = i + 1;
    }
    assert(adapters@.take(adapters.len() as int) =~= adapters@);
    proof {
        lemma_interfaces_cover_indexed_adapters(adapters@, found@);
    }
    found
}

/// The first adapter, by position, whose device name is `wanted`.
pub fn find_adapter(names: &Vec<String>, wanted: &String) -> (found: Option<usize>)
    ensures
        match found {
            Some(i) => i < names.len() && names[i as int]@ == wanted@ && forall|j: int|
                0 <= j < i ==> names[j]@ != wanted@,
            None => forall|j: int| 0 <= j < names.len() ==> names[j]@ != wanted@,
        },
{
    let mut i: usize = 0;
    while i < names.len()
        invariant
            i <= names.len(),
            forall|j: int| 0 <= j < i ==> names[j]@ != wanted@,
        decreases names.len() - i,
    {
        if names[i] == *wanted {
            return Some(i);
        }
        i = i + 1;
    }
    None
}

} // verus!
