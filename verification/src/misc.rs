//! Which addresses are let in, and how long logs are kept.

use ipnet::Ipv4Net;
use vstd::arithmetic::power2::pow2;
use vstd::prelude::*;

verus! {

/// An IPv4 address as a number, and how many of its leading bits name a network.
#[derive(Debug, Clone, Copy, PartialEq, Eq, Structural)]
pub struct Net {
    pub addr: u32,
    pub prefix: u8,
}

/// The address that a text stands for.
pub uninterp spec fn address_of(text: Seq<char>) -> Option<u32>;

/// The network that a text stands for.
pub uninterp spec fn network_of(text: Seq<char>) -> Option<Net>;

/// `Ipv4Addr::from_str`, through `Ipv4Net::new`: the address that a text stands
/// for, if it is one.
#[verifier::external_body]
pub(crate) fn parse_address(text: &str) -> (r: Option<u32>)
    ensures
        r == address_of(text@),
{
    let host = Ipv4Net::new(text.parse().ok()?, 32).ok()?;
    Some(host.addr().into())
}

/// `Ipv4Net::from_str`: the network that a text stands for, if it is one. A
/// network has at most 32 leading bits.
#[verifier::external_body]
fn parse_network(text: &str) -> (r: Option<Net>)
    ensures
        r == network_of(text@),
        r matches Some(net) ==> net.prefix <= 32,
{
    let net: Ipv4Net = text.parse().ok()?;
    Some(Net { addr: net.addr().into(), prefix: net.prefix_len() })
}

/// Whether an address has the leading bits of a network.
pub open spec fn in_network(net: Net, addr: u32) -> bool {
    addr as int / pow2((32 - net.prefix) as nat) as int == net.addr as int / pow2(
        (32 - net.prefix) as nat,
    ) as int
}

/// `Ipv4Net::contains`: whether the address has the leading bits of the network.
#[verifier::external_body]
fn net_contains(net: &Net, addr: u32) -> (r: bool)
    requires
        net.prefix <= 32,
    ensures
        r == in_network(*net, addr),
{
    let network = Ipv4Net::new(net.addr.into(), net.prefix).unwrap();
    network.contains(&Ipv4Net::new(addr.into(), 32).unwrap())
}

/// Whether an address is kept out by a list of networks that are let in: it is
/// in none of them. No answer where a text that has to be looked at is no
/// network.
pub open spec fn kept_out(addr: u32, nets: Seq<Option<Net>>) -> Option<bool>
    decreases nets.len(),
{
    if nets.len() == 0 {
        Some(true)
    } else {
        match nets[0] {
            None => None,
            Some(net) => if in_network(net, addr) {
                Some(false)
            } else {
                kept_out(addr, nets.drop_first())
            },
        }
    }
}

/// The networks that texts stand for.
pub open spec fn networks_of(texts: Seq<String>) -> Seq<Option<Net>> {
    texts.map_values(|t: String| network_of(t@))
}

/// Whether an address is kept out. An empty list lets everyone in. No answer
/// where a text that has to be looked at is no address or no network.
pub open spec fn forbidden(ip: Option<u32>, nets: Seq<Option<Net>>) -> Option<bool> {
    if nets.len() == 0 {
        Some(false)
    } else {
        match ip {
            None => None,
            Some(addr) => kept_out(addr, nets),
        }
    }
}

/// Whether an address is kept out by the networks that are let in. An empty list
/// lets everyone in. No answer where a text that has to be looked at is no
/// address or no network.
pub fn is_forbidden(ip: &str, ip_nets: &Vec<String>) -> (r: Option<bool>)
    ensures
        r == forbidden(address_of(ip@), networks_of(ip_nets@)),
{
    if ip_nets.len() == 0 {
        return Some(false);
    }
    let addr: u32 = match parse_address(ip) {
        Some(addr) => addr,
        None => return None,
    };
    let mut i: usize = 0;
    let ghost nets = networks_of(ip_nets@);
    assert(nets.skip(0) =~= nets);
    while i < ip_nets.len()
        invariant
            i <= ip_nets@.len(),
            nets == networks_of(ip_nets@),
            kept_out(addr, nets.skip(i as int)) == kept_out(addr, nets),
            address_of(ip@) == Some(addr),
            ip_nets@.len() > 0,
        decreases ip_nets@.len() - i,
    {
        assert(nets.skip(i as int)[0] == network_of(ip_nets@[i as int]@));
        assert(nets.skip(i as int).drop_first() =~= nets.skip(i + 1));
        let net = match parse_network(ip_nets[i].as_str()) {
            Some(net) => net,
            None => return None,
        };
        if net_contains(&net, addr) {
            return Some(false);
        }
        i = i + 1;
    }
    Some(true)
}

/// An address is let in exactly if the list is empty or one of its networks
/// holds the address, as long as every text is a network.
pub proof fn law_let_in(addr: u32, nets: Seq<Option<Net>>)
    requires
        forall|i: int| 0 <= i < nets.len() ==> (#[trigger] nets[i]) is Some,
    ensures
        forbidden(Some(addr), nets) == Some(
            nets.len() > 0 && !(exists|i: int|
                0 <= i < nets.len() && in_network((#[trigger] nets[i])->0, addr)),
        ),
    decreases nets.len(),
{
    if nets.len() > 0 {
        let rest = nets.drop_first();
        assert forall|i: int| 0 <= i < rest.len() implies (#[trigger] rest[i]) is Some by {
            assert(rest[i] == nets[i + 1]);
        }
        law_let_in(addr, rest);
        let held = exists|i: int| 0 <= i < nets.len() && in_network((#[trigger] nets[i])->0, addr);
        let rest_held = exists|i: int|
            0 <= i < rest.len() && in_network((#[trigger] rest[i])->0, addr);
        if held {
            let i = choose|i: int|
                0 <= i < nets.len() && in_network((#[trigger] nets[i])->0, addr);
            if i > 0 {
                assert(rest[i - 1] == nets[i]);
                assert(rest_held);
            }
        }
        if rest_held {
            let i = choose|i: int|
                0 <= i < rest.len() && in_network((#[trigger] rest[i])->0, addr);
            assert(nets[i + 1] == rest[i]);
            assert(held);
        }
        if in_network(nets[0]->0, addr) {
            assert(held);
        }
    }
}

/// Whether a log of this age, in nanoseconds, is older than a number of days.
pub fn is_log_expired(age_ns: u128, days_to_keep: u32) -> (r: bool)
    ensures
        r == (age_ns > days_to_keep * 86_400_000_000_000),
{
    age_ns > days_to_keep as u128 * 86_400_000_000_000
}

/// An address is in a network where their leading bits are the same: with 32 of them it is
/// the address of the network itself, with none every address is in it.
pub proof fn law_network_bounds(net: Net, addr: u32)
    ensures
        net.prefix == 32 ==> in_network(net, addr) == (addr == net.addr),
        net.prefix == 0 ==> in_network(net, addr),
        net.prefix == 24 ==> in_network(net, addr) == (addr / 256 == net.addr / 256),
        in_network(net, net.addr),
{
    vstd::arithmetic::power2::lemma2_to64();
    let size = pow2((32 - net.prefix) as nat) as int;
    if net.prefix == 32 {
        assert(size == 1);
        assert(addr as int / 1int == addr as int && net.addr as int / 1int == net.addr as int);
    } else if net.prefix == 0 {
        assert(size == 0x1_0000_0000);
        assert(addr as int / size == 0 && net.addr as int / size == 0);
    } else if net.prefix == 24 {
        assert(size == 256);
    }
}

/// Every text up to the network that lets an address in has to be one: behind it none is
/// looked at. An address that is in none of the networks before a text that is no network
/// gets no answer.
pub proof fn law_networks_are_looked_at_in_order(addr: u32, nets: Seq<Option<Net>>, i: int)
    requires
        0 <= i < nets.len(),
        forall|k: int|
            0 <= k < i ==> (#[trigger] nets[k]) is Some && !in_network(nets[k]->0, addr),
    ensures
        nets[i] is None ==> forbidden(Some(addr), nets) is None,
        nets[i] is Some && in_network(nets[i]->0, addr) ==> forbidden(Some(addr), nets) == Some(
            false,
        ),
    decreases nets.len(),
{
    if i > 0 {
        let rest = nets.drop_first();
        assert(nets[0] is Some && !in_network(nets[0]->0, addr));
        assert forall|k: int| 0 <= k < i - 1 implies (#[trigger] rest[k]) is Some && !in_network(
            rest[k]->0,
            addr,
        ) by {
            assert(rest[k] == nets[k + 1]);
        }
        law_networks_are_looked_at_in_order(addr, rest, i - 1);
    }
}

} // verus!
