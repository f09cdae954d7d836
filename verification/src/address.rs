//! IP addresses and prefixes as plain numbers.

use vstd::arithmetic::power2::pow2;
use vstd::prelude::*;

verus! {

/// An IPv4 or IPv6 address, as the number that its bytes spell in network
/// order.
#[derive(Debug, Clone, Copy, PartialEq, Eq, Structural)]
pub enum IpAddress {
    V4(u32),
    V6(u128),
}

impl IpAddress {
    /// The number of bits of an address of this family.
    pub open spec fn bits(self) -> nat {
        match self {
            IpAddress::V4(_) => 32,
            IpAddress::V6(_) => 128,
        }
    }

    /// The address as a number.
    pub open spec fn value(self) -> nat {
        match self {
            IpAddress::V4(a) => a as nat,
            IpAddress::V6(a) => a as nat,
        }
    }

    /// Whether this is an IPv6 address.
    pub fn is_ipv6(&self) -> (yes: bool)
        ensures
            yes == (self is V6),
    {
        match self {
            IpAddress::V4(_) => false,
            IpAddress::V6(_) => true,
        }
    }
}

/// `address` with a mask of `netmask` bits is a network: the mask is no
/// longer than the address, and no bit behind it is set.
pub open spec fn is_network(address: IpAddress, netmask: u8) -> bool {
    netmask <= address.bits() && address.value() % pow2((address.bits() - netmask) as nat) == 0
}

/// `ip_network::Ipv4Network::new`, which refuses a netmask above 32 and an
/// address with fewer trailing zero bits than the netmask leaves for hosts.
/// Trusted: it accepts exactly the pairs that are a network.
#[verifier::external_body]
fn ipv4_network_accepts(address: u32, netmask: u8) -> (ok: bool)
    ensures
        ok == is_network(IpAddress::V4(address), netmask),
{
    ip_network::Ipv4Network::new(address.into(), netmask).is_ok()
}

/// `ip_network::Ipv6Network::new`, which refuses a netmask above 128 and an
/// address with fewer trailing zero bits than the netmask leaves for hosts.
/// Trusted: it accepts exactly the pairs that are a network.
#[verifier::external_body]
fn ipv6_network_accepts(address: u128, netmask: u8) -> (ok: bool)
    ensures
        ok == is_network(IpAddress::V6(address), netmask),
{
    ip_network::Ipv6Network::new(address.into(), netmask).is_ok()
}

/// An IP network: an address and the length of its mask.
#[derive(Debug, Clone, Copy, PartialEq, Eq)]
pub struct IpPrefix {
    address: IpAddress,
    netmask: u8,
}

/// What an [`IpPrefix`] holds.
pub ghost struct IpPrefixView {
    pub address: IpAddress,
    pub netmask: u8,
}

impl View for IpPrefix {
    type V = IpPrefixView;

    closed spec fn view(&self) -> IpPrefixView {
        IpPrefixView { address: self.address, netmask: self.netmask }
    }
}

impl IpPrefix {
    #[verifier::type_invariant]
    spec fn well_formed(self) -> bool {
        is_network(self.address, self.netmask)
    }

    /// The network of `address` under a mask of `netmask` bits, if that is
    /// one.
    pub fn new(address: IpAddress, netmask: u8) -> (prefix: Option<IpPrefix>)
        ensures
            is_network(address, netmask) <==> prefix is Some,
            prefix is Some ==> prefix.unwrap()@ == (IpPrefixView { address, netmask }),
    {
        let accepted = match address {
            IpAddress::V4(a) => ipv4_network_accepts(a, netmask),
            IpAddress::V6(a) => ipv6_network_accepts(a, netmask),
        };
        if accepted {
            Some(IpPrefix { address, netmask })
        } else {
            None
        }
    }

    /// The network's address. No bit of it is set behind the mask.
    pub fn network_address(&self) -> (address: IpAddress)
        ensures
            address == self@.address,
            is_network(self@.address, self@.netmask),
    {
        proof {
            use_type_invariant(self);
        }
        self.address
    }

    /// The length of the mask in bits, which is no more than the address has.
    pub fn netmask(&self) -> (netmask: u8)
        ensures
            netmask == self@.netmask,
            is_network(self@.address, self@.netmask),
    {
        proof {
            use_type_invariant(self);
        }
        self.netmask
    }
}

} // verus!
