//! Opening ports at the router, where it can be asked to.

use vstd::prelude::*;

use crate::node::addr::IpAddr;

verus! {

/// For how long a port is opened, in seconds. A node that lives on asks again.
pub const LEASE_SECS: u32 = 3600;

/// Whether there is a point in asking the router: not for an address that is the
/// machine's own, or none at all.
pub fn can_map(local_ip: &IpAddr) -> (r: bool)
    ensures
        r == !(local_ip.loopback() || local_ip.unspecified()),
{
    !(local_ip.is_loopback() || local_ip.is_unspecified())
}

/// Our address outside, if the router has opened at least one of the ports.
pub fn mapped_at(opened: &Vec<bool>, external_ip: IpAddr) -> (r: Option<IpAddr>)
    ensures
        r == (if opened@.contains(true) {
            Some(external_ip)
        } else {
            None
        }),
{
    let mut i: usize = 0;
    while i < opened.len()
        invariant
            i <= opened@.len(),
            forall|j: int| 0 <= j < i ==> !(#[trigger] opened@[j]),
        decreases opened@.len() - i,
    {
        if opened[i] {
            assert(opened@[i as int] == true);
            return Some(external_ip);
        }
        i = i + 1;
    }
    None
}

/// Ports are opened for an hour.
pub proof fn law_ports_are_opened_for_an_hour()
    ensures
        LEASE_SECS == 60 * 60,
{
}

} // verus!
