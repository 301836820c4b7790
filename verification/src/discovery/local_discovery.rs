//! Discovery among nodes on one machine, through files in a shared directory.

use vstd::prelude::*;

use crate::discovery::peer_list::{changes_members, upserted, PeerList};
use crate::node::addr::IpAddr;
use crate::node::identity::NodeId;
use crate::node::peer::{PeerInfo, PeerView};
use crate::util::text::{chars_of, decimal, has_suffix, push_decimal};

verus! {

/// The shared directory.
pub const DIR: &'static str = "/tmp/void-connect";

/// After how many seconds a file is out of date.
pub const TTL_SECS: i64 = 30;

/// The shared directory.
pub fn dir() -> (r: String)
    ensures
        r@ == DIR@,
{
    DIR.to_owned()
}

/// The file of the node with the given port.
pub fn my_file(base_port: u16) -> (r: String)
    ensures
        r@ == DIR@ + "/"@ + decimal(base_port as nat) + ".json"@,
{
    let mut out: String = dir();
    out.append("/");
    push_decimal(&mut out, base_port as u64);
    out.append(".json");
    out
}

/// Whether a file of the directory tells of a node: its name has the extension `json`.
pub fn is_announcement(file_name: &str) -> (r: bool)
    ensures
        r == (".json"@.is_suffix_of(file_name@) && file_name@.len() > ".json"@.len()),
{
    let chars: Vec<char> = chars_of(file_name);
    let extension: Vec<char> = chars_of(".json");
    has_suffix(chars.as_slice(), extension.as_slice()) && chars.len() > extension.len()
}

/// What became of a file.
#[derive(Debug, Clone, Copy, PartialEq, Eq, Structural)]
pub enum Scanned {
    /// It was our own.
    Own,
    /// It was out of date, and is to be removed.
    Stale,
    /// It was entered; whether the node was not known before, and whether the members
    /// of the list have changed.
    Entered { new: bool, changed: bool },
}

/// A node as it is entered after its file was read: it is on this machine.
pub open spec fn found_as(peer: PeerView) -> PeerView {
    PeerView { ip: IpAddr::V4(127, 0, 0, 1), ..peer }
}

/// Enters the node that a file tells of, unless it is we or the file is out of date.
pub fn scan_entry(list: &mut PeerList, my_id: &NodeId, peer: PeerInfo, now: i64) -> (r: Scanned)
    requires
        peer.id@ != my_id@ ==> i64::MIN <= now - peer.last_seen <= i64::MAX,
    ensures
        if peer.id@ == my_id@ {
            final(list)@ == old(list)@ && r == Scanned::Own
        } else if now - peer.last_seen > TTL_SECS {
            final(list)@ == old(list)@ && r == Scanned::Stale
        } else {
            &&& final(list)@ == upserted(old(list)@, found_as(peer@))
            &&& r == (Scanned::Entered {
                new: !old(list)@.contains_key(peer.id@),
                changed: changes_members(old(list)@, found_as(peer@)),
            })
        },
{
    if peer.id.same(my_id) {
        return Scanned::Own;
    }
    if now - peer.last_seen > TTL_SECS {
        return Scanned::Stale;
    }
    let known: bool = list.contains(&peer.id);
    let ghost said = peer@;
    let mut peer: PeerInfo = peer;
    peer.ip = IpAddr::localhost();
    assert(peer@ =~= found_as(said));
    let changed: bool = list.upsert(peer);
    Scanned::Entered { new: !known, changed }
}

/// A node whose file was read is entered on this machine, wherever it says it is, and
/// otherwise as the file says.
pub proof fn law_file_tells_of_this_machine(peer: PeerView)
    ensures
        found_as(peer).ip == IpAddr::V4(127, 0, 0, 1),
        found_as(peer) == (PeerView { ip: found_as(peer).ip, ..peer }),
{
}

/// A file is out of date after half a minute.
pub proof fn law_files_last_half_a_minute()
    ensures
        TTL_SECS == 30,
{
}

/// Nodes on one machine meet in one directory.
pub proof fn law_meeting_place()
    ensures
        DIR@ == "/tmp/void-connect"@,
{
}

} // verus!
