//! Which devices belong to the group: trust and its withdrawal, ordered by
//! the clock of the operations.

use crate::devices::model::DeviceProfileWire;
use crate::keyed::Keyed;
use crate::text::{opt_view, same};
use vstd::prelude::*;

verus! {

#[derive(Debug)]
pub struct DeviceRow {
    pub name: String,
    pub client_version: String,
    pub protocol_version: u16,
    pub endpoint_id: String,
    pub endpoint_ticket: String,
    pub trusted_at_ms: Option<i64>,
    pub last_seen_ms: Option<i64>,
    pub revoked_at_ms: Option<i64>,
    pub revoked_by: Option<String>,
    pub revoke_cutoff_seq: Option<i64>,
}

#[verifier::ext_equal]
pub struct DeviceView {
    pub name: Seq<char>,
    pub client_version: Seq<char>,
    pub protocol_version: u16,
    pub endpoint_id: Seq<char>,
    pub endpoint_ticket: Seq<char>,
    pub trusted_at: Option<i64>,
    pub last_seen: Option<i64>,
    pub revoked_at: Option<i64>,
    pub revoked_by: Option<Seq<char>>,
    pub cutoff: Option<i64>,
}

impl View for DeviceRow {
    type V = DeviceView;

    open spec fn view(&self) -> DeviceView {
        DeviceView {
            name: self.name@,
            client_version: self.client_version@,
            protocol_version: self.protocol_version,
            endpoint_id: self.endpoint_id@,
            endpoint_ticket: self.endpoint_ticket@,
            trusted_at: self.trusted_at_ms,
            last_seen: self.last_seen_ms,
            revoked_at: self.revoked_at_ms,
            revoked_by: opt_view(self.revoked_by),
            cutoff: self.revoke_cutoff_seq,
        }
    }
}

impl Clone for DeviceRow {
    fn clone(&self) -> (r: Self)
        ensures
            r == *self,
    {
        DeviceRow {
            name: self.name.clone(),
            client_version: self.client_version.clone(),
            protocol_version: self.protocol_version,
            endpoint_id: self.endpoint_id.clone(),
            endpoint_ticket: self.endpoint_ticket.clone(),
            trusted_at_ms: self.trusted_at_ms,
            last_seen_ms: self.last_seen_ms,
            revoked_at_ms: self.revoked_at_ms,
            revoked_by: self.revoked_by.clone(),
            revoke_cutoff_seq: self.revoke_cutoff_seq,
        }
    }
}

/// A device that nothing is known of yet.
pub open spec fn blank_device() -> DeviceView {
    DeviceView {
        name: Seq::empty(),
        client_version: Seq::empty(),
        protocol_version: 1,
        endpoint_id: Seq::empty(),
        endpoint_ticket: Seq::empty(),
        trusted_at: None,
        last_seen: None,
        revoked_at: None,
        revoked_by: None,
        cutoff: None,
    }
}

fn blank_row() -> (r: DeviceRow)
    ensures
        r@ == blank_device(),
{
    DeviceRow {
        name: String::new(),
        client_version: String::new(),
        protocol_version: 1,
        endpoint_id: String::new(),
        endpoint_ticket: String::new(),
        trusted_at_ms: None,
        last_seen_ms: None,
        revoked_at_ms: None,
        revoked_by: None,
        revoke_cutoff_seq: None,
    }
}

/// The devices by their ids.
pub type Devices = Map<Seq<char>, DeviceView>;

/// A clock, where none is as if it had never been set.
pub open spec fn or_zero(t: Option<i64>) -> i64 {
    match t {
        Some(v) => v,
        None => 0,
    }
}

pub open spec fn later_of(a: i64, b: i64) -> i64 {
    if a < b {
        b
    } else {
        a
    }
}

/// A device is active while it is trusted and the trust is not withdrawn.
pub open spec fn is_active(d: DeviceView) -> bool {
    d.trusted_at is Some && d.revoked_at is None
}

/// Whether an id names an active device.
pub open spec fn active(m: Devices, id: Seq<char>) -> bool {
    m.dom().contains(id) && is_active(m[id])
}

/// A known device that is trusted at a time. A withdrawal up to that time is
/// lifted.
pub open spec fn trusted_row(d: DeviceView, at: i64) -> DeviceView {
    let lifted = d.revoked_at matches Some(t) && t <= at;
    DeviceView {
        trusted_at: Some(later_of(or_zero(d.trusted_at), at)),
        last_seen: Some(later_of(or_zero(d.last_seen), at)),
        revoked_at: if lifted {
            None
        } else {
            d.revoked_at
        },
        revoked_by: if lifted {
            None
        } else {
            d.revoked_by
        },
        cutoff: if lifted {
            None
        } else {
            d.cutoff
        },
        ..d
    }
}

/// The devices after one was trusted at a time.
pub open spec fn with_trusted(m: Devices, id: Seq<char>, at: i64) -> Devices {
    if m.dom().contains(id) {
        m.insert(id, trusted_row(m[id], at))
    } else {
        m.insert(
            id,
            DeviceView { trusted_at: Some(at), last_seen: Some(at), ..blank_device() },
        )
    }
}

/// Whether a withdrawal at a time holds against what is known of a device:
/// nothing later trusted it or withdrew the trust.
pub open spec fn revoke_holds(d: DeviceView, at: i64) -> bool {
    or_zero(d.trusted_at) <= at && or_zero(d.revoked_at) <= at
}

/// The devices after the trust in one was withdrawn at a time.
pub open spec fn with_revoked(m: Devices, id: Seq<char>, at: i64, by: Seq<char>, cutoff: i64) -> Devices {
    if !m.dom().contains(id) {
        m.insert(
            id,
            DeviceView {
                revoked_at: Some(at),
                revoked_by: Some(by),
                cutoff: Some(cutoff),
                ..blank_device()
            },
        )
    } else if revoke_holds(m[id], at) {
        m.insert(
            id,
            DeviceView {
                revoked_at: Some(at),
                revoked_by: Some(by),
                cutoff: Some(cutoff),
                ..m[id]
            },
        )
    } else {
        m
    }
}

/// The devices after the profile of one was taken over, with the time since
/// which it is trusted.
pub open spec fn with_profile(m: Devices, p: DeviceProfileWire, trusted_at: i64) -> Devices {
    let id = p.device_id@;
    let revoked_at = if p.revoked {
        Some(p.updated_at_ms)
    } else {
        None
    };
    if !m.dom().contains(id) {
        m.insert(
            id,
            DeviceView {
                name: p.name@,
                client_version: p.client_version@,
                protocol_version: p.protocol_version,
                endpoint_id: p.endpoint_id@,
                endpoint_ticket: p.endpoint_ticket@,
                trusted_at: Some(trusted_at),
                last_seen: Some(p.updated_at_ms),
                revoked_at,
                revoked_by: None,
                cutoff: p.revoke_cutoff_seq,
            },
        )
    } else {
        let d = m[id];
        let withdrawn = p.revoked && revoke_holds(d, p.updated_at_ms);
        m.insert(
            id,
            DeviceView {
                name: p.name@,
                client_version: p.client_version@,
                protocol_version: p.protocol_version,
                endpoint_id: p.endpoint_id@,
                endpoint_ticket: if p.endpoint_ticket@.len() > 0 {
                    p.endpoint_ticket@
                } else {
                    d.endpoint_ticket
                },
                trusted_at: Some(later_of(or_zero(d.trusted_at), trusted_at)),
                last_seen: Some(p.updated_at_ms),
                revoked_at: if withdrawn {
                    revoked_at
                } else {
                    d.revoked_at
                },
                revoked_by: d.revoked_by,
                cutoff: if withdrawn {
                    p.revoke_cutoff_seq
                } else {
                    d.cutoff
                },
            },
        )
    }
}

/// Whether an operation of a device is taken over: one's own always, one of a
/// device whose trust was withdrawn up to the last one that was seen then, one
/// of any other only if it is trusted.
pub open spec fn accepts(m: Devices, own: Seq<char>, origin: Seq<char>, seq: i64) -> bool {
    if origin == own {
        true
    } else if !m.dom().contains(origin) {
        false
    } else if m[origin].revoked_at is Some {
        seq <= or_zero(m[origin].cutoff)
    } else {
        m[origin].trusted_at is Some
    }
}

fn zero_if_none(t: Option<i64>) -> (r: i64)
    ensures
        r == or_zero(t),
{
    match t {
        Some(v) => v,
        None => 0,
    }
}

fn max_of(a: i64, b: i64) -> (r: i64)
    ensures
        r == later_of(a, b),
{
    if a < b {
        b
    } else {
        a
    }
}

/// Trusts a device; gives whether the trust in it had been withdrawn.
pub(crate) fn trust(devices: &mut Keyed<DeviceRow>, id: &str, at: i64) -> (r: bool)
    ensures
        final(devices)@ == with_trusted(old(devices)@, id@, at),
        r == (old(devices)@.dom().contains(id@) && old(devices)@[id@].revoked_at is Some),
{
    let found = match devices.get(id) {
        Some(d) => Some(d.clone()),
        None => None,
    };
    match found {
        Some(d) => {
            let was_revoked = d.revoked_at_ms.is_some();
            let lifted = match d.revoked_at_ms {
                Some(t) => t <= at,
                None => false,
            };
            let mut row = d.clone();
            row.trusted_at_ms = Some(max_of(zero_if_none(d.trusted_at_ms), at));
            row.last_seen_ms = Some(max_of(zero_if_none(d.last_seen_ms), at));
            if lifted {
                row.revoked_at_ms = None;
                row.revoked_by = None;
                row.revoke_cutoff_seq = None;
            }
            proof {
                assert(row@ =~= trusted_row(d@, at));
            }
            devices.set(id, row);
            was_revoked
        },
        None => {
            let mut row = blank_row();
            row.trusted_at_ms = Some(at);
            row.last_seen_ms = Some(at);
            proof {
                assert(row@ =~= (DeviceView {
                    trusted_at: Some(at),
                    last_seen: Some(at),
                    ..blank_device()
                }));
            }
            devices.set(id, row);
            false
        },
    }
}

/// Withdraws the trust in a device; gives whether it had been active.
pub(crate) fn revoke(devices: &mut Keyed<DeviceRow>, id: &str, at: i64, by: &str, cutoff: i64) -> (r:
    bool)
    ensures
        final(devices)@ == with_revoked(old(devices)@, id@, at, by@, cutoff),
        r == active(old(devices)@, id@),
{
    let found = match devices.get(id) {
        Some(d) => Some(d.clone()),
        None => None,
    };
    match found {
        Some(d) => {
            let was_active = d.trusted_at_ms.is_some() && d.revoked_at_ms.is_none();
            if zero_if_none(d.trusted_at_ms) <= at && zero_if_none(d.revoked_at_ms) <= at {
                let mut row = d.clone();
                row.revoked_at_ms = Some(at);
                row.revoked_by = Some(by.to_owned());
                row.revoke_cutoff_seq = Some(cutoff);
                proof {
                    assert(row@ =~= (DeviceView {
                        revoked_at: Some(at),
                        revoked_by: Some(by@),
                        cutoff: Some(cutoff),
                        ..d@
                    }));
                }
                devices.set(id, row);
            }
            was_active
        },
        None => {
            let mut row = blank_row();
            row.revoked_at_ms = Some(at);
            row.revoked_by = Some(by.to_owned());
            row.revoke_cutoff_seq = Some(cutoff);
            proof {
                assert(row@ =~= (DeviceView {
                    revoked_at: Some(at),
                    revoked_by: Some(by@),
                    cutoff: Some(cutoff),
                    ..blank_device()
                }));
            }
            devices.set(id, row);
            false
        },
    }
}

/// Takes over the profile of a device.
pub(crate) fn put_profile(devices: &mut Keyed<DeviceRow>, p: &DeviceProfileWire, trusted_at: i64)
    ensures
        final(devices)@ == with_profile(old(devices)@, *p, trusted_at),
{
    let found = match devices.get(p.device_id.as_str()) {
        Some(d) => Some(d.clone()),
        None => None,
    };
    let revoked_at_ms = if p.revoked {
        Some(p.updated_at_ms)
    } else {
        None
    };
    match found {
        Some(d) => {
            let withdrawn = p.revoked && zero_if_none(d.trusted_at_ms) <= p.updated_at_ms
                && zero_if_none(d.revoked_at_ms) <= p.updated_at_ms;
            let row = DeviceRow {
                name: p.name.clone(),
                client_version: p.client_version.clone(),
                protocol_version: p.protocol_version,
                endpoint_id: p.endpoint_id.clone(),
                endpoint_ticket: if !p.endpoint_ticket.as_str().is_empty() {
                    p.endpoint_ticket.clone()
                } else {
                    d.endpoint_ticket.clone()
                },
                trusted_at_ms: Some(max_of(zero_if_none(d.trusted_at_ms), trusted_at)),
                last_seen_ms: Some(p.updated_at_ms),
                revoked_at_ms: if withdrawn {
                    revoked_at_ms
                } else {
                    d.revoked_at_ms
                },
                revoked_by: d.revoked_by.clone(),
                revoke_cutoff_seq: if withdrawn {
                    p.revoke_cutoff_seq
                } else {
                    d.revoke_cutoff_seq
                },
            };
            devices.set(p.device_id.as_str(), row);
        },
        None => {
            let row = DeviceRow {
                name: p.name.clone(),
                client_version: p.client_version.clone(),
                protocol_version: p.protocol_version,
                endpoint_id: p.endpoint_id.clone(),
                endpoint_ticket: p.endpoint_ticket.clone(),
                trusted_at_ms: Some(trusted_at),
                last_seen_ms: Some(p.updated_at_ms),
                revoked_at_ms,
                revoked_by: None,
                revoke_cutoff_seq: p.revoke_cutoff_seq,
            };
            devices.set(p.device_id.as_str(), row);
        },
    }
}

pub(crate) fn accepts_op(devices: &Keyed<DeviceRow>, own: &str, origin: &str, seq: i64) -> (r: bool)
    ensures
        r == accepts(devices@, own@, origin@, seq),
{
    if same(origin, own) {
        return true;
    }
    match devices.get(origin) {
        None => false,
        Some(d) => if d.revoked_at_ms.is_some() {
            seq <= zero_if_none(d.revoke_cutoff_seq)
        } else {
            d.trusted_at_ms.is_some()
        },
    }
}

/// Trust that is newer than the withdrawal makes a device active again.
pub proof fn law_newer_trust_reactivates(m: Devices, id: Seq<char>, revoked_at: i64, at: i64)
    requires
        m.dom().contains(id),
        m[id].revoked_at == Some(revoked_at),
        revoked_at <= at,
    ensures
        active(with_trusted(m, id, at), id),
{
}

/// A withdrawal that is older than the trust changes nothing.
pub proof fn law_older_revoke_is_ignored(
    m: Devices,
    id: Seq<char>,
    at: i64,
    by: Seq<char>,
    cutoff: i64,
)
    requires
        m.dom().contains(id),
        m[id].trusted_at matches Some(t) && at < t,
    ensures
        with_revoked(m, id, at, by, cutoff) == m,
{
}

/// A withdrawal that holds makes the device inactive, and only its operations
/// up to the cutoff are taken over afterwards.
pub proof fn law_revoked_device_is_cut_off(
    m: Devices,
    own: Seq<char>,
    id: Seq<char>,
    at: i64,
    by: Seq<char>,
    cutoff: i64,
    seq: i64,
)
    requires
        id != own,
        m.dom().contains(id) ==> revoke_holds(m[id], at),
    ensures
        !active(with_revoked(m, id, at, by, cutoff), id),
        accepts(with_revoked(m, id, at, by, cutoff), own, id, seq) == (seq <= cutoff),
{
}

/// Trusting, withdrawing trust and taking over a profile speak of one device
/// only.
pub proof fn law_other_devices_unchanged(
    m: Devices,
    id: Seq<char>,
    other: Seq<char>,
    at: i64,
    by: Seq<char>,
    cutoff: i64,
    p: DeviceProfileWire,
)
    requires
        other != id,
        p.device_id@ == id,
        m.dom().contains(other),
    ensures
        with_trusted(m, id, at)[other] == m[other],
        with_revoked(m, id, at, by, cutoff)[other] == m[other],
        with_profile(m, p, at)[other] == m[other],
{
}

/// A device that is once trusted stays known as trusted: the time never goes
/// back.
pub proof fn law_trust_time_never_goes_back(m: Devices, id: Seq<char>, at: i64, p: DeviceProfileWire)
    requires
        m.dom().contains(id),
        m[id].trusted_at is Some,
        p.device_id@ == id,
    ensures
        with_trusted(m, id, at)[id].trusted_at matches Some(t) && t >= m[id].trusted_at->0,
        with_profile(m, p, at)[id].trusted_at matches Some(t) && t >= m[id].trusted_at->0,
{
}

} // verus!
