//! How a device joins a group, and how two devices of a group talk.

use crate::devices::model::{
    DeviceProfileWire, InviteWire, PendingPairing, PlaybackSnapshot, SyncOpWire, SyncSnapshot,
    INVITE_TTL_MS, PAIRING_WAIT_MS, PROTOCOL_VERSION,
};
use crate::devices::peers::short_id;
use crate::devices::sync::{
    DeviceSync, InviteRow, InviteView, PairingAnswer, PendingRow, PendingView,
};
use crate::devices::trust::DeviceView;
use crate::federation::track::{first_chars, prefix_text};
use crate::keyed::Keyed;
use crate::text::{blank, is_blank, opt_view, same, trimmed};
use vstd::prelude::*;

verus! {

/// Where a device can be reached, and what runs on it.
#[derive(Debug)]
pub struct Address {
    pub client_version: String,
    pub endpoint_id: String,
    pub ticket: String,
}

/// What a joining device sends.
pub struct PairRequest {
    pub invite_id: String,
    pub secret: String,
    pub profile: DeviceProfileWire,
    pub group_id: Option<String>,
    pub group_active_devices: usize,
    pub devices: Vec<DeviceProfileWire>,
    pub vector: Vec<(String, i64)>,
    pub ops: Vec<SyncOpWire>,
    pub snapshot: SyncSnapshot,
    pub playback: Option<PlaybackSnapshot>,
}

/// What a device of the group sends.
pub struct Hello {
    pub group_id: String,
    pub profile: DeviceProfileWire,
    pub devices: Vec<DeviceProfileWire>,
    pub vector: Vec<(String, i64)>,
    pub ops: Vec<SyncOpWire>,
    pub snapshot: SyncSnapshot,
    pub playback: Option<PlaybackSnapshot>,
}

/// What a device answers a joining device.
pub struct PairResponse {
    pub accepted: bool,
    pub pending: bool,
    pub error: Option<String>,
    pub group_id: Option<String>,
    pub profile: Option<DeviceProfileWire>,
    pub devices: Vec<DeviceProfileWire>,
    pub vector: Vec<(String, i64)>,
    pub ops: Vec<SyncOpWire>,
    pub snapshot: SyncSnapshot,
    pub playback: Option<PlaybackSnapshot>,
}

/// What a device answers another of the group.
pub struct SyncResponse {
    pub accepted: bool,
    pub error: Option<String>,
    pub devices: Vec<DeviceProfileWire>,
    pub vector: Vec<(String, i64)>,
    pub ops: Vec<SyncOpWire>,
    pub snapshot: SyncSnapshot,
    pub playback: Option<PlaybackSnapshot>,
}

/// What a device tells another of itself and the group. The operations are
/// places among those that it keeps.
pub struct Told {
    pub devices: Vec<DeviceProfileWire>,
    pub vector: Vec<(String, i64)>,
    pub ops: Vec<usize>,
    pub snapshot: SyncSnapshot,
}

/// What another device said that is news here.
#[derive(Debug)]
pub struct News {
    /// Something that is shown changed.
    pub changed: bool,
    /// The places of the operations whose playback command is to be carried
    /// out.
    pub commands: Vec<usize>,
    /// The playback of the other device is news.
    pub playback: bool,
}

/// The hash that an invite keeps of its secret.
pub fn hash_secret(secret: &str) -> (r: String)
    ensures
        r@ == crate::digest::digest_hex(secret@),
{
    crate::digest::digest_text(secret)
}

/// The id of a request to join: the invite and the device.
pub open spec fn request_name(invite_id: Seq<char>, device_id: Seq<char>) -> Seq<char> {
    "pair_"@ + first_chars(crate::digest::digest_hex(invite_id + seq![':'] + device_id), 16)
}

pub fn pair_request_id(invite_id: &str, device_id: &str) -> (r: String)
    ensures
        r@ == request_name(invite_id@, device_id@),
{
    let mut seed = invite_id.to_owned();
    seed.push(':');
    seed.append(device_id);
    proof {
        assert(seed@ =~= invite_id@ + seq![':'] + device_id@);
    }
    let hex = crate::digest::digest_text(seed.as_str());
    let mut out = "pair_".to_owned();
    out.append(prefix_text(hex.as_str(), 16).as_str());
    out
}

/// The id of a device, from its secret key in hexadecimal digits.
pub open spec fn device_name_of(secret: Seq<char>) -> Seq<char> {
    "dev_"@ + first_chars(crate::digest::digest_hex(secret), 24)
}

/// The id of the group that a device starts with.
pub open spec fn first_group_of(device_id: Seq<char>) -> Seq<char> {
    "grp_"@ + first_chars(crate::digest::digest_hex(device_id), 24)
}

/// The name that a device starts with.
pub open spec fn first_name_of(host: Option<Seq<char>>, device_id: Seq<char>) -> Seq<char> {
    (match host {
        Some(h) => if is_blank(h) {
            "furumi"@
        } else {
            h
        },
        None => "furumi"@,
    }) + seq!['-'] + first_chars(device_id, 10)
}

pub fn default_device_name(host: &Option<String>, device_id: &str) -> (r: String)
    ensures
        r@ == first_name_of(opt_view(*host), device_id@),
{
    let mut out = match host {
        Some(h) => if blank(h.as_str()) {
            "furumi".to_owned()
        } else {
            h.clone()
        },
        None => "furumi".to_owned(),
    };
    out.push('-');
    out.append(short_id(device_id).as_str());
    proof {
        assert(out@ =~= first_name_of(opt_view(*host), device_id@));
    }
    out
}

/// Why an invite cannot be used.
#[derive(Clone, Copy, PartialEq, Eq, Structural, Debug)]
pub enum InviteError {
    /// It is not an invite link.
    NotAnInvite,
    /// What it carries cannot be read.
    Malformed(crate::base64url::DecodeError),
    Version,
    Expired,
}

/// The start of an invite link.
pub open spec fn invite_prefix() -> Seq<char> {
    "frid://i/"@
}

/// The bytes that an invite link carries.
pub open spec fn invite_bytes(link: Seq<char>) -> Result<Seq<u8>, InviteError> {
    match crate::share::after_prefix(trimmed(link), invite_prefix()) {
        None => Err(InviteError::NotAnInvite),
        Some(token) => match crate::base64url::decoded(vstd::utf8::encode_utf8(token)) {
            Ok(b) => Ok(b),
            Err(e) => Err(InviteError::Malformed(e)),
        },
    }
}

impl InviteError {
    /// What the person is told.
    pub fn message(&self) -> (r: &'static str)
        ensures
            r@ == match *self {
                InviteError::NotAnInvite => "usage: :connect frid://i/<invite>"@,
                InviteError::Malformed(crate::base64url::DecodeError::Invalid) =>
                    "invalid base64url invite"@,
                InviteError::Malformed(crate::base64url::DecodeError::Truncated) =>
                    "truncated base64url invite"@,
                InviteError::Version => "unsupported invite version"@,
                InviteError::Expired => "invite expired"@,
            },
    {
        match self {
            InviteError::NotAnInvite => "usage: :connect frid://i/<invite>",
            InviteError::Malformed(crate::base64url::DecodeError::Invalid) =>
                "invalid base64url invite",
            InviteError::Malformed(crate::base64url::DecodeError::Truncated) =>
                "truncated base64url invite",
            InviteError::Version => "unsupported invite version",
            InviteError::Expired => "invite expired",
        }
    }
}

/// The bytes that an invite link carries.
pub fn decode_invite(link: &str) -> (r: Result<Vec<u8>, InviteError>)
    ensures
        match r {
            Ok(b) => invite_bytes(link@) == Ok::<Seq<u8>, InviteError>(b@),
            Err(e) => invite_bytes(link@) == Err::<Seq<u8>, InviteError>(e),
        },
{
    let chars = crate::text::chars_of(link);
    let inner = crate::text::trim_chars(&chars);
    let token = match crate::share::strip_prefix(&inner, "frid://i/") {
        Some(t) => t,
        None => {
            return Err(InviteError::NotAnInvite);
        },
    };
    let text = crate::text::string_of(&token);
    match crate::base64url::base64url_decode(text.as_str()) {
        Ok(b) => Ok(b),
        Err(e) => Err(InviteError::Malformed(e)),
    }
}

/// The link that carries an invite.
pub open spec fn invite_text(bytes: Seq<u8>) -> Seq<char> {
    invite_prefix() + crate::text::ascii_text(crate::base64url::encoded(bytes))
}

pub fn invite_link(bytes: &[u8]) -> (r: String)
    ensures
        r@ == invite_text(bytes@),
{
    let mut out = "frid://i/".to_owned();
    out.append(crate::base64url::base64url_encode(bytes).as_str());
    out
}

/// An invite link is read back as what it was made from.
pub proof fn law_invite_link_round_trip(bytes: Seq<u8>)
    ensures
        invite_bytes(invite_text(bytes)) == Ok::<Seq<u8>, InviteError>(bytes),
{
    reveal_strlit("frid://i/");
    let link = invite_text(bytes);
    let enc = crate::base64url::encoded(bytes);
    let token = crate::text::ascii_text(enc);
    let p = |c: char| crate::text::is_space(c);
    assert(link[0] == 'f');
    assert(!p(link[0]));
    assert(!p(link.last())) by {
        if enc.len() == 0 {
            assert(link =~= invite_prefix());
            assert(link.last() == '/');
        } else {
            crate::base64url::law_base64url_unpadded(bytes, enc.len() - 1);
            assert(link.last() == token.last());
            assert(crate::base64url::sextet(enc.last()) is Some);
        }
    }
    assert(trimmed(link) == link);
    assert(link.take(invite_prefix().len() as int) =~= invite_prefix());
    assert(link.skip(invite_prefix().len() as int) =~= token);
    crate::base64url::law_base64url_round_trip(bytes);
}

/// Until when an invite is tried, or why it is not.
pub open spec fn invite_holds(
    invite: InviteWire,
    now_ms: i64,
    r: Result<i64, InviteError>,
) -> bool {
    r == (if invite.v != 1 {
        Err::<i64, InviteError>(InviteError::Version)
    } else if invite.expires_at_ms < now_ms {
        Err(InviteError::Expired)
    } else if now_ms + PAIRING_WAIT_MS < invite.expires_at_ms {
        Ok((now_ms + PAIRING_WAIT_MS) as i64)
    } else {
        Ok(invite.expires_at_ms)
    })
}

/// Checks an invite that was read; gives until when it is worth asking.
pub fn check_invite(invite: &InviteWire, now_ms: i64) -> (r: Result<i64, InviteError>)
    requires
        now_ms + PAIRING_WAIT_MS <= i64::MAX,
    ensures
        invite_holds(*invite, now_ms, r),
{
    if invite.v != 1 {
        return Err(InviteError::Version);
    }
    if invite.expires_at_ms < now_ms {
        return Err(InviteError::Expired);
    }
    let deadline: i64 = now_ms + PAIRING_WAIT_MS;
    if deadline < invite.expires_at_ms {
        Ok(deadline)
    } else {
        Ok(invite.expires_at_ms)
    }
}

/// How one attempt to join went.
#[derive(Debug)]
pub enum PairAttempt {
    Accepted(String),
    Pending,
    Denied(String),
    /// The other device could not be asked.
    Failed(String),
}

/// What comes after an attempt to join.
#[derive(Debug)]
pub enum PairNext {
    Joined(String),
    GiveUp(String),
    TryAgain,
}

/// What follows an attempt to join.
pub open spec fn goes_on(attempt: PairAttempt, now_ms: i64, deadline: i64, r: PairNext) -> bool {
    match attempt {
        PairAttempt::Accepted(m) => r == PairNext::Joined(m),
        PairAttempt::Denied(m) => r == PairNext::GiveUp(m),
        PairAttempt::Pending => if now_ms >= deadline {
            r matches PairNext::GiveUp(m) && m@ == "pairing timed out"@
        } else {
            r is TryAgain
        },
        PairAttempt::Failed(e) => if now_ms >= deadline {
            r matches PairNext::GiveUp(m) && m@ == "pairing timed out; last error: "@ + e@
        } else {
            r is TryAgain
        },
    }
}

/// What comes after an attempt: one that is pending or failed is made again
/// until it is no longer worth asking.
pub fn after_attempt(attempt: PairAttempt, now_ms: i64, deadline: i64) -> (r: PairNext)
    ensures
        goes_on(attempt, now_ms, deadline, r),
{
    match attempt {
        PairAttempt::Accepted(m) => PairNext::Joined(m),
        PairAttempt::Denied(m) => PairNext::GiveUp(m),
        PairAttempt::Pending => if now_ms >= deadline {
            PairNext::GiveUp("pairing timed out".to_owned())
        } else {
            PairNext::TryAgain
        },
        PairAttempt::Failed(e) => if now_ms >= deadline {
            let mut m = "pairing timed out; last error: ".to_owned();
            m.append(e.as_str());
            PairNext::GiveUp(m)
        } else {
            PairNext::TryAgain
        },
    }
}

/// A seed with so many digests of itself behind it.
pub open spec fn grown(seed: Seq<u8>, k: nat) -> Seq<u8>
    decreases k,
{
    if k == 0 {
        seed
    } else {
        let s = grown(seed, (k - 1) as nat);
        s + crate::digest::blake3_digest(s)
    }
}

/// How many digests make a seed long enough.
pub open spec fn growths(len: nat, wanted: nat) -> nat {
    if wanted <= len {
        0
    } else {
        ((wanted - len + 31) / 32) as nat
    }
}

/// So many bytes from a random seed, in hexadecimal digits.
pub fn hex_from_seed(seed: &[u8], bytes: usize) -> (r: String)
    ensures
        r@ == crate::text::ascii_text(
            crate::hex::hexed(
                grown(seed@, growths(seed@.len(), bytes as nat)).take(bytes as int),
            ),
        ),
{
    let mut all: Vec<u8> = Vec::new();
    let mut i: usize = 0;
    while i < seed.len()
        invariant
            i <= seed@.len(),
            all@ == seed@.take(i as int),
        decreases seed@.len() - i,
    {
        all.push(seed[i]);
        proof {
            assert(all@ =~= seed@.take(i + 1));
        }
        i += 1;
    }
    let ghost mut k: nat = 0;
    proof {
        assert(all@ =~= seed@);
    }
    while all.len() < bytes
        invariant
            all@ == grown(seed@, k),
            all@.len() == seed@.len() + 32 * k,
            k > 0 ==> seed@.len() + 32 * (k - 1) < bytes,
        decreases bytes + 32 - all@.len(),
    {
        let d = crate::digest::digest(&all);
        let ghost before = all@;
        let mut j: usize = 0;
        while j < d.len()
            invariant
                j <= d@.len(),
                all@ == before + d@.take(j as int),
            decreases d@.len() - j,
        {
            all.push(d[j]);
            proof {
                assert(all@ =~= before + d@.take(j + 1));
            }
            j += 1;
        }
        proof {
            assert(d@.take(d@.len() as int) =~= d@);
            k = k + 1;
        }
    }
    proof {
        assert(k == growths(seed@.len(), bytes as nat));
    }
    let mut head: Vec<u8> = Vec::new();
    let mut i: usize = 0;
    while i < bytes
        invariant
            i <= bytes <= all@.len(),
            head@ == all@.take(i as int),
        decreases bytes - i,
    {
        head.push(all[i]);
        proof {
            assert(head@ =~= all@.take(i + 1));
        }
        i += 1;
    }
    crate::hex::hex_encode(&head)
}

/// What making an invite changes.
pub open spec fn makes_invite(
    a: DeviceSync,
    b: DeviceSync,
    ticket: Seq<char>,
    invite_id: Seq<char>,
    secret: Seq<char>,
    now_ms: i64,
    r: Option<InviteWire>,
) -> bool {
    &&& r is None == a.invites@.dom().contains(invite_id)
    &&& r is None ==> b == a
    &&& r matches Some(w) ==> {
        &&& w.v == 1
        &&& w.ticket@ == ticket
        &&& w.device_id@ == a.device_id@
        &&& w.invite_id@ == invite_id
        &&& w.secret@ == secret
        &&& w.expires_at_ms == now_ms + INVITE_TTL_MS
        &&& b.invites@ == a.invites@.insert(
            invite_id,
            InviteView {
                secret_hash: crate::digest::digest_hex(secret),
                expires_at: w.expires_at_ms,
                created_at: now_ms,
                used_at: None,
            },
        )
        &&& b == (DeviceSync { invites: b.invites, ..a })
    }
}

impl DeviceSync {
    /// A new device: its id comes from its secret, its first group from its
    /// id, and it trusts itself.
    pub fn create(
        secret_hex: &str,
        host: &Option<String>,
        client_version: &str,
        now_ms: i64,
    ) -> (r: Self)
        ensures
            r.device_id@ == device_name_of(secret_hex@),
            r.group_id@ == first_group_of(r.device_id@),
            r.name@ == first_name_of(opt_view(*host), r.device_id@),
            r.local_seq == 0,
            r.last_hlc_ms == 0,
            r.devices@ == Map::<Seq<char>, DeviceView>::empty().insert(
                r.device_id@,
                DeviceView {
                    name: r.name@,
                    client_version: client_version@,
                    protocol_version: PROTOCOL_VERSION,
                    trusted_at: Some(now_ms),
                    last_seen: Some(now_ms),
                    ..crate::devices::trust::blank_device()
                },
            ),
            r.invites@.dom().is_empty(),
            r.pending@.dom().is_empty(),
            r.ops@.len() == 0,
            r.vectors@.dom().is_empty(),
            r.acks@.dom().is_empty(),
            r.compacted@.dom().is_empty(),
            r.likes@.dom().is_empty(),
            r.playlists@.dom().is_empty(),
            r.items@.dom().is_empty(),
            r.applied_playback@.dom().is_empty(),
            r.local_playback is None,
            r.remote_playback@.dom().is_empty(),
            r.last_sync is None,
            r.last_error is None,
    {
        let hex = crate::digest::digest_text(secret_hex);
        let mut device_id = "dev_".to_owned();
        device_id.append(prefix_text(hex.as_str(), 24).as_str());
        let hex = crate::digest::digest_text(device_id.as_str());
        let mut group_id = "grp_".to_owned();
        group_id.append(prefix_text(hex.as_str(), 24).as_str());
        let name = default_device_name(host, device_id.as_str());
        let mut devices: Keyed<crate::devices::trust::DeviceRow> = Keyed::new();
        let row = crate::devices::trust::DeviceRow {
            name: name.clone(),
            client_version: client_version.to_owned(),
            protocol_version: PROTOCOL_VERSION,
            endpoint_id: String::new(),
            endpoint_ticket: String::new(),
            trusted_at_ms: Some(now_ms),
            last_seen_ms: Some(now_ms),
            revoked_at_ms: None,
            revoked_by: None,
            revoke_cutoff_seq: None,
        };
        proof {
            assert(row@ =~= (DeviceView {
                name: name@,
                client_version: client_version@,
                protocol_version: PROTOCOL_VERSION,
                trusted_at: Some(now_ms),
                last_seen: Some(now_ms),
                ..crate::devices::trust::blank_device()
            }));
        }
        devices.set(device_id.as_str(), row);
        DeviceSync {
            device_id,
            group_id,
            name,
            local_seq: 0,
            last_hlc_ms: 0,
            devices,
            invites: Keyed::new(),
            pending: Keyed::new(),
            ops: Vec::new(),
            vectors: Keyed::new(),
            acks: Keyed::new(),
            compacted: Keyed::new(),
            likes: Keyed::new(),
            playlists: Keyed::new(),
            items: Keyed::new(),
            applied_playback: Keyed::new(),
            local_playback: None,
            remote_playback: Keyed::new(),
            last_sync: None,
            last_error: None,
        }
    }

    /// The id and the name of this device.
    pub fn identity_summary(&self) -> (r: (String, String))
        ensures
            r.0 == self.device_id,
            r.1 == self.name,
    {
        (self.device_id.clone(), self.name.clone())
    }

    /// Makes an invite with a random id and secret; none if the id is taken.
    /// Of the secret only the hash is kept.
    pub fn create_invite(&mut self, ticket: &str, invite_id: &str, secret: &str, now_ms: i64) -> (r:
        Option<InviteWire>)
        requires
            now_ms + INVITE_TTL_MS <= i64::MAX,
        ensures
            makes_invite(*old(self), *final(self), ticket@, invite_id@, secret@, now_ms, r),
    {
        if self.invites.contains(invite_id) {
            return None;
        }
        let expires_at_ms: i64 = now_ms + INVITE_TTL_MS;
        let row = InviteRow {
            secret_hash: hash_secret(secret),
            expires_at_ms,
            created_at_ms: now_ms,
            used_at_ms: None,
        };
        proof {
            assert(row@ =~= (InviteView {
                secret_hash: crate::digest::digest_hex(secret@),
                expires_at: expires_at_ms,
                created_at: now_ms,
                used_at: None,
            }));
        }
        self.invites.set(invite_id, row);
        Some(
            InviteWire {
                v: 1,
                ticket: ticket.to_owned(),
                device_id: self.device_id.clone(),
                invite_id: invite_id.to_owned(),
                secret: secret.to_owned(),
                expires_at_ms,
            },
        )
    }
}

/// Whether a request to join may be considered: the invite is known and not
/// expired, the secret is right, and the invite was not used, unless for this
/// very request.
pub open spec fn is_valid_request(
    s: DeviceSync,
    invite_id: Seq<char>,
    secret: Seq<char>,
    request_id: Seq<char>,
    now: i64,
) -> bool {
    &&& s.invites@.dom().contains(invite_id)
    &&& s.invites@[invite_id].expires_at >= now
    &&& s.invites@[invite_id].secret_hash == crate::digest::digest_hex(secret)
    &&& s.invites@[invite_id].used_at is None || (s.pending@.dom().contains(request_id)
        && s.pending@[request_id].status == PairingAnswer::Accepted)
}

/// The group that a joining device is in, if it says one.
pub open spec fn said_group(group_id: Option<Seq<char>>) -> Option<Seq<char>> {
    match group_id {
        Some(g) => if is_blank(g) {
            None
        } else {
            Some(g)
        },
        None => None,
    }
}

pub open spec fn at_least_one(n: usize) -> usize {
    if n >= 1 {
        n
    } else {
        1
    }
}

/// Whether the joining device is in another group with more devices, so that
/// one of the two groups has to give way.
pub open spec fn is_conflict(s: DeviceSync, r: PairRequest) -> bool {
    (said_group(opt_view(r.group_id)) matches Some(g) && g != s.group_id@) && at_least_one(
        r.group_active_devices,
    ) > 1
}

/// The row of a new request to join, from a device at an address.
pub open spec fn new_pending(r: PairRequest, endpoint_id: Seq<char>, now: i64) -> PendingView {
    PendingView {
        device_id: r.profile.device_id@,
        name: r.profile.name@,
        client_version: r.profile.client_version@,
        endpoint_id,
        endpoint_ticket: r.profile.endpoint_ticket@,
        invite_id: r.invite_id@,
        created_at: now,
        answered_at: None,
        status: PairingAnswer::Pending,
        group_id: said_group(opt_view(r.group_id)),
        group_active: at_least_one(r.group_active_devices),
        group_devices: r.devices@,
        use_requester_group: false,
    }
}

/// What the person is asked about a new request.
pub open spec fn asks(s: DeviceSync, r: PairRequest, q: PendingPairing) -> bool {
    &&& q.request_id@ == request_name(r.invite_id@, r.profile.device_id@)
    &&& q.device_id@ == r.profile.device_id@
    &&& q.name@ == r.profile.name@
    &&& q.client_version@ == r.profile.client_version@
    &&& opt_view(q.requester_group_id) == (if is_conflict(s, r) {
        said_group(opt_view(r.group_id))
    } else {
        None
    })
    &&& q.requester_group_active_devices == (if is_conflict(s, r) {
        at_least_one(r.group_active_devices)
    } else {
        0
    })
}

fn clone_profile(p: &DeviceProfileWire) -> (r: DeviceProfileWire)
    ensures
        r == *p,
{
    DeviceProfileWire {
        device_id: p.device_id.clone(),
        name: p.name.clone(),
        client_version: p.client_version.clone(),
        protocol_version: p.protocol_version,
        endpoint_id: p.endpoint_id.clone(),
        endpoint_ticket: p.endpoint_ticket.clone(),
        revoked: p.revoked,
        revoke_cutoff_seq: p.revoke_cutoff_seq,
        updated_at_ms: p.updated_at_ms,
    }
}

fn clone_profiles(ps: &Vec<DeviceProfileWire>) -> (r: Vec<DeviceProfileWire>)
    ensures
        r@ == ps@,
{
    let mut out: Vec<DeviceProfileWire> = Vec::new();
    let mut i: usize = 0;
    while i < ps.len()
        invariant
            i <= ps@.len(),
            out@ == ps@.take(i as int),
        decreases ps@.len() - i,
    {
        out.push(clone_profile(&ps[i]));
        proof {
            assert(out@ =~= ps@.take(i + 1));
        }
        i += 1;
    }
    proof {
        assert(ps@.take(ps@.len() as int) =~= ps@);
    }
    out
}

/// What a request to join is answered at first.
#[derive(Clone, Copy, PartialEq, Eq, Structural, Debug)]
pub enum Admission {
    /// The invite is not valid.
    Invalid,
    /// The person has not answered yet.
    Pending,
    /// The person said no.
    Denied,
    /// The person said yes; whether the group of the joining device is to be
    /// used.
    Accepted { use_requester_group: bool },
}

impl Admission {
    /// What the joining device is told when it is not let in.
    pub fn refusal(&self) -> (r: Option<(bool, &'static str)>)
        ensures
            match *self {
                Admission::Invalid => r matches Some(x) && !x.0 && x.1@
                    == "invalid or expired invite"@,
                Admission::Pending => r matches Some(x) && x.0 && x.1@ == "pairing pending"@,
                Admission::Denied => r matches Some(x) && !x.0 && x.1@ == "pairing denied"@,
                Admission::Accepted { .. } => r is None,
            },
    {
        match self {
            Admission::Invalid => Some((false, "invalid or expired invite")),
            Admission::Pending => Some((true, "pairing pending")),
            Admission::Denied => Some((false, "pairing denied")),
            Admission::Accepted { .. } => None,
        }
    }
}

/// What an admitted request is answered, by its row.
pub open spec fn admission_of(p: PendingView) -> Admission {
    match p.status {
        PairingAnswer::Pending => Admission::Pending,
        PairingAnswer::Denied => Admission::Denied,
        PairingAnswer::Accepted => Admission::Accepted {
            use_requester_group: p.use_requester_group,
        },
    }
}

impl DeviceSync {
    /// Whether a request to join may be considered.
    pub fn valid_pair_request(&self, invite_id: &str, secret: &str, request_id: &str, now_ms: i64) -> (r:
        bool)
        ensures
            r == is_valid_request(*self, invite_id@, secret@, request_id@, now_ms),
    {
        match self.invites.get(invite_id) {
            None => false,
            Some(row) => {
                let hash = hash_secret(secret);
                if row.expires_at_ms < now_ms || !same(row.secret_hash.as_str(), hash.as_str()) {
                    return false;
                }
                if row.used_at_ms.is_none() {
                    return true;
                }
                match self.pending.get(request_id) {
                    Some(p) => p.status == PairingAnswer::Accepted,
                    None => false,
                }
            },
        }
    }

    /// Considers a request to join from a device at an address: a new one is
    /// noted, and the person is asked. Gives how it stands, and what the
    /// person is to be asked.
    pub fn admit_pair_request(&mut self, request: &PairRequest, endpoint_id: &str, now_ms: i64) -> (r: (
        Admission,
        Option<PendingPairing>,
    ))
        ensures
            admits(*old(self), *final(self), *request, endpoint_id@, now_ms, r.0, r.1),
    {
        let request_id = pair_request_id(
            request.invite_id.as_str(),
            request.profile.device_id.as_str(),
        );
        if !self.valid_pair_request(
            request.invite_id.as_str(),
            request.secret.as_str(),
            request_id.as_str(),
            now_ms,
        ) {
            return (Admission::Invalid, None);
        }
        let group = match &request.group_id {
            Some(g) => if blank(g.as_str()) {
                None
            } else {
                Some(g.clone())
            },
            None => None,
        };
        let active_devices: usize = if request.group_active_devices >= 1 {
            request.group_active_devices
        } else {
            1
        };
        let other = match &group {
            Some(g) => !same(g.as_str(), self.group_id.as_str()),
            None => false,
        };
        let conflict = other && active_devices > 1;
        let mut asked: Option<PendingPairing> = None;
        if !self.pending.contains(request_id.as_str()) {
            let row = PendingRow {
                device_id: request.profile.device_id.clone(),
                name: request.profile.name.clone(),
                client_version: request.profile.client_version.clone(),
                endpoint_id: endpoint_id.to_owned(),
                endpoint_ticket: request.profile.endpoint_ticket.clone(),
                invite_id: request.invite_id.clone(),
                created_at_ms: now_ms,
                answered_at_ms: None,
                status: PairingAnswer::Pending,
                requester_group_id: group.clone(),
                requester_group_active_devices: active_devices,
                requester_group_devices: clone_profiles(&request.devices),
                use_requester_group: false,
            };
            proof {
                assert(row@ =~= new_pending(*request, endpoint_id@, now_ms));
            }
            self.pending.set(request_id.as_str(), row);
            let shown = if conflict {
                group
            } else {
                None
            };
            asked = Some(
                PendingPairing {
                    request_id: request_id.clone(),
                    device_id: request.profile.device_id.clone(),
                    name: request.profile.name.clone(),
                    client_version: request.profile.client_version.clone(),
                    requester_group_id: shown,
                    requester_group_active_devices: if conflict {
                        active_devices
                    } else {
                        0
                    },
                },
            );
        }
        let admission = match self.pending.get(request_id.as_str()) {
            Some(p) => match p.status {
                PairingAnswer::Pending => Admission::Pending,
                PairingAnswer::Denied => Admission::Denied,
                PairingAnswer::Accepted => Admission::Accepted {
                    use_requester_group: p.use_requester_group,
                },
            },
            None => Admission::Denied,
        };
        (admission, asked)
    }
}

/// What considering a request to join changes, how the request stands, and
/// what the person is asked.
pub open spec fn admits(
    a: DeviceSync,
    b: DeviceSync,
    r: PairRequest,
    endpoint_id: Seq<char>,
    now: i64,
    admission: Admission,
    asked: Option<PendingPairing>,
) -> bool {
    let id = request_name(r.invite_id@, r.profile.device_id@);
    if !is_valid_request(a, r.invite_id@, r.secret@, id, now) {
        b == a && admission == Admission::Invalid && asked is None
    } else {
        &&& b.pending@ == (if a.pending@.dom().contains(id) {
            a.pending@
        } else {
            a.pending@.insert(id, new_pending(r, endpoint_id, now))
        })
        &&& b == DeviceSync { pending: b.pending, ..a }
        &&& admission == admission_of(b.pending@[id])
        &&& asked is Some == !a.pending@.dom().contains(id)
        &&& asked matches Some(q) ==> asks(a, r, q)
    }
}

} // verus!
