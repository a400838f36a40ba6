//! The conversation of two devices: what each tells the other, and what it
//! does with the answer.

use crate::devices::exchange::{has_room, places, takes_in};
use crate::devices::gc::gc_step;
use crate::devices::model::{
    DeviceProfileWire, PendingPairing, PlaybackSnapshot, SyncOpPayload, SyncOpWire, SyncSnapshot,
    PROTOCOL_VERSION,
};
use crate::devices::pairing::{
    admits, said_group, Address, Admission, Hello, News, PairAttempt, PairRequest, PairResponse,
    SyncResponse, Told,
};
use crate::devices::peers::{
    acks_of, active_count, batch_for, bumped_all, clock_text, own_profile_of, own_row, short_id,
    told_profiles,
};
use crate::devices::record::record_step;
use crate::devices::snapshot::tells;
use crate::devices::sync::{
    profiled, profiled_all, DeviceSync, InviteRow, InviteView, PairingAnswer, PendingView, World,
};
use crate::devices::trust::{active, DeviceView, Devices};
use crate::federation::track::first_chars;
use crate::library::tables::Library;
use crate::lists::{picked, within};
use crate::text::{blank, opt_view, same};
use vstd::prelude::*;

verus! {

/// What a device tells another.
pub open spec fn told_to(
    s: DeviceSync,
    l: Library,
    peer: Seq<char>,
    oldest_command_ms: i64,
    t: Told,
) -> bool {
    &&& t.devices@ == told_profiles(s)
    &&& t.vector@ == s.vectors.items()
    &&& within(t.ops@, s.ops@.len() as int)
    &&& picked(s.ops@, t.ops@) == batch_for(s, peer, oldest_command_ms)
    &&& tells(s, l, t.snapshot)
}

/// Whether the playback of another device is news.
pub open spec fn is_news(m: Map<Seq<char>, i64>, own: Seq<char>, p: Option<PlaybackSnapshot>) -> bool {
    p matches Some(s) && s.device_id@ != own && (!m.dom().contains(s.device_id@) || s.updated_at_ms
        > m[s.device_id@])
}

/// What is known of the playback of other devices once one more was heard of.
pub open spec fn heard_playback(
    m: Map<Seq<char>, i64>,
    own: Seq<char>,
    p: Option<PlaybackSnapshot>,
) -> Map<Seq<char>, i64> {
    if is_news(m, own, p) {
        m.insert(p->0.device_id@, p->0.updated_at_ms)
    } else {
        m
    }
}

/// The group that takes the place of this one, if any.
pub open spec fn adopted(r: PairRequest, use_requester_group: bool) -> Option<Seq<char>> {
    if use_requester_group {
        said_group(opt_view(r.group_id))
    } else {
        None
    }
}

/// The devices with this one brought up to date.
pub open spec fn with_own(s: DeviceSync, address: Address, now: i64) -> Devices {
    s.devices@.insert(
        s.device_id@,
        own_row(
            s.devices@,
            s,
            address.client_version@,
            address.endpoint_id@,
            address.ticket@,
            now,
        ),
    )
}

/// The profile of the device at the other end, at the address where it is.
pub open spec fn at_address(p: DeviceProfileWire, endpoint_id: String) -> DeviceProfileWire {
    DeviceProfileWire { endpoint_id, ..p }
}

/// The state of a device that lets another in, before it takes over what the
/// other knows.
pub open spec fn opened_to(
    a: DeviceSync,
    m: DeviceSync,
    r: PairRequest,
    use_requester_group: bool,
    endpoint_id: String,
    address: Address,
    now: i64,
) -> bool {
    let own = a.device_id@;
    let base = with_own(a, address, now);
    let group = adopted(r, use_requester_group);
    &&& m.group_id@ == match group {
        Some(g) => g,
        None => a.group_id@,
    }
    &&& m.devices@ == profiled(
        if group is Some {
            profiled_all(base, own, r.devices@, now)
        } else {
            base
        },
        own,
        at_address(r.profile, endpoint_id),
        true,
        now,
    )
    &&& m.remote_playback@ == heard_playback(a.remote_playback@, own, r.playback)
    &&& m == DeviceSync {
        group_id: m.group_id,
        devices: m.devices,
        remote_playback: m.remote_playback,
        ..a
    }
}

/// The invites once one was used.
pub open spec fn used_invite(m: Map<Seq<char>, InviteView>, id: Seq<char>, now: i64) -> Map<
    Seq<char>,
    InviteView,
> {
    if m.dom().contains(id) {
        m.insert(id, InviteView { used_at: Some(now), ..m[id] })
    } else {
        m
    }
}

/// A note on how the last synchronisation went.
pub open spec fn note_text(now: i64, what: Seq<char>, device_id: Seq<char>) -> Seq<char> {
    clock_text(now) + " · "@ + (what + first_chars(device_id, 10))
}

/// What letting a device in changes.
pub open spec fn lets_in(
    a: World,
    b: World,
    r: PairRequest,
    use_requester_group: bool,
    endpoint_id: String,
    address: Address,
    now: i64,
    changed: bool,
    commands: Seq<int>,
    m: DeviceSync,
    y: World,
) -> bool {
    let peer = r.profile.device_id@;
    &&& opened_to(a.sync, m, r, use_requester_group, endpoint_id, address, now)
    &&& takes_in(
        World { sync: m, library: a.library },
        y,
        r.snapshot,
        r.ops@,
        now,
        changed,
        commands,
    )
    &&& b.library == y.library
    &&& b.sync.acks@ == y.sync.acks@.insert(
        peer,
        bumped_all(acks_of(y.sync.acks@, peer), r.vector@),
    )
    &&& b.sync.invites@ == used_invite(y.sync.invites@, r.invite_id@, now)
    &&& b.sync.last_sync matches Some(t) && t@ == note_text(now, "paired "@, peer)
    &&& b.sync == DeviceSync {
        acks: b.sync.acks,
        invites: b.sync.invites,
        last_sync: b.sync.last_sync,
        ..y.sync
    }
}

/// How a request to join was handled.
pub enum PairOutcome {
    /// The device is not let in, for now or for good; what the person is to
    /// be asked.
    Refused { admission: Admission, asked: Option<PendingPairing> },
    /// The device is let in.
    LetIn { group_id: String, profile: DeviceProfileWire, told: Told, news: News },
}

/// What handling a request to join does.
pub open spec fn pairs(
    a: World,
    b: World,
    r: PairRequest,
    endpoint_id: String,
    address: Address,
    now: i64,
    oldest_command_ms: i64,
    outcome: PairOutcome,
) -> bool {
    match outcome {
        PairOutcome::Refused { admission, asked } => {
            &&& !(admission is Accepted)
            &&& admits(a.sync, b.sync, r, endpoint_id@, now, admission, asked)
            &&& b.library == a.library
        },
        PairOutcome::LetIn { group_id, profile, told, news } => exists|
            s: DeviceSync,
            use_group: bool,
            m: DeviceSync,
            y: World,
        | #[trigger]
            let_in_through(
                a,
                b,
                r,
                endpoint_id,
                address,
                now,
                oldest_command_ms,
                group_id,
                profile,
                told,
                news,
                s,
                use_group,
                m,
                y,
            ),
    }
}

/// A device is let in: the request was accepted, and the two exchange what
/// they know.
pub open spec fn let_in_through(
    a: World,
    b: World,
    r: PairRequest,
    endpoint_id: String,
    address: Address,
    now: i64,
    oldest_command_ms: i64,
    group_id: String,
    profile: DeviceProfileWire,
    told: Told,
    news: News,
    s: DeviceSync,
    use_group: bool,
    m: DeviceSync,
    y: World,
) -> bool {
    &&& admits(
        a.sync,
        s,
        r,
        endpoint_id@,
        now,
        Admission::Accepted { use_requester_group: use_group },
        None,
    )
    &&& lets_in(
        World { sync: s, library: a.library },
        b,
        r,
        use_group,
        endpoint_id,
        address,
        now,
        news.changed,
        places(news.commands@),
        m,
        y,
    )
    &&& group_id@ == m.group_id@
    &&& own_profile_of(
        s,
        address.client_version@,
        address.endpoint_id@,
        address.ticket@,
        now,
        profile,
    )
    &&& told_to(b.sync, b.library, r.profile.device_id@, oldest_command_ms, told)
    &&& news.playback == is_news(a.sync.remote_playback@, a.sync.device_id@, r.playback)
}

proof fn lemma_pairs(
    a: World,
    b: World,
    r: PairRequest,
    endpoint_id: String,
    address: Address,
    now: i64,
    oldest_command_ms: i64,
    group_id: String,
    profile: DeviceProfileWire,
    told: Told,
    news: News,
    s: DeviceSync,
    use_group: bool,
    m: DeviceSync,
    y: World,
)
    requires
        let_in_through(
            a,
            b,
            r,
            endpoint_id,
            address,
            now,
            oldest_command_ms,
            group_id,
            profile,
            told,
            news,
            s,
            use_group,
            m,
            y,
        ),
    ensures
        pairs(
            a,
            b,
            r,
            endpoint_id,
            address,
            now,
            oldest_command_ms,
            PairOutcome::LetIn { group_id, profile, told, news },
        ),
{
    let outcome = PairOutcome::LetIn { group_id, profile, told, news };
    assert(outcome->group_id == group_id);
    assert(outcome->profile == profile);
    assert(outcome->told == told);
    assert(outcome->news == news);
}

impl DeviceSync {
    /// What this device tells another.
    pub fn tell(&self, library: &Library, peer_device_id: &str, oldest_command_ms: i64) -> (r: Told)
        ensures
            told_to(*self, *library, peer_device_id@, oldest_command_ms, r),
    {
        Told {
            devices: self.device_profiles(),
            vector: self.vector(),
            ops: self.ops_for_peer(peer_device_id, oldest_command_ms),
            snapshot: self.snapshot(library),
        }
    }

    fn hear_playback(&mut self, playback: &Option<PlaybackSnapshot>) -> (r: bool)
        ensures
            r == is_news(old(self).remote_playback@, old(self).device_id@, *playback),
            final(self).remote_playback@ == heard_playback(
                old(self).remote_playback@,
                old(self).device_id@,
                *playback,
            ),
            *final(self) == (DeviceSync {
                remote_playback: final(self).remote_playback,
                ..*old(self)
            }),
    {
        match playback {
            Some(p) => self.apply_playback_snapshot(p),
            None => false,
        }
    }

    fn note_sync(&mut self, what: &str, device_id: &str, now_ms: i64)
        ensures
            final(self).last_sync matches Some(t) && t@ == note_text(now_ms, what@, device_id@),
            *final(self) == (DeviceSync { last_sync: final(self).last_sync, ..*old(self) }),
    {
        let mut message = what.to_owned();
        message.append(short_id(device_id).as_str());
        self.set_last_sync(Some(message), now_ms);
    }

    fn use_invite(&mut self, invite_id: &str, now_ms: i64)
        ensures
            final(self).invites@ == used_invite(old(self).invites@, invite_id@, now_ms),
            *final(self) == (DeviceSync { invites: final(self).invites, ..*old(self) }),
    {
        let found = match self.invites.get(invite_id) {
            Some(i) => Some(
                InviteRow {
                    secret_hash: i.secret_hash.clone(),
                    expires_at_ms: i.expires_at_ms,
                    created_at_ms: i.created_at_ms,
                    used_at_ms: Some(now_ms),
                },
            ),
            None => None,
        };
        if let Some(row) = found {
            let ghost before = self.invites@;
            proof {
                assert(row@ =~= (InviteView {
                    used_at: Some(now_ms),
                    ..before[invite_id@]
                }));
            }
            self.invites.set(invite_id, row);
        }
    }

    /// Handles a request to join from a device at an address. The invite and
    /// its secret decide whether the request is considered, and the person
    /// whether the device is let in; a device that is let in is trusted from
    /// now on, and the two exchange what they know.
    pub fn handle_pair_request(
        &mut self,
        library: &mut Library,
        request: PairRequest,
        endpoint_id: String,
        address: &Address,
        now_ms: i64,
        oldest_command_ms: i64,
    ) -> (r: PairOutcome)
        requires
            has_room(
                *old(library),
                (request.snapshot.playlists@.len() + request.ops@.len()) as int,
            ),
        ensures
            pairs(
                World { sync: *old(self), library: *old(library) },
                World { sync: *final(self), library: *final(library) },
                request,
                endpoint_id,
                *address,
                now_ms,
                oldest_command_ms,
                r,
            ),
    {
        let ghost a = World { sync: *self, library: *library };
        let ghost req = request;
        let (admission, asked) = self.admit_pair_request(&request, endpoint_id.as_str(), now_ms);
        let use_group = match admission {
            Admission::Accepted { use_requester_group } => use_requester_group,
            _ => {
                return PairOutcome::Refused { admission, asked };
            },
        };
        let ghost s = *self;
        let own = self.own_profile(
            address.client_version.as_str(),
            address.endpoint_id.as_str(),
            address.ticket.as_str(),
            now_ms,
        );
        if use_group {
            if let Some(g) = &request.group_id {
                if !blank(g.as_str()) {
                    self.set_group_id(g.as_str());
                    self.apply_device_profiles(&request.devices, now_ms);
                }
            }
        }
        let group_id = self.group_id.clone();
        let mut profile = request.profile;
        let ghost at = endpoint_id;
        profile.endpoint_id = endpoint_id;
        self.apply_device_profile(&profile, true, now_ms);
        let playback = self.hear_playback(&request.playback);
        let ghost m = *self;
        proof {
            assert(opened_to(s, m, req, use_group, at, *address, now_ms));
        }
        let (changed, commands) = self.take_in(library, &request.snapshot, request.ops, now_ms);
        let ghost y = World { sync: *self, library: *library };
        self.note_peer_vector(profile.device_id.as_str(), &request.vector);
        self.use_invite(request.invite_id.as_str(), now_ms);
        self.note_sync("paired ", profile.device_id.as_str(), now_ms);
        let told = self.tell(library, profile.device_id.as_str(), oldest_command_ms);
        let news = News { changed, commands, playback };
        proof {
            let b = World { sync: *self, library: *library };
            assert(lets_in(
                World { sync: s, library: a.library },
                b,
                req,
                use_group,
                at,
                *address,
                now_ms,
                news.changed,
                places(news.commands@),
                m,
                y,
            ));
            assert(asked is None);
            assert(let_in_through(
                a,
                b,
                req,
                at,
                *address,
                now_ms,
                oldest_command_ms,
                group_id,
                own,
                told,
                news,
                s,
                use_group,
                m,
                y,
            ));
        }
        proof {
            lemma_pairs(
                a,
                World { sync: *self, library: *library },
                req,
                at,
                *address,
                now_ms,
                oldest_command_ms,
                group_id,
                own,
                told,
                news,
                s,
                use_group,
                m,
                y,
            );
        }
        PairOutcome::LetIn { group_id, profile: own, told, news }
    }
}

/// Why a device of another group, or one that is not trusted, is turned away.
#[derive(Clone, Copy, PartialEq, Eq, Structural, Debug)]
pub enum HelloRefusal {
    OtherGroup,
    NotTrusted,
}

impl HelloRefusal {
    pub fn message(&self) -> (r: &'static str)
        ensures
            r@ == match *self {
                HelloRefusal::OtherGroup => "sync group mismatch"@,
                HelloRefusal::NotTrusted => "device is not trusted"@,
            },
    {
        match self {
            HelloRefusal::OtherGroup => "sync group mismatch",
            HelloRefusal::NotTrusted => "device is not trusted",
        }
    }
}

/// How a greeting was handled.
pub enum HelloOutcome {
    Refused(HelloRefusal),
    Accepted { told: Told, news: News },
}

/// Whether a device takes part, or is this one.
pub open spec fn is_trusted(s: DeviceSync, device_id: Seq<char>) -> bool {
    device_id == s.device_id@ || active(s.devices@, device_id)
}

/// Whether a greeting is turned away, and why.
pub open spec fn refusal_of(s: DeviceSync, h: Hello) -> Option<HelloRefusal> {
    if h.group_id@ != s.group_id@ {
        Some(HelloRefusal::OtherGroup)
    } else if !is_trusted(s, h.profile.device_id@) {
        Some(HelloRefusal::NotTrusted)
    } else {
        None
    }
}

/// The devices once one was seen at an address.
pub open spec fn seen_at(m: Devices, id: Seq<char>, endpoint_id: Seq<char>, now: i64) -> Devices {
    if m.dom().contains(id) {
        m.insert(id, DeviceView { last_seen: Some(now), endpoint_id, ..m[id] })
    } else {
        m
    }
}

/// The devices once this one was brought up to date.
pub open spec fn own_updated(s: DeviceSync, m: Devices, address: Address, now: i64) -> Devices {
    m.insert(
        s.device_id@,
        own_row(m, s, address.client_version@, address.endpoint_id@, address.ticket@, now),
    )
}

/// The state of a device that was greeted, before it takes over what the other
/// knows.
pub open spec fn greeted(a: DeviceSync, m: DeviceSync, h: Hello, endpoint_id: String, now: i64) -> bool {
    let own = a.device_id@;
    &&& m.devices@ == profiled_all(
        profiled(a.devices@, own, at_address(h.profile, endpoint_id), false, now),
        own,
        h.devices@,
        now,
    )
    &&& m.remote_playback@ == heard_playback(a.remote_playback@, own, h.playback)
    &&& m == DeviceSync { devices: m.devices, remote_playback: m.remote_playback, ..a }
}

/// What a greeting that is accepted changes before tombstones are removed.
pub open spec fn hears(
    a: World,
    b: World,
    h: Hello,
    endpoint_id: String,
    address: Address,
    now: i64,
    changed: bool,
    commands: Seq<int>,
    m: DeviceSync,
    y: World,
) -> bool {
    let peer = h.profile.device_id@;
    &&& greeted(a.sync, m, h, endpoint_id, now)
    &&& takes_in(
        World { sync: m, library: a.library },
        y,
        h.snapshot,
        h.ops@,
        now,
        changed,
        commands,
    )
    &&& b.library == y.library
    &&& b.sync.acks@ == y.sync.acks@.insert(
        peer,
        bumped_all(acks_of(y.sync.acks@, peer), h.vector@),
    )
    &&& b.sync.devices@ == own_updated(
        y.sync,
        seen_at(y.sync.devices@, peer, endpoint_id@, now),
        address,
        now,
    )
    &&& b.sync.last_sync matches Some(t) && t@ == note_text(now, "synced "@, peer)
    &&& b.sync == DeviceSync {
        acks: b.sync.acks,
        devices: b.sync.devices,
        last_sync: b.sync.last_sync,
        ..y.sync
    }
}

/// What is told after a greeting: what is told anyone, and this device itself
/// once more.
pub open spec fn told_back(
    s: DeviceSync,
    l: Library,
    peer: Seq<char>,
    oldest_command_ms: i64,
    own: DeviceProfileWire,
    t: Told,
) -> bool {
    &&& t.devices@ == told_profiles(s).push(own)
    &&& t.vector@ == s.vectors.items()
    &&& within(t.ops@, s.ops@.len() as int)
    &&& picked(s.ops@, t.ops@) == batch_for(s, peer, oldest_command_ms)
    &&& tells(s, l, t.snapshot)
}

/// What handling a greeting does.
pub open spec fn greets(
    a: World,
    b: World,
    h: Hello,
    endpoint_id: String,
    address: Address,
    now: i64,
    oldest_command_ms: i64,
    outcome: HelloOutcome,
) -> bool {
    match outcome {
        HelloOutcome::Refused(why) => refusal_of(a.sync, h) == Some(why) && b == a,
        HelloOutcome::Accepted { told, news } => refusal_of(a.sync, h) is None && exists|
            m: DeviceSync,
            y: World,
            own: DeviceProfileWire,
        | #[trigger]
            greeted_through(
                a,
                b,
                h,
                endpoint_id,
                address,
                now,
                oldest_command_ms,
                told,
                news,
                m,
                y,
                own,
            ),
    }
}

/// A greeting is accepted, and the two exchange what they know.
pub open spec fn greeted_through(
    a: World,
    b: World,
    h: Hello,
    endpoint_id: String,
    address: Address,
    now: i64,
    oldest_command_ms: i64,
    told: Told,
    news: News,
    m: DeviceSync,
    y: World,
    own: DeviceProfileWire,
) -> bool {
    &&& hears(
        a,
        b,
        h,
        endpoint_id,
        address,
        now,
        news.changed,
        places(news.commands@),
        m,
        y,
    )
    &&& own_profile_of(
        b.sync,
        address.client_version@,
        address.endpoint_id@,
        address.ticket@,
        now,
        own,
    )
    &&& told_back(b.sync, b.library, h.profile.device_id@, oldest_command_ms, own, told)
    &&& news.playback == is_news(a.sync.remote_playback@, a.sync.device_id@, h.playback)
}

proof fn lemma_greets(
    a: World,
    b: World,
    h: Hello,
    endpoint_id: String,
    address: Address,
    now: i64,
    oldest_command_ms: i64,
    told: Told,
    news: News,
    m: DeviceSync,
    y: World,
    own: DeviceProfileWire,
)
    requires
        refusal_of(a.sync, h) is None,
        greeted_through(
            a,
            b,
            h,
            endpoint_id,
            address,
            now,
            oldest_command_ms,
            told,
            news,
            m,
            y,
            own,
        ),
    ensures
        greets(
            a,
            b,
            h,
            endpoint_id,
            address,
            now,
            oldest_command_ms,
            HelloOutcome::Accepted { told, news },
        ),
{
    let outcome = HelloOutcome::Accepted { told, news };
    assert(outcome->told == told);
    assert(outcome->news == news);
}

impl DeviceSync {
    /// Whether a device takes part, or is this one.
    pub fn is_active_trusted(&self, device_id: &str) -> (r: bool)
        ensures
            r == is_trusted(*self, device_id@),
    {
        if same(device_id, self.device_id.as_str()) {
            return true;
        }
        match self.devices.get(device_id) {
            Some(d) => d.trusted_at_ms.is_some() && d.revoked_at_ms.is_none(),
            None => false,
        }
    }

    /// Handles a greeting from a device of the group at an address. The
    /// tombstones that both have seen are removed once the answer is sent.
    pub fn handle_hello(
        &mut self,
        library: &mut Library,
        hello: Hello,
        endpoint_id: String,
        address: &Address,
        now_ms: i64,
        oldest_command_ms: i64,
    ) -> (r: HelloOutcome)
        requires
            has_room(*old(library), (hello.snapshot.playlists@.len() + hello.ops@.len()) as int),
        ensures
            greets(
                World { sync: *old(self), library: *old(library) },
                World { sync: *final(self), library: *final(library) },
                hello,
                endpoint_id,
                *address,
                now_ms,
                oldest_command_ms,
                r,
            ),
    {
        let ghost a = World { sync: *self, library: *library };
        let ghost h = hello;
        let ghost at = endpoint_id;
        if !same(hello.group_id.as_str(), self.group_id.as_str()) {
            return HelloOutcome::Refused(HelloRefusal::OtherGroup);
        }
        if !self.is_active_trusted(hello.profile.device_id.as_str()) {
            return HelloOutcome::Refused(HelloRefusal::NotTrusted);
        }
        let seen = endpoint_id.clone();
        let mut profile = hello.profile;
        profile.endpoint_id = endpoint_id;
        self.apply_device_profile(&profile, false, now_ms);
        self.apply_device_profiles(&hello.devices, now_ms);
        let playback = self.hear_playback(&hello.playback);
        let ghost m = *self;
        proof {
            assert(greeted(a.sync, m, h, at, now_ms));
        }
        let (changed, commands) = self.take_in(library, &hello.snapshot, hello.ops, now_ms);
        let ghost y = World { sync: *self, library: *library };
        self.note_peer_vector(profile.device_id.as_str(), &hello.vector);
        self.mark_seen(profile.device_id.as_str(), Some(seen), now_ms);
        self.note_sync("synced ", profile.device_id.as_str(), now_ms);
        let ghost before = *self;
        let own = self.own_profile(
            address.client_version.as_str(),
            address.endpoint_id.as_str(),
            address.ticket.as_str(),
            now_ms,
        );
        let ghost x = World { sync: *self, library: *library };
        proof {
            assert(before.devices@ =~= seen_at(
                y.sync.devices@,
                h.profile.device_id@,
                at@,
                now_ms,
            ));
            assert(hears(
                a,
                x,
                h,
                at,
                *address,
                now_ms,
                changed,
                places(commands@),
                m,
                y,
            ));
            assert(own_profile_of(
                x.sync,
                address.client_version@,
                address.endpoint_id@,
                address.ticket@,
                now_ms,
                own,
            ));
        }
        let ghost mine = own;
        let mut told = self.tell(library, profile.device_id.as_str(), oldest_command_ms);
        told.devices.push(own);
        let news = News { changed, commands, playback };
        proof {
            assert(told_back(
                x.sync,
                x.library,
                h.profile.device_id@,
                oldest_command_ms,
                mine,
                told,
            ));
            assert(refusal_of(a.sync, h) is None);
            lemma_greets(a, x, h, at, *address, now_ms, oldest_command_ms, told, news, m, y, mine);
        }
        HelloOutcome::Accepted { told, news }
    }
}

// ---------------------------------------------------------------------------
// The answers
// ---------------------------------------------------------------------------

/// The state of a device that was let in, before it takes over what the other
/// knows.
pub open spec fn joined(a: DeviceSync, m: DeviceSync, r: PairResponse, now: i64) -> bool {
    let own = a.device_id@;
    &&& r.group_id matches Some(g) && m.group_id@ == g@
    &&& m.devices@ == profiled_all(
        match r.profile {
            Some(p) => profiled(a.devices@, own, p, true, now),
            None => a.devices@,
        },
        own,
        r.devices@,
        now,
    )
    &&& m.remote_playback@ == (if r.profile is Some {
        heard_playback(a.remote_playback@, own, r.playback)
    } else {
        a.remote_playback@
    })
    &&& m == DeviceSync {
        group_id: m.group_id,
        devices: m.devices,
        remote_playback: m.remote_playback,
        ..a
    }
}

/// What being let in changes: the group and what it knows are taken over, the
/// device that let this one in is trusted and told so, and tombstones that
/// every device has seen go.
pub open spec fn joins(
    a: World,
    b: World,
    inviter: Seq<char>,
    r: PairResponse,
    now: i64,
    changed: bool,
    commands: Seq<int>,
    m: DeviceSync,
    y: World,
    z: World,
    x: DeviceSync,
    p: SyncOpPayload,
) -> bool {
    &&& joined(a.sync, m, r, now)
    &&& takes_in(
        World { sync: m, library: a.library },
        y,
        r.snapshot,
        r.ops@,
        now,
        changed,
        commands,
    )
    &&& record_step(y, z, p, now, false)
    &&& p matches SyncOpPayload::DeviceTrusted { target_device_id: t } && t@ == inviter
    &&& x.acks@ == z.sync.acks@.insert(
        inviter,
        bumped_all(acks_of(z.sync.acks@, inviter), r.vector@),
    )
    &&& x.last_sync matches Some(t) && t@ == note_text(now, "paired with "@, inviter)
    &&& x == DeviceSync { acks: x.acks, last_sync: x.last_sync, ..z.sync }
    &&& gc_step(x, b.sync)
    &&& b.library == z.library
}

/// What an answer to a request to join means.
pub open spec fn pair_answered(
    a: World,
    b: World,
    inviter: Seq<char>,
    r: PairResponse,
    now: i64,
    attempt: PairAttempt,
    news: News,
) -> bool {
    if r.accepted && r.group_id is Some {
        &&& attempt matches PairAttempt::Accepted(t) && t@ == "connected device "@ + first_chars(
            inviter,
            10,
        )
        &&& news.playback == (r.profile is Some && is_news(
            a.sync.remote_playback@,
            a.sync.device_id@,
            r.playback,
        ))
        &&& exists|
            m: DeviceSync,
            y: World,
            z: World,
            x: DeviceSync,
            p: SyncOpPayload,
        | #[trigger]
            joins(
                a,
                b,
                inviter,
                r,
                now,
                news.changed,
                places(news.commands@),
                m,
                y,
                z,
                x,
                p,
            )
    } else {
        &&& b == a
        &&& !news.changed
        &&& news.commands@.len() == 0
        &&& !news.playback
        &&& if r.accepted {
            attempt matches PairAttempt::Failed(t) && t@ == "unexpected pairing response"@
        } else if r.pending {
            attempt is Pending
        } else {
            attempt matches PairAttempt::Denied(t) && t@ == match r.error {
                Some(e) => e@,
                None => "pairing denied"@,
            }
        }
    }
}

fn no_news() -> (r: News)
    ensures
        !r.changed,
        r.commands@.len() == 0,
        !r.playback,
{
    News { changed: false, commands: Vec::new(), playback: false }
}

impl DeviceSync {
    /// Takes the answer of the device that was asked to be let in.
    pub fn finish_pairing(
        &mut self,
        library: &mut Library,
        inviter: &str,
        response: PairResponse,
        now_ms: i64,
    ) -> (r: (PairAttempt, News))
        requires
            has_room(
                *old(library),
                (response.snapshot.playlists@.len() + response.ops@.len()) as int,
            ),
            old(self).local_seq < i64::MAX,
            old(self).last_hlc_ms < i64::MAX,
        ensures
            pair_answered(
                World { sync: *old(self), library: *old(library) },
                World { sync: *final(self), library: *final(library) },
                inviter@,
                response,
                now_ms,
                r.0,
                r.1,
            ),
    {
        let ghost a = World { sync: *self, library: *library };
        let ghost whole = response;
        if !response.accepted {
            let attempt = if response.pending {
                PairAttempt::Pending
            } else {
                match response.error {
                    Some(e) => PairAttempt::Denied(e),
                    None => PairAttempt::Denied("pairing denied".to_owned()),
                }
            };
            return (attempt, no_news());
        }
        let group_id = match &response.group_id {
            Some(g) => g.clone(),
            None => {
                return (
                    PairAttempt::Failed("unexpected pairing response".to_owned()),
                    no_news(),
                );
            },
        };
        self.set_group_id(group_id.as_str());
        let mut playback = false;
        if let Some(p) = &response.profile {
            self.apply_device_profile(p, true, now_ms);
            playback = self.hear_playback(&response.playback);
        }
        self.apply_device_profiles(&response.devices, now_ms);
        let ghost m = *self;
        proof {
            assert(joined(a.sync, m, whole, now_ms));
        }
        let (changed, commands) = self.take_in(library, &response.snapshot, response.ops, now_ms);
        let ghost y = World { sync: *self, library: *library };
        proof {
            lemma_takes_in_clock(
                World { sync: m, library: a.library },
                y,
                whole.snapshot,
                whole.ops@,
                now_ms,
                changed,
                places(commands@),
            );
        }
        let p = SyncOpPayload::DeviceTrusted { target_device_id: inviter.to_owned() };
        let ghost trusted = p;
        let d = self.record_local_op(library, p, now_ms);
        let ghost z = World { sync: *self, library: *library };
        self.note_peer_vector(inviter, &response.vector);
        self.note_sync("paired with ", inviter, now_ms);
        let ghost x = *self;
        self.gc_tombstones();
        let news = News { changed, commands, playback };
        proof {
            assert(record_step(y, z, trusted, now_ms, d));
            assert(joins(
                a,
                World { sync: *self, library: *library },
                inviter@,
                whole,
                now_ms,
                news.changed,
                places(news.commands@),
                m,
                y,
                z,
                x,
                trusted,
            ));
        }
        let mut message = "connected device ".to_owned();
        message.append(short_id(inviter).as_str());
        (PairAttempt::Accepted(message), news)
    }
}

/// Taking over what another device knows leaves the number and the clock of
/// this one alone.
proof fn lemma_takes_in_clock(
    a: World,
    b: World,
    snapshot: SyncSnapshot,
    ops: Seq<SyncOpWire>,
    now: i64,
    changed: bool,
    commands: Seq<int>,
)
    requires
        takes_in(a, b, snapshot, ops, now, changed, commands),
    ensures
        b.sync.local_seq == a.sync.local_seq,
        b.sync.last_hlc_ms == a.sync.last_hlc_ms,
{
    let (x, c1, c2) = choose|x: World, c1: bool, c2: bool| #[trigger]
        crate::devices::exchange::takes(
            a,
            x,
            crate::devices::exchange::snapshot_entries(snapshot),
            c1,
        ) && #[trigger] crate::devices::exchange::receives(x, b, ops, now, c2, commands) && changed
            == (c1 || c2);
    crate::devices::exchange::lemma_takes_keeps_clock(
        a,
        x,
        crate::devices::exchange::snapshot_entries(snapshot),
        c1,
    );
    crate::devices::exchange::lemma_receives_keeps_clock(x, b, ops, now, c2, commands);
}

/// What an answer to a greeting does.
pub open spec fn answered_along(
    a: World,
    b: World,
    peer: Seq<char>,
    endpoint_id: Seq<char>,
    r: SyncResponse,
    now: i64,
    changed: bool,
    commands: Seq<int>,
    m: DeviceSync,
    y: World,
) -> bool {
    let own = a.sync.device_id@;
    &&& m.devices@ == profiled_all(a.sync.devices@, own, r.devices@, now)
    &&& m.remote_playback@ == heard_playback(a.sync.remote_playback@, own, r.playback)
    &&& m == DeviceSync { devices: m.devices, remote_playback: m.remote_playback, ..a.sync }
    &&& takes_in(
        World { sync: m, library: a.library },
        y,
        r.snapshot,
        r.ops@,
        now,
        changed,
        commands,
    )
    &&& b.library == y.library
    &&& b.sync.acks@ == y.sync.acks@.insert(
        peer,
        bumped_all(acks_of(y.sync.acks@, peer), r.vector@),
    )
    &&& b.sync.devices@ == seen_at(y.sync.devices@, peer, endpoint_id, now)
    &&& b.sync.last_sync matches Some(t) && t@ == note_text(now, "synced "@, peer)
    &&& b.sync.last_error is None
    &&& b.sync == DeviceSync {
        acks: b.sync.acks,
        devices: b.sync.devices,
        last_sync: b.sync.last_sync,
        last_error: b.sync.last_error,
        ..y.sync
    }
}

/// What an answer to a greeting does: nothing if the other refused, and the
/// error is what it said.
pub open spec fn sync_answered(
    a: World,
    b: World,
    peer: Seq<char>,
    endpoint_id: Seq<char>,
    r: SyncResponse,
    now: i64,
    result: Result<News, String>,
) -> bool {
    match result {
        Err(e) => {
            &&& !r.accepted
            &&& e@ == match r.error {
                Some(t) => t@,
                None => "sync refused"@,
            }
            &&& b == a
        },
        Ok(news) => {
            &&& r.accepted
            &&& news.playback == is_news(a.sync.remote_playback@, a.sync.device_id@, r.playback)
            &&& exists|m: DeviceSync, y: World| #[trigger]
                answered_along(
                    a,
                    b,
                    peer,
                    endpoint_id,
                    r,
                    now,
                    news.changed,
                    places(news.commands@),
                    m,
                    y,
                )
        },
    }
}

proof fn lemma_sync_answered(
    a: World,
    b: World,
    peer: Seq<char>,
    endpoint_id: Seq<char>,
    r: SyncResponse,
    now: i64,
    news: News,
    m: DeviceSync,
    y: World,
)
    requires
        r.accepted,
        news.playback == is_news(a.sync.remote_playback@, a.sync.device_id@, r.playback),
        answered_along(
            a,
            b,
            peer,
            endpoint_id,
            r,
            now,
            news.changed,
            places(news.commands@),
            m,
            y,
        ),
    ensures
        sync_answered(a, b, peer, endpoint_id, r, now, Ok(news)),
{
}

impl DeviceSync {
    /// Takes the answer of a device that was greeted; an error is what the
    /// other said against it.
    pub fn finish_sync(
        &mut self,
        library: &mut Library,
        peer_device_id: &str,
        endpoint_id: String,
        response: SyncResponse,
        now_ms: i64,
    ) -> (r: Result<News, String>)
        requires
            has_room(
                *old(library),
                (response.snapshot.playlists@.len() + response.ops@.len()) as int,
            ),
        ensures
            sync_answered(
                World { sync: *old(self), library: *old(library) },
                World { sync: *final(self), library: *final(library) },
                peer_device_id@,
                endpoint_id@,
                response,
                now_ms,
                r,
            ),
    {
        let ghost a = World { sync: *self, library: *library };
        let ghost whole = response;
        let ghost at = endpoint_id@;
        if !response.accepted {
            return match response.error {
                Some(e) => Err(e),
                None => Err("sync refused".to_owned()),
            };
        }
        self.apply_device_profiles(&response.devices, now_ms);
        let playback = self.hear_playback(&response.playback);
        let ghost m = *self;
        let (changed, commands) = self.take_in(library, &response.snapshot, response.ops, now_ms);
        let ghost y = World { sync: *self, library: *library };
        self.note_peer_vector(peer_device_id, &response.vector);
        self.mark_seen(peer_device_id, Some(endpoint_id), now_ms);
        self.note_sync("synced ", peer_device_id, now_ms);
        self.set_last_error(None);
        let news = News { changed, commands, playback };
        proof {
            assert(self.devices@ =~= seen_at(y.sync.devices@, peer_device_id@, at, now_ms));
            assert(answered_along(
                a,
                World { sync: *self, library: *library },
                peer_device_id@,
                at,
                whole,
                now_ms,
                news.changed,
                places(news.commands@),
                m,
                y,
            ));
            lemma_sync_answered(
                a,
                World { sync: *self, library: *library },
                peer_device_id@,
                at,
                whole,
                now_ms,
                news,
                m,
                y,
            );
        }
        Ok(news)
    }
}

// ---------------------------------------------------------------------------
// The answer of the person
// ---------------------------------------------------------------------------

/// The requests once one was answered.
pub open spec fn answered_pending(
    m: Map<Seq<char>, PendingView>,
    id: Seq<char>,
    accept: bool,
    use_requester_group: bool,
    now: i64,
) -> Map<Seq<char>, PendingView> {
    m.insert(
        id,
        PendingView {
            status: if accept {
                PairingAnswer::Accepted
            } else {
                PairingAnswer::Denied
            },
            answered_at: Some(now),
            use_requester_group,
            ..m[id]
        },
    )
}

/// Whether a request waits for an answer.
pub open spec fn waits(s: DeviceSync, id: Seq<char>) -> bool {
    s.pending@.dom().contains(id) && s.pending@[id].status == PairingAnswer::Pending
}

/// What a yes changes before the others are told.
pub open spec fn welcomes(
    a: DeviceSync,
    m: DeviceSync,
    id: Seq<char>,
    use_requester_group: bool,
    now: i64,
    profile: DeviceProfileWire,
) -> bool {
    let p = a.pending@[id];
    let own = a.device_id@;
    &&& profile.device_id@ == p.device_id
    &&& profile.name@ == p.name
    &&& profile.client_version@ == p.client_version
    &&& profile.protocol_version == PROTOCOL_VERSION
    &&& profile.endpoint_id@ == p.endpoint_id
    &&& profile.endpoint_ticket@ == p.endpoint_ticket
    &&& !profile.revoked
    &&& profile.revoke_cutoff_seq is None
    &&& profile.updated_at_ms == p.created_at
    &&& m.pending@ == answered_pending(a.pending@, id, true, use_requester_group, now)
    &&& m.group_id@ == (if use_requester_group {
        match said_group(p.group_id) {
            Some(g) => g,
            None => a.group_id@,
        }
    } else {
        a.group_id@
    })
    &&& m.devices@ == profiled(
        if use_requester_group {
            profiled_all(a.devices@, own, p.group_devices, now)
        } else {
            a.devices@
        },
        own,
        profile,
        true,
        now,
    )
    &&& m == DeviceSync { pending: m.pending, group_id: m.group_id, devices: m.devices, ..a }
}

/// What the answer of the person to a waiting device changes.
pub open spec fn answers_pairing(
    a: World,
    b: World,
    id: Seq<char>,
    accept: bool,
    use_requester_group: bool,
    now_ms: i64,
) -> bool {
    if !waits(a.sync, id) {
        b == a
    } else if !accept {
        &&& b.sync.pending@ == answered_pending(
            a.sync.pending@,
            id,
            false,
            use_requester_group,
            now_ms,
        )
        &&& b.sync == (DeviceSync { pending: b.sync.pending, ..a.sync })
        &&& b.library == a.library
    } else {
        exists|m: DeviceSync, profile: DeviceProfileWire, p: SyncOpPayload|
            #![trigger welcomes(a.sync, m, id, use_requester_group, now_ms,
                profile), record_step(World { sync: m, library: a.library },
                b, p, now_ms, false)]
            welcomes(
                a.sync,
                m,
                id,
                use_requester_group,
                now_ms,
                profile,
            ) && record_step(
                World { sync: m, library: a.library },
                b,
                p,
                now_ms,
                false,
            ) && (p matches SyncOpPayload::DeviceTrusted { target_device_id: t } && t@
                == a.sync.pending@[id].device_id)
    }
}

impl DeviceSync {
    /// Takes the answer of the person to a request to join. Only one that
    /// waits is answered. A device that is let in is trusted, and the others
    /// are told so; if wanted, its group takes the place of this one.
    pub fn answer_pairing(
        &mut self,
        library: &mut Library,
        request_id: &str,
        accept: bool,
        use_requester_group: bool,
        now_ms: i64,
    )
        requires
            old(self).local_seq < i64::MAX,
            old(self).last_hlc_ms < i64::MAX,
            has_room(*old(library), 0),
        ensures
            answers_pairing(
                World { sync: *old(self), library: *old(library) },
                World { sync: *final(self), library: *final(library) },
                request_id@,
                accept,
                use_requester_group,
                now_ms,
            ),
    {
        let ghost a = *self;
        let waiting = match self.pending.get(request_id) {
            Some(p) => p.status == PairingAnswer::Pending,
            None => false,
        };
        if !waiting {
            return;
        }
        let ghost row_view = self.pending@[request_id@];
        let mut row = match self.pending.take(request_id) {
            Some(p) => p,
            None => {
                return;
            },
        };
        row.status = if accept {
            PairingAnswer::Accepted
        } else {
            PairingAnswer::Denied
        };
        row.answered_at_ms = Some(now_ms);
        row.use_requester_group = use_requester_group;
        let profile = DeviceProfileWire {
            device_id: row.device_id.clone(),
            name: row.name.clone(),
            client_version: row.client_version.clone(),
            protocol_version: PROTOCOL_VERSION,
            endpoint_id: row.endpoint_id.clone(),
            endpoint_ticket: row.endpoint_ticket.clone(),
            revoked: false,
            revoke_cutoff_seq: None,
            updated_at_ms: row.created_at_ms,
        };
        if accept && use_requester_group {
            if let Some(g) = &row.requester_group_id {
                if !blank(g.as_str()) {
                    self.set_group_id(g.as_str());
                }
            }
            self.apply_device_profiles(&row.requester_group_devices, now_ms);
        }
        proof {
            assert(row@ =~= (PendingView {
                status: row.status,
                answered_at: Some(now_ms),
                use_requester_group,
                ..row_view
            }));
        }
        self.pending.set(request_id, row);
        proof {
            assert(self.pending@ =~= answered_pending(
                a.pending@,
                request_id@,
                accept,
                use_requester_group,
                now_ms,
            ));
        }
        if !accept {
            return;
        }
        self.apply_device_profile(&profile, true, now_ms);
        let ghost m = *self;
        let ghost l = *library;
        let ghost who = profile;
        proof {
            assert(welcomes(a, m, request_id@, use_requester_group, now_ms, who));
        }
        let p = SyncOpPayload::DeviceTrusted { target_device_id: profile.device_id };
        let ghost trusted = p;
        let d = self.record_local_op(library, p, now_ms);
        proof {
            assert(record_step(
                World { sync: m, library: l },
                World { sync: *self, library: *library },
                trusted,
                now_ms,
                d,
            ));
            assert(!d);
            let from = World { sync: a, library: l };
            assert(welcomes(from.sync, m, request_id@, use_requester_group, now_ms, who));
            assert(record_step(
                World { sync: m, library: from.library },
                World { sync: *self, library: *library },
                trusted,
                now_ms,
                false,
            ));
        }
    }
}

/// What a device asks to be let in with.
pub struct Asking {
    pub profile: DeviceProfileWire,
    pub group_id: String,
    pub group_active_devices: usize,
    pub told: Told,
}

impl DeviceSync {
    /// What this device sends to be let in by another.
    pub fn ask(
        &mut self,
        library: &Library,
        inviter: &str,
        address: &Address,
        now_ms: i64,
        oldest_command_ms: i64,
    ) -> (r: Asking)
        ensures
            own_profile_of(
                *old(self),
                address.client_version@,
                address.endpoint_id@,
                address.ticket@,
                now_ms,
                r.profile,
            ),
            final(self).devices@ == with_own(*old(self), *address, now_ms),
            *final(self) == (DeviceSync { devices: final(self).devices, ..*old(self) }),
            r.group_id@ == old(self).group_id@,
            r.group_active_devices == active_count(*old(self)),
            told_to(*final(self), *library, inviter@, oldest_command_ms, r.told),
    {
        let group_active_devices = self.active_device_count();
        let profile = self.own_profile(
            address.client_version.as_str(),
            address.endpoint_id.as_str(),
            address.ticket.as_str(),
            now_ms,
        );
        let told = self.tell(library, inviter, oldest_command_ms);
        Asking { profile, group_id: self.group_id.clone(), group_active_devices, told }
    }
}

} // verus!
