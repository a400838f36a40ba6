//! A shared session: one device plays, others that hold its invite steer it.

use crate::devices::model::{playback_view, PlaybackCommand, PlaybackSnapshot};
use crate::keyed::{kept, Keyed};
use crate::lists::{at_most, holds_text, retain_by};
use crate::text::{opt_view, same, trimmed, views};
use vstd::prelude::*;

verus! {

pub const PROTOCOL_VERSION: u16 = 1;

/// The longest message.
pub const MAX_LINE: usize = 8_388_608;

/// How many commands wait, and how many are taken at once.
pub const MAX_COMMANDS: usize = 128;

/// How many commands are remembered.
pub const MAX_SEEN: usize = 4096;

/// How long a participant is remembered, and how long one stays without
/// playback or commands.
pub const PARTICIPANT_TTL_MS: i64 = 1_800_000;

#[derive(Clone, Copy, PartialEq, Eq, Structural, Debug)]
pub enum JamRole {
    /// In no session.
    Idle,
    Host,
    Participant,
}

#[derive(Debug)]
pub struct JamParticipant {
    pub participant_id: String,
    pub name: String,
    pub last_seen_ms: i64,
}

#[verifier::ext_equal]
pub struct ParticipantView {
    pub participant_id: Seq<char>,
    pub name: Seq<char>,
    pub last_seen: i64,
}

impl View for JamParticipant {
    type V = ParticipantView;

    open spec fn view(&self) -> ParticipantView {
        ParticipantView {
            participant_id: self.participant_id@,
            name: self.name@,
            last_seen: self.last_seen_ms,
        }
    }
}

impl Clone for JamParticipant {
    fn clone(&self) -> (r: Self)
        ensures
            r == *self,
    {
        JamParticipant {
            participant_id: self.participant_id.clone(),
            name: self.name.clone(),
            last_seen_ms: self.last_seen_ms,
        }
    }
}

/// What a person is shown of the session.
#[derive(Debug)]
pub struct JamStatus {
    pub role: JamRole,
    pub host_name: Option<String>,
    pub invite: Option<String>,
    pub participants: Vec<JamParticipant>,
    pub connected: bool,
    pub last_error: Option<String>,
}

impl Default for JamStatus {
    fn default() -> (r: Self)
        ensures
            r.role == JamRole::Idle,
            r.host_name is None,
            r.invite is None,
            r.participants@.len() == 0,
            !r.connected,
            r.last_error is None,
    {
        JamStatus {
            role: JamRole::Idle,
            host_name: None,
            invite: None,
            participants: Vec::new(),
            connected: false,
            last_error: None,
        }
    }
}

/// What an invite to a session carries.
#[derive(Debug)]
pub struct JamInvite {
    pub v: u16,
    pub ticket: String,
    pub jam_id: String,
    pub secret: String,
    pub host_device_id: String,
    pub host_name: String,
}

/// A command of a participant.
#[derive(Debug)]
pub struct JamCommand {
    pub command_id: String,
    pub participant_id: String,
    pub command: PlaybackCommand,
    pub sent_at_ms: i64,
}

/// The side that plays.
pub struct HostState {
    pub invite: Option<JamInvite>,
    pub invite_uri: Option<String>,
    pub playback: Option<PlaybackSnapshot>,
    pub participants: Keyed<JamParticipant>,
    /// The commands that were carried out, the oldest first.
    pub seen: Vec<String>,
}

/// The side that steers.
pub struct JoinedState {
    pub invite: JamInvite,
    pub participant: JamParticipant,
    pub pending: Vec<JamCommand>,
    pub participants: Vec<JamParticipant>,
    pub connected: bool,
    pub last_error: Option<String>,
    pub last_activity_ms: i64,
}

pub struct Jam {
    pub host: HostState,
    pub joined: Option<JoinedState>,
}

/// A side that plays nothing for nobody.
pub open spec fn is_idle(h: HostState) -> bool {
    &&& h.invite is None
    &&& h.invite_uri is None
    &&& h.playback is None
    &&& h.participants@.dom().is_empty()
    &&& h.seen@.len() == 0
}

fn idle_host() -> (r: HostState)
    ensures
        is_idle(r),
{
    HostState {
        invite: None,
        invite_uri: None,
        playback: None,
        participants: Keyed::new(),
        seen: Vec::new(),
    }
}

/// Why an invite to a session cannot be used.
#[derive(Clone, Copy, PartialEq, Eq, Structural, Debug)]
pub enum JamInviteError {
    NotAnInvite,
    /// What it carries is no encoding of bytes.
    Encoding,
    Truncated,
    Version,
    Incomplete,
}

impl JamInviteError {
    pub fn message(&self) -> (r: &'static str)
        ensures
            r@ == match *self {
                JamInviteError::NotAnInvite => "expected frid://j invite"@,
                JamInviteError::Encoding => "invalid base64url Jam invite"@,
                JamInviteError::Truncated => "truncated Jam invite"@,
                JamInviteError::Version => "unsupported Jam invite version"@,
                JamInviteError::Incomplete => "incomplete Jam invite"@,
            },
    {
        match self {
            JamInviteError::NotAnInvite => "expected frid://j invite",
            JamInviteError::Encoding => "invalid base64url Jam invite",
            JamInviteError::Truncated => "truncated Jam invite",
            JamInviteError::Version => "unsupported Jam invite version",
            JamInviteError::Incomplete => "incomplete Jam invite",
        }
    }
}

pub open spec fn jam_prefix() -> Seq<char> {
    "frid://j/"@
}

/// The bytes that an encoding stands for, if its length can be that of one.
pub open spec fn jam_decoded(token: Seq<u8>) -> Result<Seq<u8>, JamInviteError> {
    if token.len() % 4 == 1 {
        Err(JamInviteError::Encoding)
    } else {
        match crate::base64url::decoded(token) {
            Ok(b) => Ok(b),
            Err(crate::base64url::DecodeError::Invalid) => Err(JamInviteError::Encoding),
            Err(crate::base64url::DecodeError::Truncated) => Err(JamInviteError::Truncated),
        }
    }
}

/// The bytes that an invite to a session carries.
pub open spec fn jam_invite_bytes(uri: Seq<char>) -> Result<Seq<u8>, JamInviteError> {
    match crate::share::after_prefix(trimmed(uri), jam_prefix()) {
        None => Err(JamInviteError::NotAnInvite),
        Some(token) => jam_decoded(vstd::utf8::encode_utf8(token)),
    }
}

pub fn decode_jam_invite(uri: &str) -> (r: Result<Vec<u8>, JamInviteError>)
    ensures
        match r {
            Ok(b) => jam_invite_bytes(uri@) == Ok::<Seq<u8>, JamInviteError>(b@),
            Err(e) => jam_invite_bytes(uri@) == Err::<Seq<u8>, JamInviteError>(e),
        },
{
    let chars = crate::text::chars_of(uri);
    let inner = crate::text::trim_chars(&chars);
    let token = match crate::share::strip_prefix(&inner, "frid://j/") {
        Some(t) => t,
        None => {
            return Err(JamInviteError::NotAnInvite);
        },
    };
    let text = crate::text::string_of(&token);
    if text.as_str().as_bytes().len() % 4 == 1 {
        return Err(JamInviteError::Encoding);
    }
    match crate::base64url::base64url_decode(text.as_str()) {
        Ok(b) => Ok(b),
        Err(crate::base64url::DecodeError::Invalid) => Err(JamInviteError::Encoding),
        Err(crate::base64url::DecodeError::Truncated) => Err(JamInviteError::Truncated),
    }
}

/// The link that carries an invite to a session.
pub open spec fn jam_invite_text(bytes: Seq<u8>) -> Seq<char> {
    jam_prefix() + crate::text::ascii_text(crate::base64url::encoded(bytes))
}

pub fn encode_jam_invite(bytes: &[u8]) -> (r: String)
    ensures
        r@ == jam_invite_text(bytes@),
{
    let mut out = "frid://j/".to_owned();
    out.append(crate::base64url::base64url_encode(bytes).as_str());
    out
}

/// Whether an invite can be used, and why not.
pub open spec fn invite_fault(i: JamInvite) -> Option<JamInviteError> {
    if i.v != PROTOCOL_VERSION {
        Some(JamInviteError::Version)
    } else if i.ticket@.len() == 0 || i.jam_id@.len() == 0 || vstd::utf8::encode_utf8(
        i.secret@,
    ).len() < 16 || i.host_device_id@.len() == 0 {
        Some(JamInviteError::Incomplete)
    } else {
        None
    }
}

/// Checks an invite that was read.
pub fn check_jam_invite(invite: &JamInvite) -> (r: Result<(), JamInviteError>)
    ensures
        r == match invite_fault(*invite) {
            Some(e) => Err::<(), JamInviteError>(e),
            None => Ok(()),
        },
{
    if invite.v != PROTOCOL_VERSION {
        return Err(JamInviteError::Version);
    }
    if invite.ticket.as_str().is_empty() || invite.jam_id.as_str().is_empty()
        || invite.secret.as_str().as_bytes().len() < 16
        || invite.host_device_id.as_str().is_empty() {
        return Err(JamInviteError::Incomplete);
    }
    Ok(())
}

/// An invite link is read back as what it was made from.
pub proof fn law_jam_invite_round_trip(bytes: Seq<u8>)
    ensures
        jam_invite_bytes(jam_invite_text(bytes)) == Ok::<Seq<u8>, JamInviteError>(bytes),
{
    reveal_strlit("frid://j/");
    let link = jam_invite_text(bytes);
    let enc = crate::base64url::encoded(bytes);
    let token = crate::text::ascii_text(enc);
    let p = |c: char| crate::text::is_space(c);
    assert(link[0] == 'f');
    assert(!p(link[0]));
    assert(!p(link.last())) by {
        if enc.len() == 0 {
            assert(link =~= jam_prefix());
            assert(link.last() == '/');
        } else {
            crate::base64url::law_base64url_unpadded(bytes, enc.len() - 1);
            assert(link.last() == token.last());
            assert(crate::base64url::sextet(enc.last()) is Some);
        }
    }
    assert(trimmed(link) == link);
    assert(link.take(jam_prefix().len() as int) =~= jam_prefix());
    assert(link.skip(jam_prefix().len() as int) =~= token);
    crate::base64url::law_base64url_round_trip(bytes);
    crate::base64url::lemma_encoded_len(bytes);
    assert forall|i: int| 0 <= i < enc.len() implies enc[i] < 0x80 by {
        crate::base64url::law_base64url_unpadded(bytes, i);
    }
    crate::text::lemma_ascii_text(enc);
}

/// An invite to a session and one to join a group are never taken for each
/// other.
pub proof fn law_jam_invites_are_separate(link: Seq<char>)
    ensures
        jam_invite_bytes(link) is Err || crate::devices::pairing::invite_bytes(link) is Err,
{
    reveal_strlit("frid://j/");
    reveal_strlit("frid://i/");
    let t = trimmed(link);
    if t.len() >= 9 {
        assert(t.take(9)[7] == t[7]);
        assert(jam_prefix()[7] == 'j');
        assert(crate::devices::pairing::invite_prefix()[7] == 'i');
    }
}

/// So many random bytes in hexadecimal digits, from a seed that is never the
/// same: at most as many as a digest has.
pub fn random_hex(seed: &str, bytes: usize) -> (r: String)
    requires
        2 * bytes <= usize::MAX,
    ensures
        r@ == crate::federation::track::first_chars(
            crate::digest::digest_hex(seed@),
            2 * bytes,
        ),
{
    let hex = crate::digest::digest_text(seed);
    crate::federation::track::prefix_text(hex.as_str(), 2 * bytes)
}

// ---------------------------------------------------------------------------
// The side that plays
// ---------------------------------------------------------------------------

/// Whether someone holds the invite of the session.
pub open spec fn may_steer(h: HostState, version: u16, jam_id: Seq<char>, secret: Seq<char>) -> bool {
    version == PROTOCOL_VERSION && (h.invite matches Some(i) && i.jam_id@ == jam_id && i.secret@
        == secret)
}

/// The participants who were seen lately.
pub open spec fn is_fresh(now: i64) -> spec_fn(Seq<char>, ParticipantView) -> bool {
    |k: Seq<char>, p: ParticipantView| now - p.last_seen <= PARTICIPANT_TTL_MS
}

pub open spec fn command_ids(commands: Seq<JamCommand>) -> Seq<Seq<char>> {
    commands.map_values(|c: JamCommand| c.command_id@)
}

/// The commands that are carried out: those that were not seen before, each
/// once, in order; with what was seen then.
pub open spec fn fresh_commands(seen: Seq<Seq<char>>, commands: Seq<JamCommand>) -> (
    Seq<Seq<char>>,
    Seq<PlaybackCommand>,
)
    decreases commands.len(),
{
    if commands.len() == 0 {
        (seen, Seq::empty())
    } else {
        let (known, run) = fresh_commands(seen, commands.drop_last());
        let c = commands.last();
        if known.contains(c.command_id@) {
            (known, run)
        } else {
            (known.push(c.command_id@), run.push(c.command))
        }
    }
}

/// The last elements of a list, at most `n`.
pub open spec fn last_of<T>(s: Seq<T>, n: int) -> Seq<T> {
    if s.len() <= n {
        s
    } else {
        s.skip(s.len() - n)
    }
}

/// What the one who steers is answered.
#[derive(Debug)]
pub struct PollReply {
    pub accepted: bool,
    pub error: Option<&'static str>,
    pub acknowledged_command_ids: Vec<String>,
    /// What the host plays.
    pub playback: Option<PlaybackSnapshot>,
    pub participants: Vec<JamParticipant>,
}

/// What a poll changes on the side that plays, what is answered and which
/// commands are carried out.
pub open spec fn polls(
    a: Jam,
    b: Jam,
    version: u16,
    jam_id: Seq<char>,
    secret: Seq<char>,
    participant: JamParticipant,
    commands: Seq<JamCommand>,
    now: i64,
    reply: PollReply,
    run: Seq<PlaybackCommand>,
) -> bool {
    if !may_steer(a.host, version, jam_id, secret) {
        &&& b == a
        &&& !reply.accepted
        &&& reply.error matches Some(e) && e@ == "invalid Jam capability"@
        &&& reply.acknowledged_command_ids@.len() == 0
        &&& reply.playback is None
        &&& reply.participants@.len() == 0
        &&& run == Seq::<PlaybackCommand>::empty()
    } else {
        let taken = at_most(commands, MAX_COMMANDS as int);
        let (known, fresh) = fresh_commands(views(a.host.seen@), taken);
        &&& reply.accepted
        &&& reply.error is None
        &&& views(reply.acknowledged_command_ids@) == command_ids(taken)
        &&& playback_view(reply.playback) == playback_view(a.host.playback)
        &&& b.host.participants@ == kept(a.host.participants@, is_fresh(now)).insert(
            participant.participant_id@,
            ParticipantView { last_seen: now, ..participant@ },
        )
        &&& reply.participants@ == listed(b.host)
        &&& views(b.host.seen@) == last_of(known, MAX_SEEN as int)
        &&& run == fresh
        &&& b.joined == a.joined
        &&& b.host == HostState {
            participants: b.host.participants,
            seen: b.host.seen,
            ..a.host
        }
    }
}

/// The participants of a session.
pub open spec fn listed(h: HostState) -> Seq<JamParticipant> {
    h.participants.items().map_values(|e: (String, JamParticipant)| e.1)
}

/// What joining the session of an invite changes.
pub open spec fn joins(
    a: Jam,
    b: Jam,
    invite: JamInvite,
    participant_id: String,
    name: String,
    now: i64,
    r: Result<(), JamInviteError>,
) -> bool {
    match invite_fault(invite) {
        Some(e) => r == Err::<(), JamInviteError>(e) && b == a,
        None => {
            &&& r is Ok
            &&& is_idle(b.host)
            &&& b.joined matches Some(j) && {
                &&& j.invite == invite
                &&& j.participant == (JamParticipant {
                    participant_id,
                    name,
                    last_seen_ms: now,
                })
                &&& j.pending@.len() == 0
                &&& j.participants@.len() == 0
                &&& !j.connected
                &&& j.last_error is None
                &&& j.last_activity_ms == now
            }
        },
    }
}

/// What a person is shown of the session.
pub open spec fn status_of(j: Jam, r: JamStatus) -> bool {
    match j.joined {
        Some(s) => {
            &&& r.role == JamRole::Participant
            &&& r.host_name == Some(s.invite.host_name)
            &&& r.invite is None
            &&& r.participants@ == s.participants@
            &&& r.connected == s.connected
            &&& r.last_error == s.last_error
        },
        None => match j.host.invite {
            Some(i) => {
                &&& r.role == JamRole::Host
                &&& r.host_name == Some(i.host_name)
                &&& r.invite == j.host.invite_uri
                &&& r.participants@ == listed(j.host)
                &&& r.connected
                &&& r.last_error is None
            },
            None => {
                &&& r.role == JamRole::Idle
                &&& r.host_name is None
                &&& r.invite is None
                &&& r.participants@.len() == 0
                &&& !r.connected
                &&& r.last_error is None
            },
        },
    }
}

impl Jam {
    pub fn new() -> (r: Self)
        ensures
            is_idle(r.host),
            r.joined is None,
    {
        Jam { host: idle_host(), joined: None }
    }

    /// Starts a session of one's own with a new invite.
    pub fn create_or_regenerate(
        &mut self,
        ticket: String,
        jam_id: String,
        secret: String,
        host_device_id: String,
        host_name: String,
        uri: String,
    )
        ensures
            final(self).joined is None,
            final(self).host.invite == Some(
                JamInvite {
                    v: PROTOCOL_VERSION,
                    ticket,
                    jam_id,
                    secret,
                    host_device_id,
                    host_name,
                },
            ),
            final(self).host.invite_uri == Some(uri),
            final(self).host.playback is None,
            final(self).host.participants@.dom().is_empty(),
            final(self).host.seen@.len() == 0,
    {
        self.joined = None;
        self.host =
        HostState {
            invite: Some(
                JamInvite {
                    v: PROTOCOL_VERSION,
                    ticket,
                    jam_id,
                    secret,
                    host_device_id,
                    host_name,
                },
            ),
            invite_uri: Some(uri),
            playback: None,
            participants: Keyed::new(),
            seen: Vec::new(),
        };
    }

    /// Joins the session of an invite that was read and checked.
    pub fn join(&mut self, invite: JamInvite, participant_id: String, name: String, now_ms: i64) -> (r:
        Result<(), JamInviteError>)
        ensures
            joins(*old(self), *final(self), invite, participant_id, name, now_ms, r),
    {
        match check_jam_invite(&invite) {
            Err(e) => {
                return Err(e);
            },
            Ok(_) => {},
        }
        self.host = idle_host();
        self.joined =
        Some(
            JoinedState {
                invite,
                participant: JamParticipant { participant_id, name, last_seen_ms: now_ms },
                pending: Vec::new(),
                participants: Vec::new(),
                connected: false,
                last_error: None,
                last_activity_ms: now_ms,
            },
        );
        Ok(())
    }

    /// Leaves whatever session there is.
    pub fn leave(&mut self)
        ensures
            is_idle(final(self).host),
            final(self).joined is None,
    {
        self.joined = None;
        self.host = idle_host();
    }

    fn participants(&self) -> (r: Vec<JamParticipant>)
        ensures
            r@ == listed(self.host),
    {
        let table = &self.host.participants;
        let ghost items = table.items();
        let mut out: Vec<JamParticipant> = Vec::new();
        let n: usize = table.len();
        let mut i: usize = 0;
        while i < n
            invariant
                i <= n,
                items == table.items(),
                n == items.len(),
                out@ == items.take(i as int).map_values(|e: (String, JamParticipant)| e.1),
            decreases n - i,
        {
            let (_, p) = table.at(i);
            out.push(p.clone());
            proof {
                assert(out@ =~= items.take(i + 1).map_values(|e: (String, JamParticipant)| e.1));
            }
            i += 1;
        }
        proof {
            assert(items.take(n as int) =~= items);
        }
        out
    }

    /// What a person is shown of the session.
    pub fn status(&self) -> (r: JamStatus)
        ensures
            status_of(*self, r),
    {
        if let Some(j) = &self.joined {
            return JamStatus {
                role: JamRole::Participant,
                host_name: Some(j.invite.host_name.clone()),
                invite: None,
                participants: clone_participants(&j.participants),
                connected: j.connected,
                last_error: j.last_error.clone(),
            };
        }
        if let Some(i) = &self.host.invite {
            return JamStatus {
                role: JamRole::Host,
                host_name: Some(i.host_name.clone()),
                invite: self.host.invite_uri.clone(),
                participants: self.participants(),
                connected: true,
                last_error: None,
            };
        }
        JamStatus::default()
    }

    /// Notes what plays, for those who steer; nothing without a session of
    /// one's own.
    pub fn publish_host_playback(&mut self, snapshot: PlaybackSnapshot)
        ensures
            final(self).joined == old(self).joined,
            final(self).host == (HostState {
                playback: if old(self).host.invite is Some {
                    Some(snapshot)
                } else {
                    old(self).host.playback
                },
                ..old(self).host
            }),
    {
        if self.host.invite.is_some() {
            self.host.playback = Some(snapshot);
        }
    }

    fn holds_invite(&self, version: u16, jam_id: &str, secret: &str) -> (r: bool)
        ensures
            r == may_steer(self.host, version, jam_id@, secret@),
    {
        version == PROTOCOL_VERSION && match &self.host.invite {
            Some(i) => same(i.jam_id.as_str(), jam_id) && same(i.secret.as_str(), secret),
            None => false,
        }
    }

    /// Answers one who steers: without the invite nothing is told and nothing
    /// changes; else the participant is noted, and the commands that are new
    /// are carried out, each once.
    pub fn serve_poll(
        &mut self,
        version: u16,
        jam_id: &str,
        secret: &str,
        participant: JamParticipant,
        commands: Vec<JamCommand>,
        now_ms: i64,
    ) -> (r: (PollReply, Vec<PlaybackCommand>))
        ensures
            polls(
                *old(self),
                *final(self),
                version,
                jam_id@,
                secret@,
                participant,
                commands@,
                now_ms,
                r.0,
                r.1@,
            ),
    {
        let mut run: Vec<PlaybackCommand> = Vec::new();
        if !self.holds_invite(version, jam_id, secret) {
            let reply = PollReply {
                accepted: false,
                error: Some("invalid Jam capability"),
                acknowledged_command_ids: Vec::new(),
                playback: None,
                participants: Vec::new(),
            };
            proof {
                assert(run@ =~= Seq::<PlaybackCommand>::empty());
            }
            return (reply, run);
        }
        let f = |k: &String, p: &JamParticipant| -> (b: bool)
            ensures
                b == is_fresh(now_ms)(k@, p@),
            {
                let age: i128 = now_ms as i128 - p.last_seen_ms as i128;
                age <= PARTICIPANT_TTL_MS as i128
            };
        self.host.participants.retain(f, Ghost(is_fresh(now_ms)));
        let id = participant.participant_id.clone();
        let row = JamParticipant {
            participant_id: participant.participant_id,
            name: participant.name,
            last_seen_ms: now_ms,
        };
        self.host.participants.set(id.as_str(), row);
        let ghost all = commands@;
        let ghost taken = at_most(all, MAX_COMMANDS as int);
        let count: usize = if commands.len() < MAX_COMMANDS {
            commands.len()
        } else {
            MAX_COMMANDS
        };
        let mut rest = commands;
        let mut seen: Vec<String> = Vec::new();
        std::mem::swap(&mut seen, &mut self.host.seen);
        let ghost known = views(seen@);
        let mut acknowledged: Vec<String> = Vec::new();
        let mut i: usize = 0;
        proof {
            assert(all.skip(0) =~= all);
            assert(views(acknowledged@) =~= command_ids(taken.take(0)));
            assert(run@ =~= Seq::<PlaybackCommand>::empty());
        }
        while i < count
            invariant
                i <= count <= all.len(),
                count == taken.len(),
                forall|k: int| 0 <= k < count ==> taken[k] == #[trigger] all[k],
                rest@ == all.skip(i as int),
                views(acknowledged@) == command_ids(taken.take(i as int)),
                (views(seen@), run@) == fresh_commands(known, taken.take(i as int)),
            decreases count - i,
        {
            let c = rest.remove(0);
            proof {
                assert(c == all[i as int]);
                assert(c == taken[i as int]);
                assert(rest@ =~= all.skip(i + 1));
                assert(taken.take(i + 1).drop_last() =~= taken.take(i as int));
            }
            let ghost before = acknowledged@;
            acknowledged.push(c.command_id.clone());
            proof {
                assert(views(acknowledged@) =~= views(before).push(c.command_id@));
                assert(command_ids(taken.take(i + 1)) =~= command_ids(taken.take(i as int)).push(
                    c.command_id@,
                ));
            }
            if !holds_text(&seen, c.command_id.as_str()) {
                let ghost earlier = seen@;
                seen.push(c.command_id);
                run.push(c.command);
                proof {
                    assert(views(seen@) =~= views(earlier).push(seen@.last()@));
                }
            }
            i += 1;
        }
        proof {
            assert(taken.take(count as int) =~= taken);
        }
        let ghost whole = seen@;
        while seen.len() > MAX_SEEN
            invariant
                seen@ == whole.skip(whole.len() - seen@.len()),
                seen@.len() <= whole.len(),
                whole.len() > MAX_SEEN ==> seen@.len() >= MAX_SEEN,
                whole.len() <= MAX_SEEN ==> seen@ == whole,
            decreases seen@.len(),
        {
            let ghost earlier = seen@;
            let _ = seen.remove(0);
            proof {
                assert(seen@ =~= earlier.skip(1));
                assert(seen@ =~= whole.skip(whole.len() - seen@.len()));
            }
        }
        proof {
            assert(views(seen@) =~= last_of(views(whole), MAX_SEEN as int));
        }
        self.host.seen = seen;
        let playback = match &self.host.playback {
            Some(p) => Some(p.clone()),
            None => None,
        };
        let reply = PollReply {
            accepted: true,
            error: None,
            acknowledged_command_ids: acknowledged,
            playback,
            participants: self.participants(),
        };
        (reply, run)
    }

    /// A participant leaves; nothing without the invite.
    pub fn serve_leave(&mut self, version: u16, jam_id: &str, secret: &str, participant_id: &str)
        ensures
            final(self).joined == old(self).joined,
            final(self).host.participants@ == (if may_steer(
                old(self).host,
                version,
                jam_id@,
                secret@,
            ) {
                old(self).host.participants@.remove(participant_id@)
            } else {
                old(self).host.participants@
            }),
            final(self).host == (HostState {
                participants: final(self).host.participants,
                ..old(self).host
            }),
    {
        if self.holds_invite(version, jam_id, secret) {
            let _ = self.host.participants.remove(participant_id);
        }
    }
}

fn clone_participants(ps: &Vec<JamParticipant>) -> (r: Vec<JamParticipant>)
    ensures
        r@ == ps@,
{
    let mut out: Vec<JamParticipant> = Vec::new();
    let mut i: usize = 0;
    while i < ps.len()
        invariant
            i <= ps@.len(),
            out@ == ps@.take(i as int),
        decreases ps@.len() - i,
    {
        out.push(ps[i].clone());
        proof {
            assert(out@ =~= ps@.take(i + 1));
        }
        i += 1;
    }
    proof {
        assert(ps@.take(ps@.len() as int) =~= ps@);
    }
    out
}

// ---------------------------------------------------------------------------
// The side that steers
// ---------------------------------------------------------------------------

/// What the one who steers was answered.
pub struct PollAnswer {
    pub accepted: bool,
    pub error: Option<String>,
    pub acknowledged_command_ids: Vec<String>,
    pub playback: Option<PlaybackSnapshot>,
    pub participants: Vec<JamParticipant>,
}

/// The commands that were not acknowledged.
pub open spec fn is_unacknowledged(acks: Seq<Seq<char>>) -> spec_fn(JamCommand) -> bool {
    |c: JamCommand| !acks.contains(c.command_id@)
}

/// Whether something plays.
pub open spec fn is_playing(p: Option<PlaybackSnapshot>) -> bool {
    p matches Some(s) && s.state.playing && !s.state.paused
}

/// The state of one who steers after an answer.
pub open spec fn hears_answer(a: JoinedState, b: JoinedState, answer: PollAnswer, now: i64) -> bool {
    &&& b.pending@ == a.pending@.filter(
        is_unacknowledged(views(answer.acknowledged_command_ids@)),
    )
    &&& b.participants@ == answer.participants@
    &&& b.connected
    &&& b.last_error is None
    &&& b.participant == JamParticipant { last_seen_ms: now, ..a.participant }
    &&& b.last_activity_ms == (if is_playing(answer.playback) {
        now
    } else {
        a.last_activity_ms
    })
    &&& b.invite == a.invite
}

/// What noting a command for the session changes.
pub open spec fn notes_command(
    a: Jam,
    b: Jam,
    command: PlaybackCommand,
    command_id: String,
    now: i64,
    r: Result<(), &'static str>,
) -> bool {
    &&& b.host == a.host
    &&& match a.joined {
        None => b.joined is None && (r matches Err(e) && e@
            == "this player is not controlling a Jam"@),
        Some(x) => {
            &&& r is Ok
            &&& b.joined matches Some(y) && {
                &&& y.pending@ == (if x.pending@.len() >= MAX_COMMANDS {
                    x.pending@.skip(1)
                } else {
                    x.pending@
                }).push(
                    JamCommand {
                        command_id,
                        participant_id: x.participant.participant_id,
                        command,
                        sent_at_ms: now,
                    },
                )
                &&& y == (JoinedState {
                    pending: y.pending,
                    last_activity_ms: now,
                    ..x
                })
            }
        },
    }
}

/// What taking the answer to a poll changes.
pub open spec fn takes_answer(
    a: Jam,
    b: Jam,
    jam_id: Seq<char>,
    answer: PollAnswer,
    now: i64,
    r: Result<bool, String>,
) -> bool {
    &&& b.host == a.host
    &&& match r {
        Err(e) => {
            &&& !answer.accepted
            &&& e@ == match answer.error {
                Some(t) => t@,
                None => "Jam refused"@,
            }
            &&& b.joined == a.joined
        },
        Ok(matters) => {
            &&& answer.accepted
            &&& matters == (a.joined matches Some(j) && j.invite.jam_id@
                == jam_id)
            &&& if matters {
                b.joined is Some && hears_answer(
                    a.joined->0,
                    b.joined->0,
                    answer,
                    now,
                )
            } else {
                b.joined == a.joined
            }
        },
    }
}

/// Whether one who steers has been idle for too long.
pub open spec fn expired(j: Jam, now: i64) -> bool {
    j.joined matches Some(s) && now - s.last_activity_ms > PARTICIPANT_TTL_MS
}

impl Jam {
    /// Notes a command for the session; an error outside of one. When too
    /// many wait, the oldest is given up.
    pub fn submit_command(&mut self, command: PlaybackCommand, command_id: String, now_ms: i64) -> (r:
        Result<(), &'static str>)
        ensures
            notes_command(*old(self), *final(self), command, command_id, now_ms, r),
    {
        let mut joined: Option<JoinedState> = None;
        std::mem::swap(&mut joined, &mut self.joined);
        match joined {
            None => Err("this player is not controlling a Jam"),
            Some(state) => {
                let mut j = state;
                let ghost before = j.pending@;
                if j.pending.len() >= MAX_COMMANDS {
                    let _ = j.pending.remove(0);
                    proof {
                        assert(j.pending@ =~= before.skip(1));
                    }
                }
                let participant_id = j.participant.participant_id.clone();
                j.pending.push(
                    JamCommand { command_id, participant_id, command, sent_at_ms: now_ms },
                );
                j.last_activity_ms = now_ms;
                self.joined = Some(j);
                Ok(())
            },
        }
    }

    /// Takes the answer to a poll of the session with this id; gives whether
    /// it still matters. An error is what the other side said against it. An
    /// answer for a session that was left meanwhile changes nothing.
    pub fn finish_poll(&mut self, jam_id: &str, answer: &PollAnswer, now_ms: i64) -> (r: Result<
        bool,
        String,
    >)
        ensures
            takes_answer(*old(self), *final(self), jam_id@, *answer, now_ms, r),
    {
        if !answer.accepted {
            return match &answer.error {
                Some(e) => Err(e.clone()),
                None => Err("Jam refused".to_owned()),
            };
        }
        let mut joined: Option<JoinedState> = None;
        std::mem::swap(&mut joined, &mut self.joined);
        match joined {
            None => Ok(false),
            Some(state) => {
                let mut j = state;
                if !same(j.invite.jam_id.as_str(), jam_id) {
                    self.joined = Some(j);
                    return Ok(false);
                }
                let acks = &answer.acknowledged_command_ids;
                let f = |c: &JamCommand| -> (b: bool)
                    ensures
                        b == is_unacknowledged(views(acks@))(*c),
                    { !holds_text(acks, c.command_id.as_str()) };
                retain_by(&mut j.pending, f, Ghost(is_unacknowledged(views(acks@))));
                j.participants = clone_participants(&answer.participants);
                j.connected = true;
                j.last_error = None;
                j.participant.last_seen_ms = now_ms;
                if let Some(s) = &answer.playback {
                    if s.state.playing && !s.state.paused {
                        j.last_activity_ms = now_ms;
                    }
                }
                self.joined = Some(j);
                Ok(true)
            },
        }
    }

    /// A poll failed.
    pub fn poll_failed(&mut self, error: &str)
        ensures
            final(self).host == old(self).host,
            match old(self).joined {
                None => final(self).joined is None,
                Some(a) => final(self).joined matches Some(b) && !b.connected && opt_view(
                    b.last_error,
                ) == Some(error@) && b == (JoinedState {
                    connected: false,
                    last_error: b.last_error,
                    ..a
                }),
            },
    {
        let mut joined: Option<JoinedState> = None;
        std::mem::swap(&mut joined, &mut self.joined);
        if let Some(state) = joined {
            let mut j = state;
            j.connected = false;
            j.last_error = Some(error.to_owned());
            self.joined = Some(j);
        }
    }

    /// Whether one who steers has been idle for too long.
    pub fn is_expired(&self, now_ms: i64) -> (r: bool)
        ensures
            r == expired(*self, now_ms),
    {
        match &self.joined {
            Some(j) => {
                let age: i128 = now_ms as i128 - j.last_activity_ms as i128;
                age > PARTICIPANT_TTL_MS as i128
            },
            None => false,
        }
    }
}

/// A command that is sent again is acknowledged again and not carried out
/// again.
pub proof fn law_command_runs_once(seen: Seq<Seq<char>>, commands: Seq<JamCommand>, i: int)
    requires
        0 <= i < commands.len(),
        seen.contains(commands[i].command_id@),
    ensures
        fresh_commands(seen, commands) == fresh_commands(seen, commands.remove(i)),
    decreases commands.len(),
{
    let n = commands.len() - 1;
    let h = commands.drop_last();
    let without = commands.remove(i);
    if i == n {
        lemma_seen_grows(seen, h, commands[i].command_id@);
        assert(without =~= h);
    } else {
        law_command_runs_once(seen, h, i);
        assert(without.drop_last() =~= h.remove(i));
        assert(without.last() == commands.last());
    }
}

proof fn lemma_seen_grows(seen: Seq<Seq<char>>, commands: Seq<JamCommand>, id: Seq<char>)
    requires
        seen.contains(id),
    ensures
        fresh_commands(seen, commands).0.contains(id),
    decreases commands.len(),
{
    if commands.len() > 0 {
        lemma_seen_grows(seen, commands.drop_last(), id);
        let before = fresh_commands(seen, commands.drop_last()).0;
        let i = before.index_of(id);
        assert(before.push(commands.last().command_id@)[i] == id);
    }
}

} // verus!
