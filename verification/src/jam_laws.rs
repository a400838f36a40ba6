//! What holds of a shared session, whoever steers it.

use crate::devices::model::PlaybackCommand;
use crate::jam::{
    command_ids, expired, fresh_commands, is_fresh, is_unacknowledged, joins, notes_command, polls,
    status_of, takes_answer, Jam, JamCommand, JamInvite, JamInviteError, JamParticipant, JamRole,
    JamStatus, PollAnswer, PollReply,
};
use crate::keyed::kept;
use crate::lists::{at_most, lemma_all_stay, lemma_filter_holds};
use crate::text::views;
use vstd::prelude::*;

verus! {

/// Where the commands that are carried out stand among those that were sent:
/// the places grow, what stands there was not seen before, and the first
/// command with an id that was not seen is never passed over.
proof fn lemma_fresh_places(seen: Seq<Seq<char>>, commands: Seq<JamCommand>) -> (places: Seq<int>)
    ensures
        places.len() == fresh_commands(seen, commands).1.len(),
        forall|i: int|
            0 <= i < places.len() ==> 0 <= #[trigger] places[i] < commands.len()
                && fresh_commands(seen, commands).1[i] == commands[places[i]].command
                && !seen.contains(commands[places[i]].command_id@),
        forall|i: int, j: int|
            0 <= i < j < places.len() ==> #[trigger] places[i] < #[trigger] places[j]
                && commands[places[i]].command_id@ != commands[places[j]].command_id@,
        forall|k: int|
            0 <= k < commands.len() && !seen.contains((#[trigger] commands[k]).command_id@) && (
            forall|m: int| 0 <= m < k ==> (#[trigger] commands[m]).command_id@ != commands[k].command_id@)
                ==> exists|i: int| 0 <= i < places.len() && #[trigger] places[i] == k,
        forall|x: Seq<char>|
            #[trigger] fresh_commands(seen, commands).0.contains(x) <==> seen.contains(x)
                || exists|k: int| 0 <= k < commands.len() && (#[trigger] commands[k]).command_id@ == x,
    decreases commands.len(),
{
    if commands.len() == 0 {
        Seq::empty()
    } else {
        let h = commands.drop_last();
        let n = commands.len() - 1;
        let before = lemma_fresh_places(seen, h);
        let known = fresh_commands(seen, h).0;
        let c = commands.last();
        let id = c.command_id@;
        assert forall|k: int| 0 <= k < n implies #[trigger] commands[k] == h[k] by {}
        let places = if known.contains(id) {
            before
        } else {
            before.push(n)
        };
        let all = fresh_commands(seen, commands).0;
        assert forall|x: Seq<char>| #[trigger] all.contains(x) <==> seen.contains(x)
            || exists|k: int| 0 <= k < commands.len() && (#[trigger] commands[k]).command_id@ == x by {
            if known.contains(x) {
                if !known.contains(id) {
                    let m = known.index_of(x);
                    assert(all[m] == x);
                }
                if !seen.contains(x) {
                    let k = choose|k: int| 0 <= k < h.len() && (#[trigger] h[k]).command_id@ == x;
                    assert(commands[k].command_id@ == x);
                }
            } else {
                if x == id {
                    assert(all[known.len() as int] == x);
                    assert(commands[n].command_id@ == x);
                }
                if all.contains(x) {
                    let m = all.index_of(x);
                    if m < known.len() {
                        assert(known[m] == x);
                    }
                }
                if exists|k: int| 0 <= k < commands.len() && (#[trigger] commands[k]).command_id@ == x {
                    let k = choose|k: int|
                        0 <= k < commands.len() && (#[trigger] commands[k]).command_id@ == x;
                    if k < n {
                        assert(h[k].command_id@ == x);
                    }
                }
            }
        }
        assert forall|k: int|
            0 <= k < commands.len() && !seen.contains((#[trigger] commands[k]).command_id@) && (
            forall|m: int| 0 <= m < k ==> (#[trigger] commands[m]).command_id@ != commands[k].command_id@)
            implies exists|i: int| 0 <= i < places.len() && #[trigger] places[i] == k by {
            if k < n {
                assert forall|m: int| 0 <= m < k implies (#[trigger] h[m]).command_id@
                    != h[k].command_id@ by {
                    assert(commands[m].command_id@ != commands[k].command_id@);
                }
                assert(!seen.contains(h[k].command_id@));
                let i = choose|i: int| 0 <= i < before.len() && #[trigger] before[i] == k;
                assert(places[i] == k);
            } else {
                if known.contains(id) {
                    let m = choose|m: int| 0 <= m < h.len() && (#[trigger] h[m]).command_id@ == id;
                    assert(commands[m].command_id@ == id);
                }
                assert(places[before.len() as int] == k);
            }
        }
        assert forall|i: int, j: int| 0 <= i < j < places.len() implies #[trigger] places[i]
            < #[trigger] places[j] && commands[places[i]].command_id@
            != commands[places[j]].command_id@ by {
            if j == before.len() {
                assert(h[before[i]].command_id@ == commands[places[i]].command_id@);
                if commands[places[i]].command_id@ == id {
                    assert(known.contains(id));
                }
            }
        }
        places
    }
}

/// The commands that are carried out are a part of the commands that were sent,
/// in the order in which they were sent. None of them was seen before, no id
/// is carried out twice, and of the first 128 that were sent every one with a
/// new id is carried out.
pub proof fn law_poll_carries_out_in_order(
    a: Jam,
    b: Jam,
    version: u16,
    jam_id: Seq<char>,
    secret: Seq<char>,
    participant: JamParticipant,
    commands: Seq<JamCommand>,
    now: i64,
    reply: PollReply,
    run: Seq<PlaybackCommand>,
) -> (places: Seq<int>)
    requires
        polls(a, b, version, jam_id, secret, participant, commands, now, reply, run),
        reply.accepted,
    ensures
        places.len() == run.len(),
        forall|i: int|
            0 <= i < places.len() ==> 0 <= #[trigger] places[i] < commands.len() && run[i]
                == commands[places[i]].command && !views(a.host.seen@).contains(
                commands[places[i]].command_id@,
            ),
        forall|i: int, j: int|
            0 <= i < j < places.len() ==> #[trigger] places[i] < #[trigger] places[j]
                && commands[places[i]].command_id@ != commands[places[j]].command_id@,
        forall|k: int|
            0 <= k < commands.len() && k < 128 && !views(a.host.seen@).contains(
                (#[trigger] commands[k]).command_id@,
            ) && (forall|m: int|
                0 <= m < k ==> (#[trigger] commands[m]).command_id@ != commands[k].command_id@)
                ==> exists|i: int| 0 <= i < places.len() && #[trigger] places[i] == k,
{
    let taken = at_most(commands, 128);
    let seen = views(a.host.seen@);
    let places = lemma_fresh_places(seen, taken);
    assert forall|k: int| 0 <= k < taken.len() implies #[trigger] taken[k] == commands[k] by {}
    assert forall|i: int| 0 <= i < places.len() implies 0 <= #[trigger] places[i] < commands.len()
        && run[i] == commands[places[i]].command && !seen.contains(
        commands[places[i]].command_id@,
    ) by {
        assert(taken[places[i]] == commands[places[i]]);
    }
    assert forall|i: int, j: int| 0 <= i < j < places.len() implies #[trigger] places[i]
        < #[trigger] places[j] && commands[places[i]].command_id@
        != commands[places[j]].command_id@ by {
        assert(taken[places[i]] == commands[places[i]]);
        assert(taken[places[j]] == commands[places[j]]);
    }
    assert forall|k: int|
        0 <= k < commands.len() && k < 128 && !seen.contains(
            (#[trigger] commands[k]).command_id@,
        ) && (forall|m: int|
            0 <= m < k ==> (#[trigger] commands[m]).command_id@ != commands[k].command_id@)
        implies exists|i: int| 0 <= i < places.len() && #[trigger] places[i] == k by {
        assert(taken[k] == commands[k]);
        assert forall|m: int| 0 <= m < k implies (#[trigger] taken[m]).command_id@
            != taken[k].command_id@ by {
            assert(commands[m].command_id@ != commands[k].command_id@);
        }
    }
    places
}

/// Commands that are all new, and no two the same, are carried out one by one
/// as they were sent, and each is acknowledged.
pub proof fn law_poll_carries_out_what_is_new(
    a: Jam,
    b: Jam,
    version: u16,
    jam_id: Seq<char>,
    secret: Seq<char>,
    participant: JamParticipant,
    commands: Seq<JamCommand>,
    now: i64,
    reply: PollReply,
    run: Seq<PlaybackCommand>,
)
    requires
        polls(a, b, version, jam_id, secret, participant, commands, now, reply, run),
        reply.accepted,
        commands.len() <= 128,
        forall|k: int|
            0 <= k < commands.len() ==> !views(a.host.seen@).contains(
                (#[trigger] commands[k]).command_id@,
            ),
        forall|k: int, m: int|
            0 <= k < m < commands.len() ==> (#[trigger] commands[k]).command_id@ != (
            #[trigger] commands[m]).command_id@,
    ensures
        run.len() == commands.len(),
        forall|k: int| 0 <= k < commands.len() ==> #[trigger] run[k] == commands[k].command,
        reply.acknowledged_command_ids@.len() == commands.len(),
        forall|k: int|
            0 <= k < commands.len() ==> (#[trigger] reply.acknowledged_command_ids@[k])@
                == commands[k].command_id@,
{
    let taken = at_most(commands, 128);
    assert(taken == commands);
    lemma_all_fresh(views(a.host.seen@), commands);
    let acks = views(reply.acknowledged_command_ids@);
    assert(acks.len() == reply.acknowledged_command_ids@.len());
    assert(acks.len() == commands.len());
    assert forall|k: int| 0 <= k < commands.len() implies (
    #[trigger] reply.acknowledged_command_ids@[k])@ == commands[k].command_id@ by {
        assert(acks[k] == reply.acknowledged_command_ids@[k]@);
        assert(acks[k] == command_ids(commands)[k]);
    }
}

proof fn lemma_all_fresh(seen: Seq<Seq<char>>, commands: Seq<JamCommand>)
    requires
        forall|k: int| 0 <= k < commands.len() ==> !seen.contains((#[trigger] commands[k]).command_id@),
        forall|k: int, m: int|
            0 <= k < m < commands.len() ==> (#[trigger] commands[k]).command_id@ != (
            #[trigger] commands[m]).command_id@,
    ensures
        fresh_commands(seen, commands).1.len() == commands.len(),
        forall|k: int|
            0 <= k < commands.len() ==> #[trigger] fresh_commands(seen, commands).1[k]
                == commands[k].command,
    decreases commands.len(),
{
    if commands.len() > 0 {
        let h = commands.drop_last();
        let n = commands.len() - 1;
        assert forall|k: int| 0 <= k < n implies #[trigger] h[k] == commands[k] by {}
        lemma_all_fresh(seen, h);
        let _ = lemma_fresh_places(seen, h);
        let known = fresh_commands(seen, h).0;
        if known.contains(commands.last().command_id@) {
            let m = choose|m: int|
                0 <= m < h.len() && (#[trigger] h[m]).command_id@ == commands.last().command_id@;
            assert(commands[m].command_id@ == commands[n].command_id@);
        }
    }
}

/// Who holds the invite of the session is answered with what plays; who does not
/// is told nothing, steers nothing and changes nothing.
pub proof fn law_only_the_invite_steers(
    a: Jam,
    b: Jam,
    version: u16,
    jam_id: Seq<char>,
    secret: Seq<char>,
    participant: JamParticipant,
    commands: Seq<JamCommand>,
    now: i64,
    reply: PollReply,
    run: Seq<PlaybackCommand>,
)
    requires
        polls(a, b, version, jam_id, secret, participant, commands, now, reply, run),
    ensures
        reply.accepted <==> version == 1 && a.host.invite is Some && a.host.invite->0.jam_id@
            == jam_id && a.host.invite->0.secret@ == secret,
        reply.accepted ==> (reply.playback is Some <==> a.host.playback is Some),
        !reply.accepted ==> run.len() == 0 && b == a && reply.playback is None
            && reply.participants@.len() == 0 && reply.acknowledged_command_ids@.len() == 0,
{
}

/// Who steers is a participant from then on, under their name and as of now;
/// everyone else stays for half an hour after they were last seen.
pub proof fn law_poll_notes_the_participant(
    a: Jam,
    b: Jam,
    version: u16,
    jam_id: Seq<char>,
    secret: Seq<char>,
    participant: JamParticipant,
    commands: Seq<JamCommand>,
    now: i64,
    reply: PollReply,
    run: Seq<PlaybackCommand>,
    other: Seq<char>,
)
    requires
        polls(a, b, version, jam_id, secret, participant, commands, now, reply, run),
        reply.accepted,
    ensures
        b.host.participants@.dom().contains(participant.participant_id@),
        b.host.participants@[participant.participant_id@].name == participant.name@,
        b.host.participants@[participant.participant_id@].last_seen == now,
        other != participant.participant_id@ ==> (b.host.participants@.dom().contains(other)
            <==> a.host.participants@.dom().contains(other) && now
            - a.host.participants@[other].last_seen <= 30 * 60 * 1000),
        other != participant.participant_id@ && b.host.participants@.dom().contains(other)
            ==> b.host.participants@[other] == a.host.participants@[other],
{
    let k = kept(a.host.participants@, is_fresh(now));
    assert(k.dom().contains(other) <==> a.host.participants@.dom().contains(other) && is_fresh(now)(
        other,
        a.host.participants@[other],
    ));
}

/// Commands that are sent again are acknowledged again, and none of them is
/// carried out again, as long as not too many came between.
pub proof fn law_poll_again_carries_out_nothing(
    a: Jam,
    b: Jam,
    c: Jam,
    version: u16,
    jam_id: Seq<char>,
    secret: Seq<char>,
    participant: JamParticipant,
    commands: Seq<JamCommand>,
    now: i64,
    later: i64,
    reply: PollReply,
    again: PollReply,
    run: Seq<PlaybackCommand>,
    rerun: Seq<PlaybackCommand>,
)
    requires
        polls(a, b, version, jam_id, secret, participant, commands, now, reply, run),
        polls(b, c, version, jam_id, secret, participant, commands, later, again, rerun),
        a.host.seen@.len() + commands.len() <= 4096,
    ensures
        rerun.len() == 0,
        again.accepted == reply.accepted,
        again.acknowledged_command_ids@.len() == reply.acknowledged_command_ids@.len(),
        forall|k: int|
            0 <= k < again.acknowledged_command_ids@.len() ==> (
            #[trigger] again.acknowledged_command_ids@[k])@
                == reply.acknowledged_command_ids@[k]@,
{
    if reply.accepted {
        let taken = at_most(commands, 128);
        let seen = views(a.host.seen@);
        let known = fresh_commands(seen, taken).0;
        let _ = lemma_fresh_places(seen, taken);
        lemma_known_len(seen, taken);
        assert(views(b.host.seen@) == known);
        let places = lemma_fresh_places(known, taken);
        if rerun.len() > 0 {
            let k = places[0];
            assert(taken[k].command_id@ == commands[k].command_id@);
            assert(known.contains(taken[k].command_id@));
        }
        let x = views(reply.acknowledged_command_ids@);
        let y = views(again.acknowledged_command_ids@);
        assert(x == y);
        assert(x.len() == reply.acknowledged_command_ids@.len());
        assert(y.len() == again.acknowledged_command_ids@.len());
        assert forall|k: int| 0 <= k < again.acknowledged_command_ids@.len() implies (
        #[trigger] again.acknowledged_command_ids@[k])@ == reply.acknowledged_command_ids@[k]@ by {
            assert(y[k] == again.acknowledged_command_ids@[k]@);
            assert(x[k] == reply.acknowledged_command_ids@[k]@);
        }
    }
}

proof fn lemma_known_len(seen: Seq<Seq<char>>, commands: Seq<JamCommand>)
    ensures
        fresh_commands(seen, commands).0.len() <= seen.len() + commands.len(),
    decreases commands.len(),
{
    if commands.len() > 0 {
        lemma_known_len(seen, commands.drop_last());
    }
}

/// A command of one who steers waits behind those that wait already, and with
/// fewer than 128 waiting none of them is given up.
pub proof fn law_submitted_command_waits(
    a: Jam,
    b: Jam,
    command: PlaybackCommand,
    command_id: String,
    now: i64,
    r: Result<(), &'static str>,
)
    requires
        notes_command(a, b, command, command_id, now, r),
    ensures
        r is Ok <==> a.joined is Some,
        a.joined is Some ==> {
            let x = a.joined->0.pending@;
            let y = b.joined->0.pending@;
            &&& b.joined is Some
            &&& y.len() > 0
            &&& y.last().command == command
            &&& y.last().command_id == command_id
            &&& y.last().participant_id == a.joined->0.participant.participant_id
            &&& x.len() < 128 ==> y.len() == x.len() + 1 && forall|k: int|
                0 <= k < x.len() ==> #[trigger] y[k] == x[k]
            &&& x.len() == 128 ==> y.len() == 128 && forall|k: int|
                0 <= k < 127 ==> #[trigger] y[k] == x[k + 1]
        },
{
}

/// An answer takes the commands away that it acknowledges, and leaves the others
/// waiting in their order.
pub proof fn law_answer_takes_what_it_acknowledges(
    a: Jam,
    b: Jam,
    jam_id: Seq<char>,
    answer: PollAnswer,
    now: i64,
    r: Result<bool, String>,
)
    requires
        takes_answer(a, b, jam_id, answer, now, r),
        a.joined is Some,
        a.joined->0.invite.jam_id@ == jam_id,
    ensures
        r is Ok <==> answer.accepted,
        !answer.accepted ==> b.joined == a.joined,
        answer.accepted ==> {
            let acks = views(answer.acknowledged_command_ids@);
            let x = a.joined->0.pending@;
            let y = b.joined->0.pending@;
            &&& b.joined is Some
            &&& b.joined->0.connected
            &&& b.joined->0.participants@ == answer.participants@
            &&& forall|k: int|
                0 <= k < x.len() && !acks.contains((#[trigger] x[k]).command_id@) ==> y.contains(x[k])
            &&& forall|k: int|
                0 <= k < y.len() ==> !acks.contains((#[trigger] y[k]).command_id@) && x.contains(y[k])
            &&& (forall|k: int| 0 <= k < x.len() ==> !acks.contains((#[trigger] x[k]).command_id@))
                ==> y == x
        },
{
    if answer.accepted {
        let p = is_unacknowledged(views(answer.acknowledged_command_ids@));
        let x = a.joined->0.pending@;
        let y = b.joined->0.pending@;
        lemma_filter_holds(x, p);
        assert forall|k: int| 0 <= k < x.len() && p(#[trigger] x[k]) implies y.contains(x[k]) by {
            assert(x.contains(x[k]));
        }
        assert forall|k: int| 0 <= k < y.len() implies p(#[trigger] y[k]) && x.contains(y[k]) by {
            assert(y.contains(y[k]));
        }
        if forall|k: int| 0 <= k < x.len() ==> p(#[trigger] x[k]) {
            lemma_all_stay(x, p);
        }
    }
}

/// What waits at one who steers is gone once the side that plays has answered
/// a poll that carried it.
pub proof fn law_poll_empties_the_queue(
    host: Jam,
    after: Jam,
    a: Jam,
    b: Jam,
    version: u16,
    secret: Seq<char>,
    participant: JamParticipant,
    now: i64,
    reply: PollReply,
    run: Seq<PlaybackCommand>,
    answer: PollAnswer,
    r: Result<bool, String>,
)
    requires
        a.joined is Some,
        a.joined->0.pending@.len() <= 128,
        polls(
            host,
            after,
            version,
            a.joined->0.invite.jam_id@,
            secret,
            participant,
            a.joined->0.pending@,
            now,
            reply,
            run,
        ),
        reply.accepted,
        answer.accepted,
        views(answer.acknowledged_command_ids@) == views(reply.acknowledged_command_ids@),
        takes_answer(a, b, a.joined->0.invite.jam_id@, answer, now, r),
    ensures
        b.joined is Some,
        b.joined->0.pending@.len() == 0,
{
    let x = a.joined->0.pending@;
    let acks = views(answer.acknowledged_command_ids@);
    let p = is_unacknowledged(acks);
    assert(acks == command_ids(x));
    let y = b.joined->0.pending@;
    lemma_filter_holds(x, p);
    if y.len() > 0 {
        assert(y.contains(y[0]));
        let k = x.index_of(y[0]);
        assert(acks[k] == x[k].command_id@);
    }
}

/// A command keeps one who steers in the session for half an hour, and no
/// longer.
pub proof fn law_session_ends_when_idle(
    a: Jam,
    b: Jam,
    command: PlaybackCommand,
    command_id: String,
    now: i64,
    r: Result<(), &'static str>,
    later: i64,
)
    requires
        notes_command(a, b, command, command_id, now, r),
        r is Ok,
    ensures
        expired(b, later) <==> later > now + 30 * 60 * 1000,
{
}

/// Who joins a session leaves any other, and is seen as a participant that waits
/// for an answer.
pub proof fn law_join_then_status(
    a: Jam,
    b: Jam,
    invite: JamInvite,
    participant_id: String,
    name: String,
    now: i64,
    r: Result<(), JamInviteError>,
    s: JamStatus,
)
    requires
        joins(a, b, invite, participant_id, name, now, r),
        status_of(b, s),
        r is Ok,
    ensures
        s.role == JamRole::Participant,
        s.host_name == Some(invite.host_name),
        !s.connected,
        b.host.invite is None,
        b.joined->0.invite == invite,
        !expired(b, now),
{
}

} // verus!
