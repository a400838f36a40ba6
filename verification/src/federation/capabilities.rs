//! Which protocols this peer speaks in which version, and which versions were
//! seen with others.

use crate::lists::{lemma_sorted_mapped, sort_by, stable_sorted};
use crate::text::{before, precedes, same};
use vstd::prelude::*;

verus! {

/// The version of the exchange of versions.
pub const CAPABILITIES_PROTOCOL_VERSION: u16 = 1;

/// Versions by the names of protocols.
pub type Versions = Vec<(String, u16)>;

pub open spec fn versions_view(s: Seq<(String, u16)>) -> Seq<(Seq<char>, u16)> {
    s.map_values(|p: (String, u16)| (p.0@, p.1))
}

pub open spec fn is_protocol(id: Seq<char>) -> spec_fn((Seq<char>, u16)) -> bool {
    |p: (Seq<char>, u16)| p.0 == id
}

/// The version of a protocol.
pub open spec fn version_of(s: Seq<(Seq<char>, u16)>, id: Seq<char>) -> Option<u16> {
    match crate::lists::first_where(s, is_protocol(id)) {
        Some(i) => Some(s[i].1),
        None => None,
    }
}

/// A protocol that others speak in a newer version.
#[derive(Debug)]
pub struct NewerProtocol {
    pub id: String,
    pub local: u16,
    pub observed: u16,
}

#[verifier::ext_equal]
pub struct NewerView {
    pub id: Seq<char>,
    pub local: u16,
    pub observed: u16,
}

impl View for NewerProtocol {
    type V = NewerView;

    open spec fn view(&self) -> NewerView {
        NewerView { id: self.id@, local: self.local, observed: self.observed }
    }
}

/// The versions of this peer and those that were seen.
#[derive(Debug)]
pub struct ProtocolVersions {
    pub local: Versions,
    pub observed: Versions,
    pub observed_peers: usize,
    pub newer: Vec<NewerProtocol>,
}

/// The versions that were seen, and the peers with the versions of their
/// programs.
#[derive(Debug)]
pub struct ObservedVersions {
    pub versions: Versions,
    pub peers: Vec<(String, String)>,
}

impl Default for ObservedVersions {
    fn default() -> (r: Self)
        ensures
            r.versions@.len() == 0,
            r.peers@.len() == 0,
    {
        ObservedVersions { versions: Vec::new(), peers: Vec::new() }
    }
}

/// The protocols that were seen in a version newer than this peer's.
pub open spec fn newer_of(local: Seq<(Seq<char>, u16)>, observed: Seq<(Seq<char>, u16)>) -> Seq<NewerView>
    decreases observed.len(),
{
    if observed.len() == 0 {
        Seq::empty()
    } else {
        let before = newer_of(local, observed.drop_last());
        let (id, version) = observed.last();
        match version_of(local, id) {
            Some(own) => if version > own {
                before.push(NewerView { id, local: own, observed: version })
            } else {
                before
            },
            None => before,
        }
    }
}

/// The versions with one more, of which the newest stays.
pub open spec fn with_version(s: Seq<(Seq<char>, u16)>, id: Seq<char>, version: u16) -> Seq<
    (Seq<char>, u16),
> {
    match crate::lists::first_where(s, is_protocol(id)) {
        Some(i) => if version > s[i].1 {
            s.update(i, (id, version))
        } else {
            s
        },
        None => s.push((id, version)),
    }
}

pub open spec fn with_versions(s: Seq<(Seq<char>, u16)>, more: Seq<(Seq<char>, u16)>) -> Seq<
    (Seq<char>, u16),
>
    decreases more.len(),
{
    if more.len() == 0 {
        s
    } else {
        with_version(with_versions(s, more.drop_last()), more.last().0, more.last().1)
    }
}

pub open spec fn peers_view(s: Seq<(String, String)>) -> Seq<(Seq<char>, Seq<char>)> {
    s.map_values(|p: (String, String)| (p.0@, p.1@))
}

pub open spec fn is_peer(id: Seq<char>) -> spec_fn((Seq<char>, Seq<char>)) -> bool {
    |p: (Seq<char>, Seq<char>)| p.0 == id
}

/// The peers with one more, whose last word counts.
pub open spec fn with_peer(s: Seq<(Seq<char>, Seq<char>)>, id: Seq<char>, version: Seq<char>) -> Seq<
    (Seq<char>, Seq<char>),
> {
    match crate::lists::first_where(s, is_peer(id)) {
        Some(i) => s.update(i, (id, version)),
        None => s.push((id, version)),
    }
}

/// The order of the names of protocols.
pub open spec fn by_id() -> spec_fn((Seq<char>, u16), (Seq<char>, u16)) -> bool {
    |a: (Seq<char>, u16), b: (Seq<char>, u16)| !precedes(b.0, a.0)
}

pub open spec fn version_by_id() -> spec_fn((String, u16), (String, u16)) -> bool {
    |a: (String, u16), b: (String, u16)| !precedes(b.0@, a.0@)
}

/// Versions in the order of the names of their protocols.
pub open spec fn in_id_order(s: Seq<(Seq<char>, u16)>) -> Seq<(Seq<char>, u16)> {
    stable_sorted(s, by_id())
}

fn find_version(s: &Versions, id: &str) -> (r: Option<usize>)
    ensures
        match r {
            Some(i) => i < s@.len() && crate::lists::first_where(
                versions_view(s@),
                is_protocol(id@),
            ) == Some(i as int),
            None => crate::lists::first_where(versions_view(s@), is_protocol(id@)) is None,
        },
{
    let ghost p = is_protocol(id@);
    let ghost all = versions_view(s@);
    let mut i: usize = 0;
    while i < s.len()
        invariant
            i <= s@.len(),
            all == versions_view(s@),
            p == is_protocol(id@),
            forall|j: int| 0 <= j < i ==> !p(#[trigger] all[j]),
        decreases s@.len() - i,
    {
        proof {
            assert(all[i as int] == (s@[i as int].0@, s@[i as int].1));
        }
        if same(s[i].0.as_str(), id) {
            proof {
                crate::lists::lemma_first_where(all, p);
                assert(p(all[i as int]));
            }
            return Some(i);
        }
        i += 1;
    }
    proof {
        crate::lists::lemma_first_where(all, p);
    }
    None
}

fn ordered_copy(s: &Versions) -> (r: Versions)
    ensures
        versions_view(r@) == in_id_order(versions_view(s@)),
{
    let mut out: Versions = Vec::new();
    let mut i: usize = 0;
    while i < s.len()
        invariant
            i <= s@.len(),
            out@.len() == i,
            forall|j: int|
                0 <= j < i ==> (#[trigger] out@[j]).0@ == s@[j].0@ && out@[j].1 == s@[j].1,
        decreases s@.len() - i,
    {
        out.push((s[i].0.clone(), s[i].1));
        i += 1;
    }
    proof {
        assert(versions_view(out@) =~= versions_view(s@));
        lemma_sorted_mapped(
            out@,
            |p: (String, u16)| (p.0@, p.1),
            version_by_id(),
            by_id(),
        );
    }
    let leq = |a: &(String, u16), b: &(String, u16)| -> (r: bool)
        ensures
            r == version_by_id()(*a, *b),
        { !before(b.0.as_str(), a.0.as_str()) };
    sort_by(&mut out, leq, Ghost(version_by_id()));
    out
}

impl ProtocolVersions {
    /// The versions of this peer, those that were seen, and which of them are
    /// newer.
    pub fn snapshot(local: &Versions, observed: &ObservedVersions) -> (r: Self)
        ensures
            versions_view(r.local@) == in_id_order(versions_view(local@)),
            versions_view(r.observed@) == in_id_order(versions_view(observed.versions@)),
            r.observed_peers == observed.peers@.len(),
            crate::lists::viewed(r.newer@) == newer_of(
                versions_view(local@),
                in_id_order(versions_view(observed.versions@)),
            ),
    {
        let ghost own = versions_view(local@);
        let seen = ordered_copy(&observed.versions);
        let ghost all = versions_view(seen@);
        let mut newer: Vec<NewerProtocol> = Vec::new();
        let mut i: usize = 0;
        proof {
            assert(all.take(0) =~= Seq::empty());
            assert(crate::lists::viewed(newer@) =~= Seq::empty());
        }
        while i < seen.len()
            invariant
                i <= seen@.len(),
                own == versions_view(local@),
                all == versions_view(seen@),
                crate::lists::viewed(newer@) == newer_of(own, all.take(i as int)),
            decreases seen@.len() - i,
        {
            proof {
                assert(all.take(i + 1).drop_last() =~= all.take(i as int));
                assert(all.take(i + 1).last() == (
                    seen@[i as int].0@,
                    seen@[i as int].1,
                ));
            }
            let version: u16 = seen[i].1;
            if let Some(k) = find_version(local, seen[i].0.as_str()) {
                if version > local[k].1 {
                    let ghost told = newer@;
                    newer.push(
                        NewerProtocol {
                            id: seen[i].0.clone(),
                            local: local[k].1,
                            observed: version,
                        },
                    );
                    proof {
                        assert(crate::lists::viewed(newer@) =~= crate::lists::viewed(told).push(
                            newer@.last()@,
                        ));
                    }
                }
            }
            i += 1;
        }
        proof {
            assert(all.take(seen@.len() as int) =~= all);
        }
        ProtocolVersions {
            local: ordered_copy(local),
            observed: seen,
            observed_peers: observed.peers.len(),
            newer,
        }
    }
}

impl ObservedVersions {
    fn note_version(&mut self, id: &str, version: u16)
        ensures
            versions_view(final(self).versions@) == with_version(
                versions_view(old(self).versions@),
                id@,
                version,
            ),
            final(self).peers == old(self).peers,
    {
        let ghost start = self.versions@;
        match find_version(&self.versions, id) {
            Some(i) => {
                if version > self.versions[i].1 {
                    self.versions[i] = (id.to_owned(), version);
                    proof {
                        assert(versions_view(self.versions@) =~= versions_view(start).update(
                            i as int,
                            (id@, version),
                        ));
                    }
                }
            },
            None => {
                self.versions.push((id.to_owned(), version));
                proof {
                    assert(versions_view(self.versions@) =~= versions_view(start).push(
                        (id@, version),
                    ));
                }
            },
        }
    }

    fn note_peer(&mut self, peer: &str, application_version: &str)
        ensures
            peers_view(final(self).peers@) == with_peer(
                peers_view(old(self).peers@),
                peer@,
                application_version@,
            ),
            final(self).versions == old(self).versions,
    {
        let ghost all = peers_view(self.peers@);
        let ghost start = self.peers@;
        let ghost p = is_peer(peer@);
        let mut i: usize = 0;
        while i < self.peers.len()
            invariant
                i <= self.peers@.len(),
                *self == *old(self),
                self.peers@ == start,
                all == peers_view(start),
                p == is_peer(peer@),
                forall|j: int| 0 <= j < i ==> !p(#[trigger] all[j]),
            decreases self.peers@.len() - i,
        {
            proof {
                assert(all[i as int] == (start[i as int].0@, start[i as int].1@));
            }
            if same(self.peers[i].0.as_str(), peer) {
                proof {
                    crate::lists::lemma_first_where(all, p);
                    assert(p(all[i as int]));
                }
                self.peers[i] = (peer.to_owned(), application_version.to_owned());
                proof {
                    assert(peers_view(self.peers@) =~= all.update(
                        i as int,
                        (peer@, application_version@),
                    ));
                }
                return;
            }
            i += 1;
        }
        proof {
            crate::lists::lemma_first_where(all, p);
        }
        self.peers.push((peer.to_owned(), application_version.to_owned()));
        proof {
            assert(peers_view(self.peers@) =~= all.push((peer@, application_version@)));
        }
    }

    /// Notes what a peer tells of itself. Of each protocol the newest version
    /// that was seen stays.
    pub fn observe(&mut self, peer: &str, application_version: &str, protocols: &Versions)
        ensures
            versions_view(final(self).versions@) == with_versions(
                versions_view(old(self).versions@),
                versions_view(protocols@),
            ),
            peers_view(final(self).peers@) == with_peer(
                peers_view(old(self).peers@),
                peer@,
                application_version@,
            ),
    {
        let ghost start = versions_view(self.versions@);
        let ghost known = self.peers;
        let ghost all = versions_view(protocols@);
        let mut i: usize = 0;
        proof {
            assert(all.take(0) =~= Seq::empty());
        }
        while i < protocols.len()
            invariant
                i <= protocols@.len(),
                all == versions_view(protocols@),
                self.peers == known,
                versions_view(self.versions@) == with_versions(start, all.take(i as int)),
            decreases protocols@.len() - i,
        {
            proof {
                assert(all.take(i + 1).drop_last() =~= all.take(i as int));
                assert(all.take(i + 1).last() == (protocols@[i as int].0@, protocols@[i as int].1));
            }
            self.note_version(protocols[i].0.as_str(), protocols[i].1);
            i += 1;
        }
        proof {
            assert(all.take(protocols@.len() as int) =~= all);
        }
        self.note_peer(peer, application_version);
    }
}

/// What a peer asks.
#[derive(Clone, Copy, PartialEq, Eq, Structural, Debug)]
pub enum CapabilityAsk {
    Get(u16),
    Other,
}

/// Whether a peer is told the versions, or why not.
pub fn answer_capabilities(ask: CapabilityAsk) -> (r: Result<(), String>)
    ensures
        match ask {
            CapabilityAsk::Get(v) => {
                &&& r is Ok == (v == CAPABILITIES_PROTOCOL_VERSION)
                &&& r matches Err(e) ==> e@ == "unsupported capability protocol "@
                    + crate::text::decimal(v as nat)
            },
            CapabilityAsk::Other => r matches Err(e) && e@ == "expected capability request"@,
        },
{
    match ask {
        CapabilityAsk::Get(v) => if v == CAPABILITIES_PROTOCOL_VERSION {
            Ok(())
        } else {
            let mut e = "unsupported capability protocol ".to_owned();
            e.append(crate::text::decimal_text(v as u64).as_str());
            Err(e)
        },
        CapabilityAsk::Other => Err("expected capability request".to_owned()),
    }
}

/// A protocol that is told to be newer was seen in a version that is strictly
/// newer than this peer's.
pub proof fn law_newer_is_strictly_newer(
    local: Seq<(Seq<char>, u16)>,
    observed: Seq<(Seq<char>, u16)>,
    i: int,
)
    requires
        0 <= i < newer_of(local, observed).len(),
    ensures
        newer_of(local, observed)[i].local < newer_of(local, observed)[i].observed,
        version_of(local, newer_of(local, observed)[i].id) == Some(
            newer_of(local, observed)[i].local,
        ),
    decreases observed.len(),
{
    if observed.len() > 0 {
        let before = newer_of(local, observed.drop_last());
        if i < before.len() {
            law_newer_is_strictly_newer(local, observed.drop_last(), i);
        }
    }
}

/// A version that was seen never gets older.
pub proof fn law_observed_version_never_goes_back(
    s: Seq<(Seq<char>, u16)>,
    id: Seq<char>,
    version: u16,
    other: Seq<char>,
)
    ensures
        version_of(s, other) matches Some(v) ==> version_of(with_version(s, id, version), other)
            matches Some(w) && w >= v,
        version_of(with_version(s, id, version), id) matches Some(w) && w >= version,
{
    let t = with_version(s, id, version);
    let p = is_protocol(other);
    let q = is_protocol(id);
    crate::lists::lemma_first_where(s, p);
    crate::lists::lemma_first_where(s, q);
    crate::lists::lemma_first_where(t, p);
    crate::lists::lemma_first_where(t, q);
    match crate::lists::first_where(s, q) {
        Some(i) => {
            assert(t.len() == s.len());
            assert(t[i].0 == id);
            assert forall|j: int| 0 <= j < s.len() implies #[trigger] t[j].0 == s[j].0 by {}
            let k = crate::lists::first_where(t, q)->0;
            if k < i {
                assert(q(s[k]));
            }
            if i < k {
                assert(q(t[i]));
            }
            if let Some(m) = crate::lists::first_where(s, p) {
                assert(p(t[m]));
                let n = crate::lists::first_where(t, p)->0;
                if n < m {
                    assert(p(s[n]));
                }
                if m < n {
                    assert(p(t[m]));
                }
            }
        },
        None => {
            assert(t[s.len() as int] == (id, version));
            assert(q(t[s.len() as int]));
            let k = crate::lists::first_where(t, q)->0;
            if k < s.len() {
                assert(t[k] == s[k]);
                assert(q(s[k]));
            }
            if let Some(m) = crate::lists::first_where(s, p) {
                assert(t[m] == s[m]);
                assert(p(t[m]));
                let n = crate::lists::first_where(t, p)->0;
                if n < m {
                    assert(t[n] == s[n]);
                    assert(p(s[n]));
                }
            }
        },
    }
}

} // verus!
