//! Taking part in the network: the settings, what is published, and what is
//! shown of it.

use crate::federation::search::ItemKind;
use crate::library::export::{
    ExportRelease, ExportReleaseView, ExportTrack, ExportTrackView, FederationExport,
};
use crate::library::models::{known_duration, positive_or_none, Seconds};
use crate::lists::viewed;
use crate::text::{
    decimal, decimal_text, is_blank, opt_view, same, signed_decimal, signed_text, trim, trimmed,
    views,
};
use vstd::prelude::*;

verus! {

// ---------------------------------------------------------------------------
// Settings
// ---------------------------------------------------------------------------

#[derive(Debug)]
pub struct FedSettings {
    pub enabled: bool,
    pub network_id: String,
    /// Tracks that were fetched to be played are taken into the library
    /// instead of a cache that is thrown away.
    pub save_on_listen: bool,
}

impl Default for FedSettings {
    fn default() -> (r: Self)
        ensures
            !r.enabled,
            r.network_id@.len() == 0,
            !r.save_on_listen,
    {
        FedSettings { enabled: false, network_id: String::new(), save_on_listen: false }
    }
}

/// What new settings ask for.
#[derive(Debug)]
pub enum SettingsStep {
    /// Join the network with a name.
    Join(String),
    /// Leave the network.
    Leave,
}

/// What new settings ask for. A network without a name cannot be joined.
pub fn apply_settings(settings: &FedSettings) -> (r: Result<SettingsStep, String>)
    ensures
        match r {
            Ok(SettingsStep::Join(name)) => settings.enabled && !is_blank(settings.network_id@)
                && name@ == trimmed(settings.network_id@),
            Ok(SettingsStep::Leave) => !settings.enabled,
            Err(e) => settings.enabled && is_blank(settings.network_id@) && e@
                == "set a network id before enabling federation"@,
        },
{
    if !settings.enabled {
        return Ok(SettingsStep::Leave);
    }
    let name = trim(settings.network_id.as_str());
    if name.as_str().is_empty() {
        Err("set a network id before enabling federation".to_owned())
    } else {
        Ok(SettingsStep::Join(name))
    }
}

/// The network that is joined at the start, if any.
pub fn autostart(settings: &FedSettings) -> (r: Option<String>)
    ensures
        opt_view(r) == if settings.enabled && !is_blank(settings.network_id@) {
            Some(trimmed(settings.network_id@))
        } else {
            None
        },
{
    if !settings.enabled {
        return None;
    }
    let name = trim(settings.network_id.as_str());
    if name.as_str().is_empty() {
        None
    } else {
        Some(name)
    }
}

/// What has to be done to be in a network.
#[derive(Clone, Copy, PartialEq, Eq, Structural, Debug)]
pub enum StartStep {
    /// It is joined already.
    Keep,
    /// Another one is left first.
    Restart,
    Start,
}

/// What has to be done to be in a network, given by its id.
pub fn start_step(running: &Option<String>, wanted: &str) -> (r: StartStep)
    ensures
        r == match opt_view(*running) {
            Some(id) => if id == wanted@ {
                StartStep::Keep
            } else {
                StartStep::Restart
            },
            None => StartStep::Start,
        },
{
    match running {
        Some(id) => if same(id.as_str(), wanted) {
            StartStep::Keep
        } else {
            StartStep::Restart
        },
        None => StartStep::Start,
    }
}

/// The name of the network of one's own devices.
pub fn device_network_name(group_id: &str) -> (r: String)
    ensures
        r@ == "furumi-device-sync:"@ + group_id@,
{
    let mut out = "furumi-device-sync:".to_owned();
    out.append(group_id);
    out
}

// ---------------------------------------------------------------------------
// What is published
// ---------------------------------------------------------------------------

/// An item to publish.
#[derive(Debug)]
pub struct ItemSpec {
    pub local_key: String,
    pub kind: ItemKind,
    pub name: String,
    pub artist_names: Vec<String>,
    pub featured_artist_names: Vec<String>,
    pub year: Option<i32>,
    pub release_type: Option<String>,
    pub release_title: Option<String>,
    pub track_number: Option<i32>,
    pub disc_number: Option<i32>,
    pub duration: Option<Seconds>,
    pub content_id: Option<String>,
}

#[verifier::ext_equal]
pub struct SpecView {
    pub local_key: Seq<char>,
    pub kind: ItemKind,
    pub name: Seq<char>,
    pub artist_names: Seq<Seq<char>>,
    pub featured_artist_names: Seq<Seq<char>>,
    pub year: Option<i32>,
    pub release_type: Option<Seq<char>>,
    pub release_title: Option<Seq<char>>,
    pub track_number: Option<i32>,
    pub disc_number: Option<i32>,
    pub duration: Option<Seconds>,
    pub content_id: Option<Seq<char>>,
}

impl View for ItemSpec {
    type V = SpecView;

    open spec fn view(&self) -> SpecView {
        SpecView {
            local_key: self.local_key@,
            kind: self.kind,
            name: self.name@,
            artist_names: views(self.artist_names@),
            featured_artist_names: views(self.featured_artist_names@),
            year: self.year,
            release_type: opt_view(self.release_type),
            release_title: opt_view(self.release_title),
            track_number: self.track_number,
            disc_number: self.disc_number,
            duration: self.duration,
            content_id: opt_view(self.content_id),
        }
    }
}

pub open spec fn local_key(kind: Seq<char>, id: i64) -> Seq<char> {
    kind + signed_decimal(id as int)
}

pub open spec fn artist_spec(a: (i64, String)) -> SpecView {
    SpecView {
        local_key: local_key("artist:"@, a.0),
        kind: ItemKind::Artist,
        name: a.1@,
        artist_names: Seq::empty(),
        featured_artist_names: Seq::empty(),
        year: None,
        release_type: None,
        release_title: None,
        track_number: None,
        disc_number: None,
        duration: None,
        content_id: None,
    }
}

pub open spec fn release_spec(r: ExportReleaseView) -> SpecView {
    SpecView {
        local_key: local_key("release:"@, r.id),
        kind: ItemKind::Release,
        name: r.title,
        artist_names: r.artist_names,
        featured_artist_names: Seq::empty(),
        year: r.year,
        release_type: Some(r.release_type),
        release_title: None,
        track_number: None,
        disc_number: None,
        duration: None,
        content_id: None,
    }
}

pub open spec fn track_spec(t: ExportTrackView) -> SpecView {
    SpecView {
        local_key: local_key("track:"@, t.id),
        kind: ItemKind::Track,
        name: t.title,
        artist_names: t.artist_names,
        featured_artist_names: t.featured_artist_names,
        year: t.year,
        release_type: Some(t.release_type),
        release_title: Some(t.release_title),
        track_number: t.track_number,
        disc_number: t.disc_number,
        duration: positive_or_none(t.duration),
        content_id: t.content_id,
    }
}

/// Everything that is published.
pub open spec fn specs_of(export: FederationExport) -> Seq<SpecView> {
    export.artists@.map_values(|a: (i64, String)| artist_spec(a)) + viewed(
        export.releases@,
    ).map_values(|r: ExportReleaseView| release_spec(r)) + viewed(export.tracks@).map_values(
        |t: ExportTrackView| track_spec(t),
    )
}

fn key_text(kind: &str, id: i64) -> (r: String)
    ensures
        r@ == local_key(kind@, id),
{
    let mut out = kind.to_owned();
    out.append(signed_text(id).as_str());
    out
}

fn put_artist_specs(out: &mut Vec<ItemSpec>, artists: Vec<(i64, String)>)
    ensures
        viewed(final(out)@) == viewed(old(out)@) + artists@.map_values(
            |a: (i64, String)| artist_spec(a),
        ),
{
    let ghost all = artists@;
    let ghost goal = all.map_values(|a: (i64, String)| artist_spec(a));
    let ghost start = viewed(out@);
    let size: usize = artists.len();
    let mut rest = artists;
    let mut i: usize = 0;
    proof {
        assert(all.skip(0) =~= all);
        assert(start + goal.take(0) =~= start);
    }
    while i < size
        invariant
            i <= size,
            size == all.len(),
            rest@ == all.skip(i as int),
            goal == all.map_values(|a: (i64, String)| artist_spec(a)),
            viewed(out@) == start + goal.take(i as int),
        decreases size - i,
    {
        proof {
            assert(rest@.len() == all.len() - i);
            assert(rest@[0] == all[i as int]);
            assert(all.skip(i as int).skip(1) =~= all.skip(i + 1));
        }
        let ghost before = rest@;
        let ghost b = out@;
        let (id, name) = rest.remove(0);
        proof {
            assert(rest@ =~= before.skip(1));
        }
        out.push(
            ItemSpec {
                local_key: key_text("artist:", id),
                kind: ItemKind::Artist,
                name,
                artist_names: Vec::new(),
                featured_artist_names: Vec::new(),
                year: None,
                release_type: None,
                release_title: None,
                track_number: None,
                disc_number: None,
                duration: None,
                content_id: None,
            },
        );
        proof {
            assert(out@.last()@ =~= goal[i as int]);
            assert(viewed(out@) =~= viewed(b).push(goal[i as int]));
            assert(start + goal.take(i + 1) =~= (start + goal.take(i as int)).push(
                goal[i as int],
            ));
        }
        i += 1;
    }
    proof {
        assert(goal.take(size as int) =~= goal);
    }
}

fn put_release_specs(out: &mut Vec<ItemSpec>, releases: Vec<ExportRelease>)
    ensures
        viewed(final(out)@) == viewed(old(out)@) + viewed(releases@).map_values(
            |r: ExportReleaseView| release_spec(r),
        ),
{
    let ghost all = releases@;
    let ghost goal = viewed(all).map_values(|r: ExportReleaseView| release_spec(r));
    let ghost start = viewed(out@);
    let size: usize = releases.len();
    let mut rest = releases;
    let mut i: usize = 0;
    proof {
        assert(all.skip(0) =~= all);
        assert(start + goal.take(0) =~= start);
    }
    while i < size
        invariant
            i <= size,
            size == all.len(),
            rest@ == all.skip(i as int),
            goal == viewed(all).map_values(|r: ExportReleaseView| release_spec(r)),
            viewed(out@) == start + goal.take(i as int),
        decreases size - i,
    {
        proof {
            assert(rest@.len() == all.len() - i);
            assert(rest@[0] == all[i as int]);
            assert(all.skip(i as int).skip(1) =~= all.skip(i + 1));
        }
        let ghost before = rest@;
        let ghost b = out@;
        let r = rest.remove(0);
        proof {
            assert(rest@ =~= before.skip(1));
        }
        out.push(
            ItemSpec {
                local_key: key_text("release:", r.id),
                kind: ItemKind::Release,
                name: r.title,
                artist_names: r.artist_names,
                featured_artist_names: Vec::new(),
                year: r.year,
                release_type: Some(r.release_type),
                release_title: None,
                track_number: None,
                disc_number: None,
                duration: None,
                content_id: None,
            },
        );
        proof {
            assert(out@.last()@ =~= goal[i as int]);
            assert(viewed(out@) =~= viewed(b).push(goal[i as int]));
            assert(start + goal.take(i + 1) =~= (start + goal.take(i as int)).push(
                goal[i as int],
            ));
        }
        i += 1;
    }
    proof {
        assert(goal.take(size as int) =~= goal);
    }
}

fn put_track_specs(out: &mut Vec<ItemSpec>, tracks: Vec<ExportTrack>)
    ensures
        viewed(final(out)@) == viewed(old(out)@) + viewed(tracks@).map_values(
            |t: ExportTrackView| track_spec(t),
        ),
{
    let ghost all = tracks@;
    let ghost goal = viewed(all).map_values(|t: ExportTrackView| track_spec(t));
    let ghost start = viewed(out@);
    let size: usize = tracks.len();
    let mut rest = tracks;
    let mut i: usize = 0;
    proof {
        assert(all.skip(0) =~= all);
        assert(start + goal.take(0) =~= start);
    }
    while i < size
        invariant
            i <= size,
            size == all.len(),
            rest@ == all.skip(i as int),
            goal == viewed(all).map_values(|t: ExportTrackView| track_spec(t)),
            viewed(out@) == start + goal.take(i as int),
        decreases size - i,
    {
        proof {
            assert(rest@.len() == all.len() - i);
            assert(rest@[0] == all[i as int]);
            assert(all.skip(i as int).skip(1) =~= all.skip(i + 1));
        }
        let ghost before = rest@;
        let ghost b = out@;
        let t = rest.remove(0);
        proof {
            assert(rest@ =~= before.skip(1));
        }
        out.push(
            ItemSpec {
                local_key: key_text("track:", t.id),
                kind: ItemKind::Track,
                name: t.title,
                artist_names: t.artist_names,
                featured_artist_names: t.featured_artist_names,
                year: t.year,
                release_type: Some(t.release_type),
                release_title: Some(t.release_title),
                track_number: t.track_number,
                disc_number: t.disc_number,
                duration: known_duration(t.duration),
                content_id: t.content_id,
            },
        );
        proof {
            assert(out@.last()@ =~= goal[i as int]);
            assert(viewed(out@) =~= viewed(b).push(goal[i as int]));
            assert(start + goal.take(i + 1) =~= (start + goal.take(i as int)).push(
                goal[i as int],
            ));
        }
        i += 1;
    }
    proof {
        assert(goal.take(size as int) =~= goal);
    }
}

/// The items to publish: the artists, the releases and the tracks of the
/// library. Only names and small facts are shared, never the paths of files.
pub fn collect_specs(export: FederationExport) -> (r: Vec<ItemSpec>)
    ensures
        viewed(r@) == specs_of(export),
{
    let mut out: Vec<ItemSpec> = Vec::new();
    let ghost e = export;
    put_artist_specs(&mut out, export.artists);
    put_release_specs(&mut out, export.releases);
    put_track_specs(&mut out, export.tracks);
    proof {
        assert(viewed(out@) =~= specs_of(e));
    }
    out
}

// ---------------------------------------------------------------------------
// What is shown of it
// ---------------------------------------------------------------------------

/// What a synchronisation of the published items did.
#[derive(Clone, Copy, PartialEq, Eq, Structural, Debug)]
pub struct SyncStats {
    pub added: u64,
    pub updated: u64,
    pub removed: u64,
    pub unchanged: u64,
    pub failed: u64,
}

/// What publishing everything anew did.
#[derive(Clone, Copy, PartialEq, Eq, Structural, Debug)]
pub struct PublishStats {
    pub records: u64,
    pub keys: u64,
    pub remote_nodes: u64,
}

pub open spec fn counts_text(now: Seq<char>, s: SyncStats) -> Seq<char> {
    now + " (+"@ + decimal(s.added as nat) + " ~"@ + decimal(s.updated as nat) + " −"@ + decimal(
        s.removed as nat,
    ) + ", unchanged "@ + decimal(s.unchanged as nat) + ", failed "@ + decimal(s.failed as nat)
}

fn counts_label(now: &str, s: &SyncStats) -> (r: String)
    ensures
        r@ == counts_text(now@, *s),
{
    let mut out = now.to_owned();
    out.append(" (+");
    out.append(decimal_text(s.added).as_str());
    out.append(" ~");
    out.append(decimal_text(s.updated).as_str());
    out.append(" −");
    out.append(decimal_text(s.removed).as_str());
    out.append(", unchanged ");
    out.append(decimal_text(s.unchanged).as_str());
    out.append(", failed ");
    out.append(decimal_text(s.failed).as_str());
    out
}

/// What is shown after a synchronisation.
pub fn sync_label(now: &str, stats: &SyncStats) -> (r: String)
    ensures
        r@ == counts_text(now@, *stats) + ")"@,
{
    let mut out = counts_label(now, stats);
    out.append(")");
    out
}

/// What is shown after everything was published anew.
pub fn publish_label(now: &str, sync: &SyncStats, publish: &PublishStats) -> (r: String)
    ensures
        r@ == counts_text(now@, *sync) + "; republished "@ + decimal(publish.records as nat)
            + " records, "@ + decimal(publish.keys as nat) + " keys, remote nodes "@ + decimal(
            publish.remote_nodes as nat,
        ) + ")"@,
{
    let mut out = counts_label(now, sync);
    out.append("; republished ");
    out.append(decimal_text(publish.records).as_str());
    out.append(" records, ");
    out.append(decimal_text(publish.keys).as_str());
    out.append(" keys, remote nodes ");
    out.append(decimal_text(publish.remote_nodes).as_str());
    out.append(")");
    out
}

/// The error that is shown after a synchronisation, if any.
pub fn sync_error(stats: &SyncStats) -> (r: Option<String>)
    ensures
        opt_view(r) == if stats.failed > 0 {
            Some(decimal(stats.failed as nat) + " item(s) failed to publish in the last sync"@)
        } else {
            None
        },
{
    if stats.failed > 0 {
        let mut e = decimal_text(stats.failed);
        e.append(" item(s) failed to publish in the last sync");
        Some(e)
    } else {
        None
    }
}

/// What is shown of the network.
#[derive(Debug)]
pub struct FedStatus {
    pub running: bool,
    pub network: String,
    pub endpoint_id: String,
    pub dht_node_id: String,
    pub connected_peers: Vec<String>,
    pub known_contacts: usize,
    pub stored_dht_records: Option<usize>,
    pub stored_dht_bytes: Option<u64>,
    pub published_items: usize,
    pub last_sync: Option<String>,
    pub last_error: Option<String>,
}

impl Default for FedStatus {
    fn default() -> (r: Self)
        ensures
            !r.running,
            r.network@.len() == 0,
            r.endpoint_id@.len() == 0,
            r.dht_node_id@.len() == 0,
            r.connected_peers@.len() == 0,
            r.known_contacts == 0,
            r.stored_dht_records is None,
            r.stored_dht_bytes is None,
            r.published_items == 0,
            r.last_sync is None,
            r.last_error is None,
    {
        FedStatus {
            running: false,
            network: String::new(),
            endpoint_id: String::new(),
            dht_node_id: String::new(),
            connected_peers: Vec::new(),
            known_contacts: 0,
            stored_dht_records: None,
            stored_dht_bytes: None,
            published_items: 0,
            last_sync: None,
            last_error: None,
        }
    }
}

/// What the node tells of itself while it runs.
#[derive(Debug)]
pub struct NodeFacts {
    pub network: String,
    pub endpoint_id: String,
    pub dht_node_id: String,
    pub connected_peers: Vec<String>,
    pub known_contacts: usize,
    pub stored_dht_records: Option<usize>,
    pub stored_dht_bytes: Option<u64>,
    pub published_items: Option<usize>,
}

/// What is shown of the network: the name from the settings while the node
/// does not run, else what the node tells.
pub fn status(
    settings: &FedSettings,
    node: Option<NodeFacts>,
    last_sync: Option<String>,
    last_error: Option<String>,
) -> (r: FedStatus)
    ensures
        r.running == (node is Some),
        opt_view(r.last_sync) == opt_view(last_sync),
        opt_view(r.last_error) == opt_view(last_error),
        match node {
            Some(n) => {
                &&& r.network == n.network
                &&& r.endpoint_id == n.endpoint_id
                &&& r.dht_node_id == n.dht_node_id
                &&& r.connected_peers == n.connected_peers
                &&& r.known_contacts == n.known_contacts
                &&& r.stored_dht_records == n.stored_dht_records
                &&& r.stored_dht_bytes == n.stored_dht_bytes
                &&& r.published_items == match n.published_items {
                    Some(k) => k,
                    None => 0,
                }
            },
            None => {
                &&& r.network@ == settings.network_id@
                &&& r.endpoint_id@.len() == 0
                &&& r.dht_node_id@.len() == 0
                &&& r.connected_peers@.len() == 0
                &&& r.known_contacts == 0
                &&& r.stored_dht_records is None
                &&& r.stored_dht_bytes is None
                &&& r.published_items == 0
            },
        },
{
    match node {
        Some(n) => FedStatus {
            running: true,
            network: n.network,
            endpoint_id: n.endpoint_id,
            dht_node_id: n.dht_node_id,
            connected_peers: n.connected_peers,
            known_contacts: n.known_contacts,
            stored_dht_records: n.stored_dht_records,
            stored_dht_bytes: n.stored_dht_bytes,
            published_items: match n.published_items {
                Some(k) => k,
                None => 0,
            },
            last_sync,
            last_error,
        },
        None => {
            let mut s = FedStatus::default();
            s.network = settings.network_id.clone();
            s.last_sync = last_sync;
            s.last_error = last_error;
            s
        },
    }
}

} // verus!
