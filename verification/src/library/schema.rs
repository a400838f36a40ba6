//! Bringing a stored library up to the shape that the rest expects.

use crate::library::playlists::{made_sync_id, make_playlist_sync_id};
use crate::library::tables::{Library, PlaylistRow};
use crate::lists::holds_text;
use crate::text::{opt_view, views};
use vstd::prelude::*;

verus! {

/// The columns of the tables that have grown over time.
#[derive(Debug)]
pub struct Columns {
    pub fed_likes: Vec<String>,
    pub likes: Vec<String>,
    pub tracks: Vec<String>,
    pub playlists: Vec<String>,
    pub network_artist_cache: Vec<String>,
}

/// Statements to run where a table lacks a column.
pub open spec fn if_missing(columns: Seq<String>, column: Seq<char>, statements: Seq<Seq<char>>) -> Seq<
    Seq<char>,
> {
    if views(columns).contains(column) {
        Seq::empty()
    } else {
        statements
    }
}

/// The statements that give the tables the columns they lack, in their order.
pub open spec fn migrations_of(c: Columns) -> Seq<Seq<char>> {
    if_missing(
        c.fed_likes@,
        "featured_artist_names"@,
        seq!["ALTER TABLE fed_likes ADD COLUMN featured_artist_names TEXT NOT NULL DEFAULT ''"@],
    ) + if_missing(
        c.fed_likes@,
        "content_id"@,
        seq!["ALTER TABLE fed_likes ADD COLUMN content_id TEXT"@],
    ) + if_missing(
        c.fed_likes@,
        "liked_hlc_ms"@,
        seq!["ALTER TABLE fed_likes ADD COLUMN liked_hlc_ms INTEGER"@],
    ) + if_missing(
        c.likes@,
        "liked_hlc_ms"@,
        seq!["ALTER TABLE likes ADD COLUMN liked_hlc_ms INTEGER"@],
    ) + if_missing(
        c.tracks@,
        "content_id"@,
        seq!["ALTER TABLE tracks ADD COLUMN content_id TEXT"@],
    ) + if_missing(
        c.playlists@,
        "sync_id"@,
        seq![
            "ALTER TABLE playlists ADD COLUMN sync_id TEXT"@,
            "CREATE UNIQUE INDEX IF NOT EXISTS idx_playlists_sync_id ON playlists(sync_id)"@,
        ],
    ) + if_missing(
        c.network_artist_cache@,
        "remote_image_hint"@,
        seq!["ALTER TABLE network_artist_cache ADD COLUMN remote_image_hint TEXT"@],
    )
}

/// Adds a statement where a column is missing.
fn add_if_missing(out: &mut Vec<String>, columns: &Vec<String>, column: &str, statement: &str)
    ensures
        views(final(out)@) == views(old(out)@) + if_missing(columns@, column@, seq![statement@]),
{
    if !holds_text(columns, column) {
        out.push(statement.to_owned());
    }
    proof {
        assert(views(out@) =~= views(old(out)@) + if_missing(columns@, column@, seq![statement@]));
    }
}

/// The statements that bring the tables up to date, in the order to run them.
pub fn migrations(columns: &Columns) -> (r: Vec<String>)
    ensures
        views(r@) == migrations_of(*columns),
{
    let mut out: Vec<String> = Vec::new();
    add_if_missing(
        &mut out,
        &columns.fed_likes,
        "featured_artist_names",
        "ALTER TABLE fed_likes ADD COLUMN featured_artist_names TEXT NOT NULL DEFAULT ''",
    );
    add_if_missing(
        &mut out,
        &columns.fed_likes,
        "content_id",
        "ALTER TABLE fed_likes ADD COLUMN content_id TEXT",
    );
    add_if_missing(
        &mut out,
        &columns.fed_likes,
        "liked_hlc_ms",
        "ALTER TABLE fed_likes ADD COLUMN liked_hlc_ms INTEGER",
    );
    add_if_missing(
        &mut out,
        &columns.likes,
        "liked_hlc_ms",
        "ALTER TABLE likes ADD COLUMN liked_hlc_ms INTEGER",
    );
    add_if_missing(
        &mut out,
        &columns.tracks,
        "content_id",
        "ALTER TABLE tracks ADD COLUMN content_id TEXT",
    );
    let ghost before = views(out@);
    if !holds_text(&columns.playlists, "sync_id") {
        out.push("ALTER TABLE playlists ADD COLUMN sync_id TEXT".to_owned());
        out.push(
            "CREATE UNIQUE INDEX IF NOT EXISTS idx_playlists_sync_id ON playlists(sync_id)".to_owned(),
        );
    }
    proof {
        assert(views(out@) =~= before + if_missing(
            columns.playlists@,
            "sync_id"@,
            seq![
                "ALTER TABLE playlists ADD COLUMN sync_id TEXT"@,
                "CREATE UNIQUE INDEX IF NOT EXISTS idx_playlists_sync_id ON playlists(sync_id)"@,
            ],
        ));
    }
    add_if_missing(
        &mut out,
        &columns.network_artist_cache,
        "remote_image_hint",
        "ALTER TABLE network_artist_cache ADD COLUMN remote_image_hint TEXT",
    );
    proof {
        assert(views(out@) =~= migrations_of(*columns));
    }
    out
}

/// A playlist with a sync id: its own, or one made for it.
pub open spec fn with_sync_id(p: PlaylistRow, now_nanos: u64, process: u32, after: PlaylistRow) -> bool {
    match p.sync_id {
        Some(id) => after == p,
        None => {
            &&& opt_view(after.sync_id) == Some(made_sync_id(p.id, p.title@, now_nanos, process))
            &&& (PlaylistRow { sync_id: p.sync_id, ..after }) == p
        },
    }
}

/// What giving every playlist a sync id changes.
pub open spec fn fills_sync_ids(a: Library, b: Library, stamps: Seq<u64>, process: u32) -> bool {
    &&& b.playlists@.len() == a.playlists@.len()
    &&& forall|i: int|
        0 <= i < a.playlists@.len() ==> with_sync_id(
            a.playlists@[i],
            stamps[i],
            process,
            #[trigger] b.playlists@[i],
        )
    &&& (Library { playlists: a.playlists, ..b }) == a
}

impl Library {
    /// Gives every playlist that lacks one a sync id. The clock is read once for
    /// each playlist.
    pub fn fill_sync_ids(&mut self, stamps: &[u64], process: u32)
        requires
            stamps@.len() == old(self).playlists@.len(),
        ensures
            fills_sync_ids(*old(self), *final(self), stamps@, process),
    {
        let ghost start = self.playlists@;
        let mut i: usize = 0;
        while i < self.playlists.len()
            invariant
                start == old(self).playlists@,
                stamps@.len() == start.len(),
                i <= start.len(),
                self.playlists@.len() == start.len(),
                forall|k: int|
                    0 <= k < i ==> with_sync_id(
                        start[k],
                        stamps@[k],
                        process,
                        #[trigger] self.playlists@[k],
                    ),
                forall|k: int| i <= k < start.len() ==> #[trigger] self.playlists@[k] == start[k],
                (Library { playlists: old(self).playlists, ..*self }) == *old(self),
            decreases start.len() - i,
        {
            if self.playlists[i].sync_id.is_none() {
                let id = make_playlist_sync_id(
                    self.playlists[i].id,
                    self.playlists[i].title.as_str(),
                    stamps[i],
                    process,
                );
                self.playlists[i].sync_id = Some(id);
            }
            i = i + 1;
        }
    }
}

} // verus!
