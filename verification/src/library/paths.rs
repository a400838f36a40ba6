//! Where the library keeps its files, and what it says of a place that holds
//! none.

use crate::text::{join, joined, signed_decimal, signed_text, views};
use vstd::prelude::*;
use vstd::string::*;

verus! {

/// The path of an entry of a directory. The separator is added unless the
/// directory's path is empty or ends in one.
pub open spec fn entry_path(dir: Seq<char>, name: Seq<char>) -> Seq<char> {
    if dir.len() == 0 || dir.last() == '/' {
        dir + name
    } else {
        dir.push('/') + name
    }
}

/// The path of an entry of a directory.
pub fn path_in(dir: &str, name: &str) -> (r: String)
    ensures
        r@ == entry_path(dir@, name@),
{
    let n: usize = dir.unicode_len();
    let mut out = String::new();
    out.append(dir);
    if n > 0 && dir.get_char(n - 1) != '/' {
        out.append("/");
        proof {
            reveal_strlit("/");
        }
    }
    out.append(name);
    proof {
        assert(out@ =~= entry_path(dir@, name@));
    }
    out
}

/// Where the database stands unless it is told otherwise: in the data
/// directory, if there is one.
pub fn default_db_path(data_dir: Option<&str>) -> (r: Result<String, String>)
    ensures
        match (data_dir, r) {
            (Some(dir), Ok(path)) => path@ == entry_path(dir@, "library.db"@),
            (None, Err(message)) => message@ == "cannot determine the data directory"@,
            _ => false,
        },
{
    match data_dir {
        Some(dir) => Ok(path_in(dir, "library.db")),
        None => Err("cannot determine the data directory".to_owned()),
    }
}

/// Where covers are kept: beside the database.
pub fn covers_dir(db_parent: Option<&str>) -> (r: String)
    ensures
        r@ == match db_parent {
            Some(dir) => entry_path(dir@, "covers"@),
            None => "covers"@,
        },
{
    match db_parent {
        Some(dir) => path_in(dir, "covers"),
        None => "covers".to_owned(),
    }
}

/// The file that holds a release's embedded cover.
pub open spec fn cover_file_name(release_id: i64, extension: Seq<char>) -> Seq<char> {
    "release_"@ + signed_decimal(release_id as int) + "."@ + extension
}

/// Where a release's embedded cover is saved.
pub fn cover_path(covers_dir: &str, release_id: i64, extension: &str) -> (r: String)
    ensures
        r@ == entry_path(covers_dir@, cover_file_name(release_id, extension@)),
{
    let mut name = String::new();
    name.append("release_");
    let id = signed_text(release_id);
    name.append(id.as_str());
    name.append(".");
    name.append(extension);
    proof {
        assert(name@ =~= cover_file_name(release_id, extension@));
    }
    path_in(covers_dir, name.as_str())
}

/// A path with something added to its last name.
pub fn path_with_suffix(path: &str, suffix: &str) -> (r: String)
    ensures
        r@ == path@ + suffix@,
{
    let mut out = String::new();
    out.append(path);
    out.append(suffix);
    proof {
        assert(out@ =~= path@ + suffix@);
    }
    out
}

/// The file name extensions that an import takes.
pub open spec fn audio_extensions() -> Seq<Seq<char>> {
    seq!["mp3"@, "flac"@, "ogg"@, "oga"@, "wav"@, "m4a"@, "mp4"@, "aac"@]
}

/// What an import says of a place that holds nothing to import.
pub fn check_files_found(path: &str, found: usize) -> (r: Result<(), String>)
    ensures
        found > 0 <==> r is Ok,
        r matches Err(message) ==> message@ == "no audio files found at "@ + path@
            + " (supported: "@ + joined(audio_extensions(), ", "@) + ")"@,
{
    if found > 0 {
        return Ok(());
    }
    let mut kinds: Vec<String> = Vec::new();
    kinds.push("mp3".to_owned());
    kinds.push("flac".to_owned());
    kinds.push("ogg".to_owned());
    kinds.push("oga".to_owned());
    kinds.push("wav".to_owned());
    kinds.push("m4a".to_owned());
    kinds.push("mp4".to_owned());
    kinds.push("aac".to_owned());
    proof {
        assert(views(kinds@) =~= audio_extensions());
    }
    let list = join(kinds.as_slice(), ", ");
    let mut out = String::new();
    out.append("no audio files found at ");
    out.append(path);
    out.append(" (supported: ");
    out.append(list.as_str());
    out.append(")");
    proof {
        assert(out@ =~= "no audio files found at "@ + path@ + " (supported: "@ + joined(
            audio_extensions(),
            ", "@,
        ) + ")"@);
    }
    Err(out)
}

} // verus!
