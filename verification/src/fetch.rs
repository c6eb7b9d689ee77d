//! Where releases are downloaded from, and whether one is an update.
//!
//! Release assets are plain redirects to a CDN, not the GitHub API, so nothing
//! here needs a token or counts against the unauthenticated rate limit. The
//! downloading itself is the application's.

use std::io::{self, Read};

use flate2::read::GzDecoder;
use tar::{Archive, EntryType};
use vstd::prelude::*;

use crate::error::Error;
use crate::text::{owned, push_str};
use crate::version::{is_newer, version_text, LibraryVersion};

verus! {

/// The repository releases come from, as `owner/name`.
pub const DEFAULT_REPO: &'static str = "MysteriousWolf/deepmind-patches";

/// URL of the newest release's `index.toml`.
pub fn index_url(owner_repo: &str) -> (url: String)
    ensures
        url@ == "https://github.com/"@ + owner_repo@ + "/releases/latest/download/index.toml"@,
{
    let mut url = owned("https://github.com/");
    push_str(&mut url, owner_repo);
    push_str(&mut url, "/releases/latest/download/index.toml");
    url
}

/// URL of the newest release's `patches.tar.gz`, which is `presets/`.
pub fn patches_url(owner_repo: &str) -> (url: String)
    ensures
        url@ == "https://github.com/"@ + owner_repo@ + "/releases/latest/download/patches.tar.gz"@,
{
    let mut url = owned("https://github.com/");
    push_str(&mut url, owner_repo);
    push_str(&mut url, "/releases/latest/download/patches.tar.gz");
    url
}

/// URL of the newest release's `demos.tar.gz`, which is `demos/`.
pub fn demos_url(owner_repo: &str) -> (url: String)
    ensures
        url@ == "https://github.com/"@ + owner_repo@ + "/releases/latest/download/demos.tar.gz"@,
{
    let mut url = owned("https://github.com/");
    push_str(&mut url, owner_repo);
    push_str(&mut url, "/releases/latest/download/demos.tar.gz");
    url
}

/// URL of one release's asset by tag.
pub fn asset_url(owner_repo: &str, version: LibraryVersion, asset: &str) -> (url: String)
    ensures
        url@ == "https://github.com/"@ + owner_repo@ + "/releases/download/v"@ + version_text(
            version,
        ) + "/"@ + asset@,
{
    let mut url = owned("https://github.com/");
    push_str(&mut url, owner_repo);
    push_str(&mut url, "/releases/download/");
    let tag = version.tag();
    push_str(&mut url, tag.as_str());
    push_str(&mut url, "/");
    push_str(&mut url, asset);
    proof {
        reveal_strlit("/releases/download/");
        reveal_strlit("/releases/download/v");
        reveal_strlit("v");
        assert("/releases/download/"@ + "v"@ =~= "/releases/download/v"@);
    }
    url
}

/// Whether the newest release is an update over the one held: its version is
/// later.
pub fn is_update(latest: LibraryVersion, held: LibraryVersion) -> (r: bool)
    ensures
        r == is_newer(latest, held),
{
    latest.is_newer_than(&held)
}

/// What reading a `.tar.gz` in memory gives, entry by entry: for a regular
/// file its path and its bytes, nothing for any other entry; or where
/// reading stopped and why.
pub uninterp spec fn tar_gz_read(archive: Seq<u8>) -> Result<Seq<Option<(Seq<char>, Seq<u8>)>>, (Seq<char>, Seq<char>)>;

/// Reads every entry of a gzip-compressed tar archive (`flate2`'s
/// `GzDecoder` under `tar::Archive::entries`); the path and bytes of a
/// regular file, and of no other entry.
///
/// Trusted: the result is named by [`tar_gz_read`], a function of the bytes;
/// an error names `archive`, or the file whose bytes did not read.
#[verifier::external_body]
fn read_tar_gz(archive: &[u8]) -> (r: Result<Vec<Option<(String, Vec<u8>)>>, (String, String)>)
    ensures
        match (r, tar_gz_read(archive@)) {
            (Ok(list), Ok(entries)) => list@.len() == entries.len() && forall|i: int|
                0 <= i < entries.len() ==> match (#[trigger] list@[i], entries[i]) {
                    (Some(f), Some(g)) => f.0@ == g.0 && f.1@ == g.1,
                    (None, None) => true,
                    _ => false,
                },
            (Err((p, m)), Err((q, n))) => p@ == q && m@ == n,
            _ => false,
        },
{
    let at = |path: &str, e: io::Error| (path.to_owned(), e.to_string());
    let mut out = Vec::new();
    for entry in Archive::new(GzDecoder::new(archive)).entries().map_err(|e| at("archive", e))? {
        let mut entry = entry.map_err(|e| at("archive", e))?;
        match entry.header().entry_type() {
            EntryType::Regular => {
                let path = entry.path().map_err(|e| at("archive", e))?.to_string_lossy().into_owned();
                let mut bytes = Vec::new();
                entry.read_to_end(&mut bytes).map_err(|e| at(&path, e))?;
                out.push(Some((path, bytes)));
            }
            _ => out.push(None),
        }
    }
    Ok(out)
}

/// The regular files among an archive's entries, in order.
pub open spec fn files_of(entries: Seq<Option<(Seq<char>, Seq<u8>)>>) -> Seq<(Seq<char>, Seq<u8>)>
    decreases entries.len(),
{
    if entries.len() == 0 {
        seq![]
    } else {
        files_of(entries.drop_last()) + match entries.last() {
            Some(f) => seq![f],
            None => seq![],
        }
    }
}

/// Reads a `.tar.gz` already in memory, giving the path and bytes of each
/// regular file.
pub fn entries(archive: &[u8]) -> (r: Result<Vec<(String, Vec<u8>)>, Error>)
    ensures
        match tar_gz_read(archive@) {
            Ok(all) => r matches Ok(files) && files@.len() == files_of(all).len() && forall|i: int|
                0 <= i < files@.len() ==> (#[trigger] files@[i]).0@ == files_of(all)[i].0 && files@[i].1@ == files_of(
                    all,
                )[i].1,
            Err((p, m)) => r matches Err(Error::Io { path, message }) && path@ == p && message@ == m,
        },
{
    match read_tar_gz(archive) {
        Err((path, message)) => Err(Error::Io { path, message }),
        Ok(mut all) => {
            let ghost entries = tar_gz_read(archive@)->Ok_0;
            let mut out: Vec<(String, Vec<u8>)> = Vec::new();
            let mut i: usize = 0;
            let n = all.len();
            while all.len() > 0
                invariant
                    i + all@.len() == n,
                    n == entries.len(),
                    forall|k: int|
                        0 <= k < all@.len() ==> match (#[trigger] all@[k], entries[i + k]) {
                            (Some(f), Some(g)) => f.0@ == g.0 && f.1@ == g.1,
                            (None, None) => true,
                            _ => false,
                        },
                    out@.len() == files_of(entries.take(i as int)).len(),
                    forall|k: int|
                        0 <= k < out@.len() ==> (#[trigger] out@[k]).0@ == files_of(entries.take(i as int))[k].0
                            && out@[k].1@ == files_of(entries.take(i as int))[k].1,
                decreases all@.len(),
            {
                let ghost before = all@;
                let ghost done = files_of(entries.take(i as int));
                let entry = all.remove(0);
                assert(entries.take(i + 1).drop_last() =~= entries.take(i as int));
                assert(entries.take(i + 1).last() == entries[i as int]);
                assert(before[0] == entry);
                assert forall|k: int| 0 <= k < all@.len() implies all@[k] == before[k + 1] by {}
                match entry {
                    Some(file) => {
                        out.push(file);
                    },
                    None => {},
                }
                i = i + 1;
            }
            assert(entries.take(n as int) =~= entries);
            Ok(out)
        },
    }
}

} // verus!
