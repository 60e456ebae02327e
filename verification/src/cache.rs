//! The local content cache's decisions: where a file's bytes live on
//! disk and whether a cached copy may be served, must be replaced, or
//! must be fetched. The disk and network work itself is the caller's
//! business.

use vstd::prelude::*;

use crate::records::{FileMetadata, SYNTHETIC_MESSAGE_ID};

verus! {

use vstd::string::StrSliceExecFns;
use vstd::string::StringExecFns;

/// A file name with every slash replaced by an underscore.
pub open spec fn sanitized(name: Seq<char>) -> Seq<char> {
    name.map_values(
        |c: char|
            if c == '/' {
                '_'
            } else {
                c
            },
    )
}

/// Replaces every slash in `name` with an underscore.
#[verifier::loop_isolation(false)]
pub fn sanitize_name(name: &str) -> (r: String)
    ensures
        r@ == sanitized(name@),
{
    let n = name.unicode_len();
    let mut out = String::new();
    let mut i: usize = 0;
    while i < n
        invariant
            i <= n,
            n == name@.len(),
            out@ == sanitized(name@.take(i as int)),
        decreases n - i,
    {
        if name.get_char(i) == '/' {
            out.append("_");
            proof {
                reveal_strlit("_");
                assert("_"@ =~= seq!['_']);
            }
        } else {
            out.append(name.substring_char(i, i + 1));
        }
        proof {
            assert(out@ =~= sanitized(name@.take(i + 1)));
        }
        i = i + 1;
    }
    proof {
        assert(name@.take(n as int) =~= name@);
    }
    out
}

/// The cache file name of a record: its identifier, an underscore, and
/// its sanitized name.
pub open spec fn spec_cache_file_name(id: Seq<char>, name: Seq<char>) -> Seq<char> {
    id + seq!['_'] + sanitized(name)
}

/// The manager of the disk-backed content cache: it knows the cache
/// directory and decides each read's course; the caller performs the
/// file and network operations it calls for.
pub struct CacheManager {
    cache_dir: String,
}

/// A read's course through the cache, given what is on disk and what the
/// file record says.
#[derive(Clone, Copy, Debug, PartialEq, Eq, Structural)]
pub enum CacheAction {
    /// The cached copy matches the recorded size: serve it, fetching
    /// nothing.
    UseLocal,
    /// The record is the zero-byte sentinel: materialize an empty file,
    /// first deleting a stale copy if one exists.
    CreateEmpty { remove_stale: bool },
    /// Fetch the object from the backend into the cache path, first
    /// deleting a stale copy if one exists.
    Fetch { remove_stale: bool },
}

impl CacheManager {
    /// A manager rooted at `cache_dir`; the caller has created that
    /// directory.
    pub fn new(cache_dir: String) -> (r: Self)
        ensures
            r.dir_view() == cache_dir@,
    {
        CacheManager { cache_dir }
    }

    /// The cache directory this manager was rooted at.
    pub closed spec fn dir_view(&self) -> Seq<char> {
        self.cache_dir@
    }

    /// The cache directory, for the caller to join paths under.
    pub fn cache_dir(&self) -> (r: &String)
        ensures
            r@ == self.dir_view(),
    {
        &self.cache_dir
    }

    /// The file name a record's bytes are cached under.
    pub fn cache_file_name(file: &FileMetadata) -> (r: String)
        ensures
            r@ == spec_cache_file_name(file@.id, file@.name),
    {
        let mut s = file.id.clone();
        s.append("_");
        let sane = sanitize_name(file.name.as_str());
        s.append(sane.as_str());
        proof {
            reveal_strlit("_");
            assert("_"@ =~= seq!['_']);
            assert(s@ =~= spec_cache_file_name(file@.id, file@.name));
        }
        s
    }

    /// Decides a read's course. A cached copy whose length matches the
    /// recorded size is served as it is; any other copy is stale and is
    /// replaced; the zero-byte sentinel materializes an empty file with
    /// no backend call; everything else is fetched from the backend.
    pub fn plan_fetch(local_exists: bool, local_len: u64, size: i64, message_id: i32) -> (r:
        CacheAction)
        ensures
            (local_exists && local_len == size as u64) ==> r == CacheAction::UseLocal,
            !(local_exists && local_len == size as u64) && message_id == SYNTHETIC_MESSAGE_ID
                ==> r == (CacheAction::CreateEmpty { remove_stale: local_exists }),
            !(local_exists && local_len == size as u64) && message_id != SYNTHETIC_MESSAGE_ID
                ==> r == (CacheAction::Fetch { remove_stale: local_exists }),
    {
        let recorded: u64 = #[verifier::truncate] (size as u64);
        if local_exists && local_len == recorded {
            CacheAction::UseLocal
        } else if message_id == SYNTHETIC_MESSAGE_ID {
            CacheAction::CreateEmpty { remove_stale: local_exists }
        } else {
            CacheAction::Fetch { remove_stale: local_exists }
        }
    }
}

} // verus!
