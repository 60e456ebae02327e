//! The protocol adapter: the filesystem verbs a protocol server exposes,
//! each resolving its path against the index and then reading or
//! mutating it. The server plumbing, the staging of write handles and
//! the network transfers live with the caller; every decision — what a
//! path names, which error a verb yields, what a commit does — is made
//! and specified here.

use vstd::prelude::*;

use crate::ext::{guess_mime, mime_of};
use crate::records::{opt_str_view, FileMetadata, FileView, Folder, FolderView};
use crate::resolve::{resolve_segments, spec_resolve, spec_segments, split_path, FsError};
use crate::store::{
    file_id_outside, file_in_folder, file_not_in_folder, files_view, folder_id_ne,
    folders_view, folders_unique_live_names, has_file, has_folder, ids_view, is_chosen_name,
    is_first_file, is_first_folder, live_child_file, live_child_folder, live_named_ids,
    opt_ref_view, Database,
};

verus! {

/// One row of a directory listing: name, byte size, kind, and timestamps
/// in whole seconds since the epoch.
pub struct DirEntry {
    pub name: String,
    pub len: u64,
    pub is_dir: bool,
    pub created_secs: u64,
    pub modified_secs: u64,
}

/// What a listing says of a folder record: its name, no size, and its
/// stored timestamps.
pub open spec fn entry_of_folder(e: DirEntry, f: FolderView) -> bool {
    e.name@ == f.name && e.len == 0 && e.is_dir && e.created_secs == f.created_at as u64
        && e.modified_secs == f.last_modified as u64
}

/// What a listing says of a file record: its name, its recorded size,
/// and its creation time for both timestamps.
pub open spec fn entry_of_file(e: DirEntry, f: FileView) -> bool {
    e.name@ == f.name && e.len == f.size as u64 && !e.is_dir && e.created_secs == f.created_at
        as u64 && e.modified_secs == f.created_at as u64
}

/// Lists a directory: the folder's live children, folders first then
/// files, each in record order.
#[verifier::loop_isolation(false)]
pub fn read_dir_entries(db: &Database, path: &str) -> (r: Result<Vec<DirEntry>, FsError>)
    ensures
        ({
            let res = spec_resolve(db@, spec_segments(path@));
            match res {
                Result::Ok((oid, is_dir)) => if is_dir {
                    {
                        let fl = db@.folders.filter(live_child_folder(oid));
                        let fi = db@.files.filter(live_child_file(oid));
                        &&& r is Ok
                        &&& r.unwrap()@.len() == fl.len() + fi.len()
                        &&& forall|i: int|
                            0 <= i < fl.len() ==> entry_of_folder(#[trigger] r.unwrap()@[i], fl[i])
                        &&& forall|i: int|
                            0 <= i < fi.len() ==> entry_of_file(
                                #[trigger] r.unwrap()@[fl.len() + i],
                                fi[i],
                            )
                    }
                } else {
                    r == Result::<Vec<DirEntry>, FsError>::Err(FsError::Forbidden)
                },
                Result::Err(_) => r == Result::<Vec<DirEntry>, FsError>::Err(FsError::NotFound),
            }
        }),
{
    let segs = split_path(path);
    match resolve_segments(db, &segs) {
        Result::Ok((folder_id, true)) => {
            let ghost oid = opt_str_view(folder_id);
            let (folders, files) = db.list_contents(folder_id);
            let ghost fl = db@.folders.filter(live_child_folder(oid));
            let ghost fi = db@.files.filter(live_child_file(oid));
            let mut entries: Vec<DirEntry> = Vec::new();
            let mut k: usize = 0;
            while k < folders.len()
                invariant
                    k <= folders.len(),
                    folders_view(folders@) == fl,
                    entries@.len() == k,
                    forall|i: int| 0 <= i < k ==> entry_of_folder(#[trigger] entries@[i], fl[i]),
                decreases folders.len() - k,
            {
                proof {
                    assert(fl[k as int] == folders@[k as int]@);
                }
                let f = &folders[k];
                entries.push(
                    DirEntry {
                        name: f.name.clone(),
                        len: 0,
                        is_dir: true,
                        created_secs: #[verifier::truncate] (f.created_at as u64),
                        modified_secs: #[verifier::truncate] (f.last_modified as u64),
                    },
                );
                k = k + 1;
            }
            let mut m: usize = 0;
            while m < files.len()
                invariant
                    m <= files.len(),
                    folders@.len() == fl.len(),
                    files_view(files@) == fi,
                    entries@.len() == fl.len() + m,
                    forall|i: int|
                        0 <= i < fl.len() ==> entry_of_folder(#[trigger] entries@[i], fl[i]),
                    forall|i: int|
                        0 <= i < m ==> entry_of_file(#[trigger] entries@[fl.len() + i], fi[i]),
                decreases files.len() - m,
            {
                proof {
                    assert(fi[m as int] == files@[m as int]@);
                }
                let f = &files[m];
                entries.push(
                    DirEntry {
                        name: f.name.clone(),
                        len: #[verifier::truncate] (f.size as u64),
                        is_dir: false,
                        created_secs: #[verifier::truncate] (f.created_at as u64),
                        modified_secs: #[verifier::truncate] (f.created_at as u64),
                    },
                );
                m = m + 1;
            }
            Result::Ok(entries)
        },
        Result::Ok((_, false)) => Result::Err(FsError::Forbidden),
        Result::Err(_) => Result::Err(FsError::NotFound),
    }
}

/// What a stat verb reports: size, kind and timestamps in whole seconds
/// since the epoch.
#[derive(Clone, Copy, Debug, PartialEq, Eq, Structural)]
pub struct StatInfo {
    pub len: u64,
    pub is_dir: bool,
    pub created_secs: u64,
    pub modified_secs: u64,
}

/// Stats a path. Files report their recorded size and creation time;
/// folders — the root included — report zero size and epoch-origin
/// timestamps, a deliberate fidelity gap of the design: only listings
/// carry folder timestamps end to end.
pub fn stat_path(db: &Database, path: &str) -> (r: Result<StatInfo, FsError>)
    ensures
        ({
            let res = spec_resolve(db@, spec_segments(path@));
            match res {
                Result::Ok((oid, is_dir)) => if is_dir {
                    r == Result::<StatInfo, FsError>::Ok(
                        StatInfo { len: 0, is_dir: true, created_secs: 0, modified_secs: 0 },
                    )
                } else {
                    match oid {
                        Option::Some(fid) => {
                            &&& (forall|i: int|
                                #[trigger] is_first_file(db@.files, fid, i) ==> r == Result::<
                                    StatInfo,
                                    FsError,
                                >::Ok(
                                    StatInfo {
                                        len: db@.files[i].size as u64,
                                        is_dir: false,
                                        created_secs: db@.files[i].created_at as u64,
                                        modified_secs: db@.files[i].created_at as u64,
                                    },
                                ))
                            &&& (!has_file(db@.files, fid) ==> r == Result::<
                                StatInfo,
                                FsError,
                            >::Err(FsError::NotFound))
                        },
                        Option::None => true,
                    }
                },
                Result::Err(_) => r == Result::<StatInfo, FsError>::Err(FsError::NotFound),
            }
        }),
{
    let segs = split_path(path);
    match resolve_segments(db, &segs) {
        Result::Ok((_, true)) => Result::Ok(
            StatInfo { len: 0, is_dir: true, created_secs: 0, modified_secs: 0 },
        ),
        Result::Ok((Option::Some(id), false)) => {
            match db.get_file(id.as_str()) {
                Option::Some(meta) => Result::Ok(
                    StatInfo {
                        len: #[verifier::truncate] (meta.size as u64),
                        is_dir: false,
                        created_secs: #[verifier::truncate] (meta.created_at as u64),
                        modified_secs: #[verifier::truncate] (meta.created_at as u64),
                    },
                ),
                Option::None => Result::Err(FsError::NotFound),
            }
        },
        Result::Ok((Option::None, false)) => Result::Err(FsError::NotFound),
        Result::Err(_) => Result::Err(FsError::NotFound),
    }
}

/// Removes a directory: permanently deletes the folder the path names
/// and its direct file children, returning those files so the caller
/// can release their backend objects.
pub fn remove_dir(db: &mut Database, path: &str) -> (r: Result<Vec<FileMetadata>, FsError>)
    ensures
        ({
            let res = spec_resolve(old(db)@, spec_segments(path@));
            match res {
                Result::Ok((Option::Some(id), true)) => {
                    &&& r is Ok
                    &&& files_view(r.unwrap()@) == old(db)@.files.filter(file_in_folder(id))
                    &&& final(db)@.files == old(db)@.files.filter(file_not_in_folder(id))
                    &&& final(db)@.folders == old(db)@.folders.filter(folder_id_ne(id))
                },
                Result::Ok((Option::None, true)) => r == Result::<Vec<FileMetadata>, FsError>::Err(
                    FsError::NotFound,
                ) && final(db)@ == old(db)@,
                Result::Ok((_, false)) => r == Result::<Vec<FileMetadata>, FsError>::Err(
                    FsError::Forbidden,
                ) && final(db)@ == old(db)@,
                Result::Err(_) => r == Result::<Vec<FileMetadata>, FsError>::Err(FsError::NotFound)
                    && final(db)@ == old(db)@,
            }
        }),
{
    let segs = split_path(path);
    match resolve_segments(db, &segs) {
        Result::Ok((Option::Some(id), true)) => Result::Ok(db.delete_folder(id.as_str())),
        Result::Ok((Option::None, true)) => Result::Err(FsError::NotFound),
        Result::Ok((_, false)) => Result::Err(FsError::Forbidden),
        Result::Err(_) => Result::Err(FsError::NotFound),
    }
}

/// Removes a file: permanently deletes the file record the path names.
pub fn remove_file_path(db: &mut Database, path: &str) -> (r: Result<(), FsError>)
    ensures
        ({
            let res = spec_resolve(old(db)@, spec_segments(path@));
            match res {
                Result::Ok((Option::Some(id), false)) => {
                    &&& r is Ok
                    &&& final(db)@.files == old(db)@.files.filter(
                        crate::store::file_id_ne(id),
                    )
                    &&& final(db)@.folders == old(db)@.folders
                },
                Result::Ok((_, true)) => r == Result::<(), FsError>::Err(FsError::Forbidden)
                    && final(db)@ == old(db)@,
                Result::Ok((Option::None, false)) => r == Result::<(), FsError>::Err(
                    FsError::NotFound,
                ) && final(db)@ == old(db)@,
                Result::Err(_) => r == Result::<(), FsError>::Err(FsError::NotFound) && final(db)@
                    == old(db)@,
            }
        }),
{
    let segs = split_path(path);
    match resolve_segments(db, &segs) {
        Result::Ok((Option::Some(id), false)) => {
            db.delete_file(id.as_str());
            Result::Ok(())
        },
        Result::Ok((_, true)) => Result::Err(FsError::Forbidden),
        Result::Ok((Option::None, false)) => Result::Err(FsError::NotFound),
        Result::Err(_) => Result::Err(FsError::NotFound),
    }
}


/// A copy of every segment but the last.
#[verifier::loop_isolation(false)]
fn parent_segments(segs: &Vec<String>) -> (r: Vec<String>)
    requires
        segs@.len() > 0,
    ensures
        ids_view(r@) == ids_view(segs@).drop_last(),
{
    let mut out: Vec<String> = Vec::new();
    let mut k: usize = 0;
    while k < segs.len() - 1
        invariant
            k <= segs.len() - 1,
            ids_view(out@) == ids_view(segs@).take(k as int),
        decreases segs.len() - 1 - k,
    {
        out.push(segs[k].clone());
        proof {
            assert(ids_view(out@) =~= ids_view(segs@).take(k + 1));
        }
        k = k + 1;
    }
    proof {
        assert(ids_view(segs@).take(segs@.len() - 1) =~= ids_view(segs@).drop_last());
    }
    out
}

/// Makes a directory: fails when the path already names a node or when
/// its parent does not name a folder; otherwise creates a folder there
/// under the collision-free naming rule.
pub fn make_dir(db: &mut Database, path: &str) -> (r: Result<(), FsError>)
    ensures
        ({
            let segs = spec_segments(path@);
            if segs.len() == 0 {
                r == Result::<(), FsError>::Err(FsError::Forbidden) && final(db)@ == old(db)@
            } else {
                let name = segs.last();
                match spec_resolve(old(db)@, segs.drop_last()) {
                    Result::Ok((pid, true)) => match spec_resolve(old(db)@, segs) {
                        Result::Ok(_) => r == Result::<(), FsError>::Err(FsError::Exists) && final(db)@ == old(db)@,
                        Result::Err(_) => {
                            &&& r is Ok
                            &&& final(db)@.files == old(db)@.files
                            &&& final(db)@.folders.len() == old(db)@.folders.len() + 1
                            &&& final(db)@.folders == old(db)@.folders.push(
                                final(db)@.folders.last(),
                            )
                            &&& ({
                                let nf = final(db)@.folders.last();
                                &&& nf.parent_id == pid
                                &&& is_chosen_name(old(db)@, pid, name, true, nf.name)
                                &&& !nf.trashed
                                &&& nf.trashed_at is None
                            })
                            &&& folders_unique_live_names(old(db)@.folders)
                                ==> folders_unique_live_names(final(db)@.folders)
                        },
                    },
                    Result::Ok((_, false)) => r == Result::<(), FsError>::Err(FsError::NotFound)
                        && final(db)@ == old(db)@,
                    Result::Err(_) => r == Result::<(), FsError>::Err(FsError::NotFound) && final(db)@ == old(db)@,
                }
            }
        }),
{
    let segs = split_path(path);
    if segs.len() == 0 {
        return Result::Err(FsError::Forbidden);
    }
    let name = segs[segs.len() - 1].clone();
    let parents = parent_segments(&segs);
    match resolve_segments(db, &parents) {
        Result::Ok((pid, true)) => {
            match resolve_segments(db, &segs) {
                Result::Ok(_) => Result::Err(FsError::Exists),
                Result::Err(_) => {
                    db.create_folder(name.as_str(), pid);
                    Result::Ok(())
                },
            }
        },
        Result::Ok((_, false)) => Result::Err(FsError::NotFound),
        Result::Err(_) => Result::Err(FsError::NotFound),
    }
}

/// Renames or moves a node: resolves the source, resolves the
/// destination's parent, and re-parents the source under the new name.
/// Moving a folder directly under itself fails and changes nothing; no
/// name-collision check is made — last write wins.
pub fn rename_path(db: &mut Database, from: &str, to: &str) -> (r: Result<(), FsError>)
    ensures
        ({
            let src = spec_resolve(old(db)@, spec_segments(from@));
            let tsegs = spec_segments(to@);
            match src {
                Result::Ok((Option::Some(sid), src_is_dir)) => {
                    if tsegs.len() == 0 {
                        r == Result::<(), FsError>::Err(FsError::Forbidden) && final(db)@ == old(db)@
                    } else {
                        let new_name = tsegs.last();
                        match spec_resolve(old(db)@, tsegs.drop_last()) {
                            Result::Ok((pid, true)) => if src_is_dir {
                                if pid == Option::Some(sid) {
                                    r == Result::<(), FsError>::Err(FsError::GeneralFailure)
                                        && final(db)@ == old(db)@
                                } else {
                                    &&& final(db)@.files == old(db)@.files
                                    &&& (has_folder(old(db)@.folders, sid) ==> r is Ok)
                                    &&& (!has_folder(old(db)@.folders, sid) ==> r == Result::<
                                        (),
                                        FsError,
                                    >::Err(FsError::GeneralFailure) && final(db)@ == old(db)@)
                                    &&& forall|i: int|
                                        #[trigger] is_first_folder(old(db)@.folders, sid, i)
                                            ==> final(db)@.folders == old(db)@.folders.update(
                                            i,
                                            FolderView {
                                                parent_id: pid,
                                                name: new_name,
                                                ..old(db)@.folders[i]
                                            },
                                        )
                                }
                            } else {
                                &&& final(db)@.folders == old(db)@.folders
                                &&& (has_file(old(db)@.files, sid) ==> r is Ok)
                                &&& (!has_file(old(db)@.files, sid) ==> r == Result::<
                                    (),
                                    FsError,
                                >::Err(FsError::GeneralFailure) && final(db)@ == old(db)@)
                                &&& forall|i: int|
                                    #[trigger] is_first_file(old(db)@.files, sid, i) ==> final(db)@.files == old(db)@.files.update(
                                        i,
                                        FileView {
                                            folder_id: pid,
                                            name: new_name,
                                            ..old(db)@.files[i]
                                        },
                                    )
                            },
                            Result::Ok((_, false)) => r == Result::<(), FsError>::Err(
                                FsError::NotFound,
                            ) && final(db)@ == old(db)@,
                            Result::Err(_) => r == Result::<(), FsError>::Err(FsError::NotFound)
                                && final(db)@ == old(db)@,
                        }
                    }
                },
                Result::Ok((Option::None, _)) => r == Result::<(), FsError>::Err(FsError::NotFound)
                    && final(db)@ == old(db)@,
                Result::Err(_) => r == Result::<(), FsError>::Err(FsError::NotFound) && final(db)@
                    == old(db)@,
            }
        }),
{
    let from_segs = split_path(from);
    let (source_id, source_is_dir) = match resolve_segments(db, &from_segs) {
        Result::Ok((Option::Some(id), is_dir)) => (id, is_dir),
        _ => {
            return Result::Err(FsError::NotFound);
        },
    };
    let to_segs = split_path(to);
    if to_segs.len() == 0 {
        return Result::Err(FsError::Forbidden);
    }
    let new_name = to_segs[to_segs.len() - 1].clone();
    let parents = parent_segments(&to_segs);
    let target_parent_id = match resolve_segments(db, &parents) {
        Result::Ok((pid, true)) => pid,
        _ => {
            return Result::Err(FsError::NotFound);
        },
    };
    if source_is_dir {
        if db.move_folder(source_id.as_str(), target_parent_id, new_name.as_str()) {
            Result::Ok(())
        } else {
            Result::Err(FsError::GeneralFailure)
        }
    } else {
        if db.move_file(source_id.as_str(), target_parent_id, new_name.as_str()) {
            Result::Ok(())
        } else {
            Result::Err(FsError::GeneralFailure)
        }
    }
}


/// The flags of an open request, as the protocol server hands them over.
#[derive(Clone, Copy, Debug, PartialEq, Eq, Structural)]
pub struct OpenFlags {
    pub read: bool,
    pub write: bool,
    pub append: bool,
    pub truncate: bool,
    pub create: bool,
    pub create_new: bool,
}

/// What an open verb decided: serve reads from a file record through
/// the cache, or stage writes to commit under a parent and name.
pub enum OpenPlan {
    /// Serve reads of this record, through the content cache.
    ReadFile(FileMetadata),
    /// Buffer writes in a staging file; on commit, the content replaces
    /// whatever lives under this parent and name.
    WriteFile { parent_id: Option<String>, name: String, overwrite: bool },
}

/// The last path segment, or the empty name for a bare root path.
pub open spec fn spec_last_segment(segs: Seq<Seq<char>>) -> Seq<char> {
    if segs.len() == 0 {
        Seq::empty()
    } else {
        segs.last()
    }
}

/// Decides an open request. An existing file opens for reading, or —
/// under the write-and-truncate-or-create flags — for staged overwrite
/// keeping its parent; a folder never opens; a missing path opens for
/// staged creation when its parent resolves to a folder and the flags
/// ask for creation.
pub fn open_plan(db: &Database, path: &str, opts: OpenFlags) -> (r: Result<OpenPlan, FsError>)
    ensures
        ({
            let segs = spec_segments(path@);
            match spec_resolve(db@, segs) {
                Result::Ok((oid, is_dir)) => if is_dir {
                    r == Result::<OpenPlan, FsError>::Err(FsError::Forbidden)
                } else {
                    match oid {
                        Option::Some(fid) => if opts.write {
                            if opts.truncate || opts.create {
                                &&& (forall|i: int|
                                    #[trigger] is_first_file(db@.files, fid, i) ==> r is Ok
                                        && (r.unwrap() matches OpenPlan::WriteFile {
                                        parent_id,
                                        name,
                                        overwrite,
                                    } && opt_str_view(parent_id) == db@.files[i].folder_id && name@
                                        == spec_last_segment(segs) && overwrite))
                                &&& (!has_file(db@.files, fid) ==> r == Result::<
                                    OpenPlan,
                                    FsError,
                                >::Err(FsError::NotFound))
                            } else {
                                r == Result::<OpenPlan, FsError>::Err(FsError::Forbidden)
                            }
                        } else {
                            &&& (forall|i: int|
                                #[trigger] is_first_file(db@.files, fid, i) ==> r is Ok && (
                                r.unwrap() matches OpenPlan::ReadFile(meta) && meta@
                                    == db@.files[i]))
                            &&& (!has_file(db@.files, fid) ==> r == Result::<
                                OpenPlan,
                                FsError,
                            >::Err(FsError::NotFound))
                        },
                        Option::None => true,
                    }
                },
                Result::Err(_) => if opts.write && (opts.create || opts.create_new) {
                    match spec_resolve(db@, segs.drop_last()) {
                        Result::Ok((pid, true)) => r is Ok && (r.unwrap()
                            matches OpenPlan::WriteFile { parent_id, name, overwrite }
                            && opt_str_view(parent_id) == pid && name@ == spec_last_segment(segs)
                            && !overwrite),
                        Result::Ok((_, false)) => r == Result::<OpenPlan, FsError>::Err(
                            FsError::NotFound,
                        ),
                        Result::Err(_) => r == Result::<OpenPlan, FsError>::Err(FsError::NotFound),
                    }
                } else {
                    r == Result::<OpenPlan, FsError>::Err(FsError::NotFound)
                },
            }
        }),
{
    let segs = split_path(path);
    let name = if segs.len() == 0 {
        String::new()
    } else {
        segs[segs.len() - 1].clone()
    };
    match resolve_segments(db, &segs) {
        Result::Ok((Option::Some(id), false)) => {
            if opts.write {
                if opts.truncate || opts.create {
                    match db.get_file(id.as_str()) {
                        Option::Some(meta) => Result::Ok(
                            OpenPlan::WriteFile {
                                parent_id: meta.folder_id,
                                name,
                                overwrite: true,
                            },
                        ),
                        Option::None => Result::Err(FsError::NotFound),
                    }
                } else {
                    Result::Err(FsError::Forbidden)
                }
            } else {
                match db.get_file(id.as_str()) {
                    Option::Some(meta) => Result::Ok(OpenPlan::ReadFile(meta)),
                    Option::None => Result::Err(FsError::NotFound),
                }
            }
        },
        Result::Ok((_, true)) => Result::Err(FsError::Forbidden),
        Result::Ok((Option::None, false)) => Result::Err(FsError::NotFound),
        Result::Err(_) => {
            if opts.write && (opts.create || opts.create_new) {
                if segs.len() == 0 {
                    return Result::Err(FsError::NotFound);
                }
                let parents = parent_segments(&segs);
                match resolve_segments(db, &parents) {
                    Result::Ok((pid, true)) => Result::Ok(
                        OpenPlan::WriteFile { parent_id: pid, name, overwrite: false },
                    ),
                    Result::Ok((_, false)) => Result::Err(FsError::NotFound),
                    Result::Err(_) => Result::Err(FsError::NotFound),
                }
            } else {
                Result::Err(FsError::NotFound)
            }
        },
    }
}

/// A file name the commit step silently discards: the hidden metadata
/// names some clients scatter — the literal ".DS_Store" and any name
/// opening with a dot and an underscore.
pub open spec fn spec_is_junk_name(name: Seq<char>) -> bool {
    name == ".DS_Store"@ || (name.len() >= 2 && name[0] == '.' && name[1] == '_')
}

/// Whether the commit step discards this file name.
pub fn is_junk_name(name: &str) -> (r: bool)
    ensures
        r == spec_is_junk_name(name@),
{
    let ds: String = ".DS_Store".to_owned();
    let name_s: String = name.to_owned();
    if name_s == ds {
        return true;
    }
    let n = name.unicode_len();
    if n >= 2 {
        if name.get_char(0) == '.' && name.get_char(1) == '_' {
            return true;
        }
    }
    false
}

/// What a commit (flush) does with a staged write.
pub enum CommitAction {
    /// A zero-byte result: record a synthetic file, upload nothing.
    StoreEmpty,
    /// A system-junk name: discard the staged bytes entirely.
    DiscardJunk,
    /// Upload the staged bytes and register them under this MIME type.
    Upload { mime: String },
}

/// Decides a commit: an empty result is recorded as a synthetic file, a
/// junk-named one is discarded, anything else is uploaded under the
/// MIME type guessed from the name.
pub fn commit_plan(name: &str, size: u64) -> (r: CommitAction)
    ensures
        size == 0 ==> r is StoreEmpty,
        size != 0 && spec_is_junk_name(name@) ==> r is DiscardJunk,
        size != 0 && !spec_is_junk_name(name@) ==> (r matches CommitAction::Upload { mime }
            && mime@ == mime_of(name@)),
{
    if size == 0 {
        CommitAction::StoreEmpty
    } else if is_junk_name(name) {
        CommitAction::DiscardJunk
    } else {
        CommitAction::Upload { mime: guess_mime(name) }
    }
}

/// The commit step's last-write-wins sweep: permanently removes every
/// live file already carrying the staged name under the staged parent,
/// so the new content replaces the old with no versioning.
pub fn commit_remove_existing(db: &mut Database, parent_id: Option<&String>, name: &String)
    ensures
        final(db)@.folders == old(db)@.folders,
        final(db)@.files == old(db)@.files.filter(
            file_id_outside(live_named_ids(old(db)@.files, opt_ref_view(parent_id), name@)),
        ),
{
    let ids = db.live_child_file_ids(parent_id, name);
    db.delete_files_by_ids(ids.as_slice());
}

} // verus!
