//! The metadata index: an in-memory folder/file tree over a backend that
//! has none.
//!
//! The index holds two ordered collections of records. Callers that need
//! the reader-writer discipline and the whole-snapshot persistence of the
//! design wrap a [`Database`] value behind a lock and serialize it after
//! each mutation; the index itself is purely in-memory state.

use vstd::prelude::*;

use crate::ext::{fresh_record_id, lower_of, lowercase, now_unix_secs, spec_str_contains, str_contains};
use crate::naming::{candidate_free, lemma_candidate_ne, lemma_some_candidate_free, spec_candidate};
use crate::naming::candidate_name;
use crate::records::{
    opt_i64_view, opt_str_view, opt_tags_view, FileMetadata, FileView, Folder, FolderView,
};

verus! {

use vstd::string::StringExecFns;

/// Mathematical model of the whole index.
pub struct DbView {
    pub folders: Seq<FolderView>,
    pub files: Seq<FileView>,
}

/// The view of an optional borrowed string.
pub open spec fn opt_ref_view(o: Option<&String>) -> Option<Seq<char>> {
    match o {
        Option::None => Option::None,
        Option::Some(s) => Option::Some(s@),
    }
}

/// The views of a folder record sequence.
pub open spec fn folders_view(s: Seq<Folder>) -> Seq<FolderView> {
    s.map_values(|f: Folder| f@)
}

/// The views of a file record sequence.
pub open spec fn files_view(s: Seq<FileMetadata>) -> Seq<FileView> {
    s.map_values(|f: FileMetadata| f@)
}

/// The metadata index.
pub struct Database {
    folders: Vec<Folder>,
    files: Vec<FileMetadata>,
}

impl View for Database {
    type V = DbView;

    closed spec fn view(&self) -> DbView {
        DbView { folders: folders_view(self.folders@), files: files_view(self.files@) }
    }
}

/// `f` is a live record named `name` directly under `parent`.
pub open spec fn folder_takes_name(
    f: FolderView,
    parent: Option<Seq<char>>,
    name: Seq<char>,
) -> bool {
    f.parent_id == parent && f.name == name && !f.trashed
}

/// `f` is a live file named `name` directly under `parent`.
pub open spec fn file_takes_name(
    f: FileView,
    parent: Option<Seq<char>>,
    name: Seq<char>,
) -> bool {
    f.folder_id == parent && f.name == name && !f.trashed
}

/// Some live folder under `parent` already carries `name`.
pub open spec fn folder_name_taken(
    s: Seq<FolderView>,
    parent: Option<Seq<char>>,
    name: Seq<char>,
) -> bool {
    exists|i: int| 0 <= i < s.len() && #[trigger] folder_takes_name(s[i], parent, name)
}

/// Some live file under `parent` already carries `name`.
pub open spec fn file_name_taken(
    s: Seq<FileView>,
    parent: Option<Seq<char>>,
    name: Seq<char>,
) -> bool {
    exists|i: int| 0 <= i < s.len() && #[trigger] file_takes_name(s[i], parent, name)
}

/// `name` is taken by a live sibling of the given kind under `parent`.
pub open spec fn db_name_taken(
    db: DbView,
    parent: Option<Seq<char>>,
    name: Seq<char>,
    is_folder: bool,
) -> bool {
    if is_folder {
        folder_name_taken(db.folders, parent, name)
    } else {
        file_name_taken(db.files, parent, name)
    }
}

/// What the collision-free naming rule yields: the base name when no live
/// sibling of the same kind carries it, and otherwise the candidate
/// "base (N)" with the smallest N >= 1 whose name is free.
pub open spec fn is_chosen_name(
    db: DbView,
    parent: Option<Seq<char>>,
    base: Seq<char>,
    is_folder: bool,
    out: Seq<char>,
) -> bool {
    if !db_name_taken(db, parent, base, is_folder) {
        out == base
    } else {
        exists|n: int|
            1 <= n && out == spec_candidate(base, n as nat) && !#[trigger] db_name_taken(
                db,
                parent,
                spec_candidate(base, n as nat),
                is_folder,
            ) && (forall|m: int|
                1 <= m < n ==> #[trigger] db_name_taken(
                    db,
                    parent,
                    spec_candidate(base, m as nat),
                    is_folder,
                ))
    }
}

/// Compares an owned and a borrowed optional identifier.
pub fn opt_id_eq(a: &Option<String>, b: Option<&String>) -> (r: bool)
    ensures
        r == (opt_str_view(*a) == opt_ref_view(b)),
{
    match (a, b) {
        (Option::None, Option::None) => true,
        (Option::Some(x), Option::Some(y)) => *x == *y,
        _ => false,
    }
}

impl Database {
    /// An index with no records.
    pub fn new() -> (r: Self)
        ensures
            r@.folders.len() == 0,
            r@.files.len() == 0,
    {
        let r = Database { folders: Vec::new(), files: Vec::new() };
        proof {
            assert(r@.folders =~= Seq::<FolderView>::empty());
            assert(r@.files =~= Seq::<FileView>::empty());
        }
        r
    }

    /// An index holding exactly the given records, in the given order.
    pub fn from_records(folders: Vec<Folder>, files: Vec<FileMetadata>) -> (r: Self)
        ensures
            r@.folders == folders_view(folders@),
            r@.files == files_view(files@),
    {
        Database { folders, files }
    }

    /// Whether a live folder under `parent_id` carries exactly `name`.
    #[verifier::loop_isolation(false)]
    pub fn folder_name_exists(&self, parent_id: Option<&String>, name: &String) -> (r: bool)
        ensures
            r == folder_name_taken(self@.folders, opt_ref_view(parent_id), name@),
    {
        let ghost p = opt_ref_view(parent_id);
        let mut k: usize = 0;
        while k < self.folders.len()
            invariant
                k <= self.folders.len(),
                forall|j: int| 0 <= j < k ==> !#[trigger] folder_takes_name(self@.folders[j], p, name@),
            decreases self.folders.len() - k,
        {
            proof {
                assert(self@.folders[k as int] == self.folders@[k as int]@);
            }
            let f = &self.folders[k];
            if !f.trashed && opt_id_eq(&f.parent_id, parent_id) && f.name == *name {
                proof {
                    assert(folder_takes_name(self@.folders[k as int], p, name@));
                }
                return true;
            }
            proof {
                assert(!folder_takes_name(self@.folders[k as int], p, name@));
            }
            k = k + 1;
        }
        false
    }

    /// Whether a live file under `parent_id` carries exactly `name`.
    #[verifier::loop_isolation(false)]
    pub fn file_name_exists(&self, parent_id: Option<&String>, name: &String) -> (r: bool)
        ensures
            r == file_name_taken(self@.files, opt_ref_view(parent_id), name@),
    {
        let ghost p = opt_ref_view(parent_id);
        let mut k: usize = 0;
        while k < self.files.len()
            invariant
                k <= self.files.len(),
                forall|j: int| 0 <= j < k ==> !#[trigger] file_takes_name(self@.files[j], p, name@),
            decreases self.files.len() - k,
        {
            proof {
                assert(self@.files[k as int] == self.files@[k as int]@);
            }
            let f = &self.files[k];
            if !f.trashed && opt_id_eq(&f.folder_id, parent_id) && f.name == *name {
                proof {
                    assert(file_takes_name(self@.files[k as int], p, name@));
                }
                return true;
            }
            proof {
                assert(!file_takes_name(self@.files[k as int], p, name@));
            }
            k = k + 1;
        }
        false
    }

    /// Whether `name` is taken by a live sibling of the given kind.
    fn name_exists(&self, parent_id: Option<&String>, name: &String, is_folder: bool) -> (r: bool)
        ensures
            r == db_name_taken(self@, opt_ref_view(parent_id), name@, is_folder),
    {
        if is_folder {
            self.folder_name_exists(parent_id, name)
        } else {
            self.file_name_exists(parent_id, name)
        }
    }

    /// Establishes that some candidate suffix in `[1, len + 1]` names no
    /// live sibling, where `len` bounds the record count of the kind.
    proof fn lemma_free_candidate(db: DbView, parent: Option<Seq<char>>, base: Seq<char>, is_folder: bool)
        ensures
            exists|n: int|
                1 <= n <= (if is_folder {
                    db.folders.len()
                } else {
                    db.files.len()
                }) + 1 && !#[trigger] db_name_taken(
                    db,
                    parent,
                    spec_candidate(base, n as nat),
                    is_folder,
                ),
    {
        if is_folder {
            let tb = |f: FolderView, nm: Seq<char>| folder_takes_name(f, parent, nm);
            assert forall|a: FolderView, n1: int, n2: int|
                1 <= n1 && 1 <= n2 && n1 != n2 implies !(#[trigger] tb(
                a,
                spec_candidate(base, n1 as nat),
            ) && #[trigger] tb(a, spec_candidate(base, n2 as nat))) by {
                lemma_candidate_ne(base, n1 as nat, n2 as nat);
            }
            lemma_some_candidate_free(db.folders, tb, base);
            let n = choose|n: int|
                1 <= n <= db.folders.len() + 1 && #[trigger] candidate_free(db.folders, tb, base, n);
            assert(!db_name_taken(db, parent, spec_candidate(base, n as nat), is_folder)) by {
                if folder_name_taken(db.folders, parent, spec_candidate(base, n as nat)) {
                    let i = choose|i: int|
                        0 <= i < db.folders.len() && #[trigger] folder_takes_name(
                            db.folders[i],
                            parent,
                            spec_candidate(base, n as nat),
                        );
                    assert(tb(db.folders[i], spec_candidate(base, n as nat)));
                    assert(false);
                }
            }
        } else {
            let tb = |f: FileView, nm: Seq<char>| file_takes_name(f, parent, nm);
            assert forall|a: FileView, n1: int, n2: int|
                1 <= n1 && 1 <= n2 && n1 != n2 implies !(#[trigger] tb(
                a,
                spec_candidate(base, n1 as nat),
            ) && #[trigger] tb(a, spec_candidate(base, n2 as nat))) by {
                lemma_candidate_ne(base, n1 as nat, n2 as nat);
            }
            lemma_some_candidate_free(db.files, tb, base);
            let n = choose|n: int|
                1 <= n <= db.files.len() + 1 && #[trigger] candidate_free(db.files, tb, base, n);
            assert(!db_name_taken(db, parent, spec_candidate(base, n as nat), is_folder)) by {
                if file_name_taken(db.files, parent, spec_candidate(base, n as nat)) {
                    let i = choose|i: int|
                        0 <= i < db.files.len() && #[trigger] file_takes_name(
                            db.files[i],
                            parent,
                            spec_candidate(base, n as nat),
                        );
                    assert(tb(db.files[i], spec_candidate(base, n as nat)));
                    assert(false);
                }
            }
        }
    }

    /// The collision-free name for `base_name` among live siblings of the
    /// given kind under `parent_id`: the base name itself when free, else
    /// "base (N)" with the smallest free N >= 1.
    #[verifier::loop_isolation(false)]
    pub fn get_unique_name(
        &self,
        parent_id: Option<&String>,
        base_name: &str,
        is_folder: bool,
    ) -> (r: String)
        ensures
            is_chosen_name(self@, opt_ref_view(parent_id), base_name@, is_folder, r@),
    {
        let ghost p = opt_ref_view(parent_id);
        let base_s = base_name.to_owned();
        if !self.name_exists(parent_id, &base_s, is_folder) {
            return base_s;
        }
        let max_len: usize = if is_folder {
            self.folders.len()
        } else {
            self.files.len()
        };
        let ghost len: int = max_len as int;
        let mut n: u128 = 1;
        loop
            invariant
                1 <= n,
                n <= len + 1,
                db_name_taken(self@, p, base_name@, is_folder),
                forall|m: int|
                    1 <= m < n ==> #[trigger] db_name_taken(
                        self@,
                        p,
                        spec_candidate(base_name@, m as nat),
                        is_folder,
                    ),
            decreases len + 1 - n,
        {
            let cand = candidate_name(base_name, n);
            if !self.name_exists(parent_id, &cand, is_folder) {
                proof {
                    assert(is_chosen_name(self@, p, base_name@, is_folder, cand@)) by {
                        let nn = n as int;
                        assert(1 <= nn && cand@ == spec_candidate(base_name@, nn as nat)
                            && !db_name_taken(
                            self@,
                            p,
                            spec_candidate(base_name@, nn as nat),
                            is_folder,
                        ));
                    }
                }
                return cand;
            }
            proof {
                Self::lemma_free_candidate(self@, p, base_name@, is_folder);
                let n0 = choose|n0: int|
                    1 <= n0 <= len + 1 && !#[trigger] db_name_taken(
                        self@,
                        p,
                        spec_candidate(base_name@, n0 as nat),
                        is_folder,
                    );
                // Everything below n is taken and n itself is taken, so the
                // free candidate lies strictly above n.
                assert(n < n0);
            }
            n = n + 1;
        }
    }
}


/// `f` with its soft-delete mark set at time `t`.
pub open spec fn folder_trashed_at(f: FolderView, t: int) -> FolderView {
    FolderView { trashed: true, trashed_at: Option::Some(t), ..f }
}

/// `f` with its soft-delete mark set at time `t`.
pub open spec fn file_trashed_at(f: FileView, t: int) -> FileView {
    FileView { trashed: true, trashed_at: Option::Some(t), ..f }
}

/// `f` with its soft-delete mark cleared.
pub open spec fn folder_restored(f: FolderView) -> FolderView {
    FolderView { trashed: false, trashed_at: Option::None, ..f }
}

/// `f` with its soft-delete mark cleared.
pub open spec fn file_restored(f: FileView) -> FileView {
    FileView { trashed: false, trashed_at: Option::None, ..f }
}

/// `f` carries the identifier `id`.
pub open spec fn folder_has_id(f: FolderView, id: Seq<char>) -> bool {
    f.id == id
}

/// `f` carries the identifier `id`.
pub open spec fn file_has_id(f: FileView, id: Seq<char>) -> bool {
    f.id == id
}

/// `f` carries the backend reference `m`.
pub open spec fn file_has_msg(f: FileView, m: int) -> bool {
    f.message_id == m
}

/// Some folder carries `id`.
pub open spec fn has_folder(s: Seq<FolderView>, id: Seq<char>) -> bool {
    exists|i: int| 0 <= i < s.len() && #[trigger] folder_has_id(s[i], id)
}

/// Some file carries `id`.
pub open spec fn has_file(s: Seq<FileView>, id: Seq<char>) -> bool {
    exists|i: int| 0 <= i < s.len() && #[trigger] file_has_id(s[i], id)
}

/// Some file carries the backend reference `m`.
pub open spec fn has_file_msg(s: Seq<FileView>, m: int) -> bool {
    exists|i: int| 0 <= i < s.len() && #[trigger] file_has_msg(s[i], m)
}

/// `i` is the least index whose folder carries `id`.
pub open spec fn is_first_folder(s: Seq<FolderView>, id: Seq<char>, i: int) -> bool {
    0 <= i < s.len() && folder_has_id(s[i], id) && (forall|j: int|
        0 <= j < i ==> !#[trigger] folder_has_id(s[j], id))
}

/// `i` is the least index whose file carries `id`.
pub open spec fn is_first_file(s: Seq<FileView>, id: Seq<char>, i: int) -> bool {
    0 <= i < s.len() && file_has_id(s[i], id) && (forall|j: int|
        0 <= j < i ==> !#[trigger] file_has_id(s[j], id))
}

/// `i` is the least index whose file carries the backend reference `m`.
pub open spec fn is_first_file_msg(s: Seq<FileView>, m: int, i: int) -> bool {
    0 <= i < s.len() && file_has_msg(s[i], m) && (forall|j: int|
        0 <= j < i ==> !#[trigger] file_has_msg(s[j], m))
}

impl Database {
    /// The least index of a folder with the given identifier.
    #[verifier::loop_isolation(false)]
    fn find_folder(&self, id: &str) -> (r: Option<usize>)
        ensures
            match r {
                Option::Some(k) => is_first_folder(self@.folders, id@, k as int),
                Option::None => !has_folder(self@.folders, id@),
            },
    {
        let id_s = id.to_owned();
        let mut k: usize = 0;
        while k < self.folders.len()
            invariant
                k <= self.folders.len(),
                forall|j: int| 0 <= j < k ==> !#[trigger] folder_has_id(self@.folders[j], id@),
            decreases self.folders.len() - k,
        {
            proof {
                assert(self@.folders[k as int] == self.folders@[k as int]@);
            }
            if self.folders[k].id == id_s {
                return Option::Some(k);
            }
            proof {
                assert(!folder_has_id(self@.folders[k as int], id@));
            }
            k = k + 1;
        }
        Option::None
    }

    /// The least index of a file with the given identifier.
    #[verifier::loop_isolation(false)]
    fn find_file(&self, id: &str) -> (r: Option<usize>)
        ensures
            match r {
                Option::Some(k) => is_first_file(self@.files, id@, k as int),
                Option::None => !has_file(self@.files, id@),
            },
    {
        let id_s = id.to_owned();
        let mut k: usize = 0;
        while k < self.files.len()
            invariant
                k <= self.files.len(),
                forall|j: int| 0 <= j < k ==> !#[trigger] file_has_id(self@.files[j], id@),
            decreases self.files.len() - k,
        {
            proof {
                assert(self@.files[k as int] == self.files@[k as int]@);
            }
            if self.files[k].id == id_s {
                return Option::Some(k);
            }
            proof {
                assert(!file_has_id(self@.files[k as int], id@));
            }
            k = k + 1;
        }
        Option::None
    }

    /// The least index of a file with the given backend reference.
    #[verifier::loop_isolation(false)]
    fn find_file_by_msg(&self, message_id: i32) -> (r: Option<usize>)
        ensures
            match r {
                Option::Some(k) => is_first_file_msg(self@.files, message_id as int, k as int),
                Option::None => !has_file_msg(self@.files, message_id as int),
            },
    {
        let mut k: usize = 0;
        while k < self.files.len()
            invariant
                k <= self.files.len(),
                forall|j: int|
                    0 <= j < k ==> !#[trigger] file_has_msg(self@.files[j], message_id as int),
            decreases self.files.len() - k,
        {
            proof {
                assert(self@.files[k as int] == self.files@[k as int]@);
            }
            if self.files[k].message_id == message_id {
                return Option::Some(k);
            }
            proof {
                assert(!file_has_msg(self@.files[k as int], message_id as int));
            }
            k = k + 1;
        }
        Option::None
    }

    /// A copy of the first file record carrying `id`, if any.
    pub fn get_file(&self, id: &str) -> (r: Option<FileMetadata>)
        ensures
            match r {
                Option::Some(f) => exists|i: int|
                    #[trigger] is_first_file(self@.files, id@, i) && f@ == self@.files[i],
                Option::None => !has_file(self@.files, id@),
            },
    {
        match self.find_file(id) {
            Option::Some(k) => Option::Some(self.files[k].clone()),
            Option::None => Option::None,
        }
    }

    /// The name of the first folder carrying `id`, if any.
    pub fn lookup_folder_name(&self, id: &str) -> (r: Option<String>)
        ensures
            match r {
                Option::Some(n) => exists|i: int|
                    #[trigger] is_first_folder(self@.folders, id@, i) && n@ == self@.folders[i].name,
                Option::None => !has_folder(self@.folders, id@),
            },
    {
        match self.find_folder(id) {
            Option::Some(k) => {
                proof {
                    assert(self@.folders[k as int] == self.folders@[k as int]@);
                }
                Option::Some(self.folders[k].name.clone())
            },
            Option::None => Option::None,
        }
    }

    /// A copy of the first folder record carrying `id`, if any.
    pub fn get_folder_by_id(&self, id: &str) -> (r: Option<Folder>)
        ensures
            match r {
                Option::Some(f) => exists|i: int|
                    #[trigger] is_first_folder(self@.folders, id@, i) && f@ == self@.folders[i],
                Option::None => !has_folder(self@.folders, id@),
            },
    {
        match self.find_folder(id) {
            Option::Some(k) => Option::Some(self.folders[k].clone()),
            Option::None => Option::None,
        }
    }

    /// Renames the first file carrying `id`; false when no file does.
    pub fn rename_file(&mut self, id: &str, new_name: &str) -> (r: bool)
        ensures
            r == has_file(old(self)@.files, id@),
            final(self)@.folders == old(self)@.folders,
            !r ==> final(self)@.files == old(self)@.files,
            forall|i: int|
                #[trigger] is_first_file(old(self)@.files, id@, i) ==> final(self)@.files == old(
                    self,
                )@.files.update(i, FileView { name: new_name@, ..old(self)@.files[i] }),
    {
        match self.find_file(id) {
            Option::Some(k) => {
                let mut f = self.files[k].clone();
                f.name = new_name.to_owned();
                self.files.set(k, f);
                proof {
                    assert(self@.files =~= old(self)@.files.update(
                        k as int,
                        FileView { name: new_name@, ..old(self)@.files[k as int] },
                    ));
                    assert forall|i: int| #[trigger] is_first_file(old(self)@.files, id@, i)
                        implies i == k by {
                        assert(file_has_id(old(self)@.files[i], id@));
                        assert(file_has_id(old(self)@.files[k as int], id@));
                    }
                }
                true
            },
            Option::None => false,
        }
    }

    /// Renames the first folder carrying `id`; false when no folder does.
    pub fn rename_folder(&mut self, id: &str, new_name: &str) -> (r: bool)
        ensures
            r == has_folder(old(self)@.folders, id@),
            final(self)@.files == old(self)@.files,
            !r ==> final(self)@.folders == old(self)@.folders,
            forall|i: int|
                #[trigger] is_first_folder(old(self)@.folders, id@, i) ==> final(self)@.folders == old(
                    self,
                )@.folders.update(i, FolderView { name: new_name@, ..old(self)@.folders[i] }),
    {
        match self.find_folder(id) {
            Option::Some(k) => {
                let mut f = self.folders[k].clone();
                f.name = new_name.to_owned();
                self.folders.set(k, f);
                proof {
                    assert(self@.folders =~= old(self)@.folders.update(
                        k as int,
                        FolderView { name: new_name@, ..old(self)@.folders[k as int] },
                    ));
                    assert forall|i: int| #[trigger] is_first_folder(old(self)@.folders, id@, i)
                        implies i == k by {
                        assert(folder_has_id(old(self)@.folders[i], id@));
                        assert(folder_has_id(old(self)@.folders[k as int], id@));
                    }
                }
                true
            },
            Option::None => false,
        }
    }

    /// Moves the first file carrying `id` under `target_folder_id` and
    /// renames it; false when no file does. No name-collision check is
    /// made here: the caller owns last-write-wins semantics.
    pub fn move_file(
        &mut self,
        id: &str,
        target_folder_id: Option<String>,
        new_name: &str,
    ) -> (r: bool)
        ensures
            r == has_file(old(self)@.files, id@),
            final(self)@.folders == old(self)@.folders,
            !r ==> final(self)@.files == old(self)@.files,
            forall|i: int|
                #[trigger] is_first_file(old(self)@.files, id@, i) ==> final(self)@.files == old(
                    self,
                )@.files.update(
                    i,
                    FileView {
                        folder_id: opt_str_view(target_folder_id),
                        name: new_name@,
                        ..old(self)@.files[i]
                    },
                ),
    {
        match self.find_file(id) {
            Option::Some(k) => {
                let mut f = self.files[k].clone();
                f.folder_id = target_folder_id;
                f.name = new_name.to_owned();
                self.files.set(k, f);
                proof {
                    assert(self@.files =~= old(self)@.files.update(
                        k as int,
                        FileView {
                            folder_id: opt_str_view(target_folder_id),
                            name: new_name@,
                            ..old(self)@.files[k as int]
                        },
                    ));
                    assert forall|i: int| #[trigger] is_first_file(old(self)@.files, id@, i)
                        implies i == k by {
                        assert(file_has_id(old(self)@.files[i], id@));
                        assert(file_has_id(old(self)@.files[k as int], id@));
                    }
                }
                true
            },
            Option::None => false,
        }
    }

    /// Moves the first folder carrying `id` under `target_parent_id` and
    /// renames it. Re-parenting a folder directly under itself is rejected
    /// and leaves the index unchanged; deeper ancestor cycles are not
    /// checked, matching the design's shallow guard.
    pub fn move_folder(
        &mut self,
        id: &str,
        target_parent_id: Option<String>,
        new_name: &str,
    ) -> (r: bool)
        ensures
            opt_str_view(target_parent_id) == Option::Some(id@) ==> !r && final(self)@ == old(self)@,
            opt_str_view(target_parent_id) != Option::Some(id@) ==> {
                &&& r == has_folder(old(self)@.folders, id@)
                &&& final(self)@.files == old(self)@.files
                &&& (!r ==> final(self)@.folders == old(self)@.folders)
                &&& forall|i: int|
                    #[trigger] is_first_folder(old(self)@.folders, id@, i) ==> final(self)@.folders == old(
                        self,
                    )@.folders.update(
                        i,
                        FolderView {
                            parent_id: opt_str_view(target_parent_id),
                            name: new_name@,
                            ..old(self)@.folders[i]
                        },
                    )
            },
    {
        if let Option::Some(target) = &target_parent_id {
            let id_s = id.to_owned();
            if *target == id_s {
                return false;
            }
        }
        match self.find_folder(id) {
            Option::Some(k) => {
                let mut f = self.folders[k].clone();
                f.parent_id = target_parent_id;
                f.name = new_name.to_owned();
                self.folders.set(k, f);
                proof {
                    assert(self@.folders =~= old(self)@.folders.update(
                        k as int,
                        FolderView {
                            parent_id: opt_str_view(target_parent_id),
                            name: new_name@,
                            ..old(self)@.folders[k as int]
                        },
                    ));
                    assert forall|i: int| #[trigger] is_first_folder(old(self)@.folders, id@, i)
                        implies i == k by {
                        assert(folder_has_id(old(self)@.folders[i], id@));
                        assert(folder_has_id(old(self)@.folders[k as int], id@));
                    }
                }
                true
            },
            Option::None => false,
        }
    }

    /// Soft-deletes the first record of the given kind carrying `id`,
    /// stamping `now` as its trash time.
    pub fn trash_item_at(&mut self, id: &str, is_folder: bool, now: i64)
        ensures
            is_folder ==> {
                &&& final(self)@.files == old(self)@.files
                &&& (!has_folder(old(self)@.folders, id@) ==> final(self)@.folders == old(self)@.folders)
                &&& forall|i: int|
                    #[trigger] is_first_folder(old(self)@.folders, id@, i) ==> final(self)@.folders == old(
                        self,
                    )@.folders.update(
                        i,
                        FolderView {
                            trashed: true,
                            trashed_at: Option::Some(now as int),
                            ..old(self)@.folders[i]
                        },
                    )
            },
            !is_folder ==> {
                &&& final(self)@.folders == old(self)@.folders
                &&& (!has_file(old(self)@.files, id@) ==> final(self)@.files == old(self)@.files)
                &&& forall|i: int|
                    #[trigger] is_first_file(old(self)@.files, id@, i) ==> final(self)@.files == old(
                        self,
                    )@.files.update(
                        i,
                        FileView {
                            trashed: true,
                            trashed_at: Option::Some(now as int),
                            ..old(self)@.files[i]
                        },
                    )
            },
    {
        if is_folder {
            match self.find_folder(id) {
                Option::Some(k) => {
                    let mut f = self.folders[k].clone();
                    f.trashed = true;
                    f.trashed_at = Option::Some(now);
                    self.folders.set(k, f);
                    proof {
                        assert(self@.folders =~= old(self)@.folders.update(
                            k as int,
                            FolderView {
                                trashed: true,
                                trashed_at: Option::Some(now as int),
                                ..old(self)@.folders[k as int]
                            },
                        ));
                        assert forall|i: int| #[trigger] is_first_folder(old(self)@.folders, id@, i)
                            implies i == k by {
                            assert(folder_has_id(old(self)@.folders[i], id@));
                            assert(folder_has_id(old(self)@.folders[k as int], id@));
                        }
                    }
                },
                Option::None => {},
            }
        } else {
            match self.find_file(id) {
                Option::Some(k) => {
                    let mut f = self.files[k].clone();
                    f.trashed = true;
                    f.trashed_at = Option::Some(now);
                    self.files.set(k, f);
                    proof {
                        assert(self@.files =~= old(self)@.files.update(
                            k as int,
                            FileView {
                                trashed: true,
                                trashed_at: Option::Some(now as int),
                                ..old(self)@.files[k as int]
                            },
                        ));
                        assert forall|i: int| #[trigger] is_first_file(old(self)@.files, id@, i)
                            implies i == k by {
                            assert(file_has_id(old(self)@.files[i], id@));
                            assert(file_has_id(old(self)@.files[k as int], id@));
                        }
                    }
                },
                Option::None => {},
            }
        }
    }

    /// Soft-deletes the first record of the given kind carrying `id`,
    /// stamping the current clock reading as its trash time.
    pub fn trash_item(&mut self, id: &str, is_folder: bool)
        ensures
            is_folder ==> {
                &&& final(self)@.files == old(self)@.files
                &&& (!has_folder(old(self)@.folders, id@) ==> final(self)@.folders == old(self)@.folders)
                &&& forall|i: int|
                    #[trigger] is_first_folder(old(self)@.folders, id@, i) ==> exists|t: int|
                        final(self)@.folders == old(self)@.folders.update(
                            i,
                            #[trigger] folder_trashed_at(old(self)@.folders[i], t),
                        )
            },
            !is_folder ==> {
                &&& final(self)@.folders == old(self)@.folders
                &&& (!has_file(old(self)@.files, id@) ==> final(self)@.files == old(self)@.files)
                &&& forall|i: int|
                    #[trigger] is_first_file(old(self)@.files, id@, i) ==> exists|t: int|
                        final(self)@.files == old(self)@.files.update(
                            i,
                            #[trigger] file_trashed_at(old(self)@.files[i], t),
                        )
            },
    {
        let now = now_unix_secs();
        self.trash_item_at(id, is_folder, now);
        proof {
            if is_folder {
                assert forall|i: int| #[trigger] is_first_folder(old(self)@.folders, id@, i)
                    implies exists|t: int|
                        self@.folders == old(self)@.folders.update(
                            i,
                            #[trigger] folder_trashed_at(old(self)@.folders[i], t),
                        ) by {
                    assert(self@.folders == old(self)@.folders.update(
                        i,
                        folder_trashed_at(old(self)@.folders[i], now as int),
                    ));
                }
            } else {
                assert forall|i: int| #[trigger] is_first_file(old(self)@.files, id@, i)
                    implies exists|t: int|
                        self@.files == old(self)@.files.update(
                            i,
                            #[trigger] file_trashed_at(old(self)@.files[i], t),
                        ) by {
                    assert(self@.files == old(self)@.files.update(
                        i,
                        file_trashed_at(old(self)@.files[i], now as int),
                    ));
                }
            }
        }
    }

    /// Clears the soft-delete mark of the first record of the given kind
    /// carrying `id`.
    pub fn restore_item(&mut self, id: &str, is_folder: bool)
        ensures
            is_folder ==> {
                &&& final(self)@.files == old(self)@.files
                &&& (!has_folder(old(self)@.folders, id@) ==> final(self)@.folders == old(self)@.folders)
                &&& forall|i: int|
                    #[trigger] is_first_folder(old(self)@.folders, id@, i) ==> final(self)@.folders == old(
                        self,
                    )@.folders.update(i, folder_restored(old(self)@.folders[i]))
            },
            !is_folder ==> {
                &&& final(self)@.folders == old(self)@.folders
                &&& (!has_file(old(self)@.files, id@) ==> final(self)@.files == old(self)@.files)
                &&& forall|i: int|
                    #[trigger] is_first_file(old(self)@.files, id@, i) ==> final(self)@.files == old(
                        self,
                    )@.files.update(i, file_restored(old(self)@.files[i]))
            },
    {
        if is_folder {
            match self.find_folder(id) {
                Option::Some(k) => {
                    let mut f = self.folders[k].clone();
                    f.trashed = false;
                    f.trashed_at = Option::None;
                    self.folders.set(k, f);
                    proof {
                        assert(self@.folders =~= old(self)@.folders.update(
                            k as int,
                            FolderView {
                                trashed: false,
                                trashed_at: Option::None,
                                ..old(self)@.folders[k as int]
                            },
                        ));
                        assert forall|i: int| #[trigger] is_first_folder(old(self)@.folders, id@, i)
                            implies i == k by {
                            assert(folder_has_id(old(self)@.folders[i], id@));
                            assert(folder_has_id(old(self)@.folders[k as int], id@));
                        }
                    }
                },
                Option::None => {},
            }
        } else {
            match self.find_file(id) {
                Option::Some(k) => {
                    let mut f = self.files[k].clone();
                    f.trashed = false;
                    f.trashed_at = Option::None;
                    self.files.set(k, f);
                    proof {
                        assert(self@.files =~= old(self)@.files.update(
                            k as int,
                            FileView {
                                trashed: false,
                                trashed_at: Option::None,
                                ..old(self)@.files[k as int]
                            },
                        ));
                        assert forall|i: int| #[trigger] is_first_file(old(self)@.files, id@, i)
                            implies i == k by {
                            assert(file_has_id(old(self)@.files[i], id@));
                            assert(file_has_id(old(self)@.files[k as int], id@));
                        }
                    }
                },
                Option::None => {},
            }
        }
    }

    /// Flips the star flag of the first record of the given kind carrying
    /// `id`; false when none does.
    pub fn toggle_star(&mut self, id: &str, is_folder: bool) -> (r: bool)
        ensures
            is_folder ==> {
                &&& r == has_folder(old(self)@.folders, id@)
                &&& final(self)@.files == old(self)@.files
                &&& (!r ==> final(self)@.folders == old(self)@.folders)
                &&& forall|i: int|
                    #[trigger] is_first_folder(old(self)@.folders, id@, i) ==> final(self)@.folders == old(
                        self,
                    )@.folders.update(
                        i,
                        FolderView {
                            is_starred: !old(self)@.folders[i].is_starred,
                            ..old(self)@.folders[i]
                        },
                    )
            },
            !is_folder ==> {
                &&& r == has_file(old(self)@.files, id@)
                &&& final(self)@.folders == old(self)@.folders
                &&& (!r ==> final(self)@.files == old(self)@.files)
                &&& forall|i: int|
                    #[trigger] is_first_file(old(self)@.files, id@, i) ==> final(self)@.files == old(
                        self,
                    )@.files.update(
                        i,
                        FileView {
                            is_starred: !old(self)@.files[i].is_starred,
                            ..old(self)@.files[i]
                        },
                    )
            },
    {
        if is_folder {
            match self.find_folder(id) {
                Option::Some(k) => {
                    let mut f = self.folders[k].clone();
                    f.is_starred = !f.is_starred;
                    self.folders.set(k, f);
                    proof {
                        assert(self@.folders =~= old(self)@.folders.update(
                            k as int,
                            FolderView {
                                is_starred: !old(self)@.folders[k as int].is_starred,
                                ..old(self)@.folders[k as int]
                            },
                        ));
                        assert forall|i: int| #[trigger] is_first_folder(old(self)@.folders, id@, i)
                            implies i == k by {
                            assert(folder_has_id(old(self)@.folders[i], id@));
                            assert(folder_has_id(old(self)@.folders[k as int], id@));
                        }
                    }
                    true
                },
                Option::None => false,
            }
        } else {
            match self.find_file(id) {
                Option::Some(k) => {
                    let mut f = self.files[k].clone();
                    f.is_starred = !f.is_starred;
                    self.files.set(k, f);
                    proof {
                        assert(self@.files =~= old(self)@.files.update(
                            k as int,
                            FileView {
                                is_starred: !old(self)@.files[k as int].is_starred,
                                ..old(self)@.files[k as int]
                            },
                        ));
                        assert forall|i: int| #[trigger] is_first_file(old(self)@.files, id@, i)
                            implies i == k by {
                            assert(file_has_id(old(self)@.files[i], id@));
                            assert(file_has_id(old(self)@.files[k as int], id@));
                        }
                    }
                    true
                },
                Option::None => false,
            }
        }
    }

    /// Re-parents the first file carrying the backend reference
    /// `message_id` under `target_folder_id`, but only when that file
    /// still sits at the root. Always succeeds.
    pub fn move_file_to_sync_folder(
        &mut self,
        message_id: i32,
        target_folder_id: &str,
    ) -> (r: Result<(), String>)
        ensures
            r is Ok,
            final(self)@.folders == old(self)@.folders,
            !has_file_msg(old(self)@.files, message_id as int) ==> final(self)@.files == old(self)@.files,
            forall|i: int|
                #[trigger] is_first_file_msg(old(self)@.files, message_id as int, i)
                    ==> if old(self)@.files[i].folder_id is None {
                    final(self)@.files == old(self)@.files.update(
                        i,
                        FileView {
                            folder_id: Option::Some(target_folder_id@),
                            ..old(self)@.files[i]
                        },
                    )
                } else {
                    final(self)@.files == old(self)@.files
                },
    {
        match self.find_file_by_msg(message_id) {
            Option::Some(k) => {
                proof {
                    assert(self@.files[k as int] == self.files@[k as int]@);
                    assert forall|i: int|
                        #[trigger] is_first_file_msg(old(self)@.files, message_id as int, i)
                        implies i == k by {
                        assert(file_has_msg(old(self)@.files[i], message_id as int));
                        assert(file_has_msg(old(self)@.files[k as int], message_id as int));
                    }
                }
                if self.files[k].folder_id.is_none() {
                    let mut f = self.files[k].clone();
                    f.folder_id = Option::Some(target_folder_id.to_owned());
                    self.files.set(k, f);
                    proof {
                        assert(self@.files =~= old(self)@.files.update(
                            k as int,
                            FileView {
                                folder_id: Option::Some(target_folder_id@),
                                ..old(self)@.files[k as int]
                            },
                        ));
                    }
                }
                Result::Ok(())
            },
            Option::None => Result::Ok(()),
        }
    }
}


/// No two live folders under one parent share a name.
pub open spec fn folders_unique_live_names(s: Seq<FolderView>) -> bool {
    forall|i: int, j: int|
        #![trigger s[i], s[j]]
        0 <= i < s.len() && 0 <= j < s.len() && i != j && !s[i].trashed && !s[j].trashed && s[i].parent_id
            == s[j].parent_id ==> s[i].name != s[j].name
}

/// No two live files under one parent share a name.
pub open spec fn files_unique_live_names(s: Seq<FileView>) -> bool {
    forall|i: int, j: int|
        #![trigger s[i], s[j]]
        0 <= i < s.len() && 0 <= j < s.len() && i != j && !s[i].trashed && !s[j].trashed && s[i].folder_id
            == s[j].folder_id ==> s[i].name != s[j].name
}

/// The chosen name itself names no live sibling of its kind.
pub proof fn lemma_chosen_name_free(
    db: DbView,
    parent: Option<Seq<char>>,
    base: Seq<char>,
    is_folder: bool,
    out: Seq<char>,
)
    requires
        is_chosen_name(db, parent, base, is_folder, out),
    ensures
        !db_name_taken(db, parent, out, is_folder),
{
    if db_name_taken(db, parent, base, is_folder) {
        let n = choose|n: int|
            1 <= n && out == spec_candidate(base, n as nat) && !#[trigger] db_name_taken(
                db,
                parent,
                spec_candidate(base, n as nat),
                is_folder,
            ) && (forall|m: int|
                1 <= m < n ==> #[trigger] db_name_taken(
                    db,
                    parent,
                    spec_candidate(base, m as nat),
                    is_folder,
                ));
        assert(!db_name_taken(db, parent, out, is_folder));
    }
}

/// Law: a create that uses the collision-free naming rule preserves the
/// uniqueness of live sibling folder names — for any sequence of creates
/// under one parent, no two live sibling folders end up with an identical
/// name.
pub proof fn lemma_create_preserves_folder_uniqueness(
    db: DbView,
    parent: Option<Seq<char>>,
    base: Seq<char>,
    nf: FolderView,
)
    requires
        folders_unique_live_names(db.folders),
        is_chosen_name(db, parent, base, true, nf.name),
        nf.parent_id == parent,
        !nf.trashed,
    ensures
        folders_unique_live_names(db.folders.push(nf)),
{
    lemma_chosen_name_free(db, parent, base, true, nf.name);
    let s = db.folders;
    let s2 = s.push(nf);
    assert forall|i: int, j: int|
        #![trigger s2[i], s2[j]]
        0 <= i < s2.len() && 0 <= j < s2.len() && i != j && !s2[i].trashed && !s2[j].trashed
            && s2[i].parent_id == s2[j].parent_id implies s2[i].name != s2[j].name by {
        if i < s.len() && j < s.len() {
            assert(s2[i] == s[i] && s2[j] == s[j]);
        } else if i == s.len() {
            assert(s2[i] == nf && s2[j] == s[j]);
            if s[j].name == nf.name {
                assert(folder_takes_name(s[j], parent, nf.name));
                assert(false);
            }
        } else {
            assert(s2[j] == nf && s2[i] == s[i]);
            if s[i].name == nf.name {
                assert(folder_takes_name(s[i], parent, nf.name));
                assert(false);
            }
        }
    }
}

/// Law: a create that uses the collision-free naming rule preserves the
/// uniqueness of live sibling file names.
pub proof fn lemma_create_preserves_file_uniqueness(
    db: DbView,
    parent: Option<Seq<char>>,
    base: Seq<char>,
    nf: FileView,
)
    requires
        files_unique_live_names(db.files),
        is_chosen_name(db, parent, base, false, nf.name),
        nf.folder_id == parent,
        !nf.trashed,
    ensures
        files_unique_live_names(db.files.push(nf)),
{
    lemma_chosen_name_free(db, parent, base, false, nf.name);
    let s = db.files;
    let s2 = s.push(nf);
    assert forall|i: int, j: int|
        #![trigger s2[i], s2[j]]
        0 <= i < s2.len() && 0 <= j < s2.len() && i != j && !s2[i].trashed && !s2[j].trashed
            && s2[i].folder_id == s2[j].folder_id implies s2[i].name != s2[j].name by {
        if i < s.len() && j < s.len() {
            assert(s2[i] == s[i] && s2[j] == s[j]);
        } else if i == s.len() {
            assert(s2[i] == nf && s2[j] == s[j]);
            if s[j].name == nf.name {
                assert(file_takes_name(s[j], parent, nf.name));
                assert(false);
            }
        } else {
            assert(s2[j] == nf && s2[i] == s[i]);
            if s[i].name == nf.name {
                assert(file_takes_name(s[i], parent, nf.name));
                assert(false);
            }
        }
    }
}

/// Law: trashing then restoring a live folder (one whose trash timestamp
/// is unset) returns the folder collection to exactly its former state,
/// so the folder reappears in normal listings and leaves trash listings.
pub proof fn lemma_trash_restore_folder_roundtrip(db: DbView, id: Seq<char>, i: int, t: int)
    requires
        is_first_folder(db.folders, id, i),
        !db.folders[i].trashed,
        db.folders[i].trashed_at is None,
    ensures
        ({
            let after_trash = db.folders.update(i, folder_trashed_at(db.folders[i], t));
            &&& is_first_folder(after_trash, id, i)
            &&& after_trash.update(i, folder_restored(after_trash[i])) == db.folders
        }),
{
    let after_trash = db.folders.update(i, folder_trashed_at(db.folders[i], t));
    assert(folder_restored(after_trash[i]) == db.folders[i]);
    assert(after_trash.update(i, folder_restored(after_trash[i])) =~= db.folders);
}

/// Law: trashing then restoring a live file (one whose trash timestamp is
/// unset) returns the file collection to exactly its former state.
pub proof fn lemma_trash_restore_file_roundtrip(db: DbView, id: Seq<char>, i: int, t: int)
    requires
        is_first_file(db.files, id, i),
        !db.files[i].trashed,
        db.files[i].trashed_at is None,
    ensures
        ({
            let after_trash = db.files.update(i, file_trashed_at(db.files[i], t));
            &&& is_first_file(after_trash, id, i)
            &&& after_trash.update(i, file_restored(after_trash[i])) == db.files
        }),
{
    let after_trash = db.files.update(i, file_trashed_at(db.files[i], t));
    assert(file_restored(after_trash[i]) == db.files[i]);
    assert(after_trash.update(i, file_restored(after_trash[i])) =~= db.files);
}


impl Database {
    /// Inserts a new folder named by the collision-free rule, with the
    /// given identifier and clock reading. Returns the identifier.
    pub fn create_folder_at(
        &mut self,
        name: &str,
        parent_id: Option<String>,
        id: String,
        now: i64,
    ) -> (r: String)
        ensures
            r@ == id@,
            final(self)@.files == old(self)@.files,
            final(self)@.folders.len() == old(self)@.folders.len() + 1,
            final(self)@.folders == old(self)@.folders.push(final(self)@.folders.last()),
            ({
                let nf = final(self)@.folders.last();
                &&& nf.id == id@
                &&& nf.parent_id == opt_str_view(parent_id)
                &&& is_chosen_name(old(self)@, opt_str_view(parent_id), name@, true, nf.name)
                &&& nf.created_at == now as int
                &&& nf.last_modified == now as int
                &&& !nf.trashed
                &&& nf.trashed_at is None
                &&& !nf.is_starred
                &&& nf.color is None
                &&& nf.icon is None
                &&& nf.gradient is None
                &&& nf.cover_image is None
                &&& nf.emoji is None
                &&& nf.pattern is None
                &&& !nf.show_badges
                &&& nf.tags is None
                &&& nf.description is None
                &&& nf.view_mode is None
            }),
            folders_unique_live_names(old(self)@.folders) ==> folders_unique_live_names(
                final(self)@.folders,
            ),
    {
        let parent_ref = parent_id.as_ref();
        proof {
            assert(opt_ref_view(parent_ref) == opt_str_view(parent_id));
        }
        let final_name = self.get_unique_name(parent_ref, name, true);
        let folder = Folder {
            id: id.clone(),
            parent_id,
            name: final_name,
            created_at: now,
            trashed: false,
            trashed_at: Option::None,
            is_starred: false,
            color: Option::None,
            icon: Option::None,
            gradient: Option::None,
            cover_image: Option::None,
            emoji: Option::None,
            pattern: Option::None,
            show_badges: false,
            tags: Option::None,
            description: Option::None,
            view_mode: Option::None,
            last_modified: now,
        };
        let ghost nf = folder@;
        self.folders.push(folder);
        proof {
            assert(self@.folders =~= old(self)@.folders.push(nf));
            assert(self@.folders.last() == nf);
            if folders_unique_live_names(old(self)@.folders) {
                lemma_create_preserves_folder_uniqueness(
                    old(self)@,
                    nf.parent_id,
                    name@,
                    nf,
                );
            }
        }
        id
    }

    /// Inserts a new folder named by the collision-free rule, with a
    /// fresh identifier and the current clock reading. Returns the
    /// identifier.
    pub fn create_folder(&mut self, name: &str, parent_id: Option<String>) -> (r: String)
        ensures
            final(self)@.files == old(self)@.files,
            final(self)@.folders.len() == old(self)@.folders.len() + 1,
            final(self)@.folders == old(self)@.folders.push(final(self)@.folders.last()),
            ({
                let nf = final(self)@.folders.last();
                &&& nf.id == r@
                &&& nf.parent_id == opt_str_view(parent_id)
                &&& is_chosen_name(old(self)@, opt_str_view(parent_id), name@, true, nf.name)
                &&& nf.created_at == nf.last_modified
                &&& !nf.trashed
                &&& nf.trashed_at is None
                &&& !nf.is_starred
            }),
            folders_unique_live_names(old(self)@.folders) ==> folders_unique_live_names(
                final(self)@.folders,
            ),
    {
        let id = fresh_record_id();
        let now = now_unix_secs();
        self.create_folder_at(name, parent_id, id, now)
    }

    /// Inserts a new file record named by the collision-free rule, with
    /// the given identifier and clock reading. Returns the record.
    pub fn add_file_at(
        &mut self,
        folder_id: Option<String>,
        name: String,
        size: i64,
        mime_type: String,
        message_id: i32,
        thumbnail: Option<String>,
        id: String,
        now: i64,
    ) -> (r: FileMetadata)
        ensures
            final(self)@.folders == old(self)@.folders,
            final(self)@.files == old(self)@.files.push(r@),
            r@.id == id@,
            r@.folder_id == opt_str_view(folder_id),
            is_chosen_name(old(self)@, opt_str_view(folder_id), name@, false, r@.name),
            r@.size == size as int,
            r@.mime_type == mime_type@,
            r@.message_id == message_id as int,
            r@.created_at == now as int,
            !r@.trashed,
            r@.trashed_at is None,
            !r@.is_starred,
            r@.thumbnail == opt_str_view(thumbnail),
            files_unique_live_names(old(self)@.files) ==> files_unique_live_names(
                final(self)@.files,
            ),
    {
        let folder_ref = folder_id.as_ref();
        proof {
            assert(opt_ref_view(folder_ref) == opt_str_view(folder_id));
        }
        let final_name = self.get_unique_name(folder_ref, name.as_str(), false);
        let file = FileMetadata {
            id,
            folder_id,
            name: final_name,
            size,
            mime_type,
            message_id,
            created_at: now,
            trashed: false,
            trashed_at: Option::None,
            is_starred: false,
            thumbnail,
        };
        let record = file.clone();
        let ghost nf = file@;
        self.files.push(file);
        proof {
            assert(self@.files =~= old(self)@.files.push(nf));
            if files_unique_live_names(old(self)@.files) {
                lemma_create_preserves_file_uniqueness(old(self)@, nf.folder_id, name@, nf);
            }
        }
        record
    }

    /// Inserts a new file record named by the collision-free rule, with a
    /// fresh identifier and the current clock reading. Returns the record.
    pub fn add_file(
        &mut self,
        folder_id: Option<String>,
        name: String,
        size: i64,
        mime_type: String,
        message_id: i32,
        thumbnail: Option<String>,
    ) -> (r: FileMetadata)
        ensures
            final(self)@.folders == old(self)@.folders,
            final(self)@.files == old(self)@.files.push(r@),
            r@.folder_id == opt_str_view(folder_id),
            is_chosen_name(old(self)@, opt_str_view(folder_id), name@, false, r@.name),
            r@.size == size as int,
            r@.mime_type == mime_type@,
            r@.message_id == message_id as int,
            !r@.trashed,
            r@.trashed_at is None,
            !r@.is_starred,
            r@.thumbnail == opt_str_view(thumbnail),
            files_unique_live_names(old(self)@.files) ==> files_unique_live_names(
                final(self)@.files,
            ),
    {
        let id = fresh_record_id();
        let now = now_unix_secs();
        self.add_file_at(folder_id, name, size, mime_type, message_id, thumbnail, id, now)
    }
}


/// One step of proving a filter over a growing prefix.
pub proof fn lemma_filter_take_step<A>(s: Seq<A>, pred: spec_fn(A) -> bool, k: int)
    requires
        0 <= k < s.len(),
    ensures
        pred(s[k]) ==> s.take(k + 1).filter(pred) == s.take(k).filter(pred).push(s[k]),
        !pred(s[k]) ==> s.take(k + 1).filter(pred) == s.take(k).filter(pred),
{
    reveal(Seq::filter);
    assert(s.take(k + 1).drop_last() =~= s.take(k));
    assert(s.take(k + 1).last() == s[k]);
}

/// The whole-sequence prefix filters like the sequence itself.
pub proof fn lemma_filter_take_all<A>(s: Seq<A>, pred: spec_fn(A) -> bool)
    ensures
        s.take(s.len() as int).filter(pred) == s.filter(pred),
{
    assert(s.take(s.len() as int) =~= s);
}

/// Live folders directly under `parent`.
pub open spec fn live_child_folder(parent: Option<Seq<char>>) -> spec_fn(FolderView) -> bool {
    |f: FolderView| f.parent_id == parent && !f.trashed
}

/// Live files directly under `parent`.
pub open spec fn live_child_file(parent: Option<Seq<char>>) -> spec_fn(FileView) -> bool {
    |f: FileView| f.folder_id == parent && !f.trashed
}

/// Soft-deleted folders.
pub open spec fn trashed_folder() -> spec_fn(FolderView) -> bool {
    |f: FolderView| f.trashed
}

/// Soft-deleted files.
pub open spec fn trashed_file() -> spec_fn(FileView) -> bool {
    |f: FileView| f.trashed
}

/// Live starred folders.
pub open spec fn starred_live_folder() -> spec_fn(FolderView) -> bool {
    |f: FolderView| f.is_starred && !f.trashed
}

/// Live starred files.
pub open spec fn starred_live_file() -> spec_fn(FileView) -> bool {
    |f: FileView| f.is_starred && !f.trashed
}

/// The backend references of a file record sequence, in order.
pub open spec fn msg_ids(s: Seq<FileView>) -> Seq<int> {
    s.map_values(|f: FileView| f.message_id)
}

/// The mathematical values of a machine-integer sequence.
pub open spec fn i32_views(s: Seq<i32>) -> Seq<int> {
    s.map_values(|m: i32| m as int)
}

impl Database {
    /// All live direct children of `folder_id`: folders, then files, in
    /// record order.
    #[verifier::loop_isolation(false)]
    pub fn list_contents(&self, folder_id: Option<String>) -> (r: (Vec<Folder>, Vec<FileMetadata>))
        ensures
            folders_view(r.0@) == self@.folders.filter(live_child_folder(opt_str_view(folder_id))),
            files_view(r.1@) == self@.files.filter(live_child_file(opt_str_view(folder_id))),
    {
        let ghost p = opt_str_view(folder_id);
        let fid = folder_id.as_ref();
        proof {
            assert(opt_ref_view(fid) == p);
        }
        let mut out_folders: Vec<Folder> = Vec::new();
        let mut k: usize = 0;
        while k < self.folders.len()
            invariant
                k <= self.folders.len(),
                folders_view(out_folders@) == self@.folders.take(k as int).filter(
                    live_child_folder(p),
                ),
            decreases self.folders.len() - k,
        {
            proof {
                assert(self@.folders[k as int] == self.folders@[k as int]@);
                lemma_filter_take_step(self@.folders, live_child_folder(p), k as int);
            }
            let f = &self.folders[k];
            if !f.trashed && opt_id_eq(&f.parent_id, fid) {
                out_folders.push(f.clone());
            }
            proof {
                assert(folders_view(out_folders@) =~= self@.folders.take(k + 1).filter(
                    live_child_folder(p),
                ));
            }
            k = k + 1;
        }
        proof {
            lemma_filter_take_all(self@.folders, live_child_folder(p));
        }
        let mut out_files: Vec<FileMetadata> = Vec::new();
        let mut m: usize = 0;
        while m < self.files.len()
            invariant
                m <= self.files.len(),
                files_view(out_files@) == self@.files.take(m as int).filter(live_child_file(p)),
            decreases self.files.len() - m,
        {
            proof {
                assert(self@.files[m as int] == self.files@[m as int]@);
                lemma_filter_take_step(self@.files, live_child_file(p), m as int);
            }
            let f = &self.files[m];
            if !f.trashed && opt_id_eq(&f.folder_id, fid) {
                out_files.push(f.clone());
            }
            proof {
                assert(files_view(out_files@) =~= self@.files.take(m + 1).filter(
                    live_child_file(p),
                ));
            }
            m = m + 1;
        }
        proof {
            lemma_filter_take_all(self@.files, live_child_file(p));
        }
        (out_folders, out_files)
    }

    /// All soft-deleted records, of both kinds, regardless of parent.
    #[verifier::loop_isolation(false)]
    pub fn list_trash(&self) -> (r: (Vec<Folder>, Vec<FileMetadata>))
        ensures
            folders_view(r.0@) == self@.folders.filter(trashed_folder()),
            files_view(r.1@) == self@.files.filter(trashed_file()),
    {
        let mut out_folders: Vec<Folder> = Vec::new();
        let mut k: usize = 0;
        while k < self.folders.len()
            invariant
                k <= self.folders.len(),
                folders_view(out_folders@) == self@.folders.take(k as int).filter(trashed_folder()),
            decreases self.folders.len() - k,
        {
            proof {
                assert(self@.folders[k as int] == self.folders@[k as int]@);
                lemma_filter_take_step(self@.folders, trashed_folder(), k as int);
            }
            let f = &self.folders[k];
            if f.trashed {
                out_folders.push(f.clone());
            }
            proof {
                assert(folders_view(out_folders@) =~= self@.folders.take(k + 1).filter(
                    trashed_folder(),
                ));
            }
            k = k + 1;
        }
        proof {
            lemma_filter_take_all(self@.folders, trashed_folder());
        }
        let mut out_files: Vec<FileMetadata> = Vec::new();
        let mut m: usize = 0;
        while m < self.files.len()
            invariant
                m <= self.files.len(),
                files_view(out_files@) == self@.files.take(m as int).filter(trashed_file()),
            decreases self.files.len() - m,
        {
            proof {
                assert(self@.files[m as int] == self.files@[m as int]@);
                lemma_filter_take_step(self@.files, trashed_file(), m as int);
            }
            let f = &self.files[m];
            if f.trashed {
                out_files.push(f.clone());
            }
            proof {
                assert(files_view(out_files@) =~= self@.files.take(m + 1).filter(trashed_file()));
            }
            m = m + 1;
        }
        proof {
            lemma_filter_take_all(self@.files, trashed_file());
        }
        (out_folders, out_files)
    }

    /// All live starred records, of both kinds.
    #[verifier::loop_isolation(false)]
    pub fn get_starred(&self) -> (r: (Vec<Folder>, Vec<FileMetadata>))
        ensures
            folders_view(r.0@) == self@.folders.filter(starred_live_folder()),
            files_view(r.1@) == self@.files.filter(starred_live_file()),
    {
        let mut out_folders: Vec<Folder> = Vec::new();
        let mut k: usize = 0;
        while k < self.folders.len()
            invariant
                k <= self.folders.len(),
                folders_view(out_folders@) == self@.folders.take(k as int).filter(
                    starred_live_folder(),
                ),
            decreases self.folders.len() - k,
        {
            proof {
                assert(self@.folders[k as int] == self.folders@[k as int]@);
                lemma_filter_take_step(self@.folders, starred_live_folder(), k as int);
            }
            let f = &self.folders[k];
            if f.is_starred && !f.trashed {
                out_folders.push(f.clone());
            }
            proof {
                assert(folders_view(out_folders@) =~= self@.folders.take(k + 1).filter(
                    starred_live_folder(),
                ));
            }
            k = k + 1;
        }
        proof {
            lemma_filter_take_all(self@.folders, starred_live_folder());
        }
        let mut out_files: Vec<FileMetadata> = Vec::new();
        let mut m: usize = 0;
        while m < self.files.len()
            invariant
                m <= self.files.len(),
                files_view(out_files@) == self@.files.take(m as int).filter(starred_live_file()),
            decreases self.files.len() - m,
        {
            proof {
                assert(self@.files[m as int] == self.files@[m as int]@);
                lemma_filter_take_step(self@.files, starred_live_file(), m as int);
            }
            let f = &self.files[m];
            if f.is_starred && !f.trashed {
                out_files.push(f.clone());
            }
            proof {
                assert(files_view(out_files@) =~= self@.files.take(m + 1).filter(
                    starred_live_file(),
                ));
            }
            m = m + 1;
        }
        proof {
            lemma_filter_take_all(self@.files, starred_live_file());
        }
        (out_folders, out_files)
    }

    /// A copy of every file record, trashed ones included.
    #[verifier::loop_isolation(false)]
    pub fn get_all_files(&self) -> (r: Vec<FileMetadata>)
        ensures
            files_view(r@) == self@.files,
    {
        let mut out: Vec<FileMetadata> = Vec::new();
        let mut k: usize = 0;
        while k < self.files.len()
            invariant
                k <= self.files.len(),
                files_view(out@) == self@.files.take(k as int),
            decreases self.files.len() - k,
        {
            proof {
                assert(self@.files[k as int] == self.files@[k as int]@);
            }
            out.push(self.files[k].clone());
            proof {
                assert(files_view(out@) =~= self@.files.take(k + 1));
            }
            k = k + 1;
        }
        proof {
            assert(self@.files.take(self@.files.len() as int) =~= self@.files);
        }
        out
    }

    /// A copy of every folder record, trashed ones included.
    #[verifier::loop_isolation(false)]
    pub fn get_all_folders(&self) -> (r: Vec<Folder>)
        ensures
            folders_view(r@) == self@.folders,
    {
        let mut out: Vec<Folder> = Vec::new();
        let mut k: usize = 0;
        while k < self.folders.len()
            invariant
                k <= self.folders.len(),
                folders_view(out@) == self@.folders.take(k as int),
            decreases self.folders.len() - k,
        {
            proof {
                assert(self@.folders[k as int] == self.folders@[k as int]@);
            }
            out.push(self.folders[k].clone());
            proof {
                assert(folders_view(out@) =~= self@.folders.take(k + 1));
            }
            k = k + 1;
        }
        proof {
            assert(self@.folders.take(self@.folders.len() as int) =~= self@.folders);
        }
        out
    }

    /// The backend reference of every file record, in record order.
    #[verifier::loop_isolation(false)]
    pub fn get_existing_message_ids(&self) -> (r: Vec<i32>)
        ensures
            i32_views(r@) == msg_ids(self@.files),
    {
        let mut out: Vec<i32> = Vec::new();
        let mut k: usize = 0;
        while k < self.files.len()
            invariant
                k <= self.files.len(),
                out@.len() == k,
                forall|i: int| 0 <= i < k ==> #[trigger] out@[i] as int == self@.files[i].message_id,
            decreases self.files.len() - k,
        {
            proof {
                assert(self@.files[k as int] == self.files@[k as int]@);
            }
            out.push(self.files[k].message_id);
            k = k + 1;
        }
        proof {
            assert(i32_views(out@) =~= msg_ids(self@.files));
        }
        out
    }
}


/// Files whose identifier differs from `id`.
pub open spec fn file_id_ne(id: Seq<char>) -> spec_fn(FileView) -> bool {
    |f: FileView| f.id != id
}

/// Folders whose identifier differs from `id`.
pub open spec fn folder_id_ne(id: Seq<char>) -> spec_fn(FolderView) -> bool {
    |f: FolderView| f.id != id
}

/// Files parented directly under the folder identified by `id`.
pub open spec fn file_in_folder(id: Seq<char>) -> spec_fn(FileView) -> bool {
    |f: FileView| f.folder_id == Option::Some(id)
}

/// Files not parented directly under the folder identified by `id`.
pub open spec fn file_not_in_folder(id: Seq<char>) -> spec_fn(FileView) -> bool {
    |f: FileView| f.folder_id != Option::Some(id)
}

/// The views of an identifier list.
pub open spec fn ids_view(s: Seq<String>) -> Seq<Seq<char>> {
    s.map_values(|x: String| x@)
}

/// Files whose identifier is outside `idset`.
pub open spec fn file_id_outside(idset: Seq<Seq<char>>) -> spec_fn(FileView) -> bool {
    |f: FileView| !idset.contains(f.id)
}

impl Database {
    /// Permanently removes every file record carrying `id`; true when at
    /// least one did.
    #[verifier::loop_isolation(false)]
    pub fn delete_file(&mut self, id: &str) -> (r: bool)
        ensures
            r == has_file(old(self)@.files, id@),
            final(self)@.folders == old(self)@.folders,
            final(self)@.files == old(self)@.files.filter(file_id_ne(id@)),
    {
        let id_s = id.to_owned();
        let mut kept: Vec<FileMetadata> = Vec::new();
        let mut found = false;
        let mut k: usize = 0;
        while k < self.files.len()
            invariant
                k <= self.files.len(),
                files_view(kept@) == self@.files.take(k as int).filter(file_id_ne(id@)),
                found == exists|i: int| 0 <= i < k && #[trigger] file_has_id(self@.files[i], id@),
            decreases self.files.len() - k,
        {
            proof {
                assert(self@.files[k as int] == self.files@[k as int]@);
                lemma_filter_take_step(self@.files, file_id_ne(id@), k as int);
            }
            let f = &self.files[k];
            if f.id == id_s {
                found = true;
                proof {
                    assert(file_has_id(self@.files[k as int], id@));
                }
            } else {
                kept.push(f.clone());
            }
            proof {
                assert(files_view(kept@) =~= self@.files.take(k + 1).filter(file_id_ne(id@)));
            }
            k = k + 1;
        }
        proof {
            lemma_filter_take_all(self@.files, file_id_ne(id@));
        }
        self.files = kept;
        found
    }

    /// Permanently removes every folder record carrying `id` and every
    /// file record parented directly under it, returning those files so
    /// the caller can release their backend objects. Deeper descendants
    /// are not touched: folder removal is deliberately flat.
    #[verifier::loop_isolation(false)]
    pub fn delete_folder(&mut self, id: &str) -> (r: Vec<FileMetadata>)
        ensures
            files_view(r@) == old(self)@.files.filter(file_in_folder(id@)),
            final(self)@.files == old(self)@.files.filter(file_not_in_folder(id@)),
            final(self)@.folders == old(self)@.folders.filter(folder_id_ne(id@)),
    {
        let id_s = id.to_owned();
        let mut removed: Vec<FileMetadata> = Vec::new();
        let mut kept_files: Vec<FileMetadata> = Vec::new();
        let mut k: usize = 0;
        while k < self.files.len()
            invariant
                k <= self.files.len(),
                files_view(removed@) == self@.files.take(k as int).filter(file_in_folder(id@)),
                files_view(kept_files@) == self@.files.take(k as int).filter(
                    file_not_in_folder(id@),
                ),
            decreases self.files.len() - k,
        {
            proof {
                assert(self@.files[k as int] == self.files@[k as int]@);
                lemma_filter_take_step(self@.files, file_in_folder(id@), k as int);
                lemma_filter_take_step(self@.files, file_not_in_folder(id@), k as int);
            }
            let f = &self.files[k];
            let in_folder = match &f.folder_id {
                Option::Some(fid) => *fid == id_s,
                Option::None => false,
            };
            if in_folder {
                removed.push(f.clone());
            } else {
                kept_files.push(f.clone());
            }
            proof {
                assert(files_view(removed@) =~= self@.files.take(k + 1).filter(
                    file_in_folder(id@),
                ));
                assert(files_view(kept_files@) =~= self@.files.take(k + 1).filter(
                    file_not_in_folder(id@),
                ));
            }
            k = k + 1;
        }
        proof {
            lemma_filter_take_all(self@.files, file_in_folder(id@));
            lemma_filter_take_all(self@.files, file_not_in_folder(id@));
        }
        self.files = kept_files;
        let mut kept_folders: Vec<Folder> = Vec::new();
        let mut m: usize = 0;
        while m < self.folders.len()
            invariant
                m <= self.folders.len(),
                folders_view(kept_folders@) == self@.folders.take(m as int).filter(
                    folder_id_ne(id@),
                ),
            decreases self.folders.len() - m,
        {
            proof {
                assert(self@.folders[m as int] == self.folders@[m as int]@);
                lemma_filter_take_step(self@.folders, folder_id_ne(id@), m as int);
            }
            let g = &self.folders[m];
            if !(g.id == id_s) {
                kept_folders.push(g.clone());
            }
            proof {
                assert(folders_view(kept_folders@) =~= self@.folders.take(m + 1).filter(
                    folder_id_ne(id@),
                ));
            }
            m = m + 1;
        }
        proof {
            lemma_filter_take_all(self@.folders, folder_id_ne(id@));
        }
        self.folders = kept_folders;
        removed
    }

    /// Permanently removes every file record whose identifier appears in
    /// `ids`.
    #[verifier::loop_isolation(false)]
    pub fn delete_files_by_ids(&mut self, ids: &[String])
        ensures
            final(self)@.folders == old(self)@.folders,
            final(self)@.files == old(self)@.files.filter(file_id_outside(ids_view(ids@))),
    {
        let ghost idset = ids_view(ids@);
        let mut kept: Vec<FileMetadata> = Vec::new();
        let mut k: usize = 0;
        while k < self.files.len()
            invariant
                k <= self.files.len(),
                files_view(kept@) == self@.files.take(k as int).filter(file_id_outside(idset)),
            decreases self.files.len() - k,
        {
            proof {
                assert(self@.files[k as int] == self.files@[k as int]@);
                lemma_filter_take_step(self@.files, file_id_outside(idset), k as int);
            }
            let f = &self.files[k];
            let mut listed = false;
            let mut j: usize = 0;
            while j < ids.len()
                invariant
                    j <= ids.len(),
                    listed == exists|a: int| 0 <= a < j && idset[a] == f@.id,
                decreases ids.len() - j,
            {
                if ids[j] == f.id {
                    listed = true;
                    proof {
                        assert(idset[j as int] == f@.id);
                    }
                }
                j = j + 1;
            }
            proof {
                assert(listed == idset.contains(f@.id));
            }
            if !listed {
                kept.push(f.clone());
            }
            proof {
                assert(files_view(kept@) =~= self@.files.take(k + 1).filter(
                    file_id_outside(idset),
                ));
            }
            k = k + 1;
        }
        proof {
            lemma_filter_take_all(self@.files, file_id_outside(idset));
        }
        self.files = kept;
    }
}


/// A presentation attribute after a merge: an absent argument keeps the
/// current value, an empty string clears it, any other string replaces it.
pub open spec fn merged_attr(cur: Option<Seq<char>>, arg: Option<Seq<char>>) -> Option<Seq<char>> {
    match arg {
        Option::None => cur,
        Option::Some(s) => if s.len() == 0 {
            Option::None
        } else {
            Option::Some(s)
        },
    }
}

/// A value after a merge: an absent argument keeps the current value.
pub open spec fn merged_opt<T>(cur: Option<T>, arg: Option<T>) -> Option<T> {
    match arg {
        Option::None => cur,
        Option::Some(x) => Option::Some(x),
    }
}

/// `f` with its presentation attributes merged and its modification time
/// stamped.
pub open spec fn folder_with_meta(
    f: FolderView,
    color: Option<Seq<char>>,
    icon: Option<Seq<char>>,
    gradient: Option<Seq<char>>,
    cover_image: Option<Seq<char>>,
    emoji: Option<Seq<char>>,
    pattern: Option<Seq<char>>,
    show_badges: Option<bool>,
    tags: Option<Seq<Seq<char>>>,
    description: Option<Seq<char>>,
    view_mode: Option<Seq<char>>,
    now: int,
) -> FolderView {
    FolderView {
        color: merged_attr(f.color, color),
        icon: merged_attr(f.icon, icon),
        gradient: merged_attr(f.gradient, gradient),
        cover_image: merged_attr(f.cover_image, cover_image),
        emoji: merged_attr(f.emoji, emoji),
        pattern: merged_attr(f.pattern, pattern),
        show_badges: merged_opt(Option::Some(f.show_badges), show_badges).unwrap(),
        tags: merged_opt(f.tags, tags),
        description: merged_opt(f.description, description),
        view_mode: merged_opt(f.view_mode, view_mode),
        last_modified: now,
        ..f
    }
}

/// Saturating signed addition at the 64-bit bounds.
pub open spec fn sat_add_i64(a: int, b: int) -> int {
    if a + b > i64::MAX {
        i64::MAX as int
    } else if a + b < i64::MIN {
        i64::MIN as int
    } else {
        a + b
    }
}

/// The total size of the live files, summed left to right, each addition
/// saturating at the 64-bit bounds.
pub open spec fn spec_total_usage(files: Seq<FileView>) -> int
    decreases files.len(),
{
    if files.len() == 0 {
        0
    } else {
        let rest = spec_total_usage(files.drop_last());
        let f = files.last();
        if !f.trashed {
            sat_add_i64(rest, f.size)
        } else {
            rest
        }
    }
}

impl Database {
    /// Merges presentation attributes into the first folder carrying
    /// `id`, stamping `now` as its modification time; false when no
    /// folder does.
    #[verifier::rlimit(60)]
    pub fn update_folder_metadata_at(
        &mut self,
        id: &str,
        color: Option<String>,
        icon: Option<String>,
        gradient: Option<String>,
        cover_image: Option<String>,
        emoji: Option<String>,
        pattern: Option<String>,
        show_badges: Option<bool>,
        tags: Option<Vec<String>>,
        description: Option<String>,
        view_mode: Option<String>,
        now: i64,
    ) -> (r: bool)
        ensures
            r == has_folder(old(self)@.folders, id@),
            final(self)@.files == old(self)@.files,
            !r ==> final(self)@.folders == old(self)@.folders,
            forall|i: int|
                #[trigger] is_first_folder(old(self)@.folders, id@, i) ==> final(self)@.folders
                    == old(self)@.folders.update(
                    i,
                    folder_with_meta(
                        old(self)@.folders[i],
                        opt_str_view(color),
                        opt_str_view(icon),
                        opt_str_view(gradient),
                        opt_str_view(cover_image),
                        opt_str_view(emoji),
                        opt_str_view(pattern),
                        show_badges,
                        opt_tags_view(tags),
                        opt_str_view(description),
                        opt_str_view(view_mode),
                        now as int,
                    ),
                ),
    {
        match self.find_folder(id) {
            Option::Some(k) => {
                let mut f = self.folders[k].clone();
                if let Option::Some(c) = color {
                    f.color = if c.as_str().is_empty() {
                        Option::None
                    } else {
                        Option::Some(c)
                    };
                }
                if let Option::Some(c) = icon {
                    f.icon = if c.as_str().is_empty() {
                        Option::None
                    } else {
                        Option::Some(c)
                    };
                }
                if let Option::Some(c) = gradient {
                    f.gradient = if c.as_str().is_empty() {
                        Option::None
                    } else {
                        Option::Some(c)
                    };
                }
                if let Option::Some(c) = cover_image {
                    f.cover_image = if c.as_str().is_empty() {
                        Option::None
                    } else {
                        Option::Some(c)
                    };
                }
                if let Option::Some(c) = emoji {
                    f.emoji = if c.as_str().is_empty() {
                        Option::None
                    } else {
                        Option::Some(c)
                    };
                }
                if let Option::Some(c) = pattern {
                    f.pattern = if c.as_str().is_empty() {
                        Option::None
                    } else {
                        Option::Some(c)
                    };
                }
                if let Option::Some(b) = show_badges {
                    f.show_badges = b;
                }
                if let Option::Some(t) = tags {
                    f.tags = Option::Some(t);
                }
                if let Option::Some(d) = description {
                    f.description = Option::Some(d);
                }
                if let Option::Some(v) = view_mode {
                    f.view_mode = Option::Some(v);
                }
                f.last_modified = now;
                let ghost updated = f@;
                self.folders.set(k, f);
                proof {
                    assert(self@.folders =~= old(self)@.folders.update(k as int, updated));
                    assert forall|i: int| #[trigger] is_first_folder(old(self)@.folders, id@, i)
                        implies i == k by {
                        assert(folder_has_id(old(self)@.folders[i], id@));
                        assert(folder_has_id(old(self)@.folders[k as int], id@));
                    }
                }
                true
            },
            Option::None => false,
        }
    }

    /// Merges presentation attributes into the first folder carrying
    /// `id`, stamping the current clock reading; false when no folder
    /// does.
    pub fn update_folder_metadata(
        &mut self,
        id: &str,
        color: Option<String>,
        icon: Option<String>,
        gradient: Option<String>,
        cover_image: Option<String>,
        emoji: Option<String>,
        pattern: Option<String>,
        show_badges: Option<bool>,
        tags: Option<Vec<String>>,
        description: Option<String>,
        view_mode: Option<String>,
    ) -> (r: bool)
        ensures
            r == has_folder(old(self)@.folders, id@),
            final(self)@.files == old(self)@.files,
            !r ==> final(self)@.folders == old(self)@.folders,
            forall|i: int|
                #[trigger] is_first_folder(old(self)@.folders, id@, i) ==> exists|t: int|
                    final(self)@.folders == old(self)@.folders.update(
                        i,
                        #[trigger] folder_with_meta(
                            old(self)@.folders[i],
                            opt_str_view(color),
                            opt_str_view(icon),
                            opt_str_view(gradient),
                            opt_str_view(cover_image),
                            opt_str_view(emoji),
                            opt_str_view(pattern),
                            show_badges,
                            opt_tags_view(tags),
                            opt_str_view(description),
                            opt_str_view(view_mode),
                            t,
                        ),
                    ),
    {
        let now = now_unix_secs();
        let ghost c0 = opt_str_view(color);
        let ghost c1 = opt_str_view(icon);
        let ghost c2 = opt_str_view(gradient);
        let ghost c3 = opt_str_view(cover_image);
        let ghost c4 = opt_str_view(emoji);
        let ghost c5 = opt_str_view(pattern);
        let ghost c7 = opt_tags_view(tags);
        let ghost c8 = opt_str_view(description);
        let ghost c9 = opt_str_view(view_mode);
        let r = self.update_folder_metadata_at(
            id,
            color,
            icon,
            gradient,
            cover_image,
            emoji,
            pattern,
            show_badges,
            tags,
            description,
            view_mode,
            now,
        );
        proof {
            assert forall|i: int| #[trigger] is_first_folder(old(self)@.folders, id@, i)
                implies exists|t: int|
                    self@.folders == old(self)@.folders.update(
                        i,
                        #[trigger] folder_with_meta(
                            old(self)@.folders[i],
                            c0,
                            c1,
                            c2,
                            c3,
                            c4,
                            c5,
                            show_badges,
                            c7,
                            c8,
                            c9,
                            t,
                        ),
                    ) by {
                assert(self@.folders == old(self)@.folders.update(
                    i,
                    folder_with_meta(
                        old(self)@.folders[i],
                        c0,
                        c1,
                        c2,
                        c3,
                        c4,
                        c5,
                        show_badges,
                        c7,
                        c8,
                        c9,
                        now as int,
                    ),
                ));
            }
        }
        r
    }

    /// The saturating sum of the sizes of all live files.
    #[verifier::loop_isolation(false)]
    pub fn get_total_usage(&self) -> (r: i64)
        ensures
            r as int == spec_total_usage(self@.files),
    {
        let mut acc: i64 = 0;
        let mut k: usize = 0;
        while k < self.files.len()
            invariant
                k <= self.files.len(),
                acc as int == spec_total_usage(self@.files.take(k as int)),
            decreases self.files.len() - k,
        {
            proof {
                assert(self@.files[k as int] == self.files@[k as int]@);
                assert(self@.files.take(k + 1).drop_last() =~= self@.files.take(k as int));
                assert(self@.files.take(k + 1).last() == self@.files[k as int]);
            }
            let f = &self.files[k];
            if !f.trashed {
                acc = match acc.checked_add(f.size) {
                    Option::Some(v) => v,
                    Option::None => if f.size > 0 {
                        i64::MAX
                    } else {
                        i64::MIN
                    },
                };
            }
            k = k + 1;
        }
        proof {
            assert(self@.files.take(self@.files.len() as int) =~= self@.files);
        }
        acc
    }
}


/// Saturating signed addition at the 32-bit bounds.
pub open spec fn sat_add_i32(a: int, b: int) -> int {
    if a + b > i32::MAX {
        i32::MAX as int
    } else if a + b < i32::MIN {
        i32::MIN as int
    } else {
        a + b
    }
}

/// Size and item count contributed by the live files directly under the
/// folder identified by `fid`, summed left to right with saturating
/// additions.
pub open spec fn spec_file_stats(files: Seq<FileView>, fid: Seq<char>) -> (int, int)
    decreases files.len(),
{
    if files.len() == 0 {
        (0, 0)
    } else {
        let rest = spec_file_stats(files.drop_last(), fid);
        let f = files.last();
        if f.folder_id == Option::Some(fid) && !f.trashed {
            (sat_add_i64(rest.0, f.size), sat_add_i32(rest.1, 1))
        } else {
            rest
        }
    }
}

/// Recursive folder statistics: total bytes of live descendant files and
/// a count of live descendant files and folders, each subfolder counting
/// as one item itself. The recursion spends one unit of `fuel` per
/// descent and yields zero when the fuel is gone, so a caller passing
/// fuel beyond the tree's depth gets the full recursive sum.
pub open spec fn spec_folder_stats(db: DbView, fid: Seq<char>, fuel: nat) -> (int, int)
    decreases fuel, db.folders.len() + 1,
{
    if fuel == 0 {
        (0, 0)
    } else {
        spec_sub_stats(db, db.folders.len() as int, fid, fuel, spec_file_stats(db.files, fid))
    }
}

/// Folds the first `k` folder records into `acc`: each live subfolder of
/// `fid` adds its own recursive statistics and one item.
pub open spec fn spec_sub_stats(
    db: DbView,
    k: int,
    fid: Seq<char>,
    fuel: nat,
    acc: (int, int),
) -> (int, int)
    decreases fuel, k,
{
    if k <= 0 || fuel == 0 {
        acc
    } else {
        let prev = spec_sub_stats(db, k - 1, fid, fuel, acc);
        let g = db.folders[k - 1];
        if g.parent_id == Option::Some(fid) && !g.trashed {
            let child = spec_folder_stats(db, g.id, (fuel - 1) as nat);
            (
                sat_add_i64(prev.0, child.0),
                sat_add_i32(sat_add_i32(prev.1, child.1), 1),
            )
        } else {
            prev
        }
    }
}

impl Database {
    /// Recursive folder statistics with an explicit recursion budget; one
    /// unit of fuel is spent per descent.
    #[verifier::loop_isolation(false)]
    pub fn calculate_stats_recursive(&self, folder_id: &str, fuel: u128) -> (r: (i64, i32))
        ensures
            r.0 as int == spec_folder_stats(self@, folder_id@, fuel as nat).0,
            r.1 as int == spec_folder_stats(self@, folder_id@, fuel as nat).1,
        decreases fuel,
    {
        if fuel == 0 {
            return (0, 0);
        }
        let fid_s = folder_id.to_owned();
        let mut total_size: i64 = 0;
        let mut total_count: i32 = 0;
        let mut k: usize = 0;
        while k < self.files.len()
            invariant
                k <= self.files.len(),
                total_size as int == spec_file_stats(self@.files.take(k as int), folder_id@).0,
                total_count as int == spec_file_stats(self@.files.take(k as int), folder_id@).1,
            decreases self.files.len() - k,
        {
            proof {
                assert(self@.files[k as int] == self.files@[k as int]@);
                assert(self@.files.take(k + 1).drop_last() =~= self@.files.take(k as int));
                assert(self@.files.take(k + 1).last() == self@.files[k as int]);
            }
            let f = &self.files[k];
            let in_folder = match &f.folder_id {
                Option::Some(p) => *p == fid_s,
                Option::None => false,
            };
            if in_folder && !f.trashed {
                total_size = match total_size.checked_add(f.size) {
                    Option::Some(v) => v,
                    Option::None => if f.size > 0 {
                        i64::MAX
                    } else {
                        i64::MIN
                    },
                };
                total_count = match total_count.checked_add(1) {
                    Option::Some(v) => v,
                    Option::None => i32::MAX,
                };
            }
            k = k + 1;
        }
        proof {
            assert(self@.files.take(self@.files.len() as int) =~= self@.files);
        }
        let ghost base = spec_file_stats(self@.files, folder_id@);
        let mut m: usize = 0;
        while m < self.folders.len()
            invariant
                m <= self.folders.len(),
                total_size as int == spec_sub_stats(self@, m as int, folder_id@, fuel as nat, base).0,
                total_count as int == spec_sub_stats(self@, m as int, folder_id@, fuel as nat, base).1,
            decreases self.folders.len() - m,
        {
            proof {
                assert(self@.folders[m as int] == self.folders@[m as int]@);
            }
            let g = &self.folders[m];
            let is_child = match &g.parent_id {
                Option::Some(p) => *p == fid_s,
                Option::None => false,
            };
            if is_child && !g.trashed {
                let child = self.calculate_stats_recursive(g.id.as_str(), fuel - 1);
                total_size = match total_size.checked_add(child.0) {
                    Option::Some(v) => v,
                    Option::None => if child.0 > 0 {
                        i64::MAX
                    } else {
                        i64::MIN
                    },
                };
                let with_child = match total_count.checked_add(child.1) {
                    Option::Some(v) => v,
                    Option::None => if child.1 > 0 {
                        i32::MAX
                    } else {
                        i32::MIN
                    },
                };
                total_count = match with_child.checked_add(1) {
                    Option::Some(v) => v,
                    Option::None => i32::MAX,
                };
            }
            m = m + 1;
        }
        (total_size, total_count)
    }

    /// The recursive statistics of the folder identified by `folder_id`:
    /// total bytes of live descendant files, and a count of live
    /// descendant files and folders, each subfolder counting as one item.
    pub fn get_folder_stats(&self, folder_id: &str) -> (r: (i64, i32))
        ensures
            r.0 as int == spec_folder_stats(
                self@,
                folder_id@,
                (self@.folders.len() + 1) as nat,
            ).0,
            r.1 as int == spec_folder_stats(
                self@,
                folder_id@,
                (self@.folders.len() + 1) as nat,
            ).1,
    {
        let fuel: u128 = (self.folders.len() as u128) + 1;
        self.calculate_stats_recursive(folder_id, fuel)
    }
}


/// Some tag, case-folded, contains the case-folded query.
pub open spec fn tags_match(tags: Option<Seq<Seq<char>>>, q: Seq<char>) -> bool {
    match tags {
        Option::None => false,
        Option::Some(ts) => exists|i: int|
            0 <= i < ts.len() && #[trigger] spec_str_contains(lower_of(ts[i]), q),
    }
}

/// Live folders whose case-folded name contains the case-folded query
/// `q`, or one of whose case-folded tags does.
pub open spec fn folder_matches(q: Seq<char>) -> spec_fn(FolderView) -> bool {
    |f: FolderView| !f.trashed && (spec_str_contains(lower_of(f.name), q) || tags_match(f.tags, q))
}

/// Live files whose case-folded name contains the case-folded query `q`.
pub open spec fn file_matches(q: Seq<char>) -> spec_fn(FileView) -> bool {
    |f: FileView| !f.trashed && spec_str_contains(lower_of(f.name), q)
}

impl Database {
    /// Case-insensitive search: all live folders whose name or one of
    /// whose tags contains the query, and all live files whose name does.
    #[verifier::loop_isolation(false)]
    pub fn search_items(&self, query: &str) -> (r: (Vec<Folder>, Vec<FileMetadata>))
        ensures
            folders_view(r.0@) == self@.folders.filter(folder_matches(lower_of(query@))),
            files_view(r.1@) == self@.files.filter(file_matches(lower_of(query@))),
    {
        let query_lower = lowercase(query);
        let ghost q = lower_of(query@);
        let mut out_folders: Vec<Folder> = Vec::new();
        let mut k: usize = 0;
        while k < self.folders.len()
            invariant
                k <= self.folders.len(),
                folders_view(out_folders@) == self@.folders.take(k as int).filter(
                    folder_matches(q),
                ),
            decreases self.folders.len() - k,
        {
            proof {
                assert(self@.folders[k as int] == self.folders@[k as int]@);
                lemma_filter_take_step(self@.folders, folder_matches(q), k as int);
            }
            let f = &self.folders[k];
            let mut hit = false;
            if !f.trashed {
                let name_lower = lowercase(f.name.as_str());
                if str_contains(name_lower.as_str(), query_lower.as_str()) {
                    hit = true;
                }
                if !hit {
                    if let Option::Some(ts) = &f.tags {
                        let ghost tsv = ts@.map_values(|s: String| s@);
                        let mut j: usize = 0;
                        while j < ts.len()
                            invariant
                                j <= ts.len(),
                                !hit ==> forall|a: int|
                                    0 <= a < j ==> !#[trigger] spec_str_contains(
                                        lower_of(tsv[a]),
                                        q,
                                    ),
                                hit ==> tags_match(f@.tags, q),
                            decreases ts.len() - j,
                        {
                            if !hit {
                                let tag_lower = lowercase(ts[j].as_str());
                                if str_contains(tag_lower.as_str(), query_lower.as_str()) {
                                    hit = true;
                                    proof {
                                        assert(spec_str_contains(lower_of(tsv[j as int]), q));
                                        assert(f@.tags == Option::Some(tsv));
                                    }
                                }
                            }
                            j = j + 1;
                        }
                        proof {
                            if !hit {
                                assert(forall|a: int|
                                    0 <= a < tsv.len() ==> !#[trigger] spec_str_contains(
                                        lower_of(tsv[a]),
                                        q,
                                    ));
                                assert(!tags_match(f@.tags, q));
                            }
                        }
                    }
                }
            }
            proof {
                if f@.tags is None {
                    assert(!tags_match(f@.tags, q));
                }
            }
            if hit {
                out_folders.push(f.clone());
            }
            proof {
                assert(folders_view(out_folders@) =~= self@.folders.take(k + 1).filter(
                    folder_matches(q),
                ));
            }
            k = k + 1;
        }
        proof {
            lemma_filter_take_all(self@.folders, folder_matches(q));
        }
        let mut out_files: Vec<FileMetadata> = Vec::new();
        let mut m: usize = 0;
        while m < self.files.len()
            invariant
                m <= self.files.len(),
                files_view(out_files@) == self@.files.take(m as int).filter(file_matches(q)),
            decreases self.files.len() - m,
        {
            proof {
                assert(self@.files[m as int] == self.files@[m as int]@);
                lemma_filter_take_step(self@.files, file_matches(q), m as int);
            }
            let f = &self.files[m];
            if !f.trashed {
                let name_lower = lowercase(f.name.as_str());
                if str_contains(name_lower.as_str(), query_lower.as_str()) {
                    out_files.push(f.clone());
                }
            }
            proof {
                assert(files_view(out_files@) =~= self@.files.take(m + 1).filter(file_matches(q)));
            }
            m = m + 1;
        }
        proof {
            lemma_filter_take_all(self@.files, file_matches(q));
        }
        (out_folders, out_files)
    }
}


/// A trash timestamp, with zero for an unset one.
pub open spec fn trashed_at_or_zero(o: Option<int>) -> int {
    match o {
        Option::None => 0,
        Option::Some(t) => t,
    }
}

/// Soft-deleted files whose trash timestamp lies before `limit`.
pub open spec fn expired_file(limit: int) -> spec_fn(FileView) -> bool {
    |f: FileView| f.trashed && trashed_at_or_zero(f.trashed_at) < limit
}

/// Files that are not soft-deleted-and-expired.
pub open spec fn not_expired_file(limit: int) -> spec_fn(FileView) -> bool {
    |f: FileView| !(f.trashed && trashed_at_or_zero(f.trashed_at) < limit)
}

/// Soft-deleted folders whose trash timestamp lies before `limit`.
pub open spec fn expired_folder(limit: int) -> spec_fn(FolderView) -> bool {
    |f: FolderView| f.trashed && trashed_at_or_zero(f.trashed_at) < limit
}

/// Folders that are not soft-deleted-and-expired.
pub open spec fn not_expired_folder(limit: int) -> spec_fn(FolderView) -> bool {
    |f: FolderView| !(f.trashed && trashed_at_or_zero(f.trashed_at) < limit)
}

/// Walks the removed folders in order; each takes from the file
/// collection every file parented directly under it. Yields the files
/// collected, in order, and the files that remain.
pub open spec fn sweep_children(rm: Seq<FolderView>, files: Seq<FileView>) -> (
    Seq<FileView>,
    Seq<FileView>,
)
    decreases rm.len(),
{
    if rm.len() == 0 {
        (Seq::empty(), files)
    } else {
        let fid = rm[0].id;
        let taken = files.filter(file_in_folder(fid));
        let rest = files.filter(file_not_in_folder(fid));
        let sub = sweep_children(rm.drop_first(), rest);
        (taken + sub.0, sub.1)
    }
}

/// A filtered sequence only holds elements of the original.
pub proof fn lemma_filter_member<A>(s: Seq<A>, pred: spec_fn(A) -> bool, x: A)
    requires
        s.filter(pred).contains(x),
    ensures
        s.contains(x),
    decreases s.len(),
{
    reveal(Seq::filter);
    if s.len() > 0 {
        let f = s.filter(pred);
        if x == s.last() {
            assert(s[s.len() - 1] == x);
        } else {
            let sub = s.drop_last().filter(pred);
            assert(sub.contains(x)) by {
                let k = choose|k: int| 0 <= k < f.len() && f[k] == x;
                if pred(s.last()) {
                    assert(f == sub.push(s.last()));
                    assert(k < sub.len());
                    assert(sub[k] == x);
                } else {
                    assert(f == sub);
                }
            }
            lemma_filter_member(s.drop_last(), pred, x);
            let k = choose|k: int| 0 <= k < s.drop_last().len() && s.drop_last()[k] == x;
            assert(s[k] == x);
        }
    }
}

/// Appending one more removed folder sweeps it against what remained.
pub proof fn lemma_sweep_push(rm: Seq<FolderView>, x: FolderView, files: Seq<FileView>)
    ensures
        ({
            let sub = sweep_children(rm, files);
            sweep_children(rm.push(x), files) == (
                sub.0 + sub.1.filter(file_in_folder(x.id)),
                sub.1.filter(file_not_in_folder(x.id)),
            )
        }),
    decreases rm.len(),
{
    if rm.len() == 0 {
        assert(rm.push(x).drop_first() =~= rm);
        assert(rm.push(x)[0] == x);
        let taken = files.filter(file_in_folder(x.id));
        let rest = files.filter(file_not_in_folder(x.id));
        assert(sweep_children(rm, rest) == (Seq::<FileView>::empty(), rest));
        assert(sweep_children(rm.push(x), files) == (
            taken + sweep_children(rm.push(x).drop_first(), rest).0,
            sweep_children(rm.push(x).drop_first(), rest).1,
        ));
        assert(taken + Seq::<FileView>::empty() =~= taken);
        assert(Seq::<FileView>::empty() + taken =~= taken);
        assert(sweep_children(rm, files) == (Seq::<FileView>::empty(), files));
    } else {
        assert(rm.push(x).drop_first() =~= rm.drop_first().push(x));
        assert(rm.push(x)[0] == rm[0]);
        let rest0 = files.filter(file_not_in_folder(rm[0].id));
        lemma_sweep_push(rm.drop_first(), x, rest0);
        let sub = sweep_children(rm.drop_first(), rest0);
        let taken0 = files.filter(file_in_folder(rm[0].id));
        assert(taken0 + (sub.0 + sub.1.filter(file_in_folder(x.id))) =~= (taken0 + sub.0)
            + sub.1.filter(file_in_folder(x.id)));
    }
}

/// Sweeping never reintroduces files under an identifier that the file
/// collection already excludes.
pub proof fn lemma_sweep_preserves_exclusion(
    rm: Seq<FolderView>,
    files: Seq<FileView>,
    fid: Seq<char>,
)
    requires
        forall|k: int| 0 <= k < files.len() ==> (#[trigger] files[k]).folder_id != Option::Some(fid),
    ensures
        forall|k: int|
            0 <= k < sweep_children(rm, files).1.len() ==> (#[trigger] sweep_children(
                rm,
                files,
            ).1[k]).folder_id != Option::Some(fid),
    decreases rm.len(),
{
    broadcast use vstd::seq_lib::group_filter_ensures;

    if rm.len() == 0 {
    } else {
        let rest = files.filter(file_not_in_folder(rm[0].id));
        assert forall|k: int| 0 <= k < rest.len() implies (#[trigger] rest[k]).folder_id
            != Option::Some(fid) by {
            assert(rest.contains(rest[k]));
            lemma_filter_member(files, file_not_in_folder(rm[0].id), rest[k]);
            let j = choose|j: int| 0 <= j < files.len() && files[j] == rest[k];
            assert(files[j].folder_id != Option::Some(fid));
        }
        lemma_sweep_preserves_exclusion(rm.drop_first(), rest, fid);
    }
}

/// After the folders listed in `rm` are swept, no file parented under
/// any of them remains.
pub proof fn lemma_sweep_excludes(rm: Seq<FolderView>, files: Seq<FileView>, j: int)
    requires
        0 <= j < rm.len(),
    ensures
        forall|k: int|
            0 <= k < sweep_children(rm, files).1.len() ==> (#[trigger] sweep_children(
                rm,
                files,
            ).1[k]).folder_id != Option::Some(rm[j].id),
    decreases rm.len(),
{
    broadcast use vstd::seq_lib::group_filter_ensures;

    let rest = files.filter(file_not_in_folder(rm[0].id));
    if j == 0 {
        assert forall|k: int| 0 <= k < rest.len() implies (#[trigger] rest[k]).folder_id
            != Option::Some(rm[0].id) by {
            assert(file_not_in_folder(rm[0].id)(rest[k]));
        }
        lemma_sweep_preserves_exclusion(rm.drop_first(), rest, rm[0].id);
    } else {
        lemma_sweep_excludes(rm.drop_first(), rest, j - 1);
        assert(rm.drop_first()[j - 1] == rm[j]);
    }
}

/// Law: the sweep cascades — a soft-deleted folder whose trash timestamp
/// lies before the cutoff is removed together with every file parented
/// directly under it, even files never themselves marked trashed.
pub proof fn lemma_sweep_cascades(db: DbView, limit: int, i: int)
    requires
        0 <= i < db.folders.len(),
        db.folders[i].trashed,
        trashed_at_or_zero(db.folders[i].trashed_at) < limit,
    ensures
        ({
            let rm = db.folders.filter(expired_folder(limit));
            let files1 = db.files.filter(not_expired_file(limit));
            let remaining = sweep_children(rm, files1).1;
            let kept_folders = db.folders.filter(not_expired_folder(limit));
            &&& forall|k: int|
                0 <= k < remaining.len() ==> (#[trigger] remaining[k]).folder_id != Option::Some(
                    db.folders[i].id,
                )
            &&& forall|k: int| 0 <= k < kept_folders.len() ==> !(#[trigger] kept_folders[k]).trashed
                || trashed_at_or_zero(kept_folders[k].trashed_at) >= limit
        }),
{
    broadcast use vstd::seq_lib::group_filter_ensures;

    let rm = db.folders.filter(expired_folder(limit));
    let files1 = db.files.filter(not_expired_file(limit));
    assert(expired_folder(limit)(db.folders[i]));
    assert(rm.contains(db.folders[i]));
    let j = choose|j: int| 0 <= j < rm.len() && rm[j] == db.folders[i];
    lemma_sweep_excludes(rm, files1, j);
    let kept_folders = db.folders.filter(not_expired_folder(limit));
    assert forall|k: int| 0 <= k < kept_folders.len() implies !(#[trigger] kept_folders[k]).trashed
        || trashed_at_or_zero(kept_folders[k].trashed_at) >= limit by {
        assert(not_expired_folder(limit)(kept_folders[k]));
    }
}

impl Database {
    /// Sweeps the trash against the cutoff `now - days * 86400`:
    /// permanently removes every soft-deleted record whose trash
    /// timestamp lies strictly before the cutoff, and, for each such
    /// folder in record order, also removes every file parented directly
    /// under it. Returns the removed files — the expired ones first, then
    /// each swept folder's children — so the caller can release their
    /// backend objects.
    #[verifier::loop_isolation(false)]
    #[verifier::rlimit(60)]
    pub fn cleanup_trash_at(&mut self, days: i64, now: i64) -> (r: Vec<FileMetadata>)
        ensures
            ({
                let limit = now as int - days as int * 86400;
                let rm = old(self)@.folders.filter(expired_folder(limit));
                let deleted1 = old(self)@.files.filter(expired_file(limit));
                let files1 = old(self)@.files.filter(not_expired_file(limit));
                let swept = sweep_children(rm, files1);
                &&& files_view(r@) == deleted1 + swept.0
                &&& final(self)@.files == swept.1
                &&& final(self)@.folders == old(self)@.folders.filter(not_expired_folder(limit))
            }),
    {
        let limit: i128 = now as i128 - (days as i128) * 86400;
        let ghost glimit: int = now as int - days as int * 86400;
        let mut deleted: Vec<FileMetadata> = Vec::new();
        let mut kept: Vec<FileMetadata> = Vec::new();
        let mut k: usize = 0;
        while k < self.files.len()
            invariant
                k <= self.files.len(),
                files_view(deleted@) == self@.files.take(k as int).filter(expired_file(glimit)),
                files_view(kept@) == self@.files.take(k as int).filter(not_expired_file(glimit)),
            decreases self.files.len() - k,
        {
            proof {
                assert(self@.files[k as int] == self.files@[k as int]@);
                lemma_filter_take_step(self@.files, expired_file(glimit), k as int);
                lemma_filter_take_step(self@.files, not_expired_file(glimit), k as int);
            }
            let f = &self.files[k];
            let ts: i64 = match f.trashed_at {
                Option::Some(t) => t,
                Option::None => 0,
            };
            if f.trashed && (ts as i128) < limit {
                deleted.push(f.clone());
            } else {
                kept.push(f.clone());
            }
            proof {
                assert(files_view(deleted@) =~= self@.files.take(k + 1).filter(
                    expired_file(glimit),
                ));
                assert(files_view(kept@) =~= self@.files.take(k + 1).filter(
                    not_expired_file(glimit),
                ));
            }
            k = k + 1;
        }
        proof {
            lemma_filter_take_all(self@.files, expired_file(glimit));
            lemma_filter_take_all(self@.files, not_expired_file(glimit));
        }
        self.files = kept;
        let ghost files1 = self@.files;

        let mut rm_folders: Vec<Folder> = Vec::new();
        let mut kept_folders: Vec<Folder> = Vec::new();
        let mut m: usize = 0;
        while m < self.folders.len()
            invariant
                m <= self.folders.len(),
                folders_view(rm_folders@) == self@.folders.take(m as int).filter(
                    expired_folder(glimit),
                ),
                folders_view(kept_folders@) == self@.folders.take(m as int).filter(
                    not_expired_folder(glimit),
                ),
            decreases self.folders.len() - m,
        {
            proof {
                assert(self@.folders[m as int] == self.folders@[m as int]@);
                lemma_filter_take_step(self@.folders, expired_folder(glimit), m as int);
                lemma_filter_take_step(self@.folders, not_expired_folder(glimit), m as int);
            }
            let g = &self.folders[m];
            let ts: i64 = match g.trashed_at {
                Option::Some(t) => t,
                Option::None => 0,
            };
            if g.trashed && (ts as i128) < limit {
                rm_folders.push(g.clone());
            } else {
                kept_folders.push(g.clone());
            }
            proof {
                assert(folders_view(rm_folders@) =~= self@.folders.take(m + 1).filter(
                    expired_folder(glimit),
                ));
                assert(folders_view(kept_folders@) =~= self@.folders.take(m + 1).filter(
                    not_expired_folder(glimit),
                ));
            }
            m = m + 1;
        }
        proof {
            lemma_filter_take_all(self@.folders, expired_folder(glimit));
            lemma_filter_take_all(self@.folders, not_expired_folder(glimit));
        }
        self.folders = kept_folders;
        let ghost rm = folders_view(rm_folders@);

        let mut w: usize = 0;
        while w < rm_folders.len()
            invariant
                w <= rm_folders.len(),
                rm == folders_view(rm_folders@),
                files_view(deleted@) == old(self)@.files.filter(expired_file(glimit))
                    + sweep_children(rm.take(w as int), files1).0,
                self@.files == sweep_children(rm.take(w as int), files1).1,
                self@.folders == old(self)@.folders.filter(not_expired_folder(glimit)),
            decreases rm_folders.len() - w,
        {
            proof {
                assert(rm[w as int] == rm_folders@[w as int]@);
            }
            let fid = rm_folders[w].id.clone();
            let ghost fidv = rm[w as int].id;
            let mut taken: Vec<FileMetadata> = Vec::new();
            let mut rest: Vec<FileMetadata> = Vec::new();
            let ghost cur = self@.files;
            let mut a: usize = 0;
            while a < self.files.len()
                invariant
                    a <= self.files.len(),
                    cur == self@.files,
                    fidv == fid@,
                    files_view(taken@) == cur.take(a as int).filter(file_in_folder(fidv)),
                    files_view(rest@) == cur.take(a as int).filter(file_not_in_folder(fidv)),
                decreases self.files.len() - a,
            {
                proof {
                    assert(self@.files[a as int] == self.files@[a as int]@);
                    lemma_filter_take_step(cur, file_in_folder(fidv), a as int);
                    lemma_filter_take_step(cur, file_not_in_folder(fidv), a as int);
                }
                let f = &self.files[a];
                let in_folder = match &f.folder_id {
                    Option::Some(p) => *p == fid,
                    Option::None => false,
                };
                if in_folder {
                    taken.push(f.clone());
                } else {
                    rest.push(f.clone());
                }
                proof {
                    assert(files_view(taken@) =~= cur.take(a + 1).filter(file_in_folder(fidv)));
                    assert(files_view(rest@) =~= cur.take(a + 1).filter(
                        file_not_in_folder(fidv),
                    ));
                }
                a = a + 1;
            }
            proof {
                lemma_filter_take_all(cur, file_in_folder(fidv));
                lemma_filter_take_all(cur, file_not_in_folder(fidv));
            }
            let ghost dpre = deleted@;
            let ghost tpre = taken@;
            deleted.append(&mut taken);
            self.files = rest;
            proof {
                lemma_sweep_push(rm.take(w as int), rm[w as int], files1);
                assert(rm.take(w as int).push(rm[w as int]) =~= rm.take(w + 1));
                assert(files_view(deleted@) =~= files_view(dpre) + files_view(tpre));
                let d1 = old(self)@.files.filter(expired_file(glimit));
                let s0 = sweep_children(rm.take(w as int), files1).0;
                assert(files_view(tpre) == cur.filter(file_in_folder(fidv)));
                assert((d1 + s0) + cur.filter(file_in_folder(fidv)) =~= d1 + (s0 + cur.filter(
                    file_in_folder(fidv),
                )));
                assert(files_view(deleted@) =~= d1 + sweep_children(rm.take(w + 1), files1).0);
            }
            w = w + 1;
        }
        proof {
            assert(rm.take(rm.len() as int) =~= rm);
        }
        deleted
    }

    /// Sweeps the trash against a cutoff of `days` days before the
    /// current clock reading. Returns the removed files.
    pub fn cleanup_trash(&mut self, days: i64) -> (r: Vec<FileMetadata>)
        ensures
            exists|now: int|
                #![trigger expired_folder(now - days as int * 86400)]
                {
                    let limit = now - days as int * 86400;
                    let rm = old(self)@.folders.filter(expired_folder(limit));
                    let deleted1 = old(self)@.files.filter(expired_file(limit));
                    let files1 = old(self)@.files.filter(not_expired_file(limit));
                    let swept = sweep_children(rm, files1);
                    &&& files_view(r@) == deleted1 + swept.0
                    &&& final(self)@.files == swept.1
                    &&& final(self)@.folders == old(self)@.folders.filter(
                        not_expired_folder(limit),
                    )
                },
    {
        let now = now_unix_secs();
        let r = self.cleanup_trash_at(days, now);
        proof {
            let limit = now as int - days as int * 86400;
            assert(expired_folder(limit) == expired_folder((now as int) - days as int * 86400));
        }
        r
    }
}


/// `i` is the least index of a live folder named `name` under `parent`.
pub open spec fn is_first_folder_child(
    s: Seq<FolderView>,
    parent: Option<Seq<char>>,
    name: Seq<char>,
    i: int,
) -> bool {
    0 <= i < s.len() && folder_takes_name(s[i], parent, name) && (forall|j: int|
        0 <= j < i ==> !#[trigger] folder_takes_name(s[j], parent, name))
}

/// `i` is the least index of a live file named `name` under `parent`.
pub open spec fn is_first_file_child(
    s: Seq<FileView>,
    parent: Option<Seq<char>>,
    name: Seq<char>,
    i: int,
) -> bool {
    0 <= i < s.len() && file_takes_name(s[i], parent, name) && (forall|j: int|
        0 <= j < i ==> !#[trigger] file_takes_name(s[j], parent, name))
}

impl Database {
    /// The identifier of the first live folder named `name` directly
    /// under `parent`, if any.
    #[verifier::loop_isolation(false)]
    pub fn find_folder_child(&self, parent: Option<&String>, name: &String) -> (r: Option<String>)
        ensures
            match r {
                Option::Some(id) => exists|i: int|
                    #[trigger] is_first_folder_child(
                        self@.folders,
                        opt_ref_view(parent),
                        name@,
                        i,
                    ) && id@ == self@.folders[i].id,
                Option::None => !folder_name_taken(self@.folders, opt_ref_view(parent), name@),
            },
    {
        let ghost p = opt_ref_view(parent);
        let mut k: usize = 0;
        while k < self.folders.len()
            invariant
                k <= self.folders.len(),
                forall|j: int|
                    0 <= j < k ==> !#[trigger] folder_takes_name(self@.folders[j], p, name@),
            decreases self.folders.len() - k,
        {
            proof {
                assert(self@.folders[k as int] == self.folders@[k as int]@);
            }
            let f = &self.folders[k];
            if !f.trashed && opt_id_eq(&f.parent_id, parent) && f.name == *name {
                proof {
                    assert(is_first_folder_child(self@.folders, p, name@, k as int));
                }
                return Option::Some(f.id.clone());
            }
            proof {
                assert(!folder_takes_name(self@.folders[k as int], p, name@));
            }
            k = k + 1;
        }
        Option::None
    }

    /// The identifier of the first live file named `name` directly under
    /// `parent`, if any.
    #[verifier::loop_isolation(false)]
    pub fn find_file_child(&self, parent: Option<&String>, name: &String) -> (r: Option<String>)
        ensures
            match r {
                Option::Some(id) => exists|i: int|
                    #[trigger] is_first_file_child(self@.files, opt_ref_view(parent), name@, i)
                        && id@ == self@.files[i].id,
                Option::None => !file_name_taken(self@.files, opt_ref_view(parent), name@),
            },
    {
        let ghost p = opt_ref_view(parent);
        let mut k: usize = 0;
        while k < self.files.len()
            invariant
                k <= self.files.len(),
                forall|j: int| 0 <= j < k ==> !#[trigger] file_takes_name(self@.files[j], p, name@),
            decreases self.files.len() - k,
        {
            proof {
                assert(self@.files[k as int] == self.files@[k as int]@);
            }
            let f = &self.files[k];
            if !f.trashed && opt_id_eq(&f.folder_id, parent) && f.name == *name {
                proof {
                    assert(is_first_file_child(self@.files, p, name@, k as int));
                }
                return Option::Some(f.id.clone());
            }
            proof {
                assert(!file_takes_name(self@.files[k as int], p, name@));
            }
            k = k + 1;
        }
        Option::None
    }
}


/// Live files named `name` directly under `parent`.
pub open spec fn file_named(parent: Option<Seq<char>>, name: Seq<char>) -> spec_fn(
    FileView,
) -> bool {
    |f: FileView| file_takes_name(f, parent, name)
}

/// The identifiers of the live files named `name` under `parent`, in
/// record order.
pub open spec fn live_named_ids(
    files: Seq<FileView>,
    parent: Option<Seq<char>>,
    name: Seq<char>,
) -> Seq<Seq<char>> {
    files.filter(file_named(parent, name)).map_values(|f: FileView| f.id)
}

impl Database {
    /// The identifiers of the live files named `name` directly under
    /// `parent`, in record order.
    #[verifier::loop_isolation(false)]
    pub fn live_child_file_ids(&self, parent: Option<&String>, name: &String) -> (r: Vec<String>)
        ensures
            ids_view(r@) == live_named_ids(self@.files, opt_ref_view(parent), name@),
    {
        let ghost p = opt_ref_view(parent);
        let mut out: Vec<String> = Vec::new();
        let mut k: usize = 0;
        while k < self.files.len()
            invariant
                k <= self.files.len(),
                out@.len() == self@.files.take(k as int).filter(file_named(p, name@)).len(),
                forall|i: int|
                    0 <= i < out@.len() ==> #[trigger] out@[i]@ == self@.files.take(
                        k as int,
                    ).filter(file_named(p, name@))[i].id,
            decreases self.files.len() - k,
        {
            proof {
                assert(self@.files[k as int] == self.files@[k as int]@);
                lemma_filter_take_step(self@.files, file_named(p, name@), k as int);
            }
            let f = &self.files[k];
            if !f.trashed && opt_id_eq(&f.folder_id, parent) && f.name == *name {
                out.push(f.id.clone());
                proof {
                    assert(file_named(p, name@)(self@.files[k as int]));
                    assert(self@.files.take(k + 1).filter(file_named(p, name@))
                        == self@.files.take(k as int).filter(file_named(p, name@)).push(
                        self@.files[k as int],
                    ));
                }
            } else {
                proof {
                    assert(!file_named(p, name@)(self@.files[k as int]));
                }
            }
            k = k + 1;
        }
        proof {
            assert(self@.files.take(self@.files.len() as int) =~= self@.files);
            assert(ids_view(out@) =~= live_named_ids(self@.files, p, name@));
        }
        out
    }
}

} // verus!
