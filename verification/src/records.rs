//! The two record kinds of the metadata index: folders and files.
//!
//! Each record references its parent by identifier (`None` meaning the
//! implicit root), carries a soft-delete (trash) flag with its timestamp,
//! and — for folders — a bag of presentation attributes.

use vstd::prelude::*;

verus! {

/// A file whose backend reference is this value is a zero-byte synthetic
/// file with no remote object behind it.
pub const SYNTHETIC_MESSAGE_ID: i32 = -1;

/// Mathematical model of a [`Folder`].
pub struct FolderView {
    pub id: Seq<char>,
    pub parent_id: Option<Seq<char>>,
    pub name: Seq<char>,
    pub created_at: int,
    pub trashed: bool,
    pub trashed_at: Option<int>,
    pub is_starred: bool,
    pub color: Option<Seq<char>>,
    pub icon: Option<Seq<char>>,
    pub gradient: Option<Seq<char>>,
    pub cover_image: Option<Seq<char>>,
    pub emoji: Option<Seq<char>>,
    pub pattern: Option<Seq<char>>,
    pub show_badges: bool,
    pub tags: Option<Seq<Seq<char>>>,
    pub description: Option<Seq<char>>,
    pub view_mode: Option<Seq<char>>,
    pub last_modified: int,
}

/// A folder of the metadata index.
pub struct Folder {
    pub id: String,
    pub parent_id: Option<String>,
    pub name: String,
    pub created_at: i64,
    pub trashed: bool,
    pub trashed_at: Option<i64>,
    pub is_starred: bool,
    pub color: Option<String>,
    pub icon: Option<String>,
    pub gradient: Option<String>,
    pub cover_image: Option<String>,
    pub emoji: Option<String>,
    pub pattern: Option<String>,
    pub show_badges: bool,
    pub tags: Option<Vec<String>>,
    pub description: Option<String>,
    pub view_mode: Option<String>,
    pub last_modified: i64,
}

/// Mathematical model of a [`FileMetadata`].
pub struct FileView {
    pub id: Seq<char>,
    pub folder_id: Option<Seq<char>>,
    pub name: Seq<char>,
    pub size: int,
    pub mime_type: Seq<char>,
    pub message_id: int,
    pub created_at: int,
    pub trashed: bool,
    pub trashed_at: Option<int>,
    pub is_starred: bool,
    pub thumbnail: Option<Seq<char>>,
}

/// A file of the metadata index: a name bound to one remote object.
pub struct FileMetadata {
    pub id: String,
    pub folder_id: Option<String>,
    pub name: String,
    pub size: i64,
    pub mime_type: String,
    pub message_id: i32,
    pub created_at: i64,
    pub trashed: bool,
    pub trashed_at: Option<i64>,
    pub is_starred: bool,
    pub thumbnail: Option<String>,
}

/// The view of an optional owned string.
pub open spec fn opt_str_view(o: Option<String>) -> Option<Seq<char>> {
    match o {
        Option::None => Option::None,
        Option::Some(s) => Option::Some(s@),
    }
}

/// The view of an optional machine integer.
pub open spec fn opt_i64_view(o: Option<i64>) -> Option<int> {
    match o {
        Option::None => Option::None,
        Option::Some(n) => Option::Some(n as int),
    }
}

/// The view of an optional tag list.
pub open spec fn opt_tags_view(o: Option<Vec<String>>) -> Option<Seq<Seq<char>>> {
    match o {
        Option::None => Option::None,
        Option::Some(v) => Option::Some(v@.map_values(|s: String| s@)),
    }
}

impl View for Folder {
    type V = FolderView;

    open spec fn view(&self) -> FolderView {
        FolderView {
            id: self.id@,
            parent_id: opt_str_view(self.parent_id),
            name: self.name@,
            created_at: self.created_at as int,
            trashed: self.trashed,
            trashed_at: opt_i64_view(self.trashed_at),
            is_starred: self.is_starred,
            color: opt_str_view(self.color),
            icon: opt_str_view(self.icon),
            gradient: opt_str_view(self.gradient),
            cover_image: opt_str_view(self.cover_image),
            emoji: opt_str_view(self.emoji),
            pattern: opt_str_view(self.pattern),
            show_badges: self.show_badges,
            tags: opt_tags_view(self.tags),
            description: opt_str_view(self.description),
            view_mode: opt_str_view(self.view_mode),
            last_modified: self.last_modified as int,
        }
    }
}

impl View for FileMetadata {
    type V = FileView;

    open spec fn view(&self) -> FileView {
        FileView {
            id: self.id@,
            folder_id: opt_str_view(self.folder_id),
            name: self.name@,
            size: self.size as int,
            mime_type: self.mime_type@,
            message_id: self.message_id as int,
            created_at: self.created_at as int,
            trashed: self.trashed,
            trashed_at: opt_i64_view(self.trashed_at),
            is_starred: self.is_starred,
            thumbnail: opt_str_view(self.thumbnail),
        }
    }
}

/// Clones an optional string, keeping its view.
pub fn clone_opt_string(o: &Option<String>) -> (r: Option<String>)
    ensures
        opt_str_view(r) == opt_str_view(*o),
{
    match o {
        Option::None => Option::None,
        Option::Some(s) => Option::Some(s.clone()),
    }
}

/// Clones a tag list, keeping its view.
#[verifier::loop_isolation(false)]
pub fn clone_tags(v: &Vec<String>) -> (r: Vec<String>)
    ensures
        r@.map_values(|s: String| s@) == v@.map_values(|s: String| s@),
{
    let mut out: Vec<String> = Vec::new();
    let mut i: usize = 0;
    while i < v.len()
        invariant
            i <= v.len(),
            out@.map_values(|s: String| s@) =~= v@.subrange(0, i as int).map_values(|s: String| s@),
        decreases v.len() - i,
    {
        out.push(v[i].clone());
        proof {
            assert(v@.subrange(0, i + 1).map_values(|s: String| s@)
                =~= v@.subrange(0, i as int).map_values(|s: String| s@).push(v@[i as int]@));
        }
        i = i + 1;
    }
    proof {
        assert(v@.subrange(0, v@.len() as int) =~= v@);
    }
    out
}

/// Clones an optional tag list, keeping its view.
pub fn clone_opt_tags(o: &Option<Vec<String>>) -> (r: Option<Vec<String>>)
    ensures
        opt_tags_view(r) == opt_tags_view(*o),
{
    match o {
        Option::None => Option::None,
        Option::Some(v) => Option::Some(clone_tags(v)),
    }
}

impl Clone for Folder {
    /// A clone carries the same view.
    fn clone(&self) -> (r: Self)
        ensures
            r@ == self@,
    {
        let r = Folder {
            id: self.id.clone(),
            parent_id: clone_opt_string(&self.parent_id),
            name: self.name.clone(),
            created_at: self.created_at,
            trashed: self.trashed,
            trashed_at: self.trashed_at,
            is_starred: self.is_starred,
            color: clone_opt_string(&self.color),
            icon: clone_opt_string(&self.icon),
            gradient: clone_opt_string(&self.gradient),
            cover_image: clone_opt_string(&self.cover_image),
            emoji: clone_opt_string(&self.emoji),
            pattern: clone_opt_string(&self.pattern),
            show_badges: self.show_badges,
            tags: clone_opt_tags(&self.tags),
            description: clone_opt_string(&self.description),
            view_mode: clone_opt_string(&self.view_mode),
            last_modified: self.last_modified,
        };
        r
    }
}

impl Clone for FileMetadata {
    /// A clone carries the same view.
    fn clone(&self) -> (r: Self)
        ensures
            r@ == self@,
    {
        let r = FileMetadata {
            id: self.id.clone(),
            folder_id: clone_opt_string(&self.folder_id),
            name: self.name.clone(),
            size: self.size,
            mime_type: self.mime_type.clone(),
            message_id: self.message_id,
            created_at: self.created_at,
            trashed: self.trashed,
            trashed_at: self.trashed_at,
            is_starred: self.is_starred,
            thumbnail: clone_opt_string(&self.thumbnail),
        };
        r
    }
}

} // verus!
