//! The path resolver: walks a slash-delimited path one segment at a time
//! against the metadata index, yielding an identifier and a folder/file
//! discriminator, or a not-found outcome.

use vstd::prelude::*;

use crate::store::{
    file_name_taken, folder_name_taken, ids_view, is_first_file_child, is_first_folder_child,
    opt_ref_view, Database, DbView,
};
use crate::records::opt_str_view;

verus! {

use vstd::string::StrSliceExecFns;

/// The outcomes a filesystem verb can fail with.
#[derive(Clone, Copy, Debug, PartialEq, Eq, Structural)]
pub enum FsError {
    /// The path or identifier does not resolve.
    NotFound,
    /// The operation is not valid for what the path resolved to.
    Forbidden,
    /// A node already exists at the target path.
    Exists,
    /// The operation itself is not offered.
    NotImplemented,
    /// Any other failure.
    GeneralFailure,
}

/// The index just past the end of the path segment starting at `i`: the
/// position of the next slash, or the end of the path.
pub open spec fn seg_end(p: Seq<char>, i: int) -> int
    decreases p.len() - i,
{
    if i < 0 || i >= p.len() {
        p.len() as int
    } else if p[i] == '/' {
        i
    } else {
        seg_end(p, i + 1)
    }
}

/// The segment end never lies before its start, nor past the path's end.
pub proof fn lemma_seg_end_bounds(p: Seq<char>, i: int)
    requires
        0 <= i <= p.len(),
    ensures
        i <= seg_end(p, i) <= p.len(),
    decreases p.len() - i,
{
    if i < p.len() && p[i] != '/' {
        lemma_seg_end_bounds(p, i + 1);
    }
}

/// A scan that stopped at `j` found the segment end: every character
/// before it is a non-slash and `j` is a slash or the path's end.
pub proof fn lemma_seg_end_agrees(p: Seq<char>, i: int, j: int)
    requires
        0 <= i <= j <= p.len(),
        forall|a: int| i <= a < j ==> p[a] != '/',
        j == p.len() || p[j] == '/',
    ensures
        seg_end(p, i) == j,
    decreases j - i,
{
    if i < j {
        lemma_seg_end_agrees(p, i + 1, j);
    }
}

/// The slash-delimited segments of the path from position `i` on, empty
/// segments dropped.
pub open spec fn spec_segments_from(p: Seq<char>, i: int) -> Seq<Seq<char>>
    decreases p.len() - i, p.len() - i + 1
        via spec_segments_from_decreases
{
    if i < 0 || i >= p.len() {
        Seq::empty()
    } else if p[i] == '/' {
        spec_segments_from(p, i + 1)
    } else {
        seq![p.subrange(i, seg_end(p, i))] + spec_segments_from(p, seg_end(p, i))
    }
}

#[via_fn]
proof fn spec_segments_from_decreases(p: Seq<char>, i: int) {
    if 0 <= i < p.len() && p[i] != '/' {
        lemma_seg_end_bounds(p, i + 1);
    }
}

/// The slash-delimited segments of a path, empty segments dropped.
pub open spec fn spec_segments(p: Seq<char>) -> Seq<Seq<char>> {
    spec_segments_from(p, 0)
}

/// Splits a path into its slash-delimited segments, dropping empty ones.
#[verifier::loop_isolation(false)]
pub fn split_path(path: &str) -> (r: Vec<String>)
    ensures
        ids_view(r@) == spec_segments(path@),
{
    let n = path.unicode_len();
    let mut out: Vec<String> = Vec::new();
    let mut i: usize = 0;
    while i < n
        invariant
            i <= n,
            n == path@.len(),
            spec_segments(path@) == ids_view(out@) + spec_segments_from(path@, i as int),
        decreases n - i,
    {
        if path.get_char(i) == '/' {
            i = i + 1;
        } else {
            let mut j: usize = i + 1;
            #[verifier::loop_isolation(true)]
            while j < n
                invariant
                    n == path@.len(),
                    i < j <= n,
                    forall|a: int| i <= a < j ==> path@[a] != '/',
                ensures
                    i < j <= n,
                    forall|a: int| i <= a < j ==> path@[a] != '/',
                    j == n || path@[j as int] == '/',
                decreases n - j,
            {
                if path.get_char(j) == '/' {
                    break ;
                }
                j = j + 1;
            }
            proof {
                lemma_seg_end_agrees(path@, i as int, j as int);
            }
            let seg = path.substring_char(i, j).to_owned();
            out.push(seg);
            proof {
                assert(ids_view(out@) =~= ids_view(out@.drop_last()).push(seg@));
                assert(ids_view(out@.drop_last()) + (seq![path@.subrange(i as int, j as int)]
                    + spec_segments_from(path@, j as int)) =~= ids_view(out@)
                    + spec_segments_from(path@, j as int));
            }
            i = j;
        }
    }
    proof {
        assert(ids_view(out@) + spec_segments_from(path@, n as int) =~= ids_view(out@));
    }
    out
}

/// Walks the segments from the folder `cur` (`None` meaning the root):
/// each segment descends into the first live folder child of that name;
/// a final segment that names no folder may name a live file instead. An
/// empty segment list yields the current folder.
pub open spec fn spec_resolve_from(
    db: DbView,
    cur: Option<Seq<char>>,
    segs: Seq<Seq<char>>,
) -> Result<(Option<Seq<char>>, bool), ()>
    decreases segs.len(),
{
    if segs.len() == 0 {
        Result::Ok((cur, true))
    } else if folder_name_taken(db.folders, cur, segs[0]) {
        let i = choose|i: int| is_first_folder_child(db.folders, cur, segs[0], i);
        spec_resolve_from(db, Option::Some(db.folders[i].id), segs.drop_first())
    } else if segs.len() == 1 && file_name_taken(db.files, cur, segs[0]) {
        let i = choose|i: int| is_first_file_child(db.files, cur, segs[0], i);
        Result::Ok((Option::Some(db.files[i].id), false))
    } else {
        Result::Err(())
    }
}

/// What a path resolves to: the identifier of the folder or file it
/// names (`None` for the root folder) and whether it is a folder.
pub open spec fn spec_resolve(db: DbView, segs: Seq<Seq<char>>) -> Result<
    (Option<Seq<char>>, bool),
    (),
> {
    spec_resolve_from(db, Option::None, segs)
}

/// Resolves a pre-split segment list against the index.
#[verifier::loop_isolation(false)]
pub fn resolve_segments(db: &Database, segs: &Vec<String>) -> (r: Result<
    (Option<String>, bool),
    FsError,
>)
    ensures
        match r {
            Result::Ok(p) => spec_resolve(db@, ids_view(segs@)) == Result::Ok::<_, ()>(
                (opt_str_view(p.0), p.1),
            ),
            Result::Err(e) => spec_resolve(db@, ids_view(segs@)) is Err && e
                == FsError::NotFound,
        },
{
    let ghost all = ids_view(segs@);
    proof {
        assert(all.skip(0) =~= all);
    }
    let mut cur: Option<String> = Option::None;
    let mut t: usize = 0;
    while t < segs.len()
        invariant
            t <= segs.len(),
            spec_resolve_from(db@, opt_str_view(cur), all.skip(t as int)) == spec_resolve(
                db@,
                all,
            ),
        decreases segs.len() - t,
    {
        proof {
            assert(all.skip(t as int)[0] == all[t as int]);
            assert(all.skip(t as int).drop_first() =~= all.skip(t as int + 1));
            assert(all.skip(t as int).len() == all.len() - t);
        }
        let seg = &segs[t];
        let cur_ref = cur.as_ref();
        proof {
            assert(opt_ref_view(cur_ref) == opt_str_view(cur));
        }
        match db.find_folder_child(cur_ref, seg) {
            Option::Some(id) => {
                proof {
                    let i = choose|i: int|
                        #[trigger] is_first_folder_child(db@.folders, opt_str_view(cur), seg@, i)
                            && id@ == db@.folders[i].id;
                    let i2 = choose|i2: int|
                        is_first_folder_child(db@.folders, opt_str_view(cur), seg@, i2);
                    assert(i == i2);
                }
                cur = Option::Some(id);
            },
            Option::None => {
                if t + 1 == segs.len() {
                    match db.find_file_child(cur_ref, seg) {
                        Option::Some(fid) => {
                            proof {
                                let i = choose|i: int|
                                    #[trigger] is_first_file_child(
                                        db@.files,
                                        opt_str_view(cur),
                                        seg@,
                                        i,
                                    ) && fid@ == db@.files[i].id;
                                let i2 = choose|i2: int|
                                    is_first_file_child(db@.files, opt_str_view(cur), seg@, i2);
                                assert(i == i2);
                            }
                            return Result::Ok((Option::Some(fid), false));
                        },
                        Option::None => {
                            return Result::Err(FsError::NotFound);
                        },
                    }
                } else {
                    return Result::Err(FsError::NotFound);
                }
            },
        }
        t = t + 1;
    }
    proof {
        assert(all.skip(segs@.len() as int) =~= Seq::<Seq<char>>::empty());
    }
    Result::Ok((cur, true))
}

/// Resolves a slash-delimited path against the index. A path with no
/// segments resolves to the root folder.
pub fn resolve_path(db: &Database, path: &str) -> (r: Result<(Option<String>, bool), FsError>)
    ensures
        match r {
            Result::Ok(p) => spec_resolve(db@, spec_segments(path@)) == Result::Ok::<_, ()>(
                (opt_str_view(p.0), p.1),
            ),
            Result::Err(e) => spec_resolve(db@, spec_segments(path@)) is Err && e
                == FsError::NotFound,
        },
{
    let segs = split_path(path);
    resolve_segments(db, &segs)
}

} // verus!
