//! The chunked upload pipeline's plan: fixed-size parts, a large-object
//! mode above a size threshold, and monotone progress reporting. The
//! network transfer itself is the caller's business; everything decided
//! here — part count, each part's length, the mode, the percentage — is
//! a pure function of the byte counts.

use vstd::prelude::*;

verus! {

/// The fixed part size the pipeline splits a source into.
pub const CHUNK_SIZE: u64 = 512 * 1024;

/// Sources strictly larger than this upload in large-object mode.
pub const BIG_FILE_THRESHOLD: u64 = 10 * 1024 * 1024;

/// The bound on concurrently in-flight part uploads.
pub const MAX_PARALLEL_PARTS: usize = 16;

/// How many parts a source of `size` bytes splits into: the rounded-up
/// quotient by `chunk`.
pub open spec fn spec_total_parts(size: nat, chunk: nat) -> nat {
    if size % chunk == 0 {
        size / chunk
    } else {
        size / chunk + 1
    }
}

/// The length of part `idx`: a full chunk for every part before the
/// last, what remains for the last, and zero past the end.
pub open spec fn spec_part_len(size: nat, chunk: nat, idx: nat) -> nat {
    if (idx + 1) * chunk <= size {
        chunk
    } else if idx * chunk < size {
        (size - idx * chunk) as nat
    } else {
        0
    }
}

/// The summed lengths of the first `n` parts.
pub open spec fn spec_parts_sum(size: nat, chunk: nat, n: nat) -> nat
    decreases n,
{
    if n == 0 {
        0
    } else {
        spec_parts_sum(size, chunk, (n - 1) as nat) + spec_part_len(size, chunk, (n - 1) as nat)
    }
}

/// The first `k` parts cover the first `k * chunk` bytes, or the whole
/// source once that is shorter.
pub proof fn lemma_parts_sum_prefix(size: nat, chunk: nat, k: nat)
    requires
        chunk > 0,
    ensures
        spec_parts_sum(size, chunk, k) == if k * chunk <= size {
            k * chunk
        } else {
            size
        },
    decreases k,
{
    if k > 0 {
        let k1 = (k - 1) as nat;
        lemma_parts_sum_prefix(size, chunk, k1);
        assert(k * chunk == k1 * chunk + chunk) by (nonlinear_arith)
            requires
                k >= 1,
                k1 == k - 1,
        ;
        assert((k1 + 1) * chunk == k * chunk) by (nonlinear_arith)
            requires
                k1 + 1 == k,
        ;
        assert(spec_parts_sum(size, chunk, k) == spec_parts_sum(size, chunk, k1)
            + spec_part_len(size, chunk, k1));
        if (k1 + 1) * chunk <= size {
            assert(spec_part_len(size, chunk, k1) == chunk);
            assert(spec_parts_sum(size, chunk, k) == k * chunk);
        } else if k1 * chunk < size {
            assert(spec_parts_sum(size, chunk, k) == size);
        } else {
            assert(spec_parts_sum(size, chunk, k) == size);
        }
    } else {
        assert(k * chunk == 0) by (nonlinear_arith)
            requires
                k == 0,
        ;
    }
}

/// Law: the parts cover the source exactly — the lengths of all
/// `spec_total_parts` parts sum to the source size.
pub proof fn lemma_parts_cover(size: nat, chunk: nat)
    requires
        chunk > 0,
    ensures
        spec_parts_sum(size, chunk, spec_total_parts(size, chunk)) == size,
{
    let n = spec_total_parts(size, chunk);
    let q = size / chunk;
    let r = size % chunk;
    vstd::arithmetic::div_mod::lemma_fundamental_div_mod(size as int, chunk as int);
    assert(n * chunk >= size) by (nonlinear_arith)
        requires
            chunk > 0,
            size == chunk * q + r,
            0 <= r < chunk,
            r == 0 ==> n == q,
            r != 0 ==> n == q + 1,
    ;
    lemma_parts_sum_prefix(size, chunk, n);
    if n * chunk > size {
        assert(spec_parts_sum(size, chunk, n) == size);
    }
}

/// How many parts a source of `size` bytes splits into with parts of
/// `chunk` bytes.
pub fn total_parts(size: u64, chunk: u64) -> (n: u64)
    requires
        chunk > 0,
    ensures
        n as nat == spec_total_parts(size as nat, chunk as nat),
{
    let q = size / chunk;
    if size % chunk == 0 {
        q
    } else {
        proof {
            assert(q < size) by (nonlinear_arith)
                requires
                    chunk > 0,
                    q == size / chunk,
                    size % chunk != 0,
            ;
        }
        q + 1
    }
}

/// The length of part `idx` of a source of `size` bytes.
pub fn part_len(size: u64, chunk: u64, idx: u64) -> (r: u64)
    requires
        chunk > 0,
    ensures
        r as nat == spec_part_len(size as nat, chunk as nat, idx as nat),
{
    proof {
        assert((idx as int) * (chunk as int) + chunk <= (0xffff_ffff_ffff_ffff as int) * (
        0xffff_ffff_ffff_ffff as int) + 0xffff_ffff_ffff_ffff) by (nonlinear_arith)
            requires
                0 <= idx <= 0xffff_ffff_ffff_ffff,
                0 <= chunk <= 0xffff_ffff_ffff_ffff,
        ;
        assert(((idx as nat) + 1) * (chunk as nat) == (idx as nat) * (chunk as nat) + (
        chunk as nat)) by (nonlinear_arith);
    }
    let start: u128 = (idx as u128) * (chunk as u128);
    let next: u128 = start + (chunk as u128);
    if next <= size as u128 {
        chunk
    } else if start < size as u128 {
        proof {
            assert(size as int - start as int <= 0xffff_ffff_ffff_ffff);
        }
        (size as u128 - start) as u64
    } else {
        0
    }
}

/// Whether a source of `size` bytes uploads in large-object mode.
pub fn is_big_file(size: u64) -> (r: bool)
    ensures
        r == (size > BIG_FILE_THRESHOLD),
{
    size > BIG_FILE_THRESHOLD
}

/// What an upload of a given source size will do: its mode, its part
/// size and its part count.
pub struct UploadPlan {
    pub is_big: bool,
    pub chunk_size: u64,
    pub total_parts: u64,
}

/// The plan for a source of `size` bytes, using the pipeline's fixed
/// chunk size and large-object threshold.
pub fn plan_upload(size: u64) -> (r: UploadPlan)
    ensures
        r.is_big == (size > BIG_FILE_THRESHOLD),
        r.chunk_size == CHUNK_SIZE,
        r.total_parts as nat == spec_total_parts(size as nat, CHUNK_SIZE as nat),
{
    UploadPlan {
        is_big: is_big_file(size),
        chunk_size: CHUNK_SIZE,
        total_parts: total_parts(size, CHUNK_SIZE),
    }
}

/// The whole percentage of `done` out of `total`, capped at one hundred;
/// a total of zero counts as complete.
pub open spec fn spec_progress_percent(done: nat, total: nat) -> nat {
    if total == 0 {
        100
    } else if done * 100 / total > 100 {
        100
    } else {
        done * 100 / total
    }
}

/// The progress percentage for `done` bytes of `total`.
pub fn progress_percent(done: u64, total: u64) -> (p: u64)
    ensures
        p as nat == spec_progress_percent(done as nat, total as nat),
        p <= 100,
{
    if total == 0 {
        return 100;
    }
    let p128: u128 = (done as u128) * 100 / (total as u128);
    if p128 > 100 {
        100
    } else {
        p128 as u64
    }
}

/// Law: progress is monotone — a larger byte counter never reports a
/// smaller percentage.
pub proof fn lemma_progress_monotonic(d1: nat, d2: nat, total: nat)
    requires
        d1 <= d2,
    ensures
        spec_progress_percent(d1, total) <= spec_progress_percent(d2, total),
{
    if total > 0 {
        assert(d1 * 100 <= d2 * 100) by (nonlinear_arith)
            requires
                d1 <= d2,
        ;
        vstd::arithmetic::div_mod::lemma_div_is_ordered(
            (d1 * 100) as int,
            (d2 * 100) as int,
            total as int,
        );
    }
}

/// Law: a byte counter that has reached the total reports exactly one
/// hundred percent.
pub proof fn lemma_progress_complete(total: nat)
    ensures
        spec_progress_percent(total, total) == 100,
{
    if total > 0 {
        assert(total * 100 / total == 100) by (nonlinear_arith)
            requires
                total > 0,
        ;
    }
}

/// One upload's shared byte counter. It only ever grows, so the
/// percentages it reports never decrease.
pub struct UploadProgress {
    pub total: u64,
    pub done: u64,
}

impl UploadProgress {
    /// A fresh counter for a source of `total` bytes.
    pub fn new(total: u64) -> (r: Self)
        ensures
            r.total == total,
            r.done == 0,
    {
        UploadProgress { total, done: 0 }
    }

    /// Advances the counter by one completed part's length and reports
    /// the progress percentage reached.
    pub fn record_part(&mut self, len: u64) -> (p: u64)
        requires
            old(self).done + len <= old(self).total,
        ensures
            final(self).total == old(self).total,
            final(self).done == old(self).done + len,
            p as nat == spec_progress_percent(final(self).done as nat, final(self).total as nat),
            p <= 100,
    {
        self.done = self.done + len;
        progress_percent(self.done, self.total)
    }
}

/// The preview sizes a thumbnail is chosen from, in order of preference:
/// the medium type, then the small, then the wide, then whatever comes
/// last. Yields the index of the chosen entry, or nothing for an empty
/// list.
pub fn pick_thumb_index(types: &Vec<String>) -> (r: Option<usize>)
    ensures
        types@.len() == 0 <==> r is None,
        r is Some ==> r.unwrap() < types@.len(),
        (exists|i: int| 0 <= i < types@.len() && types@[i]@ == "m"@) ==> r is Some
            && types@[r.unwrap() as int]@ == "m"@,
        (!(exists|i: int| 0 <= i < types@.len() && types@[i]@ == "m"@) && (exists|i: int|
            0 <= i < types@.len() && types@[i]@ == "s"@)) ==> r is Some && types@[r.unwrap() as int]@
            == "s"@,
        (!(exists|i: int| 0 <= i < types@.len() && types@[i]@ == "m"@) && !(exists|i: int|
            0 <= i < types@.len() && types@[i]@ == "s"@) && (exists|i: int|
            0 <= i < types@.len() && types@[i]@ == "w"@)) ==> r is Some
            && types@[r.unwrap() as int]@ == "w"@,
        (types@.len() > 0 && !(exists|i: int| 0 <= i < types@.len() && types@[i]@ == "m"@) && !(
        exists|i: int| 0 <= i < types@.len() && types@[i]@ == "s"@) && !(exists|i: int|
            0 <= i < types@.len() && types@[i]@ == "w"@)) ==> r == Option::Some(
            (types@.len() - 1) as usize,
        ),
{
    if types.len() == 0 {
        return Option::None;
    }
    let m = find_type(types, "m");
    if let Option::Some(i) = m {
        return Option::Some(i);
    }
    let s = find_type(types, "s");
    if let Option::Some(i) = s {
        return Option::Some(i);
    }
    let w = find_type(types, "w");
    if let Option::Some(i) = w {
        return Option::Some(i);
    }
    Option::Some(types.len() - 1)
}

/// The first index of `wanted` in the list, if any.
#[verifier::loop_isolation(false)]
fn find_type(types: &Vec<String>, wanted: &str) -> (r: Option<usize>)
    ensures
        match r {
            Option::Some(i) => i < types@.len() && types@[i as int]@ == wanted@,
            Option::None => !(exists|i: int| 0 <= i < types@.len() && types@[i]@ == wanted@),
        },
{
    let wanted_s = wanted.to_owned();
    let mut k: usize = 0;
    while k < types.len()
        invariant
            k <= types.len(),
            forall|i: int| 0 <= i < k ==> types@[i]@ != wanted@,
        decreases types.len() - k,
    {
        if types[k] == wanted_s {
            return Option::Some(k);
        }
        k = k + 1;
    }
    Option::None
}

} // verus!
