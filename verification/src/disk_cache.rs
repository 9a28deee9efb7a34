//! Decisions about the disk render cache: whether a cached file can answer
//! a request, and, when pruning, which files are too old, how many bytes
//! stay, and which files to evict, oldest first, while the cache is over its
//! byte limit. Reading, listing and removing files is left to the caller,
//! which reports what it found back.

use vstd::prelude::*;
use crate::ordering::{order_by_key, ordered_by_key, holds_exactly_selected, goes_before};

verus! {

/// What to do with a disk-cache file after reading it.
pub enum CachedFileRead {
    /// The file could not be read: render the page, leave the file alone.
    Unreadable,
    /// The file is empty: remove it and render the page.
    Discard,
    /// The file holds data: look at the image's dimensions next.
    CheckDimensions,
}

/// Judges the outcome of reading a disk-cache file: `None` when the read
/// failed, else the number of bytes read.
pub fn judge_cached_file_read(data_len: Option<usize>) -> (r: CachedFileRead)
    ensures
        r == (match data_len {
            None => CachedFileRead::Unreadable,
            Some(0) => CachedFileRead::Discard,
            Some(_) => CachedFileRead::CheckDimensions,
        }),
{
    match data_len {
        None => CachedFileRead::Unreadable,
        Some(n) => if n == 0 {
            CachedFileRead::Discard
        } else {
            CachedFileRead::CheckDimensions
        },
    }
}

/// Judges the dimensions read from a cached image: usable (`Some`) only when
/// they could be read and both are positive; otherwise the file is removed.
pub fn judge_cached_dimensions(dimensions: Option<(u32, u32)>) -> (r: Option<(u32, u32)>)
    ensures
        r == (match dimensions {
            Some((w, h)) => if w > 0 && h > 0 { Some((w, h)) } else { None },
            None => None,
        }),
{
    match dimensions {
        Some((w, h)) => if w > 0 && h > 0 {
            Some((w, h))
        } else {
            None
        },
        None => None,
    }
}

/// The byte limit of the disk render cache (512 MiB).
pub const MAX_RENDER_CACHE_BYTES: u64 = 536870912;

/// The age, in seconds, past which a cached file is removed (14 days).
pub const MAX_RENDER_CACHE_FILE_AGE_SECS: u64 = 1209600;

/// What pruning reads of one file of the cache directory.
pub struct CacheFileInfo {
    /// The file's length in bytes.
    pub size: u64,
    /// Seconds since the file was last modified (0 if it lies in the future).
    pub age_secs: u64,
    /// The modification time in milliseconds since the Unix epoch (0 if it
    /// cannot be had).
    pub modified_millis: u128,
}

/// A file is stale when it is older than the age limit.
pub open spec fn is_stale(file: CacheFileInfo, max_file_age_secs: u64) -> bool {
    file.age_secs > max_file_age_secs
}

/// The total size of the files among the first `n` that are not stale.
pub open spec fn retained_bytes(files: Seq<CacheFileInfo>, max_file_age_secs: u64, n: int) -> nat
    decreases n,
{
    if n <= 0 {
        0
    } else {
        retained_bytes(files, max_file_age_secs, n - 1) + if is_stale(files[n - 1], max_file_age_secs) {
            0nat
        } else {
            files[n - 1].size as nat
        }
    }
}

/// The sort keys of the files: their modification times.
pub open spec fn modified_keys(files: Seq<CacheFileInfo>) -> Seq<u128> {
    Seq::new(files.len(), |i: int| files[i].modified_millis)
}

/// Which files are kept past the age check.
pub open spec fn retained_mask(files: Seq<CacheFileInfo>, max_file_age_secs: u64) -> Seq<bool> {
    Seq::new(files.len(), |i: int| !is_stale(files[i], max_file_age_secs))
}

/// What pruning does to the files it has listed.
pub struct PrunePlan {
    /// Indices of the stale files, in listing order: each is removed.
    pub stale: Vec<usize>,
    /// The total size of the other files, saturating at `u64::MAX`.
    pub retained_total: u64,
    /// When that total is over the limit, the other files from the oldest
    /// modification to the newest (ties in listing order): they are removed
    /// one by one while the cache is still over the limit. Empty otherwise.
    pub eviction_order: Vec<usize>,
}

/// Plans a pruning of the listed files against the age and size limits.
pub fn plan_cache_prune(files: &Vec<CacheFileInfo>, max_total_bytes: u64, max_file_age_secs: u64) -> (plan: PrunePlan)
    ensures
        forall|p: int| 0 <= p < plan.stale@.len() ==> (#[trigger] plan.stale@[p]) < files@.len()
            && is_stale(files@[plan.stale@[p] as int], max_file_age_secs),
        forall|p: int, q: int| 0 <= p < q < plan.stale@.len() ==> #[trigger] plan.stale@[p] < #[trigger] plan.stale@[q],
        forall|i: int| 0 <= i < files@.len() && is_stale(files@[i], max_file_age_secs) ==> plan.stale@.contains(i as usize),
        plan.retained_total == (if retained_bytes(files@, max_file_age_secs, files@.len() as int) > u64::MAX {
            u64::MAX as nat
        } else {
            retained_bytes(files@, max_file_age_secs, files@.len() as int)
        }),
        plan.retained_total <= max_total_bytes ==> plan.eviction_order@.len() == 0,
        plan.retained_total > max_total_bytes ==> {
            &&& ordered_by_key(modified_keys(files@), plan.eviction_order@)
            &&& holds_exactly_selected(
                modified_keys(files@),
                retained_mask(files@, max_file_age_secs),
                plan.eviction_order@,
            )
        },
        forall|p: int| 0 <= p < plan.stale@.len() ==> files@[#[trigger] plan.stale@[p] as int].age_secs > max_file_age_secs,
        forall|i: int| 0 <= i < files@.len() && files@[i].age_secs > max_file_age_secs ==> plan.stale@.contains(i as usize),
        plan.retained_total > max_total_bytes ==> forall|p: int, q: int| 0 <= p < q < plan.eviction_order@.len() ==> {
            let a = #[trigger] plan.eviction_order@[p] as int;
            let b = #[trigger] plan.eviction_order@[q] as int;
            files@[a].modified_millis < files@[b].modified_millis
                || (files@[a].modified_millis == files@[b].modified_millis && a < b)
        },
        plan.retained_total > max_total_bytes ==> forall|p: int| 0 <= p < plan.eviction_order@.len() ==>
            (#[trigger] plan.eviction_order@[p]) < files@.len() && files@[plan.eviction_order@[p] as int].age_secs <= max_file_age_secs,
        plan.retained_total > max_total_bytes ==> forall|i: int| 0 <= i < files@.len() && files@[i].age_secs <= max_file_age_secs
            ==> plan.eviction_order@.contains(i as usize),
{
    let n = files.len();
    let mut stale: Vec<usize> = Vec::new();
    let mut total: u64 = 0;
    let mut keys: Vec<u128> = Vec::new();
    let mut retained: Vec<bool> = Vec::new();
    let mut i: usize = 0;
    while i < n
        invariant
            n == files@.len(),
            i <= n,
            keys@.len() == i,
            retained@.len() == i,
            forall|k: int| 0 <= k < i ==> #[trigger] keys@[k] == files@[k].modified_millis,
            forall|k: int| 0 <= k < i ==> #[trigger] retained@[k] == !is_stale(files@[k], max_file_age_secs),
            forall|p: int| 0 <= p < stale@.len() ==> (#[trigger] stale@[p]) < i
                && is_stale(files@[stale@[p] as int], max_file_age_secs),
            forall|p: int, q: int| 0 <= p < q < stale@.len() ==> #[trigger] stale@[p] < #[trigger] stale@[q],
            forall|k: int| 0 <= k < i && is_stale(files@[k], max_file_age_secs) ==> stale@.contains(k as usize),
            total == (if retained_bytes(files@, max_file_age_secs, i as int) > u64::MAX {
                u64::MAX as nat
            } else {
                retained_bytes(files@, max_file_age_secs, i as int)
            }),
        decreases n - i,
    {
        let file = &files[i];
        keys.push(file.modified_millis);
        if file.age_secs > max_file_age_secs {
            let ghost before = stale@;
            stale.push(i);
            retained.push(false);
            proof {
                assert(stale@[before.len() as int] == i);
                assert forall|k: int| 0 <= k < i + 1 && is_stale(files@[k], max_file_age_secs) implies stale@.contains(k as usize) by {
                    if k < i {
                        let p = choose|p: int| 0 <= p < before.len() && before[p] == k as usize;
                        assert(stale@[p] == before[p]);
                    } else {
                        assert(stale@[before.len() as int] == k as usize);
                    }
                }
            }
        } else {
            total = total.saturating_add(file.size);
            retained.push(true);
        }
        i = i + 1;
    }
    assert(keys@ =~= modified_keys(files@));
    assert(retained@ =~= retained_mask(files@, max_file_age_secs));
    let eviction_order = if total > max_total_bytes {
        let order = order_by_key(&keys, &retained);
        proof {
            lemma_eviction_order_oldest_first(files@, max_file_age_secs, order@);
        }
        order
    } else {
        Vec::new()
    };
    PrunePlan { stale, retained_total: total, eviction_order }
}

/// The eviction order goes from the file modified first to the file
/// modified last, by the full modification time, files modified at the same
/// time in listing order; it holds exactly the files that are not stale.
pub proof fn lemma_eviction_order_oldest_first(files: Seq<CacheFileInfo>, max_file_age_secs: u64, order: Seq<usize>)
    requires
        ordered_by_key(modified_keys(files), order),
        holds_exactly_selected(modified_keys(files), retained_mask(files, max_file_age_secs), order),
    ensures
        forall|p: int, q: int| 0 <= p < q < order.len() ==> {
            let a = #[trigger] order[p] as int;
            let b = #[trigger] order[q] as int;
            files[a].modified_millis < files[b].modified_millis
                || (files[a].modified_millis == files[b].modified_millis && a < b)
        },
        forall|p: int| 0 <= p < order.len() ==> (#[trigger] order[p]) < files.len()
            && files[order[p] as int].age_secs <= max_file_age_secs,
        forall|i: int| 0 <= i < files.len() && files[i].age_secs <= max_file_age_secs ==> order.contains(i as usize),
{
    let keys = modified_keys(files);
    let mask = retained_mask(files, max_file_age_secs);
    assert forall|p: int, q: int| 0 <= p < q < order.len() implies {
        let a = #[trigger] order[p] as int;
        let b = #[trigger] order[q] as int;
        files[a].modified_millis < files[b].modified_millis
            || (files[a].modified_millis == files[b].modified_millis && a < b)
    } by {
        assert(goes_before(keys, order[p] as int, order[q] as int));
        assert(order[p] < keys.len() && order[q] < keys.len());
    }
    assert forall|p: int| 0 <= p < order.len() implies (#[trigger] order[p]) < files.len()
        && files[order[p] as int].age_secs <= max_file_age_secs by {
        assert(mask[order[p] as int]);
    }
    assert forall|i: int| 0 <= i < files.len() && files[i].age_secs <= max_file_age_secs implies order.contains(i as usize) by {
        assert(mask[i]);
    }
}

/// The running total of an eviction pass: bytes still in the cache, against
/// the byte limit.
pub struct EvictionProgress {
    pub total_bytes: u64,
    pub max_total_bytes: u64,
}

impl EvictionProgress {
    /// Starts an eviction pass at the total that the plan found.
    pub fn new(total_bytes: u64, max_total_bytes: u64) -> (r: Self)
        ensures
            r.total_bytes == total_bytes,
            r.max_total_bytes == max_total_bytes,
    {
        EvictionProgress { total_bytes, max_total_bytes }
    }

    /// Whether the next file of the eviction order is to be removed: the
    /// cache is still over its limit.
    pub fn needs_eviction(&self) -> (r: bool)
        ensures
            r == (self.total_bytes > self.max_total_bytes),
    {
        self.total_bytes > self.max_total_bytes
    }

    /// Takes account of an attempt to remove a file of `size` bytes: a
    /// successful removal takes its size off the total (stopping at 0), a
    /// failed one leaves the total as it was.
    pub fn record_removal(&mut self, size: u64, removed: bool)
        ensures
            final(self).max_total_bytes == old(self).max_total_bytes,
            final(self).total_bytes == (if removed {
                if size > old(self).total_bytes { 0 } else { (old(self).total_bytes - size) as u64 }
            } else {
                old(self).total_bytes
            }),
            final(self).total_bytes <= old(self).total_bytes,
    {
        if removed {
            self.total_bytes = self.total_bytes.saturating_sub(size);
        }
    }
}

/// The total left after an eviction pass over files of the given sizes in
/// which every removal succeeds: files are removed in turn while the total
/// is over `max`.
pub open spec fn total_after_evictions(total: nat, max: nat, sizes: Seq<u64>) -> nat
    decreases sizes.len(),
{
    if total <= max || sizes.len() == 0 {
        total
    } else {
        let next: nat = if sizes[0] > total { 0 } else { (total - sizes[0]) as nat };
        total_after_evictions(next, max, sizes.drop_first())
    }
}

/// The sum of a sequence of sizes.
pub open spec fn sum_sizes(sizes: Seq<u64>) -> nat
    decreases sizes.len(),
{
    if sizes.len() == 0 {
        0
    } else {
        sizes[0] as nat + sum_sizes(sizes.drop_first())
    }
}

/// When the files offered for eviction hold at least the bytes counted and
/// every removal succeeds, the pass ends with the cache within its limit, and
/// never removes more than it needs: each removal happens while the cache is
/// over the limit.
pub proof fn lemma_eviction_reaches_limit(total: nat, max: nat, sizes: Seq<u64>)
    requires
        total <= sum_sizes(sizes),
    ensures
        total_after_evictions(total, max, sizes) <= max,
    decreases sizes.len(),
{
    if total <= max || sizes.len() == 0 {
    } else {
        let next: nat = if sizes[0] > total { 0 } else { (total - sizes[0]) as nat };
        lemma_eviction_reaches_limit(next, max, sizes.drop_first());
    }
}

/// An eviction pass never raises the total and stops as soon as the cache
/// is within its limit.
pub proof fn lemma_eviction_never_grows(total: nat, max: nat, sizes: Seq<u64>)
    ensures
        total_after_evictions(total, max, sizes) <= total,
        total <= max ==> total_after_evictions(total, max, sizes) == total,
    decreases sizes.len(),
{
    if total <= max || sizes.len() == 0 {
    } else {
        let next: nat = if sizes[0] > total { 0 } else { (total - sizes[0]) as nat };
        lemma_eviction_never_grows(next, max, sizes.drop_first());
    }
}

} // verus!
