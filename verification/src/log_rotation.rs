//! Keeping logs within bounds: which files are removed, the oldest first.
use crate::json;
use crate::order;
use crate::text;
use vstd::prelude::*;

verus! {

/// What the names of the proxy's own logs begin with.
pub const APP_LOG_PREFIX: &'static str = "codex-proxy.log";

/// What is known of an entry of a log directory.
#[derive(Debug)]
pub struct FoundEntry {
    /// Its name, where that is text.
    pub name: Option<String>,
    /// What follows the last dot of its name.
    pub extension: Option<String>,
    pub is_dir: bool,
    pub is_file: bool,
    pub size: u64,
    /// When it was last written.
    pub modified: Option<i128>,
}

/// A log file: its size, and when it was last written.
#[derive(Debug, Clone, Copy, PartialEq, Eq)]
pub struct LogFile {
    pub size: u64,
    pub modified: i128,
}

/// The log file that an entry is: one whose time is not known counts as written
/// at the epoch.
pub open spec fn as_log_file(entry: FoundEntry) -> LogFile {
    LogFile {
        size: entry.size,
        modified: match entry.modified {
            Some(m) => m,
            None => 0i128,
        },
    }
}

/// Whether an entry is a request log.
pub open spec fn is_request_log(entry: FoundEntry) -> bool {
    !entry.is_dir && json::option_text(entry.extension) == Some("yml"@)
}

/// Whether an entry is a log of the proxy's own.
pub open spec fn is_app_log(entry: FoundEntry) -> bool {
    entry.is_file && match json::option_text(entry.name) {
        Some(name) => APP_LOG_PREFIX@.is_prefix_of(name),
        None => false,
    }
}

fn log_file(entry: &FoundEntry) -> (r: LogFile)
    ensures
        r == as_log_file(*entry),
{
    let modified: i128 = match entry.modified {
        Some(m) => m,
        None => 0,
    };
    LogFile { size: entry.size, modified }
}

/// The request log that an entry is, if it is one.
pub fn request_log_file(entry: &FoundEntry) -> (r: Option<LogFile>)
    ensures
        r == if is_request_log(*entry) {
            Some(as_log_file(*entry))
        } else {
            None
        },
{
    let is_yml = match &entry.extension {
        Some(e) => text::same_text(e.as_str(), "yml"),
        None => false,
    };
    if !entry.is_dir && is_yml {
        Some(log_file(entry))
    } else {
        None
    }
}

/// The log of the proxy's own that an entry is, if it is one.
pub fn app_log_file(entry: &FoundEntry) -> (r: Option<LogFile>)
    ensures
        r == if is_app_log(*entry) {
            Some(as_log_file(*entry))
        } else {
            None
        },
{
    let named = match &entry.name {
        Some(name) => text::starts_with(name.as_str(), APP_LOG_PREFIX),
        None => false,
    };
    if entry.is_file && named {
        Some(log_file(entry))
    } else {
        None
    }
}

/// The sum of sizes.
pub open spec fn sum(sizes: Seq<u64>) -> nat
    decreases sizes.len(),
{
    if sizes.len() == 0 {
        0
    } else {
        sum(sizes.drop_last()) + sizes.last() as nat
    }
}

/// A pruning under way.
pub struct PlanV {
    /// The sizes of the files, the oldest first.
    pub sizes: Seq<u64>,
    /// The files before this one were dealt with.
    pub at: int,
    /// The files from this one on are not touched.
    pub end: int,
    /// How much is there.
    pub total: int,
    /// How much may be there; nothing is pruned where it is zero.
    pub cap: int,
}

/// The file to remove next.
pub open spec fn victim_of(p: PlanV) -> Option<int> {
    if p.cap != 0 && p.total > p.cap && p.at < p.end {
        Some(p.at)
    } else {
        None
    }
}

/// The pruning after a try to remove the next file.
pub open spec fn after_try(p: PlanV, removed: bool) -> PlanV {
    PlanV {
        at: p.at + 1,
        total: if removed {
            p.total - p.sizes[p.at]
        } else {
            p.total
        },
        ..p
    }
}

/// The pruning at its end, where every try succeeds.
pub open spec fn pruned(p: PlanV) -> PlanV
    decreases p.end - p.at,
{
    match victim_of(p) {
        Some(_) => pruned(after_try(p, true)),
        None => p,
    }
}

/// The times at which files were last written.
pub open spec fn times(files: Seq<LogFile>) -> Seq<i128> {
    files.map_values(|f: LogFile| f.modified)
}

/// The sizes of files, the oldest first.
pub open spec fn sizes_by_age(files: Seq<LogFile>) -> Seq<u64> {
    order::sorted_positions(times(files)).map_values(|k: usize| files[k as int].size)
}

/// The pruning of files at its start; the newest may be spared.
pub open spec fn plan_start(files: Seq<LogFile>, cap: u64, spare_newest: bool) -> PlanV {
    PlanV {
        sizes: sizes_by_age(files),
        at: 0,
        end: if spare_newest && files.len() > 0 {
            files.len() - 1
        } else {
            files.len() as int
        },
        total: sum(sizes_by_age(files)) as int,
        cap: cap as int,
    }
}

proof fn lemma_sum_first(sizes: Seq<u64>)
    requires
        sizes.len() > 0,
    ensures
        sum(sizes) == sizes[0] + sum(sizes.drop_first()),
    decreases sizes.len(),
{
    if sizes.len() > 1 {
        lemma_sum_first(sizes.drop_last());
        assert(sizes.drop_last().drop_first() =~= sizes.drop_first().drop_last());
    } else {
        assert(sizes.drop_last() =~= Seq::<u64>::empty());
        assert(sizes.drop_first() =~= Seq::<u64>::empty());
    }
}

proof fn lemma_pruned(p: PlanV)
    requires
        0 <= p.at <= p.end <= p.sizes.len(),
        p.total == sum(p.sizes.skip(p.at)),
    ensures
        victim_of(pruned(p)) is None,
        p.at <= pruned(p).at <= p.end,
        pruned(p).total == sum(p.sizes.skip(pruned(p).at)),
        pruned(p).sizes == p.sizes,
        pruned(p).end == p.end,
        pruned(p).cap == p.cap,
    decreases p.end - p.at,
{
    if victim_of(p) is Some {
        lemma_sum_first(p.sizes.skip(p.at));
        assert(p.sizes.skip(p.at).drop_first() =~= p.sizes.skip(p.at + 1));
        lemma_pruned(after_try(p, true));
    }
}

/// Where every file can be removed, what is left is within the cap, or it is
/// the newest file alone, where that is spared.
pub proof fn law_pruning_reaches_the_cap(files: Seq<LogFile>, cap: u64, spare_newest: bool)
    requires
        files.len() <= usize::MAX,
        cap != 0,
    ensures
        ({
            let end = pruned(plan_start(files, cap, spare_newest));
            ||| end.total <= cap
            ||| spare_newest && end.at == files.len() - 1 && end.total == end.sizes.last()
        }),
{
    let p = plan_start(files, cap, spare_newest);
    order::law_sorted_positions(times(files));
    assert(p.sizes.skip(0) =~= p.sizes);
    lemma_pruned(p);
    let end = pruned(p);
    if end.total > cap {
        assert(end.at == p.end);
        if p.end == files.len() {
            assert(p.sizes.skip(end.at) =~= Seq::<u64>::empty());
        } else {
            let left = p.sizes.skip(end.at);
            assert(left.len() == 1);
            assert(left.drop_last() =~= Seq::<u64>::empty());
            assert(left.last() == p.sizes.last());
            assert(sum(left) == left.last()) by {
                reveal_with_fuel(sum, 2);
            }
        }
    }
}

/// No file is removed where the files are within the cap, nor where there is
/// no cap.
pub proof fn law_nothing_is_pruned_within_the_cap(
    files: Seq<LogFile>,
    cap: u64,
    spare_newest: bool,
)
    requires
        cap == 0 || sum(sizes_by_age(files)) <= cap,
    ensures
        victim_of(plan_start(files, cap, spare_newest)) is None,
{
}

/// A file that is removed is older than every file that stays, or as old and
/// listed before it.
pub proof fn law_older_files_go_first(files: Seq<LogFile>, i: int, j: int)
    requires
        files.len() <= usize::MAX,
        0 <= i < j < files.len(),
    ensures
        ({
            let by_age = order::sorted_positions(times(files));
            by_age.len() == files.len() && order::goes_before(
                times(files),
                by_age[i] as int,
                by_age[j] as int,
            )
        }),
{
    order::law_sorted_positions(times(files));
}

/// The pruning after tries, by which of them succeeded.
pub open spec fn after_tries(p: PlanV, outcomes: Seq<bool>) -> PlanV
    decreases outcomes.len(),
{
    if outcomes.len() == 0 {
        p
    } else {
        after_try(after_tries(p, outcomes.drop_last()), outcomes.last())
    }
}

/// The newest file is never removed where it is spared, whichever tries
/// succeed.
pub proof fn law_newest_file_is_spared(files: Seq<LogFile>, cap: u64, outcomes: Seq<bool>)
    requires
        files.len() > 0,
    ensures
        victim_of(after_tries(plan_start(files, cap, true), outcomes)) matches Some(i) ==> i
            < files.len() - 1,
{
    lemma_end_stays(plan_start(files, cap, true), outcomes);
}

proof fn lemma_end_stays(p: PlanV, outcomes: Seq<bool>)
    ensures
        after_tries(p, outcomes).end == p.end,
    decreases outcomes.len(),
{
    if outcomes.len() > 0 {
        lemma_end_stays(p, outcomes.drop_last());
    }
}

/// A pruning under way.
#[derive(Debug)]
pub struct PrunePlan {
    positions: Vec<usize>,
    sizes: Vec<u64>,
    at: usize,
    end: usize,
    total: u128,
    cap: u64,
    removed: usize,
}

impl PrunePlan {
    /// The pruning as it stands.
    pub closed spec fn plan(&self) -> PlanV {
        PlanV {
            sizes: self.sizes@,
            at: self.at as int,
            end: self.end as int,
            total: self.total as int,
            cap: self.cap as int,
        }
    }

    /// The places of the files, the oldest first.
    pub closed spec fn by_age(&self) -> Seq<usize> {
        self.positions@
    }

    /// How many files were removed.
    pub closed spec fn count(&self) -> nat {
        self.removed as nat
    }

    /// Whether the pruning is consistent: there is at least as much as the
    /// files that were not dealt with.
    pub closed spec fn wf(&self) -> bool {
        &&& self.positions@.len() == self.sizes@.len()
        &&& self.at <= self.end <= self.sizes@.len()
        &&& self.removed <= self.at
        &&& self.total >= sum(self.sizes@.skip(self.at as int))
    }

    /// The pruning of files at its start; the newest may be spared.
    pub fn new(files: &Vec<LogFile>, cap: u64, spare_newest: bool) -> (r: PrunePlan)
        ensures
            r.wf(),
            r.plan() == plan_start(files@, cap, spare_newest),
            r.by_age() == order::sorted_positions(times(files@)),
            r.count() == 0,
    {
        let mut keys: Vec<i128> = Vec::new();
        for i in 0..files.len()
            invariant
                keys@.len() == i,
                forall|j: int| 0 <= j < i ==> keys@[j] == (#[trigger] files@[j]).modified,
        {
            keys.push(files[i].modified);
        }
        assert(keys@ =~= times(files@));
        let positions = order::sort_positions(&keys);
        let mut sizes: Vec<u64> = Vec::new();
        let mut total: u128 = 0;
        let ghost all = sizes_by_age(files@);
        for i in 0..positions.len()
            invariant
                positions@ == order::sorted_positions(times(files@)),
                order::stable_order(times(files@), positions@),
                all == sizes_by_age(files@),
                sizes@ == all.take(i as int),
                total == sum(all.take(i as int)),
                total <= i * 0xffff_ffff_ffff_ffff,
        {
            let size: u64 = files[positions[i]].size;
            assert(all[i as int] == size);
            assert(all.take(i + 1).drop_last() =~= all.take(i as int));
            assert(all.take(i + 1) =~= all.take(i as int).push(size));
            total += size as u128;
            sizes.push(size);
        }
        assert(all.take(all.len() as int) =~= all);
        assert(all.skip(0) =~= all);
        let n: usize = sizes.len();
        let end: usize = if spare_newest && n > 0 {
            n - 1
        } else {
            n
        };
        PrunePlan { positions, sizes, at: 0, end, total, cap, removed: 0 }
    }

    /// The place of the file to remove next.
    pub fn victim(&self) -> (r: Option<usize>)
        requires
            self.wf(),
        ensures
            r == match victim_of(self.plan()) {
                Some(i) => Some(self.by_age()[i]),
                None => None,
            },
    {
        if self.cap != 0 && self.total > self.cap as u128 && self.at < self.end {
            Some(self.positions[self.at])
        } else {
            None
        }
    }

    /// Goes on after a try to remove that file.
    pub fn report(&mut self, removed: bool)
        requires
            old(self).wf(),
            victim_of(old(self).plan()) is Some,
        ensures
            final(self).wf(),
            final(self).plan() == after_try(old(self).plan(), removed),
            final(self).by_age() == old(self).by_age(),
            final(self).count() == old(self).count() + if removed {
                1nat
            } else {
                0nat
            },
    {
        proof {
            lemma_sum_first(self.sizes@.skip(self.at as int));
            assert(self.sizes@.skip(self.at as int).drop_first() =~= self.sizes@.skip(self.at + 1));
        }
        if removed {
            self.total = self.total - self.sizes[self.at] as u128;
            self.removed = self.removed + 1;
        }
        self.at = self.at + 1;
    }

    /// How many files were removed.
    pub fn removed(&self) -> (r: usize)
        ensures
            r == self.count(),
    {
        self.removed
    }
}

/// A request log is what is no directory and ends in `.yml`; a log of the proxy's own
/// is a file whose name begins with `codex-proxy.log`.
pub proof fn law_which_files_are_logs(entry: FoundEntry)
    ensures
        is_request_log(entry) <==> !entry.is_dir && (entry.extension matches Some(e) && e@ == "yml"@),
        is_app_log(entry) <==> entry.is_file && (entry.name matches Some(name)
            && "codex-proxy.log"@.is_prefix_of(name@)),
        as_log_file(entry).size == entry.size,
        entry.modified matches Some(m) ==> as_log_file(entry).modified == m,
        entry.modified is None ==> as_log_file(entry).modified == 0,
{
}

/// A file is removed only while there is more than the cap, and while there is, the
/// next one is, up to those that are not touched; what is removed no longer counts,
/// and what could not be removed still does.
pub proof fn law_pruning_goes_file_by_file(p: PlanV)
    ensures
        victim_of(p) is Some <==> p.cap != 0 && p.total > p.cap && p.at < p.end,
        victim_of(p) matches Some(i) ==> i == p.at,
        after_try(p, true).total == p.total - p.sizes[p.at],
        after_try(p, false).total == p.total,
        after_try(p, true).at == p.at + 1,
        after_try(p, false).at == p.at + 1,
        after_try(p, true).sizes == p.sizes && after_try(p, false).sizes == p.sizes,
        after_try(p, true).end == p.end && after_try(p, false).end == p.end,
        after_try(p, true).cap == p.cap && after_try(p, false).cap == p.cap,
{
}

proof fn lemma_pruned_no_further(p: PlanV)
    requires
        0 <= p.at <= p.end <= p.sizes.len(),
        p.total == sum(p.sizes.skip(p.at)),
        victim_of(p) is Some,
    ensures
        p.at < pruned(p).at,
        sum(p.sizes.skip(pruned(p).at - 1)) > p.cap,
    decreases p.end - p.at,
{
    let next = after_try(p, true);
    lemma_sum_first(p.sizes.skip(p.at));
    assert(p.sizes.skip(p.at).drop_first() =~= p.sizes.skip(p.at + 1));
    if victim_of(next) is Some {
        lemma_pruned_no_further(next);
    } else {
        assert(pruned(p) == pruned(next));
        assert(pruned(next) == next);
    }
}

/// No more is pruned than is needed: with the last file that was removed there was
/// still more than the cap.
pub proof fn law_no_more_is_pruned_than_needed(files: Seq<LogFile>, cap: u64, spare_newest: bool)
    requires
        files.len() <= usize::MAX,
        pruned(plan_start(files, cap, spare_newest)).at > 0,
    ensures
        sum(
            sizes_by_age(files).skip(pruned(plan_start(files, cap, spare_newest)).at - 1),
        ) > cap,
{
    let p = plan_start(files, cap, spare_newest);
    order::law_sorted_positions(times(files));
    assert(p.sizes.skip(0) =~= p.sizes);
    if victim_of(p) is Some {
        lemma_pruned_no_further(p);
    }
}

proof fn lemma_sum_remove(sizes: Seq<u64>, k: int)
    requires
        0 <= k < sizes.len(),
    ensures
        sum(sizes) == sum(sizes.remove(k)) + sizes[k],
    decreases sizes.len(),
{
    if k == sizes.len() - 1 {
        assert(sizes.remove(k) =~= sizes.drop_last());
    } else {
        lemma_sum_remove(sizes.drop_last(), k);
        assert(sizes.remove(k).drop_last() =~= sizes.drop_last().remove(k));
        assert(sizes.remove(k).last() == sizes.last());
    }
}

proof fn lemma_sum_of_permutation(sizes: Seq<u64>, p: Seq<int>)
    requires
        p.len() == sizes.len(),
        forall|i: int| 0 <= i < p.len() ==> 0 <= #[trigger] p[i] < sizes.len(),
        forall|i: int, j: int| 0 <= i < j < p.len() ==> #[trigger] p[i] != #[trigger] p[j],
        forall|k: int| 0 <= k < sizes.len() ==> #[trigger] p.contains(k),
    ensures
        sum(p.map_values(|k: int| sizes[k])) == sum(sizes),
    decreases sizes.len(),
{
    let moved = p.map_values(|k: int| sizes[k]);
    if sizes.len() == 0 {
        assert(moved =~= sizes);
    } else {
        let n = sizes.len() - 1;
        assert(p.contains(n));
        let at = choose|i: int| 0 <= i < p.len() && p[i] == n;
        let q = p.remove(at);
        let rest = sizes.drop_last();
        assert forall|i: int| 0 <= i < q.len() implies 0 <= #[trigger] q[i] < rest.len() by {
            let j = if i < at {
                i
            } else {
                i + 1
            };
            assert(q[i] == p[j]);
            assert(p[j] != p[at]);
        }
        assert forall|i: int, j: int| 0 <= i < j < q.len() implies #[trigger] q[i] != #[trigger] q[j] by {
            let a = if i < at {
                i
            } else {
                i + 1
            };
            let b = if j < at {
                j
            } else {
                j + 1
            };
            assert(q[i] == p[a] && q[j] == p[b]);
        }
        assert forall|k: int| 0 <= k < rest.len() implies #[trigger] q.contains(k) by {
            assert(p.contains(k));
            let i = choose|i: int| 0 <= i < p.len() && p[i] == k;
            let j = if i < at {
                i
            } else {
                i - 1
            };
            assert(q[j] == k);
        }
        lemma_sum_of_permutation(rest, q);
        lemma_sum_remove(moved, at);
        assert(moved.remove(at) =~= q.map_values(|k: int| rest[k]));
    }
}

/// Every file counts, with its whole size, whatever its age.
pub proof fn law_every_file_counts(files: Seq<LogFile>, cap: u64, spare_newest: bool)
    requires
        files.len() <= usize::MAX,
    ensures
        plan_start(files, cap, spare_newest).total == sum(files.map_values(|f: LogFile| f.size)),
        plan_start(files, cap, spare_newest).cap == cap,
        plan_start(files, cap, spare_newest).at == 0,
        plan_start(files, cap, false).end == files.len(),
        files.len() > 0 ==> plan_start(files, cap, true).end == files.len() - 1,
{
    let keys = times(files);
    order::law_sorted_positions(keys);
    let order = order::sorted_positions(keys);
    let p = order.map_values(|k: usize| k as int);
    let sizes = files.map_values(|f: LogFile| f.size);
    assert forall|i: int, j: int| 0 <= i < j < p.len() implies #[trigger] p[i] != #[trigger] p[j] by {
        assert(order::goes_before(keys, order[i] as int, order[j] as int));
    }
    assert forall|k: int| 0 <= k < sizes.len() implies #[trigger] p.contains(k) by {
        assert(order.contains(k as usize));
        let i = choose|i: int| 0 <= i < order.len() && order[i] == k as usize;
        assert(p[i] == k);
    }
    lemma_sum_of_permutation(sizes, p);
    assert(p.map_values(|k: int| sizes[k]) =~= sizes_by_age(files));
}

/// A sum grows by each size.
pub proof fn law_sums_grow_by_each_size(sizes: Seq<u64>, size: u64)
    ensures
        sum(seq![]) == 0,
        sum(sizes.push(size)) == sum(sizes) + size,
{
    assert(sizes.push(size).drop_last() =~= sizes);
}

/// Files are taken by the times at which they were last written, the oldest first,
/// and those of one time as they are listed; each counts with its own size.
pub proof fn law_files_are_taken_by_age(files: Seq<LogFile>, i: int, j: int)
    requires
        files.len() <= usize::MAX,
        0 <= i < j < files.len(),
    ensures
        ({
            let by_age = order::sorted_positions(times(files));
            &&& by_age.len() == files.len()
            &&& by_age[i] < files.len() && by_age[j] < files.len()
            &&& files[by_age[i] as int].modified < files[by_age[j] as int].modified || (
            files[by_age[i] as int].modified == files[by_age[j] as int].modified && by_age[i]
                < by_age[j])
            &&& sizes_by_age(files)[i] == files[by_age[i] as int].size
            &&& sizes_by_age(files)[j] == files[by_age[j] as int].size
        }),
{
    let keys = times(files);
    order::law_sorted_positions(keys);
    let by_age = order::sorted_positions(keys);
    assert(order::goes_before(keys, by_age[i] as int, by_age[j] as int));
    assert(keys[by_age[i] as int] == files[by_age[i] as int].modified);
    assert(keys[by_age[j] as int] == files[by_age[j] as int].modified);
}

} // verus!
