use vstd::prelude::*;
use crate::mtp_file::{MtpFile, sort_files, sorted_listing, lemma_sorted_listing};
use crate::paths::{RefDate, build_path, destination, year_text, album_segment};

verus! {

/// How the transfer of one file ended.
#[derive(Debug)]
pub enum CopyOutcome {
    Copied,
    Skipped,
    /// The transfer failed, for the reason given.
    Errored(String),
}

/// What the run does after a file's outcome is recorded.
#[derive(Debug, Clone, Copy, PartialEq, Eq, Structural)]
pub enum RunStep {
    /// Go on with the next file, if any.
    Continue,
    /// Stop: the file failed and the run does not keep going.
    Abort,
}

/// The sum of the sizes of a sequence of files.
pub open spec fn sum_sizes(files: Seq<MtpFile>) -> int
    decreases files.len(),
{
    if files.len() == 0 {
        0
    } else {
        sum_sizes(files.drop_last()) + files.last().size
    }
}

/// Each processed file's size beside its outcome.
pub open spec fn run_steps(files: Seq<MtpFile>, outcomes: Seq<CopyOutcome>) -> Seq<(u64, CopyOutcome)> {
    Seq::new(outcomes.len(), |k: int| (files[k].size, outcomes[k]))
}

/// The bytes of the skipped and errored files.
pub open spec fn resolved_size(steps: Seq<(u64, CopyOutcome)>) -> int
    decreases steps.len(),
{
    if steps.len() == 0 {
        0
    } else {
        resolved_size(steps.drop_last()) + if steps.last().1 is Copied {
            0
        } else {
            steps.last().0 as int
        }
    }
}

/// The bytes of the copied files.
pub open spec fn copied_size(steps: Seq<(u64, CopyOutcome)>) -> int
    decreases steps.len(),
{
    if steps.len() == 0 {
        0
    } else {
        copied_size(steps.drop_last()) + if steps.last().1 is Copied {
            steps.last().0 as int
        } else {
            0
        }
    }
}

pub open spec fn count_copied(outcomes: Seq<CopyOutcome>) -> int
    decreases outcomes.len(),
{
    if outcomes.len() == 0 {
        0
    } else {
        count_copied(outcomes.drop_last()) + if outcomes.last() is Copied { 1int } else { 0 }
    }
}

pub open spec fn count_skipped(outcomes: Seq<CopyOutcome>) -> int
    decreases outcomes.len(),
{
    if outcomes.len() == 0 {
        0
    } else {
        count_skipped(outcomes.drop_last()) + if outcomes.last() is Skipped { 1int } else { 0 }
    }
}

/// The names of the files that failed, in the order of the run.
pub open spec fn errored_names(files: Seq<MtpFile>, outcomes: Seq<CopyOutcome>) -> Seq<Seq<char>>
    decreases outcomes.len(),
{
    if outcomes.len() == 0 {
        Seq::empty()
    } else {
        let rest = errored_names(files, outcomes.drop_last());
        if outcomes.last() is Errored {
            rest.push(files[outcomes.len() - 1].name@)
        } else {
            rest
        }
    }
}

pub open spec fn opt_string_view(s: Option<String>) -> Option<Seq<char>> {
    match s {
        Some(a) => Some(a@),
        None => None,
    }
}

pub open spec fn names_of(v: Seq<String>) -> Seq<Seq<char>> {
    v.map_values(|s: String| s@)
}

/// The size of a listing is that of a prefix plus that of the rest.
proof fn lemma_sum_sizes_split(files: Seq<MtpFile>, i: int)
    requires
        0 <= i <= files.len(),
    ensures
        sum_sizes(files) == sum_sizes(files.subrange(0, i)) + sum_sizes(files.subrange(i, files.len() as int)),
    decreases files.len(),
{
    if i < files.len() {
        lemma_sum_sizes_split(files.drop_last(), i);
        assert(files.drop_last().subrange(0, i) == files.subrange(0, i));
        assert(files.subrange(i, files.len() as int).drop_last() == files.drop_last().subrange(
            i,
            files.len() - 1,
        ));
    } else {
        assert(files.subrange(0, i) == files);
    }
}

proof fn lemma_sum_sizes_nonneg(files: Seq<MtpFile>)
    ensures
        sum_sizes(files) >= 0,
    decreases files.len(),
{
    if files.len() > 0 {
        lemma_sum_sizes_nonneg(files.drop_last());
    }
}

proof fn lemma_sum_sizes_first(files: Seq<MtpFile>)
    requires
        files.len() > 0,
    ensures
        sum_sizes(files) == files[0].size + sum_sizes(files.drop_first()),
    decreases files.len(),
{
    if files.len() > 1 {
        lemma_sum_sizes_first(files.drop_last());
        assert(files.drop_last().drop_first() == files.drop_first().drop_last());
        assert(files.drop_first().last() == files.last());
    } else {
        assert(files.drop_first().len() == 0);
        assert(files.drop_last().len() == 0);
        assert(sum_sizes(files.drop_last()) == 0);
        assert(sum_sizes(files.drop_first()) == 0);
    }
}

proof fn lemma_sum_sizes_remove(files: Seq<MtpFile>, k: int)
    requires
        0 <= k < files.len(),
    ensures
        sum_sizes(files) == files[k].size + sum_sizes(files.remove(k)),
    decreases files.len(),
{
    if k < files.len() - 1 {
        lemma_sum_sizes_remove(files.drop_last(), k);
        assert(files.remove(k).drop_last() == files.drop_last().remove(k));
        assert(files.remove(k).last() == files.last());
    } else {
        assert(files.remove(k) == files.drop_last());
    }
}

/// Files that are the same up to order have the same total size.
pub proof fn lemma_sum_sizes_permutation(a: Seq<MtpFile>, b: Seq<MtpFile>)
    requires
        a.to_multiset() == b.to_multiset(),
    ensures
        sum_sizes(a) == sum_sizes(b),
    decreases a.len(),
{
    broadcast use vstd::seq_lib::group_to_multiset_ensures;
    if a.len() == 0 {
        assert(b.to_multiset().len() == 0);
        assert(b.len() == 0);
    } else {
        let x = a.last();
        assert(a.drop_last().push(x) == a);
        assert(a.to_multiset().count(x) > 0);
        assert(b.contains(x));
        let k = choose|k: int| 0 <= k < b.len() && b[k] == x;
        lemma_sum_sizes_remove(b, k);
        assert(b.remove(k).to_multiset() == b.to_multiset().remove(x));
        assert(a.drop_last().to_multiset() == a.to_multiset().remove(x));
        lemma_sum_sizes_permutation(a.drop_last(), b.remove(k));
    }
}

proof fn lemma_resolved_remove(steps: Seq<(u64, CopyOutcome)>, k: int)
    requires
        0 <= k < steps.len(),
    ensures
        resolved_size(steps) == resolved_size(steps.remove(k)) + if steps[k].1 is Copied {
            0
        } else {
            steps[k].0 as int
        },
    decreases steps.len(),
{
    if k < steps.len() - 1 {
        lemma_resolved_remove(steps.drop_last(), k);
        assert(steps.remove(k).drop_last() == steps.drop_last().remove(k));
        assert(steps.remove(k).last() == steps.last());
    } else {
        assert(steps.remove(k) == steps.drop_last());
    }
}

/// The bytes taken off the remaining size do not depend on the order in
/// which files were skipped or failed: any reordering of the same sized
/// outcomes resolves the same number of bytes.
pub proof fn lemma_resolved_size_order_independent(
    a: Seq<(u64, CopyOutcome)>,
    b: Seq<(u64, CopyOutcome)>,
)
    requires
        a.to_multiset() == b.to_multiset(),
    ensures
        resolved_size(a) == resolved_size(b),
    decreases a.len(),
{
    broadcast use vstd::seq_lib::group_to_multiset_ensures;
    if a.len() == 0 {
        assert(b.to_multiset().len() == 0);
        assert(b.len() == 0);
    } else {
        let x = a.last();
        assert(a.drop_last().push(x) == a);
        assert(a.to_multiset().count(x) > 0);
        assert(b.contains(x));
        let k = choose|k: int| 0 <= k < b.len() && b[k] == x;
        lemma_resolved_remove(b, k);
        assert(b.remove(k).to_multiset() == b.to_multiset().remove(x));
        assert(a.drop_last().to_multiset() == a.to_multiset().remove(x));
        lemma_resolved_size_order_independent(a.drop_last(), b.remove(k));
    }
}

proof fn lemma_counts_bounded(outcomes: Seq<CopyOutcome>)
    ensures
        0 <= count_copied(outcomes) <= outcomes.len(),
        0 <= count_skipped(outcomes) <= outcomes.len(),
    decreases outcomes.len(),
{
    if outcomes.len() > 0 {
        lemma_counts_bounded(outcomes.drop_last());
    }
}

/// The checked sum of the sizes of a listing: `None` where it exceeds `u64`.
pub fn total_size(files: &Vec<MtpFile>) -> (r: Option<u64>)
    ensures
        r is Some <==> sum_sizes(files@) <= u64::MAX,
        r matches Some(t) ==> t == sum_sizes(files@),
{
    let mut total: u64 = 0;
    let mut i: usize = 0;
    while i < files.len()
        invariant
            i <= files@.len(),
            total == sum_sizes(files@.subrange(0, i as int)),
        decreases files.len() - i,
    {
        assert(files@.subrange(0, i + 1).drop_last() == files@.subrange(0, i as int));
        if total > u64::MAX - files[i].size {
            proof {
                lemma_sum_sizes_split(files@, i + 1);
                lemma_sum_sizes_nonneg(files@.subrange(i + 1, files@.len() as int));
            }
            return None;
        }
        total = total + files[i].size;
        i = i + 1;
    }
    assert(files@.subrange(0, i as int) == files@);
    Some(total)
}

/// The counts and sizes of a run so far.
#[derive(Debug)]
pub struct RunStatistics {
    pub total_files: usize,
    /// The bytes of all files of the run.
    pub original_size: u64,
    /// The bytes of all files less those skipped or failed: the measure of
    /// progress.
    pub remaining_size: u64,
    pub copied_size: u64,
    pub copied_files: usize,
    pub skipped_files: usize,
    pub errored_files: Vec<String>,
}

/// One run of copies over a sorted listing.
pub struct CopyRun {
    files: Vec<MtpFile>,
    next: usize,
    aborted: bool,
    keep_going: bool,
    target_root: String,
    date: RefDate,
    album_name: Option<String>,
    stats: RunStatistics,
    outcomes: Ghost<Seq<CopyOutcome>>,
}

impl CopyRun {
    pub closed spec fn spec_files(self) -> Seq<MtpFile> {
        self.files@
    }

    /// The outcomes recorded so far, one per file from the first.
    pub closed spec fn spec_outcomes(self) -> Seq<CopyOutcome> {
        self.outcomes@
    }

    pub closed spec fn spec_aborted(self) -> bool {
        self.aborted
    }

    pub closed spec fn spec_keep_going(self) -> bool {
        self.keep_going
    }

    pub closed spec fn spec_target_root(self) -> Seq<char> {
        self.target_root@
    }

    pub closed spec fn spec_date(self) -> RefDate {
        self.date
    }

    pub closed spec fn spec_album_name(self) -> Option<Seq<char>> {
        match self.album_name {
            Some(a) => Some(a@),
            None => None,
        }
    }

    pub closed spec fn spec_stats(self) -> RunStatistics {
        self.stats
    }

    /// Whether the run has no file left to transfer.
    pub open spec fn spec_finished(self) -> bool {
        self.spec_aborted() || self.spec_outcomes().len() == self.spec_files().len()
    }

    pub closed spec fn wf(self) -> bool {
        let steps = run_steps(self.files@, self.outcomes@);
        &&& self.next == self.outcomes@.len()
        &&& self.next <= self.files@.len()
        &&& self.date.wf()
        &&& self.stats.total_files == self.files@.len()
        &&& self.stats.original_size == sum_sizes(self.files@)
        &&& self.stats.remaining_size == self.stats.original_size - resolved_size(steps)
        &&& self.stats.copied_size == copied_size(steps)
        &&& self.stats.copied_files == count_copied(self.outcomes@)
        &&& self.stats.skipped_files == count_skipped(self.outcomes@)
        &&& names_of(self.stats.errored_files@) == errored_names(self.files@, self.outcomes@)
        &&& self.aborted ==> !self.keep_going && self.next > 0 && self.outcomes@.last() is Errored
        &&& self.stats.copied_size <= self.stats.remaining_size
        &&& self.stats.remaining_size == sum_sizes(self.files@.subrange(self.next as int, self.files@.len() as int)) + self.stats.copied_size
    }
}

impl CopyRun {
    /// Starts a run over a listing, which it puts in run order. The files go
    /// under `target_root`, in the album of `date`, named after `album_name`
    /// where one is given. With `keep_going`, a failed file is tallied and the
    /// run goes on; without it, the run stops at the first failure.
    pub fn new(
        files: Vec<MtpFile>,
        target_root: String,
        date: RefDate,
        album_name: Option<String>,
        keep_going: bool,
    ) -> (r: CopyRun)
        requires
            date.wf(),
            sum_sizes(files@) <= u64::MAX,
        ensures
            r.wf(),
            r.spec_files() == sorted_listing(files@),
            r.spec_outcomes() == Seq::<CopyOutcome>::empty(),
            !r.spec_aborted(),
            r.spec_keep_going() == keep_going,
            r.spec_target_root() == target_root@,
            r.spec_date() == date,
            r.spec_album_name() == opt_string_view(album_name),
            r.spec_stats().total_files == files@.len(),
            r.spec_stats().original_size == sum_sizes(files@),
            r.spec_stats().remaining_size == sum_sizes(files@),
            r.spec_stats().copied_size == 0,
            r.spec_stats().copied_files == 0,
            r.spec_stats().skipped_files == 0,
            r.spec_stats().errored_files@.len() == 0,
    {
        let ghost orig = files@;
        let mut files = files;
        sort_files(&mut files);
        proof {
            lemma_sorted_listing(orig);
            lemma_sum_sizes_permutation(orig, files@);
            broadcast use vstd::seq_lib::group_to_multiset_ensures;
            assert(orig.to_multiset().len() == orig.len());
            assert(files@.to_multiset().len() == files@.len());
            assert(files@.subrange(0, files@.len() as int) == files@);
        }
        let total = total_size(&files);
        let original_size = match total {
            Some(t) => t,
            None => 0,
        };
        let stats = RunStatistics {
            total_files: files.len(),
            original_size,
            remaining_size: original_size,
            copied_size: 0,
            copied_files: 0,
            skipped_files: 0,
            errored_files: Vec::new(),
        };
        let r = CopyRun {
            files,
            next: 0,
            aborted: false,
            keep_going,
            target_root,
            date,
            album_name,
            stats,
            outcomes: Ghost(Seq::empty()),
        };
        assert(names_of(r.stats.errored_files@) == Seq::<Seq<char>>::empty());
        r
    }

    /// The index of the file to transfer next, or `None` where the run is over.
    pub fn next_index(&self) -> (r: Option<usize>)
        requires
            self.wf(),
        ensures
            r is None <==> self.spec_finished(),
            r matches Some(i) ==> i == self.spec_outcomes().len() && i < self.spec_files().len(),
    {
        if self.aborted || self.next >= self.files.len() {
            None
        } else {
            Some(self.next)
        }
    }

    /// The number of files of the run.
    pub fn len(&self) -> (r: usize)
        ensures
            r == self.spec_files().len(),
    {
        self.files.len()
    }

    /// The file at `i` in run order.
    pub fn file(&self, i: usize) -> (r: &MtpFile)
        requires
            i < self.spec_files().len(),
        ensures
            *r == self.spec_files()[i as int],
    {
        &self.files[i]
    }

    /// Where the file at `i` goes.
    pub fn destination(&self, i: usize) -> (r: String)
        requires
            self.wf(),
            i < self.spec_files().len(),
        ensures
            r@ == destination(
                self.spec_target_root(),
                self.spec_files()[i as int].file_type.spec_out_path_segment(),
                year_text(self.spec_date().year),
                album_segment(self.spec_date().spec_iso_text(), self.spec_album_name()),
                self.spec_files()[i as int].name@,
            ),
    {
        let album: Option<&str> = match &self.album_name {
            Some(a) => Some(a.as_str()),
            None => None,
        };
        build_path(self.target_root.as_str(), &self.files[i], &self.date, album)
    }

    /// The counts and sizes so far.
    pub fn stats(&self) -> (r: &RunStatistics)
        ensures
            *r == self.spec_stats(),
    {
        &self.stats
    }

    /// Ends the run and hands over its counts and sizes.
    pub fn into_stats(self) -> (r: RunStatistics)
        ensures
            r == self.spec_stats(),
    {
        self.stats
    }

    /// Records how the transfer of the next file ended, and says whether the
    /// run goes on. A copied file adds its bytes to those copied; a skipped
    /// or failed one takes them off the remaining size; a failed one is named
    /// in the list of failures and, unless the run keeps going, ends the run.
    pub fn record(&mut self, outcome: CopyOutcome) -> (r: RunStep)
        requires
            old(self).wf(),
            !old(self).spec_finished(),
        ensures
            final(self).wf(),
            ({
                let i = old(self).spec_outcomes().len();
                let f = old(self).spec_files()[i as int];
                let s0 = old(self).spec_stats();
                let s1 = final(self).spec_stats();
                &&& final(self).spec_files() == old(self).spec_files()
                &&& final(self).spec_outcomes() == old(self).spec_outcomes().push(outcome)
                &&& final(self).spec_keep_going() == old(self).spec_keep_going()
                &&& final(self).spec_target_root() == old(self).spec_target_root()
                &&& final(self).spec_date() == old(self).spec_date()
                &&& final(self).spec_album_name() == old(self).spec_album_name()
                &&& s1.total_files == s0.total_files
                &&& s1.original_size == s0.original_size
                &&& s1.copied_size == s0.copied_size + if outcome is Copied { f.size as int } else { 0 }
                &&& s1.remaining_size == s0.remaining_size - if outcome is Copied { 0 } else { f.size as int }
                &&& s1.copied_files == s0.copied_files + if outcome is Copied { 1int } else { 0 }
                &&& s1.skipped_files == s0.skipped_files + if outcome is Skipped { 1int } else { 0 }
                &&& outcome is Errored ==> s1.errored_files@ == s0.errored_files@.push(f.name)
                &&& !(outcome is Errored) ==> s1.errored_files@ == s0.errored_files@
                &&& final(self).spec_aborted() == (outcome is Errored && !old(self).spec_keep_going())
                &&& (r == RunStep::Abort) == (outcome is Errored && !old(self).spec_keep_going())
            }),
    {
        let i = self.next;
        let ghost files = self.files@;
        let ghost outs = self.outcomes@;
        let ghost n = files.len() as int;
        let size = self.files[i].size;
        proof {
            lemma_sum_sizes_first(files.subrange(i as int, n));
            assert(files.subrange(i as int, n).drop_first() == files.subrange(i + 1, n));
            lemma_sum_sizes_nonneg(files.subrange(i + 1, n));
            lemma_counts_bounded(outs);
            let steps1 = run_steps(files, outs.push(outcome));
            assert(steps1.drop_last() == run_steps(files, outs));
            assert(outs.push(outcome).drop_last() == outs);
        }
        let step = match outcome {
            CopyOutcome::Copied => {
                self.stats.copied_size = self.stats.copied_size + size;
                self.stats.copied_files = self.stats.copied_files + 1;
                RunStep::Continue
            },
            CopyOutcome::Skipped => {
                self.stats.remaining_size = self.stats.remaining_size - size;
                self.stats.skipped_files = self.stats.skipped_files + 1;
                RunStep::Continue
            },
            CopyOutcome::Errored(_) => {
                self.stats.remaining_size = self.stats.remaining_size - size;
                let name = self.files[i].name.clone();
                self.stats.errored_files.push(name);
                proof {
                    assert(names_of(self.stats.errored_files@) == names_of(
                        old(self).stats.errored_files@,
                    ).push(files[i as int].name@));
                }
                if self.keep_going {
                    RunStep::Continue
                } else {
                    self.aborted = true;
                    RunStep::Abort
                }
            },
        };
        self.next = i + 1;
        self.outcomes = Ghost(outs.push(outcome));
        step
    }
}

/// The progress of a run in hundredths of a percent: the bytes copied over the
/// bytes that remain to be handled, skipped and failed files left out. Zero
/// where nothing remains.
pub open spec fn spec_progress(copied: int, remaining: int) -> int {
    if remaining == 0 {
        0
    } else {
        copied * 10000 / remaining
    }
}

/// The time still to go, in the unit of `elapsed`, at the pace so far:
/// `elapsed / p * (100 - p)` with `p` the percentage done, which is
/// `elapsed * (remaining - copied) / copied`. Unknown while nothing is copied.
pub open spec fn spec_eta(elapsed: int, copied: int, remaining: int) -> Option<int> {
    if copied == 0 {
        None
    } else {
        Some(elapsed * (remaining - copied) / copied)
    }
}

/// Bytes copied per second; a run shorter than a second counts as one second.
pub open spec fn spec_speed(copied: int, elapsed_secs: int) -> int {
    if elapsed_secs == 0 {
        copied
    } else {
        copied / elapsed_secs
    }
}

impl RunStatistics {
    /// The progress in hundredths of a percent.
    pub fn progress_hundredths(&self) -> (r: u64)
        requires
            self.copied_size <= self.remaining_size,
        ensures
            r == spec_progress(self.copied_size as int, self.remaining_size as int),
            r <= 10000,
    {
        if self.remaining_size == 0 {
            0
        } else {
            let c = self.copied_size as u128;
            let m = self.remaining_size as u128;
            assert(c * 10000 <= m * 10000) by (nonlinear_arith)
                requires c <= m;
            let p = c * 10000 / m;
            proof {
                let ci = c as int;
                let mi = m as int;
                vstd::arithmetic::div_mod::lemma_div_is_ordered(ci * 10000, mi * 10000, mi);
                vstd::arithmetic::div_mod::lemma_div_multiples_vanish(10000, mi);
                assert(mi * 10000 == 10000 * mi) by (nonlinear_arith);
            }
            p as u64
        }
    }

    /// The expected time to go, in the unit of `elapsed`.
    pub fn eta(&self, elapsed: u64) -> (r: Option<u128>)
        requires
            self.copied_size <= self.remaining_size,
        ensures
            r matches Some(t) ==> spec_eta(elapsed as int, self.copied_size as int, self.remaining_size as int) == Some(t as int),
            r is None ==> spec_eta(elapsed as int, self.copied_size as int, self.remaining_size as int) is None,
    {
        if self.copied_size == 0 {
            None
        } else {
            let e = elapsed as u128;
            let rest = (self.remaining_size - self.copied_size) as u128;
            assert(e * rest <= u64::MAX * u64::MAX) by (nonlinear_arith)
                requires e <= u64::MAX, rest <= u64::MAX;
            Some(e * rest / (self.copied_size as u128))
        }
    }

    /// The average speed of the copies, in bytes per second.
    pub fn average_speed(&self, elapsed_secs: u64) -> (r: u64)
        ensures
            r == spec_speed(self.copied_size as int, elapsed_secs as int),
    {
        if elapsed_secs == 0 {
            self.copied_size
        } else {
            self.copied_size / elapsed_secs
        }
    }
}

impl CopyRun {
    /// The remaining size is the original size less the bytes of the files
    /// skipped or failed so far, and the copied size is the bytes of the
    /// files copied; no more can have been copied than remains.
    pub proof fn lemma_accounting(&self)
        requires
            self.wf(),
        ensures
            self.spec_stats().remaining_size == self.spec_stats().original_size - resolved_size(
                run_steps(self.spec_files(), self.spec_outcomes()),
            ),
            self.spec_stats().copied_size == copied_size(
                run_steps(self.spec_files(), self.spec_outcomes()),
            ),
            self.spec_stats().original_size == sum_sizes(self.spec_files()),
            self.spec_stats().copied_size <= self.spec_stats().remaining_size,
            self.spec_stats().copied_files == count_copied(self.spec_outcomes()),
            self.spec_stats().skipped_files == count_skipped(self.spec_outcomes()),
            names_of(self.spec_stats().errored_files@) == errored_names(
                self.spec_files(),
                self.spec_outcomes(),
            ),
    {
    }
}

} // verus!
