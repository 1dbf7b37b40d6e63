use vstd::prelude::*;
use crate::files::{text_view, Files};
use crate::resolve::{lemma_settled, load_cgroups, load_cgroups_of, next_read, wanted};

verus! {

/// The count of CPUs that the quota pays for, found once and kept for the
/// life of the process.
///
/// Its view is `None` while the search has not been made, and `Some(0)` when
/// it was made and found no quota. The count cannot be set from outside: it
/// is written by the first search and stays as it is from then on.
pub struct QuotaCache {
    cpus: Option<usize>,
}

impl View for QuotaCache {
    type V = Option<usize>;

    closed spec fn view(&self) -> Option<usize> {
        self.cpus
    }
}

/// Where the kernel shows the control groups that the calling process
/// belongs to.
pub open spec fn proc_cgroup() -> Seq<char> {
    "/proc/self/cgroup"@
}

/// Where the kernel shows the mounts that the calling process sees.
pub open spec fn proc_mountinfo() -> Seq<char> {
    "/proc/self/mountinfo"@
}

/// The smaller of two counts.
pub open spec fn least(a: usize, b: usize) -> usize {
    if a <= b {
        a
    } else {
        b
    }
}

/// The count that a search made now would keep: the CPUs that the quota pays
/// for, but no more than the `logical` CPUs that the process may run on;
/// zero when no quota is found, when the quota pays for no CPU, and always
/// when the filesystem is out of bounds.
pub open spec fn found_cpus(
    files: Map<Seq<char>, Option<Seq<char>>>,
    sandboxed: bool,
    logical: usize,
) -> usize {
    if sandboxed {
        0
    } else {
        match load_cgroups_of(files, proc_cgroup(), proc_mountinfo()) {
            Some(quota) => least(quota, logical),
            None => 0,
        }
    }
}

/// The count that is kept after a search was asked for: the one that was
/// kept before, if there was one, else the one that the search finds.
pub open spec fn kept_cpus(
    before: Option<usize>,
    files: Map<Seq<char>, Option<Seq<char>>>,
    sandboxed: bool,
    logical: usize,
) -> usize {
    match before {
        Some(cpus) => cpus,
        None => found_cpus(files, sandboxed, logical),
    }
}

/// The file that has to be read next before a search can be made, or `None`
/// when nothing has to be read: because the count is kept already, because
/// the filesystem is out of bounds, or because the record settles the search.
pub open spec fn wanted_now(
    before: Option<usize>,
    files: Map<Seq<char>, Option<Seq<char>>>,
    sandboxed: bool,
) -> Option<Seq<char>> {
    if before is Some || sandboxed {
        None
    } else {
        wanted(files, proc_cgroup(), proc_mountinfo())
    }
}

/// The count that a caller is told: the kept count if it is positive, else
/// the count of logical CPUs.
pub open spec fn told_cpus(kept: usize, logical: usize) -> usize {
    if kept > 0 {
        kept
    } else {
        logical
    }
}

/// Once a search was asked for, every later call keeps and tells what the
/// first one kept, whatever the files hold by then, and wants no file read.
pub proof fn lemma_kept_once(
    before: Option<usize>,
    files: Map<Seq<char>, Option<Seq<char>>>,
    sandboxed: bool,
    logical: usize,
    later_files: Map<Seq<char>, Option<Seq<char>>>,
    later_sandboxed: bool,
    later_logical: usize,
)
    ensures
        kept_cpus(
            Some(kept_cpus(before, files, sandboxed, logical)),
            later_files,
            later_sandboxed,
            later_logical,
        ) == kept_cpus(before, files, sandboxed, logical),
        wanted_now(
            Some(kept_cpus(before, files, sandboxed, logical)),
            later_files,
            later_sandboxed,
        ) is None,
        later_logical == logical ==> told_cpus(
            kept_cpus(
                Some(kept_cpus(before, files, sandboxed, logical)),
                later_files,
                later_sandboxed,
                later_logical,
            ),
            later_logical,
        ) == told_cpus(kept_cpus(before, files, sandboxed, logical), logical),
{
}

/// Once no file is wanted, the count that is kept and told does not depend
/// on files that were not read.
pub proof fn lemma_settled_now(
    before: Option<usize>,
    files: Map<Seq<char>, Option<Seq<char>>>,
    more: Map<Seq<char>, Option<Seq<char>>>,
    sandboxed: bool,
    logical: usize,
)
    requires
        wanted_now(before, files, sandboxed) is None,
        files.submap_of(more),
    ensures
        kept_cpus(before, more, sandboxed, logical) == kept_cpus(before, files, sandboxed, logical),
{
    if before is None && !sandboxed {
        lemma_settled(files, more, proc_cgroup(), proc_mountinfo());
    }
}

/// Where the filesystem is out of bounds, no file is wanted and no quota is
/// found.
pub proof fn lemma_sandbox_reads_nothing(
    before: Option<usize>,
    files: Map<Seq<char>, Option<Seq<char>>>,
    logical: usize,
)
    ensures
        wanted_now(before, files, true) is None,
        found_cpus(files, true, logical) == 0,
{
}

/// A quota never raises the count above the logical CPUs, and the count that
/// is told is zero only if there is no logical CPU.
pub proof fn lemma_told_within_logical(
    files: Map<Seq<char>, Option<Seq<char>>>,
    sandboxed: bool,
    logical: usize,
)
    ensures
        found_cpus(files, sandboxed, logical) <= logical,
        told_cpus(found_cpus(files, sandboxed, logical), logical) <= logical,
        logical >= 1 ==> told_cpus(found_cpus(files, sandboxed, logical), logical) >= 1,
        sandboxed ==> told_cpus(found_cpus(files, sandboxed, logical), logical) == logical,
{
}

impl QuotaCache {
    /// A cache for which the search has not been made.
    pub fn new() -> (cache: QuotaCache)
        ensures
            cache@ is None,
    {
        QuotaCache { cpus: None }
    }

    /// The count that is kept, if the search has been made.
    pub fn kept(&self) -> (out: Option<usize>)
        ensures
            out == self@,
    {
        self.cpus
    }

    /// Names the file that has to be read and recorded next before
    /// [`get_num_cpus`] is called, if there is one. Nothing is to be read
    /// once the count is kept, nor when `sandboxed` says that the filesystem
    /// is out of bounds.
    pub fn next_read(&self, files: &Files, sandboxed: bool) -> (out: Option<String>)
        ensures
            text_view(out) == wanted_now(self@, files@, sandboxed),
            out matches Some(path) ==> !files@.dom().contains(path@),
    {
        if self.cpus.is_some() || sandboxed {
            None
        } else {
            next_read(files, "/proc/self/cgroup", "/proc/self/mountinfo")
        }
    }
}

/// Makes the search for the quota unless it was made before, and keeps what
/// it finds. `logical` is the count of CPUs that the process may run on, and
/// `sandboxed` says that the filesystem is out of bounds.
pub fn init_cgroups(cache: &mut QuotaCache, files: &Files, sandboxed: bool, logical: usize)
    ensures
        final(cache)@ == Some(kept_cpus(old(cache)@, files@, sandboxed, logical)),
{
    if cache.cpus.is_some() {
        return ;
    }
    if sandboxed {
        cache.cpus = Some(0);
        return ;
    }
    match load_cgroups(files, "/proc/self/cgroup", "/proc/self/mountinfo") {
        Some(quota) => {
            if quota == 0 {
                cache.cpus = Some(0);
                return ;
            }
            let count = if quota <= logical {
                quota
            } else {
                logical
            };
            cache.cpus = Some(count);
        },
        None => {
            cache.cpus = Some(0);
        },
    }
}

/// The count of CPUs that the quota pays for, if a quota was found. The
/// search is made on the first call only.
pub fn cgroups_num_cpus(
    cache: &mut QuotaCache,
    files: &Files,
    sandboxed: bool,
    logical: usize,
) -> (out: Option<usize>)
    ensures
        final(cache)@ == Some(kept_cpus(old(cache)@, files@, sandboxed, logical)),
        out == if kept_cpus(old(cache)@, files@, sandboxed, logical) > 0 {
            Some(kept_cpus(old(cache)@, files@, sandboxed, logical))
        } else {
            None
        },
{
    init_cgroups(cache, files, sandboxed, logical);
    match cache.cpus {
        Some(cpus) => if cpus > 0 {
            Some(cpus)
        } else {
            None
        },
        None => None,
    }
}

/// The count of CPUs that the process can keep busy: what its quota pays
/// for, capped by the `logical` CPUs that it may run on, or `logical` itself
/// when it has no quota.
pub fn get_num_cpus(cache: &mut QuotaCache, files: &Files, sandboxed: bool, logical: usize) -> (out:
    usize)
    ensures
        final(cache)@ == Some(kept_cpus(old(cache)@, files@, sandboxed, logical)),
        out == told_cpus(kept_cpus(old(cache)@, files@, sandboxed, logical), logical),
        logical >= 1 ==> out >= 1,
        old(cache)@ is None ==> out <= logical,
{
    match cgroups_num_cpus(cache, files, sandboxed, logical) {
        Some(cpus) => cpus,
        None => logical,
    }
}

} // verus!
