use vstd::prelude::*;
use crate::files::{text_at, text_view, Files};
use crate::mount::{MountInfo, MountInfoView};
use crate::path::{
    component_ranges, components, path_text, push_path, pushed, rest_text, same_window,
    strip_prefix,
};
use crate::subsys::{Subsys, SubsysView};
use crate::text::{
    chars_of, line_ranges, lines, parse_number, parse_range, ranges_within, split, split_ranges,
    trim, trim_range, windows,
};
use crate::version::CgroupVersion;

verus! {

/// The directory in the filesystem that holds the control files of one
/// control group.
pub struct Cgroup {
    pub version: CgroupVersion,
    pub base: String,
}

/// What a [`Cgroup`] denotes.
pub ghost struct CgroupView {
    pub version: CgroupVersion,
    pub base: Seq<char>,
}

impl View for Cgroup {
    type V = CgroupView;

    open spec fn view(&self) -> CgroupView {
        CgroupView { version: self.version, base: self.base@ }
    }
}

/// The view of an optional control group.
pub open spec fn cgroup_view(c: Option<Cgroup>) -> Option<CgroupView> {
    match c {
        Some(c) => Some(c@),
        None => None,
    }
}

/// The directory of the control group `subsys` as seen through the mount
/// `mount`: the mount point, followed by what is left of the group's path
/// once the root of the mount is taken from its front. There is none when
/// the group does not lie under that root.
pub open spec fn translated(mount: MountInfoView, subsys: SubsysView) -> Option<CgroupView> {
    match strip_prefix(subsys.base, mount.root) {
        Some(rest) => Some(
            CgroupView { version: mount.version, base: pushed(mount.mount_point, path_text(rest)) },
        ),
        None => None,
    }
}

/// The text recorded for the control file `param` of a control group.
pub open spec fn raw_text(
    cgroup: CgroupView,
    files: Map<Seq<char>, Option<Seq<char>>>,
    param: Seq<char>,
) -> Option<Seq<char>> {
    text_at(files, pushed(cgroup.base, param))
}

/// The number that `s` spells, if it spells one that fits the machine word.
pub open spec fn word_in(s: Seq<char>) -> Option<usize> {
    match parse_number(s, usize::MAX as nat) {
        Some(n) => Some(n as usize),
        None => None,
    }
}

/// The number held by a control file whose whole text, but for white space
/// around it, is one number.
pub open spec fn number_in(text: Option<Seq<char>>) -> Option<usize> {
    match text {
        Some(t) => word_in(trim(t)),
        None => None,
    }
}

/// The quota and the period held by a control file whose first line starts
/// with two numbers, one space between them.
pub open spec fn pair_in(text: Option<Seq<char>>) -> Option<(usize, usize)> {
    match text {
        Some(t) => {
            let rows = lines(t);
            if rows.len() == 0 {
                None
            } else {
                let f = split(rows[0], ' ');
                if f.len() < 2 {
                    None
                } else {
                    match (word_in(f[0]), word_in(f[1])) {
                        (Some(quota), Some(period)) => Some((quota, period)),
                        _ => None,
                    }
                }
            }
        },
        None => None,
    }
}

/// `quota / period`, rounded up. Meant for `period > 0`.
pub open spec fn ceil_div(quota: nat, period: nat) -> nat {
    if quota % period == 0 {
        quota / period
    } else {
        quota / period + 1
    }
}

/// The number of CPUs that a quota of `quota` time units in every `period`
/// time units pays for. A period of zero grants nothing that can be counted.
pub open spec fn quota_cpus(quota: usize, period: usize) -> Option<usize> {
    if period == 0 {
        None
    } else {
        Some(ceil_div(quota as nat, period as nat) as usize)
    }
}

/// The quota and the period that the control files of `cgroup` state.
pub open spec fn quota_and_period(
    cgroup: CgroupView,
    files: Map<Seq<char>, Option<Seq<char>>>,
) -> Option<(usize, usize)> {
    match cgroup.version {
        CgroupVersion::V1 => match (
            number_in(raw_text(cgroup, files, "cpu.cfs_quota_us"@)),
            number_in(raw_text(cgroup, files, "cpu.cfs_period_us"@)),
        ) {
            (Some(quota), Some(period)) => Some((quota, period)),
            _ => None,
        },
        CgroupVersion::V2 => pair_in(raw_text(cgroup, files, "cpu.max"@)),
    }
}

/// The number of CPUs that the quota of `cgroup` pays for, as far as the
/// recorded control files state one.
pub open spec fn cpu_quota_of(
    cgroup: CgroupView,
    files: Map<Seq<char>, Option<Seq<char>>>,
) -> Option<usize> {
    match quota_and_period(cgroup, files) {
        Some((quota, period)) => quota_cpus(quota, period),
        None => None,
    }
}

/// The control file that has to be read next before the quota of `cgroup`
/// can be told, or `None` when the record settles it.
///
/// For the first generation the quota file comes first, and the period file
/// is wanted only if the quota file holds a number. For the unified hierarchy
/// there is one file.
pub open spec fn wanted_param(
    cgroup: CgroupView,
    files: Map<Seq<char>, Option<Seq<char>>>,
) -> Option<Seq<char>> {
    match cgroup.version {
        CgroupVersion::V1 => {
            let quota = pushed(cgroup.base, "cpu.cfs_quota_us"@);
            let period = pushed(cgroup.base, "cpu.cfs_period_us"@);
            if !files.dom().contains(quota) {
                Some(quota)
            } else if number_in(text_at(files, quota)) is None {
                None
            } else if !files.dom().contains(period) {
                Some(period)
            } else {
                None
            }
        },
        CgroupVersion::V2 => {
            let max = pushed(cgroup.base, "cpu.max"@);
            if !files.dom().contains(max) {
                Some(max)
            } else {
                None
            }
        },
    }
}

/// An upper bound on the control files that are still to be read before the
/// quota of `cgroup` can be told.
pub open spec fn param_reads_left(
    cgroup: CgroupView,
    files: Map<Seq<char>, Option<Seq<char>>>,
) -> nat {
    match cgroup.version {
        CgroupVersion::V1 => {
            let quota = pushed(cgroup.base, "cpu.cfs_quota_us"@);
            let period = pushed(cgroup.base, "cpu.cfs_period_us"@);
            if !files.dom().contains(quota) {
                2
            } else if number_in(text_at(files, quota)) is None {
                0
            } else if !files.dom().contains(period) {
                1
            } else {
                0
            }
        },
        CgroupVersion::V2 => {
            if !files.dom().contains(pushed(cgroup.base, "cpu.max"@)) {
                1
            } else {
                0
            }
        },
    }
}

/// `ceil_div` is the least count of whole periods that covers the quota.
pub proof fn lemma_ceil_div(quota: nat, period: nat)
    requires
        period > 0,
    ensures
        ceil_div(quota, period) * period >= quota,
        quota > 0 ==> (ceil_div(quota, period) - 1) * period < quota,
        quota == 0 ==> ceil_div(quota, period) == 0,
        ceil_div(quota, period) <= quota,
{
    assert(quota == (quota / period) * period + quota % period && 0 <= quota % period < period
        && quota / period <= quota && (quota > 0 && quota % period == 0 ==> quota / period > 0))
        by (nonlinear_arith)
        requires
            period > 0,
    ;
    assert((quota / period + 1) * period == (quota / period) * period + period
        && (quota / period - 1) * period == (quota / period) * period - period)
        by (nonlinear_arith);
    assert(quota % period != 0 ==> quota / period < quota) by (nonlinear_arith)
        requires
            period > 0,
    ;
}

/// Whether `count` whole periods are at least as long as the quota.
pub open spec fn covers(count: nat, quota: nat, period: nat) -> bool {
    count * period >= quota
}

/// Where the control files state a quota and a period that is not zero, the
/// count of CPUs is their quotient rounded up: the least count of whole
/// periods that covers the quota. It is never rounded down.
pub proof fn lemma_quota_rounds_up(
    cgroup: CgroupView,
    files: Map<Seq<char>, Option<Seq<char>>>,
    quota: usize,
    period: usize,
)
    requires
        quota_and_period(cgroup, files) == Some((quota, period)),
        period > 0,
    ensures
        cpu_quota_of(cgroup, files) is Some,
        covers(cpu_quota_of(cgroup, files)->0 as nat, quota as nat, period as nat),
        forall|n: nat| #[trigger]
            covers(n, quota as nat, period as nat) ==> n >= cpu_quota_of(cgroup, files)->0,
{
    lemma_ceil_div(quota as nat, period as nat);
    let c = ceil_div(quota as nat, period as nat);
    assert forall|n: nat| #[trigger] covers(n, quota as nat, period as nat) implies n >= c by {
        if n < c {
            assert(n * period <= (c - 1) * period) by (nonlinear_arith)
                requires
                    n <= c - 1,
                    period > 0,
            ;
        }
    }
}

/// Where the control files state a period of zero, no count of CPUs is
/// told, whatever the quota.
pub proof fn lemma_zero_period(
    cgroup: CgroupView,
    files: Map<Seq<char>, Option<Seq<char>>>,
    quota: usize,
)
    requires
        quota_and_period(cgroup, files) == Some((quota, 0usize)),
    ensures
        cpu_quota_of(cgroup, files) is None,
{
}

/// Reads the number that the part of `chars` cut out by `r` spells.
fn word_of(chars: &Vec<char>, r: (usize, usize)) -> (out: Option<usize>)
    requires
        r.0 <= r.1 <= chars.len(),
    ensures
        out == word_in(chars@.subrange(r.0 as int, r.1 as int)),
{
    match parse_range(chars, r, usize::MAX as u64) {
        Some(n) => Some(n as usize),
        None => None,
    }
}

/// The number of CPUs that a quota of `quota` in every `period` pays for.
pub fn cpus_for(quota: usize, period: usize) -> (out: Option<usize>)
    ensures
        out == quota_cpus(quota, period),
{
    if period == 0 {
        return None;
    }
    proof {
        lemma_ceil_div(quota as nat, period as nat);
    }
    if quota % period == 0 {
        Some(quota / period)
    } else {
        Some(quota / period + 1)
    }
}

impl Cgroup {
    /// The control group of the given version whose control files lie in
    /// `dir`.
    pub fn new(version: CgroupVersion, dir: String) -> (out: Cgroup)
        ensures
            out.version == version,
            out.base == dir,
    {
        Cgroup { version, base: dir }
    }

    /// Finds the directory of the control group `subsys` under the mount
    /// `mntinfo`. The two must be of the same version: a group is never
    /// looked up under a mount of the other generation.
    pub fn translate(mntinfo: MountInfo, subsys: Subsys) -> (out: Option<Cgroup>)
        requires
            mntinfo.version == subsys.version,
        ensures
            cgroup_view(out) == translated(mntinfo@, subsys@),
    {
        let path = subsys.base.as_str();
        let path_chars = chars_of(path);
        let root_chars = chars_of(mntinfo.root.as_str());
        let p = component_ranges(&path_chars);
        let q = component_ranges(&root_chars);
        let ghost pc = components(subsys.base@);
        let ghost qc = components(mntinfo.root@);
        if q.len() > p.len() {
            return None;
        }
        let mut k: usize = 0;
        while k < q.len()
            invariant
                k <= q.len() <= p.len(),
                pc == components(subsys.base@),
                qc == components(mntinfo.root@),
                windows(path_chars@, p@) == pc,
                windows(root_chars@, q@) == qc,
                ranges_within(p@, 0, path_chars.len() as int),
                ranges_within(q@, 0, root_chars.len() as int),
                pc.take(k as int) == qc.take(k as int),
            decreases q.len() - k,
        {
            assert(pc[k as int] == path_chars@.subrange(p@[k as int].0 as int, p@[k as int].1 as int));
            assert(qc[k as int] == root_chars@.subrange(q@[k as int].0 as int, q@[k as int].1 as int));
            if !same_window(&path_chars, p[k], &root_chars, q[k]) {
                assert(pc.take(q.len() as int)[k as int] != qc[k as int]);
                return None;
            }
            assert(pc.take(k + 1) =~= pc.take(k as int).push(pc[k as int]));
            assert(qc.take(k + 1) =~= qc.take(k as int).push(qc[k as int]));
            k = k + 1;
        }
        assert(qc.take(k as int) == qc);
        let rest = rest_text(path, &path_chars, &p, q.len());
        let dir = push_path(mntinfo.mount_point, rest.as_str());
        Some(Cgroup::new(mntinfo.version, dir))
    }

    /// The number of CPUs that the quota of this control group pays for.
    pub fn cpu_quota(&self, files: &Files) -> (out: Option<usize>)
        ensures
            out == cpu_quota_of(self@, files@),
    {
        let (quota_us, period_us) = match self.version {
            CgroupVersion::V1 => {
                let quota = match self.quota_us(files) {
                    Some(quota) => quota,
                    None => {
                        return None;
                    },
                };
                let period = match self.period_us(files) {
                    Some(period) => period,
                    None => {
                        return None;
                    },
                };
                (quota, period)
            },
            CgroupVersion::V2 => match self.max(files) {
                Some(pair) => pair,
                None => {
                    return None;
                },
            },
        };
        cpus_for(quota_us, period_us)
    }

    /// The control file that has to be read and recorded next before
    /// [`Cgroup::cpu_quota`] can tell the quota, if there is one.
    pub fn next_read(&self, files: &Files) -> (out: Option<String>)
        ensures
            text_view(out) == wanted_param(self@, files@),
            out matches Some(path) ==> !files@.dom().contains(path@),
    {
        match self.version {
            CgroupVersion::V1 => {
                let quota = push_path(self.base.clone(), "cpu.cfs_quota_us");
                if !files.knows(quota.as_str()) {
                    return Some(quota);
                }
                if self.quota_us(files).is_none() {
                    return None;
                }
                let period = push_path(self.base.clone(), "cpu.cfs_period_us");
                if !files.knows(period.as_str()) {
                    return Some(period);
                }
                None
            },
            CgroupVersion::V2 => {
                let max = push_path(self.base.clone(), "cpu.max");
                if !files.knows(max.as_str()) {
                    return Some(max);
                }
                None
            },
        }
    }

    /// The quota of a control group of the first generation.
    pub fn quota_us(&self, files: &Files) -> (out: Option<usize>)
        ensures
            out == number_in(raw_text(self@, files@, "cpu.cfs_quota_us"@)),
    {
        self.param(files, "cpu.cfs_quota_us")
    }

    /// The period of a control group of the first generation.
    pub fn period_us(&self, files: &Files) -> (out: Option<usize>)
        ensures
            out == number_in(raw_text(self@, files@, "cpu.cfs_period_us"@)),
    {
        self.param(files, "cpu.cfs_period_us")
    }

    /// The quota and the period of a control group of the unified
    /// hierarchy.
    pub fn max(&self, files: &Files) -> (out: Option<(usize, usize)>)
        ensures
            out == pair_in(raw_text(self@, files@, "cpu.max"@)),
    {
        let text = match self.raw_param(files, "cpu.max") {
            Some(text) => text,
            None => {
                return None;
            },
        };
        let chars = chars_of(text.as_str());
        let rows = line_ranges(&chars);
        if rows.len() == 0 {
            return None;
        }
        let row = rows[0];
        assert(lines(text@)[0] == chars@.subrange(row.0 as int, row.1 as int));
        let fields = split_ranges(&chars, row.0, row.1, ' ');
        let ghost f = split(chars@.subrange(row.0 as int, row.1 as int), ' ');
        if fields.len() < 2 {
            return None;
        }
        assert(f[0] == chars@.subrange(fields@[0].0 as int, fields@[0].1 as int));
        assert(f[1] == chars@.subrange(fields@[1].0 as int, fields@[1].1 as int));
        let quota = match word_of(&chars, fields[0]) {
            Some(quota) => quota,
            None => {
                return None;
            },
        };
        let period = match word_of(&chars, fields[1]) {
            Some(period) => period,
            None => {
                return None;
            },
        };
        Some((quota, period))
    }

    /// The number held by the control file `param`.
    pub fn param(&self, files: &Files, param: &str) -> (out: Option<usize>)
        ensures
            out == number_in(raw_text(self@, files@, param@)),
    {
        let text = match self.raw_param(files, param) {
            Some(text) => text,
            None => {
                return None;
            },
        };
        let chars = chars_of(text.as_str());
        assert(chars@.subrange(0, chars.len() as int) == text@);
        let r = trim_range(&chars, (0, chars.len()));
        word_of(&chars, r)
    }

    /// The text recorded for the control file `param`.
    pub fn raw_param(&self, files: &Files, param: &str) -> (out: Option<String>)
        ensures
            text_view(out) == raw_text(self@, files@, param@),
    {
        let path = push_path(self.base.clone(), param);
        match files.read(path.as_str()) {
            Some(text) => Some(text.clone()),
            None => None,
        }
    }
}

} // verus!
