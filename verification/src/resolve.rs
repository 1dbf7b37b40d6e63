use vstd::prelude::*;
use crate::cgroup::{cpu_quota_of, param_reads_left, translated, wanted_param, Cgroup};
use crate::files::{text_view, Files};
use crate::mount::{load_mount, MountInfo};
use crate::subsys::{load_subsys, Subsys};

verus! {

/// The number of CPUs that the quota of the calling process pays for, as far
/// as the record tells: the membership file at `cgroup_proc` names the
/// control group, the mount table at `mountinfo_proc` names the mount of the
/// same version, and the control files of the directory that the two lead to
/// state the quota. A step that gives nothing ends the search.
pub open spec fn load_cgroups_of(
    files: Map<Seq<char>, Option<Seq<char>>>,
    cgroup_proc: Seq<char>,
    mountinfo_proc: Seq<char>,
) -> Option<usize> {
    match load_subsys(files, cgroup_proc) {
        Some(subsys) => match load_mount(files, mountinfo_proc, subsys.version) {
            Some(mount) => match translated(mount, subsys) {
                Some(cgroup) => cpu_quota_of(cgroup, files),
                None => None,
            },
            None => None,
        },
        None => None,
    }
}

/// The file that has to be read next before [`load_cgroups_of`] can be told
/// from the record, or `None` when the record settles it. Files are wanted
/// in the order in which the search consults them, and none is wanted after
/// a step that gives nothing.
pub open spec fn wanted(
    files: Map<Seq<char>, Option<Seq<char>>>,
    cgroup_proc: Seq<char>,
    mountinfo_proc: Seq<char>,
) -> Option<Seq<char>> {
    if !files.dom().contains(cgroup_proc) {
        Some(cgroup_proc)
    } else {
        match load_subsys(files, cgroup_proc) {
            Some(subsys) => if !files.dom().contains(mountinfo_proc) {
                Some(mountinfo_proc)
            } else {
                match load_mount(files, mountinfo_proc, subsys.version) {
                    Some(mount) => match translated(mount, subsys) {
                        Some(cgroup) => wanted_param(cgroup, files),
                        None => None,
                    },
                    None => None,
                }
            },
            None => None,
        }
    }
}

/// Once no file is wanted, the record settles the answer: reading more
/// files cannot change it.
pub proof fn lemma_settled(
    files: Map<Seq<char>, Option<Seq<char>>>,
    more: Map<Seq<char>, Option<Seq<char>>>,
    cgroup_proc: Seq<char>,
    mountinfo_proc: Seq<char>,
)
    requires
        wanted(files, cgroup_proc, mountinfo_proc) is None,
        files.submap_of(more),
    ensures
        load_cgroups_of(more, cgroup_proc, mountinfo_proc) == load_cgroups_of(
            files,
            cgroup_proc,
            mountinfo_proc,
        ),
        wanted(more, cgroup_proc, mountinfo_proc) is None,
{
}

/// An upper bound on the files that are still to be read before
/// [`load_cgroups_of`] can be told from the record.
pub open spec fn reads_left(
    files: Map<Seq<char>, Option<Seq<char>>>,
    cgroup_proc: Seq<char>,
    mountinfo_proc: Seq<char>,
) -> nat {
    if !files.dom().contains(cgroup_proc) {
        4
    } else {
        match load_subsys(files, cgroup_proc) {
            Some(subsys) => if !files.dom().contains(mountinfo_proc) {
                3
            } else {
                match load_mount(files, mountinfo_proc, subsys.version) {
                    Some(mount) => match translated(mount, subsys) {
                        Some(cgroup) => param_reads_left(cgroup, files),
                        None => 0,
                    },
                    None => 0,
                }
            },
            None => 0,
        }
    }
}

/// Reading what is wanted and recording it, whatever the read gives, always
/// comes to an end: a file that is wanted is not in the record yet, at most
/// four files are read, and each read leaves fewer to go.
pub proof fn lemma_reads_end(
    files: Map<Seq<char>, Option<Seq<char>>>,
    cgroup_proc: Seq<char>,
    mountinfo_proc: Seq<char>,
    outcome: Option<Seq<char>>,
)
    ensures
        reads_left(files, cgroup_proc, mountinfo_proc) <= 4,
        wanted(files, cgroup_proc, mountinfo_proc) matches Some(path) ==> !files.dom().contains(
            path,
        ),
        wanted(files, cgroup_proc, mountinfo_proc) is None <==> reads_left(
            files,
            cgroup_proc,
            mountinfo_proc,
        ) == 0,
        wanted(files, cgroup_proc, mountinfo_proc) matches Some(path) ==> reads_left(
            files.insert(path, outcome),
            cgroup_proc,
            mountinfo_proc,
        ) < reads_left(files, cgroup_proc, mountinfo_proc),
{
}

/// Tells the number of CPUs that the quota of the calling process pays for
/// from what has been read so far. A file that is not in the record counts
/// as one that cannot be read.
pub fn load_cgroups(files: &Files, cgroup_proc: &str, mountinfo_proc: &str) -> (out: Option<usize>)
    ensures
        out == load_cgroups_of(files@, cgroup_proc@, mountinfo_proc@),
{
    let subsys = match Subsys::load_cpu(files, cgroup_proc) {
        Some(subsys) => subsys,
        None => {
            return None;
        },
    };
    let mntinfo = match MountInfo::load_cpu(files, mountinfo_proc, subsys.version) {
        Some(mntinfo) => mntinfo,
        None => {
            return None;
        },
    };
    let cgroup = match Cgroup::translate(mntinfo, subsys) {
        Some(cgroup) => cgroup,
        None => {
            return None;
        },
    };
    cgroup.cpu_quota(files)
}

/// Names the file that has to be read and recorded next before
/// [`load_cgroups`] can give its answer, if there is one.
pub fn next_read(files: &Files, cgroup_proc: &str, mountinfo_proc: &str) -> (out: Option<String>)
    ensures
        text_view(out) == wanted(files@, cgroup_proc@, mountinfo_proc@),
        out matches Some(path) ==> !files@.dom().contains(path@),
{
    if !files.knows(cgroup_proc) {
        return Some(cgroup_proc.to_owned());
    }
    let subsys = match Subsys::load_cpu(files, cgroup_proc) {
        Some(subsys) => subsys,
        None => {
            return None;
        },
    };
    if !files.knows(mountinfo_proc) {
        return Some(mountinfo_proc.to_owned());
    }
    let mntinfo = match MountInfo::load_cpu(files, mountinfo_proc, subsys.version) {
        Some(mntinfo) => mntinfo,
        None => {
            return None;
        },
    };
    let cgroup = match Cgroup::translate(mntinfo, subsys) {
        Some(cgroup) => cgroup,
        None => {
            return None;
        },
    };
    cgroup.next_read(files)
}

} // verus!
