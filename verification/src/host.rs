use vstd::prelude::*;
use crate::count::{get_num_cpus, kept_cpus, told_cpus, wanted_now, QuotaCache};
use crate::files::{text_at, text_view, Files};
use crate::text::{
    chars_of, line_ranges, lines, parse_number, parse_range, ranges_within, split, split_ranges,
    trim, trim_range, window_is, windows,
};

verus! {

/// What the kernel told about the CPUs that the process may run on.
pub enum CpuSource {
    /// The affinity mask of the process: entry `i` says whether the process
    /// may run on CPU `i`.
    Affinity(Vec<bool>),
    /// The number of CPUs that are online, asked for when the affinity mask
    /// could not be had.
    Online(isize),
}

/// How many entries of `mask` are set.
pub open spec fn count_set(mask: Seq<bool>) -> nat
    decreases mask.len(),
{
    if mask.len() == 0 {
        0
    } else if mask.last() {
        count_set(mask.drop_last()) + 1
    } else {
        count_set(mask.drop_last())
    }
}

/// The count of logical CPUs that a source stands for: the CPUs set in the
/// affinity mask, or the CPUs online, but then at least one.
pub open spec fn logical_of(source: CpuSource) -> nat {
    match source {
        CpuSource::Affinity(mask) => count_set(mask@),
        CpuSource::Online(cpus) => if cpus < 1 {
            1
        } else {
            cpus as nat
        },
    }
}

/// The count of CPUs that the process may run on.
pub fn logical_cpus(source: &CpuSource) -> (out: usize)
    ensures
        out == logical_of(*source),
{
    match source {
        CpuSource::Affinity(mask) => {
            let mut count: usize = 0;
            let mut i: usize = 0;
            assert(mask@.take(0) =~= Seq::<bool>::empty());
            while i < mask.len()
                invariant
                    i <= mask.len(),
                    count == count_set(mask@.take(i as int)),
                    count <= i,
                decreases mask.len() - i,
            {
                assert(mask@.take(i + 1).drop_last() =~= mask@.take(i as int));
                if mask[i] {
                    count = count + 1;
                }
                i = i + 1;
            }
            assert(mask@.take(i as int) =~= mask@);
            count
        },
        CpuSource::Online(cpus) => {
            if *cpus < 1 {
                1
            } else {
                *cpus as usize
            }
        },
    }
}

/// The state of a pass over the processor table.
///
/// `sockets` pairs each physical package seen so far with the number of
/// cores last stated for it. `physid` and `cores` are the values stated
/// last, and `changes` counts how many of the two were stated since the last
/// pair was noted. `stopped` says that a value could not be read, which ends
/// the pass.
pub ghost struct Tally {
    pub sockets: Seq<(u32, usize)>,
    pub physid: u32,
    pub cores: usize,
    pub changes: nat,
    pub stopped: bool,
}

/// Position of the first pair at or after `from` whose package is `key`, or
/// `list.len()` when there is none.
pub open spec fn socket_position(list: Seq<(u32, usize)>, key: u32, from: int) -> int
    decreases list.len() - from,
{
    if from >= list.len() {
        list.len() as int
    } else if list[from].0 == key {
        from
    } else {
        socket_position(list, key, from + 1)
    }
}

/// `list` with the number of cores for package `key` set to `value`.
pub open spec fn put(list: Seq<(u32, usize)>, key: u32, value: usize) -> Seq<(u32, usize)> {
    let at = socket_position(list, key, 0);
    if 0 <= at < list.len() {
        list.update(at, (key, value))
    } else {
        list.push((key, value))
    }
}

/// The state after a value was stated: once both values were stated, the
/// pair is noted and the count starts again.
pub open spec fn noted(t: Tally) -> Tally {
    if t.changes == 2 {
        Tally { sockets: put(t.sockets, t.physid, t.cores), changes: 0, ..t }
    } else {
        t
    }
}

/// The state after one more line of the processor table.
///
/// A line counts if it has a colon. What stands before the first colon is
/// the key, what stands between the first and the second is the value, both
/// without the white space around them. The key `physical id` states a
/// package and the key `cpu cores` a number of cores; other keys state
/// nothing.
pub open spec fn tally_line(t: Tally, line: Seq<char>) -> Tally {
    let f = split(line, ':');
    if t.stopped || f.len() < 2 {
        t
    } else if trim(f[0]) == "physical id"@ {
        match parse_number(trim(f[1]), u32::MAX as nat) {
            Some(id) => noted(Tally { physid: id as u32, changes: t.changes + 1, ..t }),
            None => Tally { stopped: true, ..t },
        }
    } else if trim(f[0]) == "cpu cores"@ {
        match parse_number(trim(f[1]), usize::MAX as nat) {
            Some(n) => noted(Tally { cores: n as usize, changes: t.changes + 1, ..t }),
            None => Tally { stopped: true, ..t },
        }
    } else {
        t
    }
}

/// The state after all of `lines`.
pub open spec fn tally(lines: Seq<Seq<char>>) -> Tally
    decreases lines.len(),
{
    if lines.len() == 0 {
        Tally { sockets: Seq::empty(), physid: 0, cores: 0, changes: 0, stopped: false }
    } else {
        tally_line(tally(lines.drop_last()), lines.last())
    }
}

/// The cores of all packages together.
pub open spec fn total_cores(list: Seq<(u32, usize)>) -> nat
    decreases list.len(),
{
    if list.len() == 0 {
        0
    } else {
        total_cores(list.drop_last()) + list.last().1 as nat
    }
}

/// The count of physical cores that a processor table states, as far as a
/// machine word holds it. It is zero when there is no table.
pub open spec fn physical_of(table: Option<Seq<char>>) -> usize {
    match table {
        Some(text) => {
            let total = total_cores(tally(lines(text)).sockets);
            if total > usize::MAX {
                usize::MAX
            } else {
                total as usize
            }
        },
        None => 0,
    }
}

/// Where the kernel shows the processor table.
pub open spec fn proc_cpuinfo() -> Seq<char> {
    "/proc/cpuinfo"@
}

/// The file that has to be read next before the count of physical cores can
/// be told: the processor table first, and what [`wanted_now`] names only if
/// the table states no core.
pub open spec fn wanted_for_physical(
    before: Option<usize>,
    files: Map<Seq<char>, Option<Seq<char>>>,
    sandboxed: bool,
) -> Option<Seq<char>> {
    if !files.dom().contains(proc_cpuinfo()) {
        Some(proc_cpuinfo())
    } else if physical_of(text_at(files, proc_cpuinfo())) > 0 {
        None
    } else {
        wanted_now(before, files, sandboxed)
    }
}

/// Sets the number of cores for package `key` to `value`.
fn put_socket(list: &mut Vec<(u32, usize)>, key: u32, value: usize)
    ensures
        final(list)@ == put(old(list)@, key, value),
{
    let mut i: usize = 0;
    while i < list.len()
        invariant
            i <= list.len(),
            list@ == old(list)@,
            socket_position(list@, key, 0) == socket_position(list@, key, i as int),
        decreases list.len() - i,
    {
        if list[i].0 == key {
            list.set(i, (key, value));
            return ;
        }
        i = i + 1;
    }
    list.push((key, value));
}

/// The cores of all packages together, as far as a machine word holds them.
fn sum_cores(list: &Vec<(u32, usize)>) -> (out: usize)
    ensures
        out == if total_cores(list@) > usize::MAX {
            usize::MAX
        } else {
            total_cores(list@) as usize
        },
{
    let mut total: usize = 0;
    let mut i: usize = 0;
    assert(list@.take(0) =~= Seq::<(u32, usize)>::empty());
    while i < list.len()
        invariant
            i <= list.len(),
            total == if total_cores(list@.take(i as int)) > usize::MAX {
                usize::MAX
            } else {
                total_cores(list@.take(i as int)) as usize
            },
        decreases list.len() - i,
    {
        assert(list@.take(i + 1).drop_last() =~= list@.take(i as int));
        let cores = list[i].1;
        total = if total > usize::MAX - cores {
            usize::MAX
        } else {
            total + cores
        };
        i = i + 1;
    }
    assert(list@.take(i as int) =~= list@);
    total
}

/// The count of physical cores that the processor table `table` states.
pub fn physical_cpus(table: Option<&String>) -> (out: usize)
    ensures
        out == physical_of(
            match table {
                Some(text) => Some(text@),
                None => None,
            },
        ),
{
    let text = match table {
        Some(text) => text,
        None => {
            return 0;
        },
    };
    let chars = chars_of(text.as_str());
    let rows = line_ranges(&chars);
    let ghost all = lines(text@);
    let mut sockets: Vec<(u32, usize)> = Vec::new();
    let mut physid: u32 = 0;
    let mut cores: usize = 0;
    let mut changes: u8 = 0;
    let mut stopped = false;
    let mut k: usize = 0;
    assert(all.take(0) =~= Seq::<Seq<char>>::empty());
    while k < rows.len() && !stopped
        invariant
            k <= rows.len(),
            all == lines(chars@),
            windows(chars@, rows@) == all,
            ranges_within(rows@, 0, chars.len() as int),
            changes <= 1,
            tally(all.take(k as int)) == (Tally {
                sockets: sockets@,
                physid,
                cores,
                changes: changes as nat,
                stopped,
            }),
        decreases rows.len() - k,
    {
        let row = rows[k];
        let ghost line = chars@.subrange(row.0 as int, row.1 as int);
        let ghost before = tally(all.take(k as int));
        assert(all.take(k + 1).drop_last() =~= all.take(k as int));
        assert(all.take(k + 1).last() == line);
        let fields = split_ranges(&chars, row.0, row.1, ':');
        let ghost f = split(line, ':');
        if fields.len() >= 2 {
            assert(f[0] == chars@.subrange(fields@[0].0 as int, fields@[0].1 as int));
            assert(f[1] == chars@.subrange(fields@[1].0 as int, fields@[1].1 as int));
            let key = trim_range(&chars, fields[0]);
            let value = trim_range(&chars, fields[1]);
            let mut stated = false;
            if window_is(&chars, key, "physical id") {
                match parse_range(&chars, value, u32::MAX as u64) {
                    Some(id) => {
                        physid = id as u32;
                        stated = true;
                    },
                    None => {
                        stopped = true;
                    },
                }
            } else if window_is(&chars, key, "cpu cores") {
                match parse_range(&chars, value, usize::MAX as u64) {
                    Some(n) => {
                        cores = n as usize;
                        stated = true;
                    },
                    None => {
                        stopped = true;
                    },
                }
            }
            if stated {
                changes = changes + 1;
                if changes == 2 {
                    put_socket(&mut sockets, physid, cores);
                    changes = 0;
                }
            }
        }
        k = k + 1;
    }
    proof {
        lemma_tally_stopped(all, k as int);
    }
    sum_cores(&sockets)
}

/// Once a pass has stopped, further lines change nothing.
pub proof fn lemma_tally_stopped(lines: Seq<Seq<char>>, k: int)
    requires
        0 <= k <= lines.len(),
        tally(lines.take(k)).stopped || k == lines.len(),
    ensures
        tally(lines) == tally(lines.take(k)),
    decreases lines.len() - k,
{
    if k < lines.len() {
        assert(lines.take(k + 1).drop_last() =~= lines.take(k));
        lemma_tally_stopped(lines, k + 1);
    } else {
        assert(lines.take(k) =~= lines);
    }
}

impl QuotaCache {
    /// Names the file that has to be read and recorded next before
    /// [`get_num_physical_cpus`] is called, if there is one.
    pub fn next_read_for_physical(&self, files: &Files, sandboxed: bool) -> (out: Option<String>)
        ensures
            text_view(out) == wanted_for_physical(self@, files@, sandboxed),
            out matches Some(path) ==> !files@.dom().contains(path@),
    {
        if !files.knows("/proc/cpuinfo") {
            return Some("/proc/cpuinfo".to_owned());
        }
        if physical_cpus(files.read("/proc/cpuinfo")) > 0 {
            return None;
        }
        self.next_read(files, sandboxed)
    }
}

/// The count of physical cores of the machine, as its processor table
/// states it. Where the table is missing or states no core, the answer is
/// that of [`get_num_cpus`].
pub fn get_num_physical_cpus(
    cache: &mut QuotaCache,
    files: &Files,
    sandboxed: bool,
    logical: usize,
) -> (out: usize)
    ensures
        physical_of(text_at(files@, proc_cpuinfo())) > 0 ==> out == physical_of(
            text_at(files@, proc_cpuinfo()),
        ) && final(cache)@ == old(cache)@,
        physical_of(text_at(files@, proc_cpuinfo())) == 0 ==> out == told_cpus(
            kept_cpus(old(cache)@, files@, sandboxed, logical),
            logical,
        ) && final(cache)@ == Some(kept_cpus(old(cache)@, files@, sandboxed, logical)),
{
    let count = physical_cpus(files.read("/proc/cpuinfo"));
    if count == 0 {
        get_num_cpus(cache, files, sandboxed, logical)
    } else {
        count
    }
}

} // verus!
