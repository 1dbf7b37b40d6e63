use vstd::prelude::*;
use crate::files::{text_at, Files};
use crate::text::{
    chars_of, line_ranges, lines, lists_entry, ranges_within, split, split_ranges, text_of,
    windows,
};
use crate::version::CgroupVersion;

verus! {

/// The control group that holds the CPU controller for a process, as the
/// process itself sees it.
pub struct Subsys {
    pub version: CgroupVersion,
    pub base: String,
}

/// What a [`Subsys`] denotes.
pub ghost struct SubsysView {
    pub version: CgroupVersion,
    pub base: Seq<char>,
}

impl View for Subsys {
    type V = SubsysView;

    open spec fn view(&self) -> SubsysView {
        SubsysView { version: self.version, base: self.base@ }
    }
}

/// The view of an optional membership entry.
pub open spec fn subsys_view(s: Option<Subsys>) -> Option<SubsysView> {
    match s {
        Some(s) => Some(s@),
        None => None,
    }
}

/// The membership entry that one line of the form `id:controllers:path`
/// describes.
///
/// The line needs at least three colon-separated fields. An empty controller
/// list marks the unified hierarchy; a list that is not empty counts only if
/// `cpu` is one of its comma-separated entries. The path is the third field.
pub open spec fn subsys_of_line(line: Seq<char>) -> Option<SubsysView> {
    let f = split(line, ':');
    if f.len() < 3 {
        None
    } else if f[1].len() == 0 {
        Some(SubsysView { version: CgroupVersion::V2, base: f[2] })
    } else if split(f[1], ',').contains("cpu"@) {
        Some(SubsysView { version: CgroupVersion::V1, base: f[2] })
    } else {
        None
    }
}

/// Whether `line` is a membership entry of the given version.
pub open spec fn is_subsys_of(line: Seq<char>, version: CgroupVersion) -> bool {
    match subsys_of_line(line) {
        Some(s) => s.version == version,
        None => false,
    }
}

/// The choice between the entry held so far and the entry of the next line:
/// the next entry wins unless it is a unified one and something is held
/// already.
pub open spec fn prefer(held: Option<SubsysView>, next: Option<SubsysView>) -> Option<SubsysView> {
    match next {
        Some(n) => if held is Some && n.version == CgroupVersion::V2 {
            held
        } else {
            next
        },
        None => held,
    }
}

/// The entry that a membership file with these lines selects.
pub open spec fn select_subsys(lines: Seq<Seq<char>>) -> Option<SubsysView>
    decreases lines.len(),
{
    if lines.len() == 0 {
        None
    } else {
        prefer(select_subsys(lines.drop_last()), subsys_of_line(lines.last()))
    }
}

/// The entry selected by the membership file recorded at `path`. There is
/// none when the file was not read or could not be read.
pub open spec fn load_subsys(files: Map<Seq<char>, Option<Seq<char>>>, path: Seq<char>) -> Option<
    SubsysView,
> {
    match text_at(files, path) {
        Some(text) => select_subsys(lines(text)),
        None => None,
    }
}

/// Which line [`select_subsys`] takes its entry from.
///
/// Nothing is selected exactly when no line is an entry. If some line names
/// the `cpu` controller, the last such line is selected, wherever the unified
/// entries stand. Otherwise the first entry is selected.
pub proof fn lemma_select_subsys(lines: Seq<Seq<char>>)
    ensures
        match select_subsys(lines) {
            None => forall|j: int|
                0 <= j < lines.len() ==> subsys_of_line(#[trigger] lines[j]) is None,
            Some(s) => exists|j: int|
                0 <= j < lines.len() && subsys_of_line(#[trigger] lines[j]) == Some(s) && (
                s.version == CgroupVersion::V1 ==> forall|i: int|
                    j < i < lines.len() ==> !is_subsys_of(#[trigger] lines[i], CgroupVersion::V1))
                    && (s.version == CgroupVersion::V2 ==> (forall|i: int|
                    0 <= i < lines.len() ==> !is_subsys_of(#[trigger] lines[i], CgroupVersion::V1))
                    && (forall|i: int|
                    0 <= i < j ==> subsys_of_line(#[trigger] lines[i]) is None)),
        },
        (exists|j: int| 0 <= j < lines.len() && is_subsys_of(#[trigger] lines[j], CgroupVersion::V1))
            ==> (select_subsys(lines) matches Some(s) && s.version == CgroupVersion::V1),
    decreases lines.len(),
{
    if lines.len() > 0 {
        let front = lines.drop_last();
        let last = lines.len() - 1;
        lemma_select_subsys(front);
        assert(forall|j: int| 0 <= j < front.len() ==> front[j] == lines[j]);
        let held = select_subsys(front);
        let next = subsys_of_line(lines.last());
        match select_subsys(lines) {
            None => {
                assert forall|j: int| 0 <= j < lines.len() implies subsys_of_line(
                    #[trigger] lines[j],
                ) is None by {
                    if j < last {
                        assert(front[j] == lines[j]);
                    }
                }
            },
            Some(s) => {
                if held is Some && !(next is Some && next->0.version == CgroupVersion::V1) {
                    let j = choose|j: int|
                        0 <= j < front.len() && subsys_of_line(#[trigger] front[j]) == Some(s) && (
                        s.version == CgroupVersion::V1 ==> forall|i: int|
                            j < i < front.len() ==> !is_subsys_of(
                                #[trigger] front[i],
                                CgroupVersion::V1,
                            )) && (s.version == CgroupVersion::V2 ==> (forall|i: int|
                            0 <= i < front.len() ==> !is_subsys_of(
                                #[trigger] front[i],
                                CgroupVersion::V1,
                            )) && (forall|i: int|
                            0 <= i < j ==> subsys_of_line(#[trigger] front[i]) is None));
                    assert(subsys_of_line(lines[j]) == Some(s));
                    assert forall|i: int| j < i < lines.len() && s.version
                        == CgroupVersion::V1 implies !is_subsys_of(
                        #[trigger] lines[i],
                        CgroupVersion::V1,
                    ) by {
                        if i < last {
                            assert(front[i] == lines[i]);
                        }
                    }
                    assert forall|i: int| 0 <= i < lines.len() && s.version
                        == CgroupVersion::V2 implies !is_subsys_of(
                        #[trigger] lines[i],
                        CgroupVersion::V1,
                    ) by {
                        if i < last {
                            assert(front[i] == lines[i]);
                        }
                    }
                    assert forall|i: int| 0 <= i < j && s.version
                        == CgroupVersion::V2 implies subsys_of_line(#[trigger] lines[i]) is None by {
                        assert(front[i] == lines[i]);
                    }
                } else {
                    assert(subsys_of_line(lines[last]) == Some(s));
                    if s.version == CgroupVersion::V2 {
                        assert(held is None);
                        assert forall|i: int| 0 <= i < last implies subsys_of_line(
                            #[trigger] lines[i],
                        ) is None by {
                            assert(front[i] == lines[i]);
                        }
                    }
                }
            },
        }
    }
}

impl Subsys {
    /// Selects, from the membership file recorded at `proc_path`, the entry
    /// that holds the CPU controller.
    pub fn load_cpu(files: &Files, proc_path: &str) -> (out: Option<Subsys>)
        ensures
            subsys_view(out) == load_subsys(files@, proc_path@),
    {
        let text = match files.read(proc_path) {
            Some(text) => text,
            None => {
                return None;
            },
        };
        let s = text.as_str();
        let chars = chars_of(s);
        let rows = line_ranges(&chars);
        let ghost all = lines(s@);
        let mut held: Option<Subsys> = None;
        let mut k: usize = 0;
        while k < rows.len()
            invariant
                k <= rows.len(),
                chars@ == s@,
                all == lines(s@),
                windows(chars@, rows@) == all,
                ranges_within(rows@, 0, chars.len() as int),
                subsys_view(held) == select_subsys(all.take(k as int)),
            decreases rows.len() - k,
        {
            let ghost upto = all.take(k + 1);
            assert(upto.last() == chars@.subrange(
                rows@[k as int].0 as int,
                rows@[k as int].1 as int,
            ));
            assert(upto.drop_last() == all.take(k as int));
            match Subsys::parse_window(s, &chars, rows[k]) {
                Some(next) => {
                    if !(held.is_some() && next.version == CgroupVersion::V2) {
                        held = Some(next);
                    }
                },
                None => {},
            }
            k = k + 1;
        }
        assert(all.take(k as int) == all);
        held
    }

    /// Reads one line of the membership file.
    pub fn parse_line(line: String) -> (out: Option<Subsys>)
        ensures
            subsys_view(out) == subsys_of_line(line@),
    {
        let s = line.as_str();
        let chars = chars_of(s);
        assert(chars@.subrange(0, chars.len() as int) == line@);
        Subsys::parse_window(s, &chars, (0, chars.len()))
    }

    /// Reads the line that `r` cuts out of `s`, whose characters are `chars`.
    fn parse_window(s: &str, chars: &Vec<char>, r: (usize, usize)) -> (out: Option<Subsys>)
        requires
            chars@ == s@,
            r.0 <= r.1 <= chars.len(),
        ensures
            subsys_view(out) == subsys_of_line(chars@.subrange(r.0 as int, r.1 as int)),
    {
        let fields = split_ranges(chars, r.0, r.1, ':');
        let ghost f = split(chars@.subrange(r.0 as int, r.1 as int), ':');
        assert(forall|k: int|
            0 <= k < f.len() ==> f[k] == chars@.subrange(
                fields@[k].0 as int,
                fields@[k].1 as int,
            ));
        if fields.len() < 3 {
            return None;
        }
        let controllers = fields[1];
        let version = if controllers.0 == controllers.1 {
            CgroupVersion::V2
        } else if lists_entry(chars, controllers, "cpu") {
            CgroupVersion::V1
        } else {
            return None;
        };
        Some(Subsys { version, base: text_of(s, fields[2]) })
    }
}

} // verus!
