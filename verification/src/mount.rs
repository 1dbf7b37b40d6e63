use vstd::prelude::*;
use crate::files::{text_at, Files};
use crate::text::{
    chars_of, free_of, join, lemma_split_join, line_ranges, lines, lists_entry, ranges_within,
    split, split_ranges, text_of, window_is, windows,
};
use crate::version::CgroupVersion;

verus! {

/// Where a control-group hierarchy is mounted in the filesystem, and which
/// directory of the hierarchy the mount shows.
pub struct MountInfo {
    pub version: CgroupVersion,
    pub root: String,
    pub mount_point: String,
}

/// What a [`MountInfo`] denotes.
pub ghost struct MountInfoView {
    pub version: CgroupVersion,
    pub root: Seq<char>,
    pub mount_point: Seq<char>,
}

impl View for MountInfo {
    type V = MountInfoView;

    open spec fn view(&self) -> MountInfoView {
        MountInfoView { version: self.version, root: self.root@, mount_point: self.mount_point@ }
    }
}

/// The view of an optional mount entry.
pub open spec fn mount_view(m: Option<MountInfo>) -> Option<MountInfoView> {
    match m {
        Some(m) => Some(m@),
        None => None,
    }
}

/// Position of the first field at or after `from` that equals `word`, or
/// `fields.len()` when there is none.
pub open spec fn field_position(fields: Seq<Seq<char>>, word: Seq<char>, from: int) -> int
    decreases fields.len() - from,
{
    if from >= fields.len() {
        fields.len() as int
    } else if fields[from] == word {
        from
    } else {
        field_position(fields, word, from + 1)
    }
}

/// The mount entry that a mount-table line with these space-separated fields
/// describes.
///
/// Fields 3 and 4 are the root and the mount point. Any number of optional
/// fields may follow; a lone `-` ends them. The field after the `-` names the
/// filesystem type, which must be `cgroup` or `cgroup2`. For `cgroup`, the
/// second field after the type lists the super-block options, and `cpu` must
/// be among them.
pub open spec fn mount_of_fields(f: Seq<Seq<char>>) -> Option<MountInfoView> {
    let dash = field_position(f, "-"@, 5);
    if f.len() < 5 || dash + 1 >= f.len() {
        None
    } else if f[dash + 1] == "cgroup"@ {
        if dash + 3 < f.len() && split(f[dash + 3], ',').contains("cpu"@) {
            Some(MountInfoView { version: CgroupVersion::V1, root: f[3], mount_point: f[4] })
        } else {
            None
        }
    } else if f[dash + 1] == "cgroup2"@ {
        Some(MountInfoView { version: CgroupVersion::V2, root: f[3], mount_point: f[4] })
    } else {
        None
    }
}

/// The mount entry that one line of the mount table describes, if it
/// describes a control-group mount that carries the CPU controller.
pub open spec fn mount_of_line(line: Seq<char>) -> Option<MountInfoView> {
    mount_of_fields(split(line, ' '))
}

/// [`field_position`] finds `at` when `at` is the first position from
/// `from` on that holds `word`.
pub proof fn lemma_field_position(fields: Seq<Seq<char>>, word: Seq<char>, from: int, at: int)
    requires
        0 <= from <= at < fields.len(),
        fields[at] == word,
        forall|i: int| from <= i < at ==> #[trigger] fields[i] != word,
    ensures
        field_position(fields, word, from) == at,
    decreases at - from,
{
    if from < at {
        lemma_field_position(fields, word, from + 1, at);
    }
}

/// A mount-table line may carry any number of optional fields before the
/// `-`, none included: they change nothing in what the line is read as.
///
/// `head` holds the five leading fields, `optional` the optional ones, and
/// `tail` what follows the `-`. The entry read from the whole line is the
/// entry read from the line without its optional fields, and its root and
/// mount point are the fourth and the fifth leading field.
pub proof fn lemma_optional_fields(
    head: Seq<Seq<char>>,
    optional: Seq<Seq<char>>,
    tail: Seq<Seq<char>>,
)
    requires
        head.len() == 5,
        forall|k: int| 0 <= k < head.len() ==> free_of(#[trigger] head[k], ' '),
        forall|k: int| 0 <= k < optional.len() ==> free_of(#[trigger] optional[k], ' '),
        forall|k: int| 0 <= k < tail.len() ==> free_of(#[trigger] tail[k], ' '),
        forall|k: int| 0 <= k < optional.len() ==> #[trigger] optional[k] != "-"@,
    ensures
        mount_of_line(join(head + optional + seq!["-"@] + tail, ' ')) == mount_of_line(
            join(head + seq!["-"@] + tail, ' '),
        ),
        mount_of_line(join(head + optional + seq!["-"@] + tail, ' ')) == mount_of_fields(
            head + seq!["-"@] + tail,
        ),
        match mount_of_line(join(head + optional + seq!["-"@] + tail, ' ')) {
            Some(m) => m.root == head[3] && m.mount_point == head[4],
            None => true,
        },
{
    let dash = "-"@;
    let long = head + optional + seq![dash] + tail;
    let short = head + seq![dash] + tail;
    assert(free_of(dash, ' ')) by {
        reveal_strlit("-");
    }
    assert forall|k: int| 0 <= k < long.len() implies free_of(#[trigger] long[k], ' ') by {
        if k < 5 {
            assert(long[k] == head[k]);
        } else if k < 5 + optional.len() {
            assert(long[k] == optional[k - 5]);
        } else if k > 5 + optional.len() {
            assert(long[k] == tail[k - 6 - optional.len()]);
        }
    }
    assert forall|k: int| 0 <= k < short.len() implies free_of(#[trigger] short[k], ' ') by {
        if k < 5 {
            assert(short[k] == head[k]);
        } else if k > 5 {
            assert(short[k] == tail[k - 6]);
        }
    }
    lemma_split_join(long, ' ');
    lemma_split_join(short, ' ');
    let at: int = 5 + optional.len() as int;
    assert forall|i: int| 5 <= i < at implies #[trigger] long[i] != dash by {
        assert(long[i] == optional[i - 5]);
    }
    lemma_field_position(long, dash, 5, at);
    lemma_field_position(short, dash, 5, 5);
    assert(long[3] == short[3] && long[4] == short[4]);
    if at + 1 < long.len() {
        assert(long[at + 1] == short[6]);
    }
    if at + 3 < long.len() {
        assert(long[at + 3] == short[8]);
    }
}

/// Whether `line` describes a control-group mount of the given version.
pub open spec fn is_mount_of(line: Seq<char>, version: CgroupVersion) -> bool {
    match mount_of_line(line) {
        Some(m) => m.version == version,
        None => false,
    }
}

/// The first of `lines` that describes a control-group mount of the given
/// version.
pub open spec fn find_mount(lines: Seq<Seq<char>>, version: CgroupVersion) -> Option<
    MountInfoView,
>
    decreases lines.len(),
{
    if lines.len() == 0 {
        None
    } else if is_mount_of(lines[0], version) {
        mount_of_line(lines[0])
    } else {
        find_mount(lines.drop_first(), version)
    }
}

/// The mount of the given version that the mount table recorded at `path`
/// names first. There is none when the table was not read or could not be
/// read.
pub open spec fn load_mount(
    files: Map<Seq<char>, Option<Seq<char>>>,
    path: Seq<char>,
    version: CgroupVersion,
) -> Option<MountInfoView> {
    match text_at(files, path) {
        Some(table) => find_mount(lines(table), version),
        None => None,
    }
}

/// [`find_mount`] gives the entry of the earliest matching line, and nothing
/// exactly when no line matches.
pub proof fn lemma_find_mount(lines: Seq<Seq<char>>, version: CgroupVersion)
    ensures
        match find_mount(lines, version) {
            Some(m) => exists|j: int|
                0 <= j < lines.len() && mount_of_line(#[trigger] lines[j]) == Some(m)
                    && m.version == version && forall|i: int|
                    0 <= i < j ==> !is_mount_of(#[trigger] lines[i], version),
            None => forall|j: int|
                0 <= j < lines.len() ==> !is_mount_of(#[trigger] lines[j], version),
        },
    decreases lines.len(),
{
    if lines.len() == 0 {
    } else if is_mount_of(lines[0], version) {
        assert(mount_of_line(lines[0]) == find_mount(lines, version));
    } else {
        let rest = lines.drop_first();
        lemma_find_mount(rest, version);
        assert(forall|j: int| 0 <= j < rest.len() ==> rest[j] == lines[j + 1]);
        match find_mount(rest, version) {
            Some(m) => {
                let j = choose|j: int|
                    0 <= j < rest.len() && mount_of_line(#[trigger] rest[j]) == Some(m)
                        && m.version == version && forall|i: int|
                        0 <= i < j ==> !is_mount_of(#[trigger] rest[i], version);
                assert(mount_of_line(lines[j + 1]) == Some(m));
                assert forall|i: int| 0 <= i < j + 1 implies !is_mount_of(
                    #[trigger] lines[i],
                    version,
                ) by {
                    if i > 0 {
                        assert(rest[i - 1] == lines[i]);
                    }
                }
            },
            None => {
                assert forall|j: int| 0 <= j < lines.len() implies !is_mount_of(
                    #[trigger] lines[j],
                    version,
                ) by {
                    if j > 0 {
                        assert(rest[j - 1] == lines[j]);
                    }
                }
            },
        }
    }
}

impl MountInfo {
    /// Finds, in the mount table recorded at `proc_path`, the first
    /// control-group mount of the given version.
    pub fn load_cpu(files: &Files, proc_path: &str, version: CgroupVersion) -> (out: Option<
        MountInfo,
    >)
        ensures
            mount_view(out) == load_mount(files@, proc_path@, version),
            out matches Some(m) ==> m.version == version,
    {
        let table = match files.read(proc_path) {
            Some(table) => table,
            None => {
                return None;
            },
        };
        let s = table.as_str();
        let chars = chars_of(s);
        let rows = line_ranges(&chars);
        let ghost all = lines(s@);
        let mut k: usize = 0;
        assert(all.skip(0) == all);
        while k < rows.len()
            invariant
                k <= rows.len(),
                chars@ == s@,
                all == lines(s@),
                load_mount(files@, proc_path@, version) == find_mount(all, version),
                windows(chars@, rows@) == all,
                ranges_within(rows@, 0, chars.len() as int),
                find_mount(all, version) == find_mount(all.skip(k as int), version),
            decreases rows.len() - k,
        {
            let ghost rest = all.skip(k as int);
            assert(rest[0] == chars@.subrange(rows@[k as int].0 as int, rows@[k as int].1 as int));
            assert(rest.drop_first() == all.skip(k + 1));
            match MountInfo::parse_window(s, &chars, rows[k]) {
                Some(found) => {
                    if found.version == version {
                        return Some(found);
                    }
                },
                None => {},
            }
            k = k + 1;
        }
        None
    }

    /// Reads one line of the mount table.
    pub fn parse_line(line: String) -> (out: Option<MountInfo>)
        ensures
            mount_view(out) == mount_of_line(line@),
    {
        let s = line.as_str();
        let chars = chars_of(s);
        assert(chars@.subrange(0, chars.len() as int) == line@);
        MountInfo::parse_window(s, &chars, (0, chars.len()))
    }

    /// Reads the line that `r` cuts out of `s`, whose characters are `chars`.
    fn parse_window(s: &str, chars: &Vec<char>, r: (usize, usize)) -> (out: Option<MountInfo>)
        requires
            chars@ == s@,
            r.0 <= r.1 <= chars.len(),
        ensures
            mount_view(out) == mount_of_line(chars@.subrange(r.0 as int, r.1 as int)),
    {
        let fields = split_ranges(chars, r.0, r.1, ' ');
        let ghost f = split(chars@.subrange(r.0 as int, r.1 as int), ' ');
        assert(forall|k: int|
            0 <= k < f.len() ==> f[k] == chars@.subrange(
                fields@[k].0 as int,
                fields@[k].1 as int,
            ));
        if fields.len() < 5 {
            return None;
        }
        let mut dash: usize = 5;
        while dash < fields.len() && !window_is(chars, fields[dash], "-")
            invariant
                5 <= dash <= fields.len(),
                ranges_within(fields@, r.0 as int, r.1 as int),
                r.1 <= chars.len(),
                windows(chars@, fields@) == f,
                field_position(f, "-"@, 5) == field_position(f, "-"@, dash as int),
            decreases fields.len() - dash,
        {
            assert(f[dash as int] == chars@.subrange(
                fields@[dash as int].0 as int,
                fields@[dash as int].1 as int,
            ));
            dash = dash + 1;
        }
        if dash >= fields.len() || dash + 1 >= fields.len() {
            return None;
        }
        assert(f[dash as int] == chars@.subrange(
            fields@[dash as int].0 as int,
            fields@[dash as int].1 as int,
        ));
        assert(field_position(f, "-"@, 5) == dash);
        let version = if window_is(chars, fields[dash + 1], "cgroup") {
            CgroupVersion::V1
        } else if window_is(chars, fields[dash + 1], "cgroup2") {
            CgroupVersion::V2
        } else {
            return None;
        };
        if version == CgroupVersion::V1 {
            if fields.len() - dash <= 3 {
                return None;
            }
            if !lists_entry(chars, fields[dash + 3], "cpu") {
                return None;
            }
        }
        Some(
            MountInfo {
                version,
                root: text_of(s, fields[3]),
                mount_point: text_of(s, fields[4]),
            },
        )
    }
}

} // verus!
