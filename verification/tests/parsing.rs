use cgroup_cpus::{Cgroup, CgroupVersion, Files, MountInfo, Subsys};

fn mount(line: &str) -> Option<(CgroupVersion, String, String)> {
    MountInfo::parse_line(line.to_owned()).map(|m| (m.version, m.root, m.mount_point))
}

fn subsys(line: &str) -> Option<(CgroupVersion, String)> {
    Subsys::parse_line(line.to_owned()).map(|s| (s.version, s.base))
}

fn v1(root: &str, mount_point: &str) -> Option<(CgroupVersion, String, String)> {
    Some((CgroupVersion::V1, root.to_owned(), mount_point.to_owned()))
}

fn v2(root: &str, mount_point: &str) -> Option<(CgroupVersion, String, String)> {
    Some((CgroupVersion::V2, root.to_owned(), mount_point.to_owned()))
}

fn one_file(path: &str, text: Option<&str>) -> Files {
    let mut files = Files::new();
    files.record(path.to_owned(), text.map(|t| t.to_owned()));
    files
}

#[test]
fn mount_line_with_one_optional_field() {
    let line = "7 5 0:6 / /sys/fs/cgroup/cpu,cpuacct rw,nosuid shared:7 - cgroup cgroup rw,cpu,cpuacct";
    assert_eq!(mount(line), v1("/", "/sys/fs/cgroup/cpu,cpuacct"));
}

#[test]
fn mount_line_with_no_optional_field() {
    let line = "7 5 0:6 /docker/ab /sys/fs/cgroup/cpu rw,nosuid - cgroup cgroup rw,cpu";
    assert_eq!(mount(line), v1("/docker/ab", "/sys/fs/cgroup/cpu"));
}

#[test]
fn mount_line_with_many_optional_fields() {
    let line = "7 5 0:6 / /sys/fs/cgroup rw shared:7 master:1 propagate_from:2 unbindable - cgroup2 cgroup2 rw";
    assert_eq!(mount(line), v2("/", "/sys/fs/cgroup"));
}

#[test]
fn mount_line_of_second_generation_needs_no_options() {
    assert_eq!(mount("1 2 3 / /m rw - cgroup2"), v2("/", "/m"));
    assert_eq!(mount("1 2 3 / /m - cgroup2"), v2("/", "/m"));
    assert_eq!(mount("1 2 3 / /m -"), None);
    assert_eq!(mount("1 2 3 / /m opts - cgroup2 src"), v2("/", "/m"));
}

#[test]
fn mount_line_without_separator_is_rejected() {
    assert_eq!(mount("7 5 0:6 / /sys/fs/cgroup rw shared:7 cgroup2 cgroup2 rw"), None);
    assert_eq!(mount("7 5 0:6 / /sys/fs/cgroup rw shared:7 -"), None);
    assert_eq!(mount("7 5 0:6 / /sys/fs/cgroup rw shared:7 -- cgroup2 cgroup2 rw"), None);
}

#[test]
fn mount_line_of_other_filesystem_is_rejected() {
    assert_eq!(mount("3 1 0:2 / /proc rw,nosuid shared:3 - proc proc rw"), None);
    assert_eq!(mount("3 1 0:2 / /proc rw,nosuid shared:3 - cgroup3 cgroup rw,cpu"), None);
    assert_eq!(mount("3 1 0:2 / /proc rw,nosuid shared:3 - Cgroup cgroup rw,cpu"), None);
}

#[test]
fn mount_line_of_first_generation_needs_the_cpu_option() {
    assert_eq!(mount("6 5 0:5 / /sys/fs/cgroup/cpuset rw shared:6 - cgroup cgroup rw,cpuset"), None);
    assert_eq!(mount("6 5 0:5 / /sys/fs/cgroup/cpu rw shared:6 - cgroup cgroup"), None);
    assert_eq!(mount("6 5 0:5 / /sys/fs/cgroup/cpu rw shared:6 - cgroup"), None);
    assert_eq!(mount("6 5 0:5 / /c rw shared:6 - cgroup cgroup cpu"), v1("/", "/c"));
    assert_eq!(mount("6 5 0:5 / /c rw shared:6 - cgroup cgroup rw,cpuacct,cpu"), v1("/", "/c"));
    assert_eq!(mount("6 5 0:5 / /c rw shared:6 - cgroup cgroup rw,cpu, x"), v1("/", "/c"));
    assert_eq!(mount("6 5 0:5 / /c rw shared:6 - cgroup cgroup rw,xcpu,cpux"), None);
}

#[test]
fn mount_line_that_is_too_short_is_rejected() {
    assert_eq!(mount(""), None);
    assert_eq!(mount("1 2 3 /"), None);
    assert_eq!(mount("1 2 3 / /m"), None);
    assert_eq!(mount("- cgroup2 cgroup2 rw"), None);
}

#[test]
fn mount_line_is_split_at_single_spaces() {
    // Two spaces in a row hold an empty field between them.
    assert_eq!(mount("1 2 3  / /m - cgroup2 x"), v2("", "/"));
    // A dash that is the mount point is not the separator.
    assert_eq!(mount("1 2 3 / - - cgroup2 x"), v2("/", "-"));
    assert_eq!(mount("1 2 3 / - cgroup2 x"), None);
}

#[test]
fn membership_line_of_first_generation() {
    assert_eq!(subsys("11:cpu,cpuacct:/"), Some((CgroupVersion::V1, "/".to_owned())));
    assert_eq!(subsys("4:cpuacct,cpu:/docker/ab"), Some((CgroupVersion::V1, "/docker/ab".to_owned())));
    assert_eq!(subsys("4:cpu:"), Some((CgroupVersion::V1, "".to_owned())));
}

#[test]
fn membership_line_of_unified_hierarchy() {
    assert_eq!(subsys("0::/user.slice"), Some((CgroupVersion::V2, "/user.slice".to_owned())));
    assert_eq!(subsys("::"), Some((CgroupVersion::V2, "".to_owned())));
}

#[test]
fn membership_line_without_cpu_controller_is_rejected() {
    assert_eq!(subsys("3:devices:/user.slice"), None);
    assert_eq!(subsys("3:cpuset:/"), None);
    assert_eq!(subsys("3:cpuacct,cpuset:/"), None);
    assert_eq!(subsys("3: cpu:/"), None);
}

#[test]
fn membership_line_that_is_too_short_is_rejected() {
    assert_eq!(subsys(""), None);
    assert_eq!(subsys("11"), None);
    assert_eq!(subsys("11:cpu"), None);
    assert_eq!(subsys("0:"), None);
}

#[test]
fn membership_path_ends_at_the_next_colon() {
    assert_eq!(subsys("1:cpu:/a:b"), Some((CgroupVersion::V1, "/a".to_owned())));
}

#[test]
fn later_cpu_line_replaces_unified_line() {
    let files = one_file("m", Some("0::/unified\n4:cpu,cpuacct:/legacy\n"));
    let found = Subsys::load_cpu(&files, "m").unwrap();
    assert_eq!(found.version, CgroupVersion::V1);
    assert_eq!(found.base, "/legacy");
}

#[test]
fn cpu_line_is_kept_when_unified_line_follows() {
    let files = one_file("m", Some("4:cpu,cpuacct:/legacy\n0::/unified\n"));
    let found = Subsys::load_cpu(&files, "m").unwrap();
    assert_eq!(found.version, CgroupVersion::V1);
    assert_eq!(found.base, "/legacy");
}

#[test]
fn last_cpu_line_and_first_unified_line_win() {
    let files = one_file("m", Some("4:cpu:/one\n0::/u\n5:cpu:/two\n0::/v"));
    assert_eq!(Subsys::load_cpu(&files, "m").unwrap().base, "/two");
    let files = one_file("m", Some("9:memory:/x\n0::/u\n0::/v\n"));
    let found = Subsys::load_cpu(&files, "m").unwrap();
    assert_eq!(found.version, CgroupVersion::V2);
    assert_eq!(found.base, "/u");
}

#[test]
fn membership_file_without_entry_gives_nothing() {
    assert!(Subsys::load_cpu(&one_file("m", Some("")), "m").is_none());
    assert!(Subsys::load_cpu(&one_file("m", Some("9:memory:/x\nrubbish\n")), "m").is_none());
    assert!(Subsys::load_cpu(&one_file("m", None), "m").is_none());
    assert!(Subsys::load_cpu(&one_file("other", Some("0::/")), "m").is_none());
    assert!(Subsys::load_cpu(&Files::new(), "m").is_none());
}

#[test]
fn lines_end_at_line_feed_with_or_without_carriage_return() {
    let files = one_file("m", Some("9:memory:/x\r\n4:cpu:/docker\r\n"));
    assert_eq!(Subsys::load_cpu(&files, "m").unwrap().base, "/docker");
    // A carriage return that no line feed follows belongs to the line.
    let files = one_file("m", Some("4:cpu:/docker\r"));
    assert_eq!(Subsys::load_cpu(&files, "m").unwrap().base, "/docker\r");
    let files = one_file("m", Some("\n\n4:cpu:/docker"));
    assert_eq!(Subsys::load_cpu(&files, "m").unwrap().base, "/docker");
}

#[test]
fn mount_table_gives_first_mount_of_wanted_version() {
    let table = "\
bad line
5 4 0:4 / /sys/fs/cgroup/unified rw shared:5 - cgroup2 cgroup2 rw
6 5 0:5 / /sys/fs/cgroup/cpuset rw shared:6 - cgroup cgroup rw,cpuset
7 5 0:6 /a /sys/fs/cgroup/cpu rw shared:7 - cgroup cgroup rw,cpu
8 5 0:7 /b /sys/fs/cgroup/cpu2 rw shared:8 - cgroup cgroup rw,cpu
9 4 0:4 / /second rw shared:5 - cgroup2 cgroup2 rw
";
    let files = one_file("t", Some(table));
    let first = MountInfo::load_cpu(&files, "t", CgroupVersion::V1).unwrap();
    assert_eq!(first.version, CgroupVersion::V1);
    assert_eq!(first.root, "/a");
    assert_eq!(first.mount_point, "/sys/fs/cgroup/cpu");
    let second = MountInfo::load_cpu(&files, "t", CgroupVersion::V2).unwrap();
    assert_eq!(second.version, CgroupVersion::V2);
    assert_eq!(second.mount_point, "/sys/fs/cgroup/unified");
}

#[test]
fn mount_table_without_match_gives_nothing() {
    let table = "6 5 0:5 / /sys/fs/cgroup/cpu rw shared:6 - cgroup cgroup rw,cpu\n";
    let files = one_file("t", Some(table));
    assert!(MountInfo::load_cpu(&files, "t", CgroupVersion::V2).is_none());
    assert!(MountInfo::load_cpu(&files, "u", CgroupVersion::V1).is_none());
    assert!(MountInfo::load_cpu(&one_file("t", None), "t", CgroupVersion::V1).is_none());
}

#[test]
fn control_file_holds_one_number() {
    let cases: &[(&str, Option<usize>)] = &[
        ("600000\n", Some(600000)),
        ("0", Some(0)),
        ("  42\t\r\n", Some(42)),
        ("+5", Some(5)),
        ("007", Some(7)),
        ("-1\n", None),
        ("", None),
        ("\n", None),
        ("+", None),
        ("++1", None),
        ("1 2", None),
        ("12a", None),
        ("max", None),
        ("1.5", None),
        ("\u{3000}9\u{a0}", Some(9)),
        ("\u{ff11}", None),
        ("18446744073709551615", "18446744073709551615".parse().ok()),
        ("18446744073709551616", "18446744073709551616".parse().ok()),
        ("4294967295", Some(4294967295)),
        ("4294967296", "4294967296".parse().ok()),
        ("99999999999999999999999999", None),
    ];
    for &(text, expected) in cases {
        let files = one_file("/g/cpu.cfs_quota_us", Some(text));
        let group = Cgroup::new(CgroupVersion::V1, "/g".to_owned());
        assert_eq!(group.quota_us(&files), expected, "{:?}", text);
        assert_eq!(group.param(&files, "cpu.cfs_quota_us"), text.trim().parse().ok(), "{:?}", text);
    }
}

#[test]
fn control_file_is_looked_up_in_the_directory() {
    let mut files = Files::new();
    files.record("/g/cpu.cfs_quota_us".to_owned(), Some("1".to_owned()));
    files.record("/h/cpu.cfs_quota_us".to_owned(), Some("2".to_owned()));
    files.record("cpu.cfs_quota_us".to_owned(), Some("3".to_owned()));
    files.record("/abs".to_owned(), Some("4".to_owned()));
    let at = |dir: &str| Cgroup::new(CgroupVersion::V1, dir.to_owned());
    assert_eq!(at("/g").quota_us(&files), Some(1));
    assert_eq!(at("/g/").quota_us(&files), Some(1));
    assert_eq!(at("/h").quota_us(&files), Some(2));
    assert_eq!(at("").quota_us(&files), Some(3));
    assert_eq!(at("/i").quota_us(&files), None);
    assert_eq!(at("/g").period_us(&files), None);
    assert_eq!(at("/g").param(&files, "/abs"), Some(4));
    assert_eq!(at("/g").raw_param(&files, "cpu.cfs_quota_us"), Some("1".to_owned()));
    assert_eq!(at("/g").raw_param(&files, "cpu.max"), None);
}

#[test]
fn unified_control_file_holds_quota_and_period() {
    let cases: &[(&str, Option<(usize, usize)>)] = &[
        ("600000 100000\n", Some((600000, 100000))),
        ("600000 100000", Some((600000, 100000))),
        ("600000 100000\r\n", Some((600000, 100000))),
        ("1 2 3\n", Some((1, 2))),
        ("1 2\n3 4\n", Some((1, 2))),
        ("max 100000\n", None),
        ("600000\n", None),
        ("600000  100000\n", None),
        (" 600000 100000\n", None),
        ("600000\t100000\n", None),
        ("600000 100000 \n", Some((600000, 100000))),
        ("600000 max\n", None),
        ("\n600000 100000\n", None),
        ("", None),
    ];
    for &(text, expected) in cases {
        let files = one_file("/g/cpu.max", Some(text));
        let group = Cgroup::new(CgroupVersion::V2, "/g".to_owned());
        assert_eq!(group.max(&files), expected, "{:?}", text);
    }
    let group = Cgroup::new(CgroupVersion::V2, "/g".to_owned());
    assert_eq!(group.max(&one_file("/g/cpu.max", None)), None);
    assert_eq!(group.max(&Files::new()), None);
}
