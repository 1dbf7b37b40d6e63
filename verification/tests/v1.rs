use cgroup_cpus::{Cgroup, CgroupVersion, Files, MountInfo, Subsys};
use std::path::PathBuf;

const FIXTURES_PROC: &str = "fixtures/cgroups/proc/cgroups";

const FIXTURES_CGROUPS: &str = "fixtures/cgroups/cgroups";

const MOUNTINFO: &str = "\
1 0 8:1 / / rw,noatime shared:1 - ext4 /dev/sda1 rw,errors=remount-ro,data=reordered
2 1 0:1 / /dev rw,relatime shared:2 - devtmpfs udev rw,size=10240k,nr_inodes=16487629,mode=755
3 1 0:2 / /proc rw,nosuid,nodev,noexec,relatime shared:3 - proc proc rw
4 1 0:3 / /sys rw,nosuid,nodev,noexec,relatime shared:4 - sysfs sysfs rw
5 4 0:4 / /sys/fs/cgroup ro,nosuid,nodev,noexec shared:5 - tmpfs tmpfs ro,mode=755
6 5 0:5 / /sys/fs/cgroup/cpuset rw,nosuid,nodev,noexec,relatime shared:6 - cgroup cgroup rw,cpuset
7 5 0:6 / /sys/fs/cgroup/cpu,cpuacct rw,nosuid,nodev,noexec,relatime shared:7 - cgroup cgroup rw,cpu,cpuacct
8 5 0:7 / /sys/fs/cgroup/memory rw,nosuid,nodev,noexec,relatime shared:8 - cgroup cgroup rw,memory
";

const MOUNTINFO_ZERO_OPT: &str = "\
1 0 8:1 / / rw,noatime - ext4 /dev/sda1 rw,errors=remount-ro,data=reordered
5 4 0:4 / /sys/fs/cgroup ro,nosuid,nodev,noexec - tmpfs tmpfs ro,mode=755
6 5 0:5 / /sys/fs/cgroup/cpuset rw,nosuid,nodev,noexec,relatime - cgroup cgroup rw,cpuset
7 5 0:6 / /sys/fs/cgroup/cpu,cpuacct rw,nosuid,nodev,noexec,relatime - cgroup cgroup rw,cpu,cpuacct
8 5 0:7 / /sys/fs/cgroup/memory rw,nosuid,nodev,noexec,relatime - cgroup cgroup rw,memory
";

const MOUNTINFO_MULTI_OPT: &str = "\
1 0 8:1 / / rw,noatime shared:1 master:2 - ext4 /dev/sda1 rw,errors=remount-ro,data=reordered
5 4 0:4 / /sys/fs/cgroup ro,nosuid,nodev,noexec shared:5 master:6 - tmpfs tmpfs ro,mode=755
6 5 0:5 / /sys/fs/cgroup/cpuset rw,nosuid,nodev,noexec,relatime shared:6 master:7 - cgroup cgroup rw,cpuset
7 5 0:6 / /sys/fs/cgroup/cpu,cpuacct rw,nosuid,nodev,noexec,relatime shared:7 master:8 propagate_from:9 - cgroup cgroup rw,cpu,cpuacct
8 5 0:7 / /sys/fs/cgroup/memory rw,nosuid,nodev,noexec,relatime shared:8 master:9 - cgroup cgroup rw,memory
";

const CGROUP: &str = "\
12:perf_event:/
11:cpu,cpuacct:/
3:devices:/user.slice
";

fn join(parts: &[&str]) -> String {
    let mut path = PathBuf::new();
    for part in parts {
        path.push(part);
    }
    path.to_str().unwrap().to_owned()
}

fn fixtures() -> Files {
    let mut files = Files::new();
    let proc_files = [
        ("mountinfo", MOUNTINFO),
        ("mountinfo_zero_opt", MOUNTINFO_ZERO_OPT),
        ("mountinfo_multi_opt", MOUNTINFO_MULTI_OPT),
        ("cgroup", CGROUP),
    ];
    for (name, text) in proc_files {
        files.record(join(&[FIXTURES_PROC, name]), Some(text.to_owned()));
    }
    let params = [
        ("good", "cpu.cfs_quota_us", "600000\n"),
        ("good", "cpu.cfs_period_us", "100000\n"),
        ("zero-period", "cpu.cfs_quota_us", "600000\n"),
        ("zero-period", "cpu.cfs_period_us", "0\n"),
        ("ceil", "cpu.cfs_quota_us", "1100000\n"),
        ("ceil", "cpu.cfs_period_us", "1000000\n"),
    ];
    for (dir, name, text) in params {
        files.record(join(&[FIXTURES_CGROUPS, dir, name]), Some(text.to_owned()));
    }
    files
}

#[test]
fn test_load_mountinfo() {
    let files = fixtures();

    // test only one optional fields
    let path = join(&[FIXTURES_PROC, "mountinfo"]);

    let mnt_info = MountInfo::load_cpu(&files, &path, CgroupVersion::V1).unwrap();

    assert_eq!(mnt_info.root, "/");
    assert_eq!(mnt_info.mount_point, "/sys/fs/cgroup/cpu,cpuacct");

    // test zero optional field
    let path = join(&[FIXTURES_PROC, "mountinfo_zero_opt"]);

    let mnt_info = MountInfo::load_cpu(&files, &path, CgroupVersion::V1).unwrap();

    assert_eq!(mnt_info.root, "/");
    assert_eq!(mnt_info.mount_point, "/sys/fs/cgroup/cpu,cpuacct");

    // test multi optional fields
    let path = join(&[FIXTURES_PROC, "mountinfo_multi_opt"]);

    let mnt_info = MountInfo::load_cpu(&files, &path, CgroupVersion::V1).unwrap();

    assert_eq!(mnt_info.root, "/");
    assert_eq!(mnt_info.mount_point, "/sys/fs/cgroup/cpu,cpuacct");
}

#[test]
fn test_load_subsys() {
    let files = fixtures();
    let path = join(&[FIXTURES_PROC, "cgroup"]);

    let subsys = Subsys::load_cpu(&files, &path).unwrap();

    assert_eq!(subsys.base, "/");
    assert_eq!(subsys.version, CgroupVersion::V1);
}

#[test]
fn test_cgroup_mount() {
    let cases = &[
        ("/", "/sys/fs/cgroup/cpu", "/", Some("/sys/fs/cgroup/cpu")),
        (
            "/docker/01abcd",
            "/sys/fs/cgroup/cpu",
            "/docker/01abcd",
            Some("/sys/fs/cgroup/cpu"),
        ),
        (
            "/docker/01abcd",
            "/sys/fs/cgroup/cpu",
            "/docker/01abcd/",
            Some("/sys/fs/cgroup/cpu"),
        ),
        (
            "/docker/01abcd",
            "/sys/fs/cgroup/cpu",
            "/docker/01abcd/large",
            Some("/sys/fs/cgroup/cpu/large"),
        ),
        // fails
        ("/docker/01abcd", "/sys/fs/cgroup/cpu", "/", None),
        ("/docker/01abcd", "/sys/fs/cgroup/cpu", "/docker", None),
        ("/docker/01abcd", "/sys/fs/cgroup/cpu", "/elsewhere", None),
        (
            "/docker/01abcd",
            "/sys/fs/cgroup/cpu",
            "/docker/01abcd-other-dir",
            None,
        ),
    ];

    for &(root, mount_point, subsys, expected) in cases.iter() {
        let mnt_info = MountInfo {
            version: CgroupVersion::V1,
            root: root.into(),
            mount_point: mount_point.into(),
        };
        let subsys = Subsys {
            version: CgroupVersion::V1,
            base: subsys.into(),
        };

        let actual = Cgroup::translate(mnt_info, subsys).map(|c| PathBuf::from(c.base));
        let expected = expected.map(PathBuf::from);
        assert_eq!(actual, expected);
    }
}

#[test]
fn test_cgroup_cpu_quota() {
    let files = fixtures();
    let cgroup = Cgroup::new(CgroupVersion::V1, join(&[FIXTURES_CGROUPS, "good"]));
    assert_eq!(cgroup.cpu_quota(&files), Some(6));
}

#[test]
fn test_cgroup_cpu_quota_divide_by_zero() {
    let files = fixtures();
    let cgroup = Cgroup::new(CgroupVersion::V1, join(&[FIXTURES_CGROUPS, "zero-period"]));
    assert!(cgroup.quota_us(&files).is_some());
    assert_eq!(cgroup.period_us(&files), Some(0));
    assert_eq!(cgroup.cpu_quota(&files), None);
}

#[test]
fn test_cgroup_cpu_quota_ceil() {
    let files = fixtures();
    let cgroup = Cgroup::new(CgroupVersion::V1, join(&[FIXTURES_CGROUPS, "ceil"]));
    assert_eq!(cgroup.cpu_quota(&files), Some(2));
}
