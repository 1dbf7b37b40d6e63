/// The control-group directory of a process and the quota that its files state.
pub mod cgroup;
/// The count that callers are told, and the cache that keeps it.
pub mod count;
/// The record of the files that were read.
pub mod files;
/// The processors of the machine: logical CPUs and physical cores.
pub mod host;
/// Entries of the mount table.
pub mod mount;
/// Paths as sequences of components.
pub mod path;
/// The search from the process tables to the quota.
pub mod resolve;
/// Entries of the membership file.
pub mod subsys;
/// Splitting, trimming and reading numbers.
pub mod text;
/// The two generations of the control-group interface.
pub mod version;

pub use cgroup::Cgroup;
pub use count::{cgroups_num_cpus, get_num_cpus, init_cgroups, QuotaCache};
pub use files::{FileEntry, Files};
pub use host::{get_num_physical_cpus, logical_cpus, physical_cpus, CpuSource};
pub use mount::MountInfo;
pub use resolve::{load_cgroups, next_read};
pub use subsys::Subsys;
pub use version::CgroupVersion;
