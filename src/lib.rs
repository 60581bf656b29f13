//! Host information: operating system identity, CPU, load, memory, disk,
//! host name, boot time and kernel identity.
//!
//! This crate holds the verified part: the readers that turn what the kernel
//! and the native calls hand out (text listings, byte buffers, counters) into
//! typed values, each with a contract that says exactly what is returned and
//! when each error comes.
use vstd::prelude::*;

pub mod error;
pub mod text;
pub mod number;
pub mod meminfo;
pub mod os_release;
pub mod procfs;
pub mod native;
pub mod uname;
pub mod counters;

pub use counters::{cpu_count, disk_info_from_stats, DiskInfo};
pub use error::{Cause, Error};
pub use meminfo::{parse_meminfo, MemInfo};
pub use native::{decode_field, hostname_from_buffer, hostname_from_output};
pub use os_release::{parse_line_for_linux_os_release, parse_linux_os_release, LinuxOSReleaseInfo};
pub use procfs::{parse_cpu_speed_field, parse_kernel_line, parse_loadavg_fields, parse_proc_total, parse_uptime};
pub use uname::Info;
