//! System information as plain data, and the parsing that turns command
//! output into it. Gathering the command output itself is the caller's
//! concern.

use crate::ratio::digits_val;
use crate::ratio::num_digits;
use crate::ratio::num_ok;
use crate::response::first_dot;
use vstd::prelude::*;
use vstd::string::StringExecFns;

verus! {

/// Package counts from the package manager.
pub struct PackageInfo {
    pub brew_count: usize,
    pub brew_cask_count: usize,
}

/// The shell's version banner.
pub struct ShellInfo {
    pub version: String,
}

/// Processor model and core count.
pub struct CpuInfo {
    pub model: String,
    pub cores: String,
}

/// Swap usage, already formatted.
pub struct SwapInfo {
    pub used: String,
    pub total: String,
    pub percentage: String,
}

/// Disk usage, already formatted.
pub struct DiskInfo {
    pub used: String,
    pub total: String,
    pub percentage: String,
}

/// The local network address.
pub struct NetworkInfo {
    pub local_ip: String,
}

/// Battery charge and state.
pub struct BatteryInfo {
    pub percentage: String,
    pub status: String,
}

/// What can go wrong while gathering system information.
#[derive(Debug)]
pub enum SystemInfoError {
    CommandExecutionError(String),
    ParsingError(String),
    EnvironmentError(String),
}

/// The operating-system families the banner distinguishes.
#[derive(Clone, Copy, PartialEq, Eq, Structural, Debug)]
pub enum OS {
    Linux,
    FreeBSD,
    OpenBSD,
    NetBSD,
    DragonflyBSD,
    Other,
}

/// An operating system with its version string.
pub struct OSInfo {
    pub os: OS,
    pub version: String,
}

impl OSInfo {
    /// The starting value before detection: an unknown system.
    pub fn new() -> (r: OSInfo)
        ensures
            r.os is Other,
            r.version@ == ("Unknown")@,
    {
        let os = OS::Other;
        let version = String::from_str("Unknown");
        OSInfo { os, version }
    }
}

/// The major version at the front of a dotted version string; anything that
/// is not a plain number counts as zero.
pub open spec fn major_of(s: Seq<char>) -> nat {
    let t = s.take(first_dot(s));
    if num_ok(t) && digits_val(num_digits(t)) <= u32::MAX {
        digits_val(num_digits(t))
    } else {
        0
    }
}

/// The marketing name of a major release.
pub open spec fn release_name(major: nat) -> Seq<char> {
    if major == 26 {
        ("Tahoe")@
    } else if major == 15 {
        ("Sequoia")@
    } else if major == 14 {
        ("Sonoma")@
    } else if major == 13 {
        ("Ventura")@
    } else if major == 12 {
        ("Monterey")@
    } else if major == 11 {
        ("Big Sur")@
    } else if major == 10 {
        ("Catalina")@
    } else if major == 9 {
        ("Mojave")@
    } else if major == 8 {
        ("High Sierra")@
    } else if major == 7 {
        ("Sierra")@
    } else if major == 6 {
        ("El Capitan")@
    } else if major == 5 {
        ("Yosemite")@
    } else if major == 4 {
        ("Mavericks")@
    } else if major == 3 {
        ("Mountain Lion")@
    } else if major == 2 {
        ("Jaguar")@
    } else if major == 1 {
        ("Puma")@
    } else if major == 0 {
        ("Cheetah")@
    } else {
        ("Unknown")@
    }
}

/// Map a product version string to the release's marketing name.
pub fn get_os_release_name(os_version: &str) -> (r: String)
    ensures
        r@ == release_name(major_of(os_version@)),
{
    let n = os_version.unicode_len();
    let mut k: usize = 0;
    while k < n && os_version.get_char(k) != '.'
        invariant
            k <= n == os_version@.len(),
            forall|i: int| 0 <= i < k ==> os_version@[i] != '.',
        decreases n - k,
    {
        k += 1;
    }
    proof {
        crate::response::lemma_first_dot_is(os_version@, k as int);
        assert(os_version@.subrange(0, k as int) =~= os_version@.take(k as int));
    }
    let major: u32 = match crate::ratio::parse_u32_range(os_version, 0, k) {
        Some(v) => v,
        None => 0,
    };
    if major == 26 {
        String::from_str("Tahoe")
    } else if major == 15 {
        String::from_str("Sequoia")
    } else if major == 14 {
        String::from_str("Sonoma")
    } else if major == 13 {
        String::from_str("Ventura")
    } else if major == 12 {
        String::from_str("Monterey")
    } else if major == 11 {
        String::from_str("Big Sur")
    } else if major == 10 {
        String::from_str("Catalina")
    } else if major == 9 {
        String::from_str("Mojave")
    } else if major == 8 {
        String::from_str("High Sierra")
    } else if major == 7 {
        String::from_str("Sierra")
    } else if major == 6 {
        String::from_str("El Capitan")
    } else if major == 5 {
        String::from_str("Yosemite")
    } else if major == 4 {
        String::from_str("Mavericks")
    } else if major == 3 {
        String::from_str("Mountain Lion")
    } else if major == 2 {
        String::from_str("Jaguar")
    } else if major == 1 {
        String::from_str("Puma")
    } else if major == 0 {
        String::from_str("Cheetah")
    } else {
        String::from_str("Unknown")
    }
}

} // verus!
