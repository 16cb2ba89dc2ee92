//! The installation directory under the home directory, and the platform
//! name chosen from the build target.

use vstd::prelude::*;
use crate::text::str_equals;

verus! {

/// The installation directory, relative to the home directory.
pub const ENVIRO_DIR: &'static str = "/.cft/";

/// Why the directory that holds installations could not be set up.
#[derive(Debug, PartialEq, Eq, Structural, Clone, Copy)]
pub enum Error {
    CannotCreateDir,
}

/// The platform name of the published builds for a target operating system,
/// architecture and pointer width.
pub open spec fn target_platform_name(os: Seq<char>, arch: Seq<char>, pointer_width: u32) -> Seq<
    char,
> {
    if os == "linux"@ {
        "linux64"@
    } else if os == "macos"@ && arch == "aarch64"@ {
        "mac-arm64"@
    } else if os == "macos"@ && arch == "x86_64"@ {
        "mac-x64"@
    } else if os == "windows"@ && pointer_width == 32 {
        "win32"@
    } else if os == "windows"@ && pointer_width == 64 {
        "win64"@
    } else {
        "unknown"@
    }
}

/// The platform name of the published builds for the target whose
/// `target_os`, `target_arch` and `target_pointer_width` are given.
pub fn get_platform(target_os: &str, target_arch: &str, pointer_width: u32) -> (res: &'static str)
    ensures
        res@ == target_platform_name(target_os@, target_arch@, pointer_width),
{
    if str_equals(target_os, "linux") {
        "linux64"
    } else if str_equals(target_os, "macos") && str_equals(target_arch, "aarch64") {
        "mac-arm64"
    } else if str_equals(target_os, "macos") && str_equals(target_arch, "x86_64") {
        "mac-x64"
    } else if str_equals(target_os, "windows") && pointer_width == 32 {
        "win32"
    } else if str_equals(target_os, "windows") && pointer_width == 64 {
        "win64"
    } else {
        "unknown"
    }
}

/// The installation directory under the home directory `home`, before it is
/// made absolute.
pub fn environment_dir(home: &str) -> (res: String)
    ensures
        res@ == home@ + ENVIRO_DIR@,
{
    let mut res = String::from_str(home);
    res.append(ENVIRO_DIR);
    res
}

} // verus!
