//! Paths of installations, and the platform name that the published builds use.

use vstd::prelude::*;
use crate::text::str_equals;

verus! {

/// Why the directory that holds installations could not be set up.
#[derive(Debug, PartialEq, Eq, Structural, Clone, Copy)]
pub enum Error {
    CannotCreateDir,
    HomeDirNotFound,
    InvalidPathUtf8,
}

/// `part` joined onto `base` as `Path::join` joins paths on Unix, the one
/// platform the tool supports (separator `/`): a part that starts at the root replaces the base, and a separator is
/// put between the two unless the base is empty or already ends with one.
pub open spec fn joined_path(base: Seq<char>, part: Seq<char>) -> Seq<char> {
    if part.len() > 0 && part[0] == '/' {
        part
    } else if base.len() > 0 && base.last() != '/' {
        base + seq!['/'] + part
    } else {
        base + part
    }
}

/// The directory of one version of one binary under the installation root.
pub open spec fn installation_dir(root: Seq<char>, binary: Seq<char>, version: Seq<char>) -> Seq<
    char,
> {
    joined_path(joined_path(root, binary), version)
}

/// The platform name of the published builds for an operating system and
/// processor architecture, as this module names them.
pub open spec fn platform_name(os: Seq<char>, arch: Seq<char>) -> Seq<char> {
    if os == "linux"@ {
        "linux64"@
    } else if os == "macos"@ && arch == "aarch64"@ {
        "mac-arm64"@
    } else if os == "macos"@ && arch == "x86_64"@ {
        "mac-x64"@
    } else if os == "windows"@ && arch == "x86"@ {
        "win32"@
    } else if os == "windows"@ && arch == "x86_64"@ {
        "win64"@
    } else {
        "unkown"@
    }
}

/// The platform name of the published builds for the operating system `os`
/// and the architecture `arch` (as `std::env::consts` spells them).
pub fn get_platform(os: &str, arch: &str) -> (res: &'static str)
    ensures
        res@ == platform_name(os@, arch@),
{
    if str_equals(os, "linux") {
        "linux64"
    } else if str_equals(os, "macos") && str_equals(arch, "aarch64") {
        "mac-arm64"
    } else if str_equals(os, "macos") && str_equals(arch, "x86_64") {
        "mac-x64"
    } else if str_equals(os, "windows") && str_equals(arch, "x86") {
        "win32"
    } else if str_equals(os, "windows") && str_equals(arch, "x86_64") {
        "win64"
    } else {
        "unkown"
    }
}

/// `part` joined onto the path `base`.
pub fn join_path(base: &str, part: &str) -> (res: String)
    ensures
        res@ == joined_path(base@, part@),
{
    proof {
        reveal_strlit("/");
    }
    let part_len = part.unicode_len();
    let base_len = base.unicode_len();
    if part_len > 0 && part.get_char(0) == '/' {
        String::from_str(part)
    } else if base_len > 0 && base.get_char(base_len - 1) != '/' {
        let mut res = String::from_str(base);
        res.append("/");
        res.append(part);
        res
    } else {
        let mut res = String::from_str(base);
        res.append(part);
        res
    }
}

/// The directory that holds `version_string` of `type_downloable` under the
/// installation root `parsed_absoluted`, such as `~/.cft/chromedriver/116.0.5845.96`.
pub fn tree_directory(parsed_absoluted: &str, type_downloable: &str, version_string: &str) -> (res:
    String)
    ensures
        res@ == installation_dir(parsed_absoluted@, type_downloable@, version_string@),
{
    let binary_dir = join_path(parsed_absoluted, type_downloable);
    join_path(binary_dir.as_str(), version_string)
}

/// A path component: not empty, and holding no separator.
pub open spec fn is_plain_component(s: Seq<char>) -> bool {
    s.len() > 0 && forall|i: int| 0 <= i < s.len() ==> s[i] != '/'
}

/// Under a root that does not end with a separator, the directory of a
/// binary and version is the root, a separator, the binary, a separator and
/// the version.
pub proof fn lemma_installation_dir_layout(root: Seq<char>, binary: Seq<char>, version: Seq<char>)
    requires
        root.len() > 0,
        root.last() != '/',
        is_plain_component(binary),
        is_plain_component(version),
    ensures
        installation_dir(root, binary, version) == root + seq!['/'] + binary + seq!['/']
            + version,
{
    let d = root + seq!['/'] + binary;
    assert(d.last() == binary.last());
    assert(binary[binary.len() - 1] != '/');
    assert(version[0] != '/');
    assert(binary[0] != '/');
}

/// Different binaries, or different versions, are installed in different
/// directories of the same root.
pub proof fn lemma_installation_dirs_distinct(
    root: Seq<char>,
    binary1: Seq<char>,
    version1: Seq<char>,
    binary2: Seq<char>,
    version2: Seq<char>,
)
    requires
        root.len() > 0,
        root.last() != '/',
        is_plain_component(binary1),
        is_plain_component(version1),
        is_plain_component(binary2),
        is_plain_component(version2),
        installation_dir(root, binary1, version1) == installation_dir(root, binary2, version2),
    ensures
        binary1 == binary2,
        version1 == version2,
{
    lemma_installation_dir_layout(root, binary1, version1);
    lemma_installation_dir_layout(root, binary2, version2);
    let prefix = root + seq!['/'];
    let tail1 = binary1 + seq!['/'] + version1;
    let tail2 = binary2 + seq!['/'] + version2;
    let whole = installation_dir(root, binary1, version1);
    assert(whole =~= prefix + tail1);
    assert(whole =~= prefix + tail2);
    assert(tail1 =~= whole.skip(prefix.len() as int));
    assert(tail2 =~= whole.skip(prefix.len() as int));
    if binary1.len() < binary2.len() {
        assert(tail1[binary1.len() as int] == '/');
        assert(tail2[binary1.len() as int] == binary2[binary1.len() as int]);
    }
    if binary2.len() < binary1.len() {
        assert(tail2[binary2.len() as int] == '/');
        assert(tail1[binary2.len() as int] == binary1[binary2.len() as int]);
    }
    assert(binary1 =~= tail1.take(binary1.len() as int));
    assert(binary2 =~= tail2.take(binary2.len() as int));
    assert(version1 =~= tail1.skip(binary1.len() as int + 1));
    assert(version2 =~= tail2.skip(binary2.len() as int + 1));
}

} // verus!
