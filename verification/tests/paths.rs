use cftesting::downloadable::{archive_file_name, entry_destination, success_marker_path};
use cftesting::sys::utils::{get_platform, join_path, tree_directory, Error};
use cftesting::unixs::utils::{
    environment_dir, get_platform as target_platform, Error as TargetError, ENVIRO_DIR,
};

#[test]
fn installation_directories() {
    assert_eq!(
        tree_directory("/home/u/.cft", "chromedriver", "116.0.5845.96"),
        "/home/u/.cft/chromedriver/116.0.5845.96"
    );
    assert_eq!(tree_directory("/home/u/.cft/", "chrome", "Stable"), "/home/u/.cft/chrome/Stable");
    assert_eq!(tree_directory("", "chrome", "1"), "chrome/1");
}

#[test]
fn joining_paths() {
    assert_eq!(join_path("/tmp", "etc"), "/tmp/etc");
    assert_eq!(join_path("/tmp", "/etc"), "/etc");
    assert_eq!(join_path("/", "etc"), "/etc");
    assert_eq!(join_path("a", ""), "a/");
    assert_eq!(join_path("", "b"), "b");
}

#[test]
fn joining_agrees_with_std() {
    for (a, b) in [("/tmp", "etc"), ("/tmp/", "x"), ("a", "/b"), ("", "c"), ("d", "")] {
        let expected = std::path::Path::new(a).join(b);
        assert_eq!(join_path(a, b), expected.to_str().unwrap());
    }
}

#[test]
fn platforms() {
    assert_eq!(get_platform("linux", "x86_64"), "linux64");
    assert_eq!(get_platform("linux", "aarch64"), "linux64");
    assert_eq!(get_platform("macos", "aarch64"), "mac-arm64");
    assert_eq!(get_platform("macos", "x86_64"), "mac-x64");
    assert_eq!(get_platform("windows", "x86"), "win32");
    assert_eq!(get_platform("windows", "x86_64"), "win64");
    assert_eq!(get_platform("windows", "aarch64"), "unkown");
    assert_eq!(get_platform("freebsd", "x86_64"), "unkown");
}

#[test]
fn target_platforms() {
    assert_eq!(target_platform("linux", "x86", 32), "linux64");
    assert_eq!(target_platform("macos", "aarch64", 64), "mac-arm64");
    assert_eq!(target_platform("macos", "x86_64", 64), "mac-x64");
    assert_eq!(target_platform("windows", "x86", 32), "win32");
    assert_eq!(target_platform("windows", "aarch64", 64), "win64");
    assert_eq!(target_platform("macos", "powerpc", 32), "unknown");
    assert_eq!(target_platform("android", "arm", 32), "unknown");
}

#[test]
fn environment_directory() {
    assert_eq!(ENVIRO_DIR, "/.cft/");
    assert_eq!(environment_dir("/home/u"), "/home/u/.cft/");
}

#[test]
fn error_values() {
    assert_ne!(Error::CannotCreateDir, Error::HomeDirNotFound);
    assert_eq!(Error::InvalidPathUtf8.clone(), Error::InvalidPathUtf8);
    assert_eq!(TargetError::CannotCreateDir, TargetError::CannotCreateDir);
}

#[test]
fn archive_names() {
    assert_eq!(archive_file_name("chrome", "116.0.5845.96"), "chrome-116.0.5845.96.zip");
}

#[test]
fn unpacked_entry_paths() {
    let parts = |v: &[&str]| v.iter().map(|s| s.to_string()).collect::<Vec<String>>();
    assert_eq!(
        entry_destination("/home/u/.cft/chrome/1", &parts(&["chrome-linux64", "chrome"])),
        Some("/home/u/.cft/chrome/1/chrome".to_string())
    );
    assert_eq!(
        entry_destination("/r", &parts(&["top", "lib", "x.so"])),
        Some("/r/lib/x.so".to_string())
    );
    assert_eq!(entry_destination("/r", &parts(&["top"])), None);
    assert_eq!(entry_destination("/r", &parts(&[])), None);
}

#[test]
fn success_marker() {
    assert_eq!(success_marker_path("/r/chrome/1"), "/r/chrome/1/.cft_success");
}

#[test]
fn distinct_installations_get_distinct_directories() {
    let root = "/home/u/.cft";
    let a = tree_directory(root, "chrome", "1.0");
    let b = tree_directory(root, "chrome", "1.1");
    let c = tree_directory(root, "chromedriver", "1.0");
    assert_ne!(a, b);
    assert_ne!(a, c);
    assert_ne!(b, c);
}
