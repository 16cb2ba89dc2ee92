use cftesting::parse_install::{is_channel_label, normalize_version, parse_entry, Error};

#[test]
fn entry_with_version_number() {
    assert_eq!(parse_entry("chrome@1.1.1"), Ok(("chrome", "1.1.1")));
    assert_eq!(
        parse_entry("chromedriver@116.0.5845.96"),
        Ok(("chromedriver", "116.0.5845.96"))
    );
}

#[test]
fn entry_without_version_is_stable() {
    assert_eq!(parse_entry("chrome"), Ok(("chrome", "Stable")));
    assert_eq!(
        parse_entry("chrome-headless-shell"),
        Ok(("chrome-headless-shell", "Stable"))
    );
}

#[test]
fn channel_in_any_case() {
    assert_eq!(parse_entry("chrome@stable"), Ok(("chrome", "Stable")));
    assert_eq!(parse_entry("chrome@Stable"), Ok(("chrome", "Stable")));
    assert_eq!(parse_entry("chrome@STABLE"), Ok(("chrome", "Stable")));
    assert_eq!(parse_entry("chrome@Canary"), Ok(("chrome", "Canary")));
    assert_eq!(parse_entry("chrome@dev"), Ok(("chrome", "Dev")));
    assert_eq!(parse_entry("chromedriver@bEtA"), Ok(("chromedriver", "Beta")));
    assert_eq!(
        parse_entry("chrome-headless-shell@canary"),
        Ok(("chrome-headless-shell", "Canary"))
    );
}

#[test]
fn surrounding_white_space_is_ignored() {
    assert_eq!(parse_entry("  chrome@dev\t\n"), Ok(("chrome", "Dev")));
    assert_eq!(parse_entry("\u{3000}chromedriver\u{a0}"), Ok(("chromedriver", "Stable")));
    assert_eq!(parse_entry(" chrome@ 1.2 "), Ok(("chrome", " 1.2")));
}

#[test]
fn empty_entries() {
    assert_eq!(parse_entry(""), Err(Error::EmptyValue));
    assert_eq!(parse_entry("   \t"), Err(Error::EmptyValue));
}

#[test]
fn missing_version_after_at() {
    assert_eq!(parse_entry("chrome@"), Err(Error::InvalidEntryFormat));
    assert_eq!(parse_entry("firefox@"), Err(Error::InvalidEntryFormat));
}

#[test]
fn unknown_names() {
    assert_eq!(parse_entry("firefox"), Err(Error::InvalidName));
    assert_eq!(parse_entry("firefox@stable"), Err(Error::InvalidName));
    assert_eq!(parse_entry("Chrome@stable"), Err(Error::InvalidName));
    assert_eq!(parse_entry("chrome @stable"), Err(Error::InvalidName));
    assert_eq!(parse_entry("@stable"), Err(Error::InvalidName));
}

#[test]
fn first_at_splits() {
    assert_eq!(parse_entry("chrome@a@b"), Ok(("chrome", "a@b")));
}

#[test]
fn error_messages() {
    assert_eq!(
        Error::InvalidEntryFormat.message(),
        "Invalid entry format, expected format: name@version"
    );
    assert_eq!(
        Error::InvalidName.message(),
        "Invalid name, must be chrome, chromedriver, chrome-headless-shell"
    );
    assert_eq!(Error::EmptyValue.message(), "The provided entry value is empty");
}

#[test]
fn normalizing_versions() {
    assert_eq!(normalize_version("stable", "STABLE"), "Stable");
    assert_eq!(normalize_version("beta", "Beta"), "Beta");
    assert_eq!(normalize_version("dev", "DEV"), "Dev");
    assert_eq!(normalize_version("canary", "CaNaRy"), "Canary");
    assert_eq!(normalize_version("1.2.3", "1.2.3"), "1.2.3");
    assert_eq!(normalize_version("Stable", "Stable"), "Stable");
}

#[test]
fn channel_labels() {
    for label in ["Stable", "Beta", "Dev", "Canary"] {
        assert!(is_channel_label(label));
    }
    for other in ["stable", "116.0.5845.96", "", "Stable "] {
        assert!(!is_channel_label(other));
    }
}

#[test]
fn bare_name_equals_stable_channel() {
    for name in ["chrome", "chromedriver", "chrome-headless-shell"] {
        let with_channel = format!("{name}@StAbLe");
        assert_eq!(parse_entry(name), parse_entry(&with_channel));
    }
}

#[test]
fn parsed_entries_read_back() {
    for entry in ["chrome", " chrome@STABLE ", "chromedriver@beta", "chrome@1.2@x", "chrome-headless-shell@ 9"] {
        let (name, version) = parse_entry(entry).unwrap();
        let written = format!("{name}@{version}");
        assert_eq!(parse_entry(&written), Ok((name, version)));
    }
}
