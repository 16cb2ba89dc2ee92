use cftesting::extraction::{
    all_version_names, channel_line, channel_listing, search_values_for_lts_know,
    search_values_for_specific_version, ApiResponseLtsKnow, ApiResponseVersions, ChanelObject,
    Download, GoodKnowVersions, SearchError,
};
use cftesting::table::KeyedTable;

fn download(platform: &str, url: &str) -> Download {
    Download { platform: platform.to_string(), url: url.to_string() }
}

fn downloads(binaries: &[(&str, &[(&str, &str)])]) -> KeyedTable<Vec<Download>> {
    let mut table = KeyedTable::new();
    for (name, items) in binaries {
        table.insert(name.to_string(), items.iter().map(|(p, u)| download(p, u)).collect());
    }
    table
}

fn versions() -> ApiResponseVersions {
    ApiResponseVersions {
        versions: vec![
            GoodKnowVersions {
                version: "113.0.5672.0".to_string(),
                revision: "1121455".to_string(),
                downloads: downloads(&[("chrome", &[("linux64", "https://x/113/linux64.zip")])]),
            },
            GoodKnowVersions {
                version: "116.0.5845.96".to_string(),
                revision: "1160321".to_string(),
                downloads: downloads(&[
                    ("chrome", &[("mac-x64", "https://x/116/mac.zip"), ("linux64", "https://x/116/linux64.zip")]),
                    ("chromedriver", &[("linux64", "https://x/116/driver.zip")]),
                ]),
            },
        ],
    }
}

fn channels() -> ApiResponseLtsKnow {
    let mut table = KeyedTable::new();
    table.insert(
        "Stable".to_string(),
        ChanelObject {
            channel: "Stable".to_string(),
            version: "120.0.6099.109".to_string(),
            revision: "1217362".to_string(),
            downloads: downloads(&[("chrome", &[("linux64", "https://x/120/linux64.zip")])]),
        },
    );
    table.insert(
        "Dev".to_string(),
        ChanelObject {
            channel: "Dev".to_string(),
            version: "122.0.6182.0".to_string(),
            revision: "1234567".to_string(),
            downloads: downloads(&[("chromedriver", &[("win64", "https://x/122/driver.zip")])]),
        },
    );
    ApiResponseLtsKnow { channels: table }
}

#[test]
fn version_found() {
    let res = search_values_for_specific_version(&versions(), "linux64", "116.0.5845.96", "chrome");
    assert_eq!(res.unwrap(), ("116.0.5845.96".to_string(), "https://x/116/linux64.zip".to_string()));
    let res =
        search_values_for_specific_version(&versions(), "linux64", "116.0.5845.96", "chromedriver");
    assert_eq!(res.unwrap().1, "https://x/116/driver.zip");
}

#[test]
fn version_missing() {
    let res = search_values_for_specific_version(&versions(), "linux64", "1.1.1", "chrome");
    let err = res.unwrap_err();
    assert!(matches!(&err, SearchError::VersionNotFound { version } if version == "1.1.1"));
    assert_eq!(err.message(), "Error: Version 1.1.1 not found in the know good versions");
}

#[test]
fn version_without_archive() {
    let res = search_values_for_specific_version(&versions(), "win64", "113.0.5672.0", "chrome");
    let err = res.unwrap_err();
    assert_eq!(
        err.message(),
        "Error: Download not found for platform win64 and type chrome in version 113.0.5672.0"
    );
    let res = search_values_for_specific_version(
        &versions(),
        "linux64",
        "113.0.5672.0",
        "chrome-headless-shell",
    );
    assert!(matches!(res, Err(SearchError::DownloadNotFound { .. })));
}

#[test]
fn channel_found() {
    let res = search_values_for_lts_know(&channels(), "linux64", "Stable", "chrome");
    assert_eq!(res.unwrap(), ("120.0.6099.109".to_string(), "https://x/120/linux64.zip".to_string()));
    let res = search_values_for_lts_know(&channels(), "win64", "Dev", "chromedriver");
    assert_eq!(res.unwrap(), ("122.0.6182.0".to_string(), "https://x/122/driver.zip".to_string()));
}

#[test]
fn channel_missing() {
    let res = search_values_for_lts_know(&channels(), "linux64", "Beta", "chrome");
    assert_eq!(
        res.unwrap_err().message(),
        "Error: Download not found for platform linux64 and type chrome in channel Beta"
    );
    let res = search_values_for_lts_know(&channels(), "mac-arm64", "Stable", "chrome");
    assert!(matches!(
        res,
        Err(SearchError::ChannelDownloadNotFound { platform, type_of_chrome, channel })
            if platform == "mac-arm64" && type_of_chrome == "chrome" && channel == "Stable"
    ));
}

#[test]
fn listing_channels() {
    assert_eq!(
        channel_listing(&channels()),
        vec![
            "stable -> Stable (v120.0.6099.109)".to_string(),
            "dev    -> Dev (v122.0.6182.0)".to_string(),
        ]
    );
    let empty = ApiResponseLtsKnow { channels: KeyedTable::new() };
    assert!(channel_listing(&empty).is_empty());
}

#[test]
fn channel_line_padding_matches_format() {
    for (lower, name) in [("stable", "Stable"), ("beta", "Beta"), ("dev", "Dev"), ("canary", "Canary")] {
        let expected = format!("{:<6} -> {} (v{})", lower, name, "1.2");
        assert_eq!(channel_line(lower, name, "1.2"), expected);
    }
    assert_eq!(channel_line("longername", "X", "9"), "longername -> X (v9)");
}

#[test]
fn listing_versions() {
    assert_eq!(
        all_version_names(&versions()),
        vec!["113.0.5672.0".to_string(), "116.0.5845.96".to_string()]
    );
    assert!(all_version_names(&ApiResponseVersions { versions: vec![] }).is_empty());
}
