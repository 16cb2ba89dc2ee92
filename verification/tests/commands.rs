use cftesting::commands::{purge_target, Cli, Commands, PurgeTarget};
use cftesting::list::{installed_report, InstalledResource};

#[test]
fn purge_targets() {
    assert!(matches!(purge_target(true, None), PurgeTarget::All));
    assert!(matches!(purge_target(true, Some("chrome@1".to_string())), PurgeTarget::All));
    assert!(matches!(purge_target(false, Some("chrome@1".to_string())), PurgeTarget::Entry(e) if e == "chrome@1"));
    assert!(matches!(purge_target(false, None), PurgeTarget::Unspecified));
}

#[test]
fn command_values() {
    let cli = Cli { command: Commands::Install { value: "chrome@stable".to_string() } };
    assert!(matches!(cli.command, Commands::Install { ref value } if value == "chrome@stable"));
}

fn resource(name: &str, versions: &[&str]) -> InstalledResource {
    InstalledResource {
        name: name.to_string(),
        versions: versions.iter().map(|v| v.to_string()).collect(),
    }
}

#[test]
fn report_without_root() {
    assert_eq!(installed_report(false, &vec![resource("chrome", &["1"])]), vec!["No installations found."]);
}

#[test]
fn report_of_installed() {
    let resources = vec![resource("chrome", &["1.0", "2.0"]), resource("empty", &[]), resource("chromedriver", &["3.0"])];
    assert_eq!(
        installed_report(true, &resources),
        vec!["chrome:", "  - 1.0", "  - 2.0", "chromedriver:", "  - 3.0"]
    );
}

#[test]
fn report_of_nothing() {
    let expected = vec![
        "No installations found.",
        "Try running: cftesting list-channels and cftesting install <resource>@version to begin",
    ];
    assert_eq!(installed_report(true, &vec![]), expected);
    assert_eq!(installed_report(true, &vec![resource("chrome", &[])]), expected);
}
