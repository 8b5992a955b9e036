use scripts_rs::battery::{Battery, BatteryStatus};
use scripts_rs::classify::{classify, has_wildcard};
use scripts_rs::driver::{install_outcome, makepkg_args, BuildOptions};
use scripts_rs::errors::AURError;
use scripts_rs::ip::{get_ip, IPSource};
use scripts_rs::options::{parse_field, ColorState, SearchField, SortBy, SortDir};
use scripts_rs::pacman::{foreign_names, installed_version, is_dep_outcome};
use scripts_rs::text::{parse_u32, second_field_trimmed, split_lines, str_starts_with, trimmed};

fn names(ns: &[&str]) -> Vec<String> {
    ns.iter().map(|s| s.to_string()).collect()
}

#[test]
fn trimming_strips_surrounding_whitespace() {
    assert_eq!(trimmed("  hello\tworld \r\n"), "hello\tworld");
    assert_eq!(trimmed(""), "");
    assert_eq!(trimmed(" \t "), "");
    assert_eq!(trimmed("plain"), "plain");
}

#[test]
fn decimal_parsing_is_exact() {
    assert_eq!(parse_u32("0"), Some(0));
    assert_eq!(parse_u32("48252000"), Some(48_252_000));
    assert_eq!(parse_u32("4294967295"), Some(u32::MAX));
    assert_eq!(parse_u32("4294967296"), None);
    assert_eq!(parse_u32(""), None);
    assert_eq!(parse_u32("12a"), None);
    assert_eq!(parse_u32("-1"), None);
}

#[test]
fn second_field_extracts_the_version_column() {
    assert_eq!(second_field_trimmed("ripgrep 13.0.0-1\n"), Some("13.0.0-1".to_string()));
    assert_eq!(second_field_trimmed("lonely"), None);
    assert_eq!(second_field_trimmed("a b c"), Some("b".to_string()));
}

#[test]
fn prefix_test_matches_literally() {
    assert!(str_starts_with("error: target not found", "error"));
    assert!(!str_starts_with("warning: x", "error"));
    assert!(!str_starts_with("err", "error"));
}

#[test]
fn line_splitting_matches_line_endings() {
    assert_eq!(split_lines("a\nb\n"), names(&["a", "b"]));
    assert_eq!(split_lines("a\r\nb"), names(&["a", "b"]));
    assert_eq!(split_lines(""), Vec::<String>::new());
    assert_eq!(split_lines("a\n\nb"), names(&["a", "", "b"]));
}

#[test]
fn installed_version_reads_pacman_query_output() {
    let name = "ripgrep".to_string();
    assert_eq!(
        installed_version(&name, true, "ripgrep 13.0.0-1\n"),
        Ok("13.0.0-1".to_string())
    );
    assert_eq!(
        installed_version(&name, false, ""),
        Err(AURError::NotInstalled("ripgrep".to_string()))
    );
    assert_eq!(
        installed_version(&name, true, "garbage"),
        Err(AURError::NotInstalled("ripgrep".to_string()))
    );
}

#[test]
fn dependency_query_outcomes_follow_the_status() {
    let name = "foo".to_string();
    assert_eq!(is_dep_outcome(&name, true, "foo 1.0-1\n"), Ok(true));
    assert_eq!(is_dep_outcome(&name, false, "\n"), Ok(false));
    assert_eq!(
        is_dep_outcome(&name, false, "error: package 'foo' was not found\n"),
        Err(AURError::NotInstalled("foo".to_string()))
    );
}

#[test]
fn foreign_listing_yields_one_name_per_line() {
    assert_eq!(foreign_names("foo\nbar-git\n"), names(&["foo", "bar-git"]));
}

#[test]
fn classification_is_a_stable_partition() {
    let ns = names(&["a", "b", "c", "d"]);
    let answers = vec![Some(false), Some(true), None, Some(true)];
    let (explicit, deps) = classify(&ns, &answers);
    assert_eq!(explicit, names(&["a", "c"]));
    assert_eq!(deps, names(&["b", "d"]));
    // same installed state, same partition
    let (explicit2, deps2) = classify(&ns, &answers);
    assert_eq!(explicit, explicit2);
    assert_eq!(deps, deps2);
}

#[test]
fn wildcard_detection_trims_entries() {
    assert!(has_wildcard(&names(&["foo", " * "])));
    assert!(has_wildcard(&names(&["*"])));
    assert!(!has_wildcard(&names(&["foo", "a*b"])));
}

#[test]
fn build_arguments_follow_the_options() {
    let opts = BuildOptions { sync_deps: true, rm_deps: false, clean: true, as_deps: true, confirm: false };
    assert_eq!(
        makepkg_args(&opts),
        names(&["-i", "--needed", "-s", "-c", "--asdeps", "--noconfirm"])
    );
    let plain = BuildOptions { sync_deps: false, rm_deps: false, clean: false, as_deps: false, confirm: true };
    assert_eq!(makepkg_args(&plain), names(&["-i", "--needed"]));
}

#[test]
fn exit_status_maps_to_install_outcome() {
    assert_eq!(install_outcome(true), Ok(()));
    assert_eq!(install_outcome(false), Err(AURError::InstallFailed));
}

#[test]
fn sort_keys_parse_case_insensitively() {
    assert_eq!(SortBy::from_str("NAME"), Ok(SortBy::Name));
    assert_eq!(SortBy::from_str("v"), Ok(SortBy::Votes));
    assert_eq!(SortBy::from_str("Popularity"), Ok(SortBy::Popularity));
    assert_eq!(SortBy::from_str("votesx"), Err(AURError::UnrecognizedVariant));
}

#[test]
fn sort_directions_parse_case_insensitively() {
    assert_eq!(SortDir::from_str("Ascending"), Ok(SortDir::Ascending));
    assert_eq!(SortDir::from_str("d"), Ok(SortDir::Descending));
    assert_eq!(SortDir::from_str("up"), Err(AURError::UnrecognizedVariant));
}

#[test]
fn search_fields_parse_and_report_unknown_words() {
    assert_eq!(parse_field("Name-Desc"), Ok(SearchField::NameDesc));
    assert_eq!(parse_field("makedepends"), Ok(SearchField::MakeDepends));
    assert_eq!(
        parse_field("bogus"),
        Err(AURError::UnrecognizedField("bogus".to_string()))
    );
}

#[test]
fn color_states_parse_case_insensitively() {
    assert_eq!(ColorState::from_str("Never"), Some(ColorState::Never));
    assert_eq!(ColorState::from_str("AUTO"), Some(ColorState::Auto));
    assert_eq!(ColorState::from_str("always"), Some(ColorState::Always));
    assert_eq!(ColorState::from_str("sometimes"), None);
}

#[test]
fn battery_status_parses_and_displays() {
    assert_eq!(BatteryStatus::from_str("Charging"), Ok(BatteryStatus::Charging));
    assert_eq!(BatteryStatus::from_str("not charging"), Ok(BatteryStatus::NotCharging));
    assert_eq!(BatteryStatus::from_str("sleeping"), Err(()));
    assert_eq!(BatteryStatus::NotCharging.display_string(), "Not charging");
    assert_eq!(BatteryStatus::Full.display_string(), "Full");
}

#[test]
fn uevent_parsing_collects_the_four_readings() {
    let content = "POWER_SUPPLY_NAME=BAT0\n\
                   POWER_SUPPLY_STATUS=Discharging\n\
                   POWER_SUPPLY_CHARGE_NOW=2800000\n\
                   POWER_SUPPLY_CHARGE_FULL=3600000\n\
                   POWER_SUPPLY_CHARGE_FULL_DESIGN=4000000\n";
    let b = Battery::parse_uevent("BAT0", content).expect("complete record expected");
    assert_eq!(b.name, "BAT0");
    assert_eq!(b.status, BatteryStatus::Discharging);
    assert_eq!(b.remaining, 2_800_000);
    assert_eq!(b.actual_max, 3_600_000);
    assert_eq!(b.factory_max, 4_000_000);
}

#[test]
fn uevent_parsing_rejects_incomplete_records() {
    let content = "POWER_SUPPLY_STATUS=Full\nPOWER_SUPPLY_CHARGE_NOW=100\n";
    assert!(Battery::parse_uevent("BAT0", content).is_none());
}

#[test]
fn uevent_parsing_rejects_unreadable_numbers() {
    let content = "POWER_SUPPLY_STATUS=Full\n\
                   POWER_SUPPLY_CHARGE_NOW=many\n\
                   POWER_SUPPLY_CHARGE_FULL=2\n\
                   POWER_SUPPLY_CHARGE_FULL_DESIGN=3\n";
    assert!(Battery::parse_uevent("BAT0", content).is_none());
}

#[test]
fn uevent_parsing_reads_unknown_status_words_as_unknown() {
    let content = "POWER_SUPPLY_STATUS=Levitating\n\
                   POWER_SUPPLY_ENERGY_NOW=1\n\
                   POWER_SUPPLY_ENERGY_FULL=2\n\
                   POWER_SUPPLY_ENERGY_FULL_DESIGN=3\n";
    let b = Battery::parse_uevent("BAT0", content).expect("complete record expected");
    assert_eq!(b.status, BatteryStatus::Unknown);
}

#[test]
fn local_ip_is_captured_from_interface_output() {
    let raw = "2: wlan0: <BROADCAST,MULTICAST,UP,LOWER_UP> mtu 1500\n\
               \x20   link/ether aa:bb:cc:dd:ee:ff brd ff:ff:ff:ff:ff:ff\n\
               \x20   inet 192.168.1.7/24 brd 192.168.1.255 scope global wlan0\n";
    let src = IPSource::Private("wlan0".to_string());
    assert_eq!(get_ip(&src, raw), Some("192.168.1.7/24".to_string()));
}

#[test]
fn local_ip_lookup_without_address_lines_finds_nothing() {
    let raw = "2: wlan0: <BROADCAST> mtu 1500\n    link/ether aa:bb:cc:dd:ee:ff\n";
    let src = IPSource::Private("wlan0".to_string());
    assert_eq!(get_ip(&src, raw), None);
}

#[test]
fn public_ip_is_the_trimmed_answer() {
    assert_eq!(get_ip(&IPSource::Public, " 203.0.113.9\n"), Some("203.0.113.9".to_string()));
    assert_eq!(get_ip(&IPSource::Public, "  \n"), None);
}
