use std::cmp::Ordering;

use mod_profiles::config::SortingConfig;
use mod_profiles::gui::GuiTheme;
use mod_profiles::gui::LastAction;
use mod_profiles::gui::LastActionStatus;
use mod_profiles::gui::ModMetadata;
use mod_profiles::gui::ModioTags;
use mod_profiles::gui::SelfUpdateProgress;
use mod_profiles::gui::SortBy;
use mod_profiles::gui::SpecFetchProgress;
use mod_profiles::gui::sort_mods;
use mod_profiles::gui::timeago_text;
use mod_profiles::state::ModConfig;
use mod_profiles::state::ModOrGroup;
use mod_profiles::state::ModSpecification;
use mod_profiles::text::build_mod_string;
use mod_profiles::text::parse_mods;
use mod_profiles::text::u64_to_string;

fn row(url: &str, enabled: bool, priority: i32) -> ModOrGroup {
    ModOrGroup::Individual(ModConfig {
        spec: ModSpecification::new(url.to_string()),
        required: false,
        enabled,
        priority,
    })
}

fn meta(name: &str, provider: &str) -> ModMetadata {
    ModMetadata {
        name: name.to_string(),
        provider: provider.to_string(),
        modio_tags: None,
    }
}

fn tagged(name: &str, approval: u32, required: u32) -> ModMetadata {
    ModMetadata {
        name: name.to_string(),
        provider: "modio".to_string(),
        modio_tags: Some(ModioTags {
            approval_status: approval,
            required_status: required,
        }),
    }
}

fn cfg(sort_category: SortBy, is_ascending: bool) -> SortingConfig {
    SortingConfig {
        sort_category,
        is_ascending,
    }
}

#[test]
fn name_sort_is_case_insensitive() {
    // "B" folds to "b", which sorts after "a". A case-sensitive comparison
    // would put "B" (0x42) before "a" (0x61).
    let a = row("urlB", true, 0);
    let b = row("urlA", true, 0);
    let ma = meta("B", "modio");
    let mb = meta("a", "modio");
    let r = sort_mods(&cfg(SortBy::Name, false), &a, Some(&ma), &b, Some(&mb));
    assert_eq!(r, Ordering::Greater);
    // The direction flag reverses the order.
    let r = sort_mods(&cfg(SortBy::Name, true), &a, Some(&ma), &b, Some(&mb));
    assert_eq!(r, Ordering::Less);
}

#[test]
fn unresolved_metadata_sorts_before_resolved() {
    let a = row("zz", true, 0);
    let b = row("aa", true, 0);
    let mb = meta("anything", "modio");
    let r = sort_mods(&cfg(SortBy::Name, false), &a, None, &b, Some(&mb));
    assert_eq!(r, Ordering::Less);
}

#[test]
fn name_ties_break_on_locator() {
    let a = row("aa", true, 0);
    let b = row("ab", true, 0);
    let ma = meta("Same", "modio");
    let mb = meta("same", "modio");
    let r = sort_mods(&cfg(SortBy::Name, false), &a, Some(&ma), &b, Some(&mb));
    assert_eq!(r, Ordering::Less);
}

#[test]
fn priority_sort_with_name_tiebreak() {
    let a = row("x", true, 3);
    let b = row("y", true, 7);
    let r = sort_mods(&cfg(SortBy::Priority, false), &a, None, &b, None);
    assert_eq!(r, Ordering::Less);
    // Equal priorities fall back to the name order.
    let a = row("x", true, 3);
    let b = row("y", true, 3);
    let r = sort_mods(&cfg(SortBy::Priority, false), &a, None, &b, None);
    assert_eq!(r, Ordering::Less);
}

#[test]
fn enabled_sort_puts_enabled_first() {
    let a = row("x", true, 0);
    let b = row("y", false, 0);
    let r = sort_mods(&cfg(SortBy::Enabled, false), &a, None, &b, None);
    assert_eq!(r, Ordering::Less);
}

#[test]
fn provider_approval_and_required_sorts() {
    let a = row("x", true, 0);
    let b = row("y", true, 0);
    let r = sort_mods(
        &cfg(SortBy::Provider, false),
        &a,
        Some(&meta("n", "alpha")),
        &b,
        Some(&meta("n", "beta")),
    );
    assert_eq!(r, Ordering::Less);
    let r = sort_mods(
        &cfg(SortBy::ApprovalCategory, false),
        &a,
        Some(&tagged("n", 0, 0)),
        &b,
        Some(&tagged("n", 2, 0)),
    );
    assert_eq!(r, Ordering::Less);
    // Required status compares in reverse.
    let r = sort_mods(
        &cfg(SortBy::RequiredStatus, false),
        &a,
        Some(&tagged("n", 0, 0)),
        &b,
        Some(&tagged("n", 0, 2)),
    );
    assert_eq!(r, Ordering::Greater);
    // Missing tags sort before present ones.
    let r = sort_mods(
        &cfg(SortBy::ApprovalCategory, false),
        &a,
        Some(&meta("n", "modio")),
        &b,
        Some(&tagged("n", 0, 0)),
    );
    assert_eq!(r, Ordering::Less);
}

#[test]
fn sort_key_labels() {
    assert_eq!(SortBy::Enabled.as_str(), "Enabled");
    assert_eq!(SortBy::Name.as_str(), "Name");
    assert_eq!(SortBy::Priority.as_str(), "Priority");
    assert_eq!(SortBy::Provider.as_str(), "Provider");
    assert_eq!(SortBy::RequiredStatus.as_str(), "Is Required");
    assert_eq!(SortBy::ApprovalCategory.as_str(), "Approval");
}

#[test]
fn decimal_rendering() {
    assert_eq!(u64_to_string(0), "0");
    assert_eq!(u64_to_string(7), "7");
    assert_eq!(u64_to_string(1234500), "1234500");
    assert_eq!(u64_to_string(u64::MAX), "18446744073709551615");
}

#[test]
fn timeago_shapes() {
    assert_eq!(timeago_text(0), "0s ago");
    assert_eq!(timeago_text(50), "50s ago");
    assert_eq!(timeago_text(59), "59s ago");
    assert_eq!(timeago_text(60), "1m ago");
    assert_eq!(timeago_text(3599), "59m ago");
    assert_eq!(timeago_text(3600), ">1h ago");
}

#[test]
fn last_action_keeps_its_message() {
    let ok = LastAction::success("installed".to_string());
    match &ok.status {
        LastActionStatus::Success(msg) => assert_eq!(msg, "installed"),
        LastActionStatus::Failure(_) => panic!("expected a success"),
    }
    let bad = LastAction::failure("io".to_string());
    match &bad.status {
        LastActionStatus::Failure(msg) => assert_eq!(msg, "io"),
        LastActionStatus::Success(_) => panic!("expected a failure"),
    }
    let text = bad.timeago();
    assert!(text.ends_with("ago"));
}

#[test]
fn parse_mods_trims_and_drops_blanks() {
    let specs = parse_mods("  https://example.com/a  \n\n\tb\nc\n   \n");
    let urls: Vec<&str> = specs.iter().map(|s| s.url.as_str()).collect();
    assert_eq!(urls, vec!["https://example.com/a", "b", "c"]);
    assert!(parse_mods("").is_empty());
    assert!(parse_mods(" \n \n ").is_empty());
    // Carriage returns are whitespace: lines split on the newline alone and
    // the trim takes the rest.
    let specs = parse_mods("a\r\nb\r\n");
    let urls: Vec<&str> = specs.iter().map(|s| s.url.as_str()).collect();
    assert_eq!(urls, vec!["a", "b"]);
}

#[test]
fn mod_string_lists_enabled_urls() {
    let mods = vec![
        ModConfig {
            spec: ModSpecification::new("a".to_string()),
            required: false,
            enabled: true,
            priority: 0,
        },
        ModConfig {
            spec: ModSpecification::new("b".to_string()),
            required: false,
            enabled: false,
            priority: 0,
        },
        ModConfig {
            spec: ModSpecification::new("c".to_string()),
            required: false,
            enabled: true,
            priority: 0,
        },
    ];
    assert_eq!(build_mod_string(&mods), "a\nc\n");
    assert_eq!(build_mod_string(&Vec::new()), "");
}

#[test]
fn small_interface_types_compare() {
    assert_eq!(GuiTheme::Dark, GuiTheme::Dark);
    assert_ne!(GuiTheme::Dark, GuiTheme::Light);
    assert_eq!(
        SpecFetchProgress::Progress {
            progress: 1,
            size: 2
        },
        SpecFetchProgress::Progress {
            progress: 1,
            size: 2
        }
    );
    assert_ne!(SelfUpdateProgress::Pending, SelfUpdateProgress::Complete);
    let d = SortingConfig::default();
    assert_eq!(d.sort_category, SortBy::Enabled);
    assert!(d.is_ascending);
}
