use mod_profiles::config::Config;
use mod_profiles::config::MaybeVersionedConfig;
use mod_profiles::config::VersionAnnotatedConfig;
use mod_profiles::smap::StrMap;
use mod_profiles::state::ModConfig;
use mod_profiles::state::ModGroup;
use mod_profiles::state::ModOrGroup;
use mod_profiles::state::ModSpecification;
use mod_profiles::state::StateError;
use mod_profiles::versions::MaybeVersionedModData;
use mod_profiles::versions::ModDataV0;
use mod_profiles::versions::ModDataV1;
use mod_profiles::versions::ModProfileV0;
use mod_profiles::versions::ModProfileV1;
use mod_profiles::versions::VersionAnnotatedModData;

fn mk_mod(url: &str, enabled: bool, priority: i32) -> ModConfig {
    ModConfig {
        spec: ModSpecification::new(url.to_string()),
        required: false,
        enabled,
        priority,
    }
}

fn gen0_two_profiles() -> ModDataV0 {
    let mut profiles: StrMap<ModProfileV0> = StrMap::new();
    profiles.insert(
        "first".to_string(),
        ModProfileV0 {
            mods: vec![mk_mod("a", true, 1), mk_mod("b", false, 2)],
        },
    );
    profiles.insert(
        "second".to_string(),
        ModProfileV0 {
            mods: vec![mk_mod("c", true, 3)],
        },
    );
    ModDataV0 {
        active_profile: "first".to_string(),
        profiles,
    }
}

#[test]
fn gen0_migrates_to_flat_individual_rows() {
    // A legacy document with two flat profiles migrates to the current
    // generation with empty group maps and every row an individual, in the
    // original order.
    let current = MaybeVersionedModData::Legacy(gen0_two_profiles()).into_current();
    assert_eq!(current.active_profile, "first");
    assert_eq!(current.profiles.len(), 2);
    let first = current.profiles.get("first").unwrap();
    assert_eq!(first.groups.len(), 0);
    let urls: Vec<&str> = first
        .mods
        .iter()
        .map(|m| match m {
            ModOrGroup::Individual(mc) => mc.spec.url.as_str(),
            ModOrGroup::Group { .. } => panic!("no group rows may appear"),
        })
        .collect();
    assert_eq!(urls, vec!["a", "b"]);
    let second = current.profiles.get("second").unwrap();
    assert_eq!(second.groups.len(), 0);
    assert_eq!(second.mods.len(), 1);
    assert!(current.check_wf());
}

#[test]
fn migrating_a_current_value_changes_nothing() {
    // Migrate a legacy store to the current generation, then run the
    // migration chain on the already-current value: the result is identical.
    let once = MaybeVersionedModData::Legacy(gen0_two_profiles()).into_current();
    let copy = MaybeVersionedModData::Legacy(gen0_two_profiles()).into_current();
    let twice =
        MaybeVersionedModData::Versioned(VersionAnnotatedModData::V0_2_0(once)).into_current();
    assert!(twice.same_as(&copy));
    assert!(copy.same_as(&twice));
}

#[test]
fn gen1_groups_are_copied_per_profile() {
    // A store-wide group referenced by two profiles is copied into both; a
    // group nothing references is dropped.
    let mut profiles: StrMap<ModProfileV1> = StrMap::new();
    profiles.insert(
        "one".to_string(),
        ModProfileV1 {
            mods: vec![ModOrGroup::Group {
                group_name: "shared".to_string(),
                enabled: true,
            }],
        },
    );
    profiles.insert(
        "two".to_string(),
        ModProfileV1 {
            mods: vec![
                ModOrGroup::Individual(mk_mod("x", true, 0)),
                ModOrGroup::Group {
                    group_name: "shared".to_string(),
                    enabled: false,
                },
            ],
        },
    );
    let mut groups: StrMap<ModGroup> = StrMap::new();
    groups.insert(
        "shared".to_string(),
        ModGroup {
            mods: vec![mk_mod("s1", true, 4)],
            priority_override: Some(9),
        },
    );
    groups.insert(
        "orphan".to_string(),
        ModGroup {
            mods: vec![mk_mod("o1", true, 0)],
            priority_override: None,
        },
    );
    let current = ModDataV1 {
        active_profile: "one".to_string(),
        profiles,
        groups,
    }
    .into_v0_2_0();

    let one = current.profiles.get("one").unwrap();
    let two = current.profiles.get("two").unwrap();
    assert!(one.groups.contains_key("shared"));
    assert!(two.groups.contains_key("shared"));
    assert!(!one.groups.contains_key("orphan"));
    assert!(!two.groups.contains_key("orphan"));
    let copy_one = one.groups.get("shared").unwrap();
    assert_eq!(copy_one.priority_override, Some(9));
    assert_eq!(copy_one.mods.len(), 1);
    assert_eq!(copy_one.mods[0].spec.url, "s1");
    // The copies are independent: the priority query of profile "one" uses
    // the override; profile "two" has its reference disabled.
    let pairs = current.get_enabled_mods_with_priority("one");
    assert_eq!(pairs.len(), 1);
    assert_eq!(pairs[0].1, 9);
    let pairs = current.get_enabled_mods_with_priority("two");
    assert_eq!(pairs.len(), 1);
    assert_eq!(pairs[0].0.spec.url, "x");
}

#[test]
fn profile_level_migration_leaves_groups_empty() {
    let p = ModProfileV1 {
        mods: vec![ModOrGroup::Group {
            group_name: "g".to_string(),
            enabled: true,
        }],
    };
    let p2 = p.into_v0_2_0();
    assert_eq!(p2.mods.len(), 1);
    assert_eq!(p2.groups.len(), 0);
}

#[test]
fn unsupported_config_version_is_refused() {
    let r = MaybeVersionedConfig::Versioned(VersionAnnotatedConfig::Unsupported).into_current();
    assert_eq!(r.err(), Some(StateError::UnsupportedSchemaVersion));
}

#[test]
fn legacy_config_keeps_parameters_and_path() {
    let mut params: StrMap<StrMap<String>> = StrMap::new();
    let mut inner: StrMap<String> = StrMap::new();
    inner.insert("key".to_string(), "value".to_string());
    params.insert("provider".to_string(), inner);
    let legacy = Config {
        provider_parameters: params,
        drg_pak_path: Some("/games/drg/main.pak".to_string()),
        gui_theme: None,
        sorting_config: None,
        confirm_mod_deletion: false,
        confirm_profile_deletion: false,
        backup_path: Some("/tmp/backups".to_string()),
    };
    let c = MaybeVersionedConfig::Legacy(legacy).into_current().unwrap();
    assert_eq!(c.drg_pak_path.as_deref(), Some("/games/drg/main.pak"));
    let provider = c.provider_parameters.get("provider").unwrap();
    assert_eq!(provider.get("key").map(|s| s.as_str()), Some("value"));
    // Everything the legacy shape lacked starts at its default.
    assert!(c.confirm_mod_deletion);
    assert!(c.confirm_profile_deletion);
    assert!(c.gui_theme.is_none());
    assert!(c.sorting_config.is_none());
    assert!(c.backup_path.is_none());
}

#[test]
fn tagged_current_config_passes_through() {
    let cfg = Config::default();
    let c = MaybeVersionedConfig::Versioned(VersionAnnotatedConfig::V0_0_0(cfg))
        .into_current()
        .unwrap();
    assert!(c.drg_pak_path.is_none());
    assert!(c.confirm_mod_deletion);
    let annotated = VersionAnnotatedConfig::default();
    assert!(annotated.current().is_some());
    assert!(VersionAnnotatedConfig::Unsupported.current().is_none());
}
