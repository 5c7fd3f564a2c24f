use mod_profiles::smap::StrMap;
use mod_profiles::state::ModConfig;
use mod_profiles::state::ModData;
use mod_profiles::state::ModGroup;
use mod_profiles::state::ModOrGroup;
use mod_profiles::state::ModProfile;
use mod_profiles::state::ModSpecification;
use mod_profiles::state::StateError;
use mod_profiles::versions::ModDataV1;
use mod_profiles::versions::ModProfileV1;

fn mk(url: &str, required: bool, enabled: bool, priority: i32) -> ModConfig {
    ModConfig {
        spec: ModSpecification::new(url.to_string()),
        required,
        enabled,
        priority,
    }
}

fn gen1_store(group_enabled: bool) -> ModDataV1 {
    let mod_1 = mk("a", false, false, 50);
    let mod_2 = mk("b", true, false, 50);
    let mod_3 = mk("c", false, true, 50);

    let mut profiles: StrMap<ModProfileV1> = StrMap::new();
    profiles.insert(
        "default".to_string(),
        ModProfileV1 {
            mods: vec![
                ModOrGroup::Individual(mod_1),
                ModOrGroup::Group {
                    group_name: "mg1".to_string(),
                    enabled: group_enabled,
                },
            ],
        },
    );
    let mut groups: StrMap<ModGroup> = StrMap::new();
    groups.insert(
        "mg1".to_string(),
        ModGroup {
            mods: vec![mod_2, mod_3],
            priority_override: None,
        },
    );
    ModDataV1 {
        active_profile: "default".to_string(),
        profiles,
        groups,
    }
}

#[test]
fn test_for_each_mod() {
    let mod_data = gen1_store(false).into_v0_2_0();
    let mut counter = 0;
    for _ in mod_data.for_each_mod("default") {
        counter += 1;
    }
    assert_eq!(counter, 3);
}

#[test]
fn test_for_each_enabled_mod() {
    let mod_data = gen1_store(true).into_v0_2_0();
    let mut counter = 0;
    for _ in mod_data.for_each_enabled_mod("default") {
        counter += 1;
    }
    assert_eq!(counter, 1);
}

#[test]
fn test_any_mod() {
    let mod_data = gen1_store(true).into_v0_2_0();
    let any_required = mod_data.any_mod("default", |mc, _| mc.required);
    assert!(any_required);
}

fn scenario_store() -> ModData {
    // Profile "default": root individual mod A (priority 5, enabled), group
    // "core" (enabled, no override) holding B (priority 1, enabled) and C
    // (priority 9, disabled).
    let mut groups: StrMap<ModGroup> = StrMap::new();
    groups.insert(
        "core".to_string(),
        ModGroup {
            mods: vec![mk("B", false, true, 1), mk("C", false, false, 9)],
            priority_override: None,
        },
    );
    let profile = ModProfile {
        mods: vec![
            ModOrGroup::Individual(mk("A", false, true, 5)),
            ModOrGroup::Group {
                group_name: "core".to_string(),
                enabled: true,
            },
        ],
        groups,
    };
    let mut profiles: StrMap<ModProfile> = StrMap::new();
    profiles.insert("default".to_string(), profile);
    ModData {
        active_profile: "default".to_string(),
        profiles,
    }
}

#[test]
fn effective_priority_scenario() {
    let mut store = scenario_store();
    let pairs = store.get_enabled_mods_with_priority("default");
    let view: Vec<(&str, i32)> = pairs.iter().map(|(m, p)| (m.spec.url.as_str(), *p)).collect();
    assert_eq!(view, vec![("A", 5), ("B", 1)]);

    store
        .set_group_priority_override("default", "core", Some(100))
        .unwrap();
    let pairs = store.get_enabled_mods_with_priority("default");
    let view: Vec<(&str, i32)> = pairs.iter().map(|(m, p)| (m.spec.url.as_str(), *p)).collect();
    assert_eq!(view, vec![("A", 5), ("B", 100)]);

    // B's stored priority field is untouched by the override.
    let all = store.for_each_mod("default");
    let b = all.iter().find(|m| m.spec.url == "B").unwrap();
    assert_eq!(b.priority, 1);
}

#[test]
fn visit_counts_partition() {
    // Disabled root mod, disabled mod in an enabled group, and a disabled
    // group: for_each_mod sees them all, for_each_enabled_mod sees only the
    // enabled mod of the enabled group and the enabled root mod.
    let mut groups: StrMap<ModGroup> = StrMap::new();
    groups.insert(
        "on".to_string(),
        ModGroup {
            mods: vec![mk("g1", false, true, 0), mk("g2", false, false, 0)],
            priority_override: None,
        },
    );
    groups.insert(
        "off".to_string(),
        ModGroup {
            mods: vec![mk("h1", false, true, 0)],
            priority_override: None,
        },
    );
    let profile = ModProfile {
        mods: vec![
            ModOrGroup::Individual(mk("r1", false, true, 0)),
            ModOrGroup::Individual(mk("r2", false, false, 0)),
            ModOrGroup::Group {
                group_name: "on".to_string(),
                enabled: true,
            },
            ModOrGroup::Group {
                group_name: "off".to_string(),
                enabled: false,
            },
        ],
        groups,
    };
    let mut profiles: StrMap<ModProfile> = StrMap::new();
    profiles.insert("p".to_string(), profile);
    let store = ModData {
        active_profile: "p".to_string(),
        profiles,
    };
    let all = store.for_each_mod("p");
    let enabled = store.for_each_enabled_mod("p");
    assert_eq!(all.len(), 5);
    assert_eq!(enabled.len(), 2);
    // all == enabled + disabled-in-enabled-groups + all-in-disabled-groups
    //     + disabled-root
    assert_eq!(all.len(), enabled.len() + 1 + 1 + 1);
}

#[test]
fn create_group_adds_reference() {
    let mut store = ModData::default();
    store.create_group("default", "folder").unwrap();
    assert_eq!(
        store.create_group("default", "folder"),
        Err(StateError::DuplicateGroupName)
    );
    assert_eq!(
        store.create_group("nope", "x"),
        Err(StateError::NoSuchProfile)
    );
    let p = store.get_active_profile();
    assert_eq!(p.mods.len(), 1);
    match &p.mods[0] {
        ModOrGroup::Group {
            group_name,
            enabled,
        } => {
            assert_eq!(group_name, "folder");
            assert!(*enabled);
        }
        ModOrGroup::Individual(_) => panic!("expected a group reference"),
    }
    assert!(p.groups.contains_key("folder"));
}

#[test]
fn rename_group_round_trip_restores_state() {
    let mut store = scenario_store();
    let before = store.get_active_profile().same_as(store.get_active_profile());
    assert!(before);
    let mut copy = scenario_store();

    store.rename_group("default", "core", "base").unwrap();
    let renamed = store.get_active_profile();
    match &renamed.mods[1] {
        ModOrGroup::Group { group_name, .. } => assert_eq!(group_name, "base"),
        ModOrGroup::Individual(_) => panic!("expected a group reference"),
    }
    assert!(renamed.groups.contains_key("base"));
    assert!(!renamed.groups.contains_key("core"));

    store.rename_group("default", "base", "core").unwrap();
    assert!(store.same_as(&copy));
    assert!(copy.same_as(&store));

    // Renaming onto another existing group is refused.
    copy.create_group("default", "extra").unwrap();
    assert_eq!(
        copy.rename_group("default", "core", "extra"),
        Err(StateError::DuplicateGroupName)
    );
}

#[test]
fn delete_group_relocates_in_order() {
    let mut store = scenario_store();
    store.delete_group("default", "core").unwrap();
    let p = store.get_active_profile();
    // The reference row is gone; B and C stand at the end as individuals in
    // their group order.
    assert_eq!(p.mods.len(), 3);
    let urls: Vec<&str> = p
        .mods
        .iter()
        .map(|m| match m {
            ModOrGroup::Individual(mc) => mc.spec.url.as_str(),
            ModOrGroup::Group { .. } => panic!("no group reference may remain"),
        })
        .collect();
    assert_eq!(urls, vec!["A", "B", "C"]);
    assert!(!p.groups.contains_key("core"));
}

#[test]
fn move_mod_between_locations() {
    let mut store = scenario_store();
    // Root A into core.
    store.move_mod_to_group("default", 0, "core").unwrap();
    {
        let p = store.get_active_profile();
        assert_eq!(p.mods.len(), 1);
        let core = p.groups.get("core").unwrap();
        let urls: Vec<&str> = core.mods.iter().map(|m| m.spec.url.as_str()).collect();
        assert_eq!(urls, vec!["B", "C", "A"]);
    }
    // C (index 1) out of core.
    store.move_mod_out_of_group("default", "core", 1).unwrap();
    {
        let p = store.get_active_profile();
        assert_eq!(p.mods.len(), 2);
        match &p.mods[1] {
            ModOrGroup::Individual(mc) => assert_eq!(mc.spec.url, "C"),
            ModOrGroup::Group { .. } => panic!("expected an individual row"),
        }
    }
    // Between groups.
    store.create_group("default", "other").unwrap();
    store
        .move_mod_between_groups("default", "core", 0, "other")
        .unwrap();
    {
        let p = store.get_active_profile();
        let other = p.groups.get("other").unwrap();
        assert_eq!(other.mods.len(), 1);
        assert_eq!(other.mods[0].spec.url, "B");
    }
    // Out-of-range and unknown names are silent no-ops.
    let mut copy = scenario_store();
    copy.move_mod_to_group("default", 99, "core").unwrap();
    copy.move_mod_to_group("default", 0, "nope").unwrap();
    copy.move_mod_out_of_group("default", "core", 99).unwrap();
    copy.move_mod_between_groups("default", "core", 99, "core")
        .unwrap();
    assert!(copy.same_as(&scenario_store()));
    assert_eq!(
        copy.move_mod_to_group("ghost", 0, "core"),
        Err(StateError::NoSuchProfile)
    );
}

#[test]
fn delete_rows_and_group_mods() {
    let mut store = scenario_store();
    store.delete_mod("default", 0).unwrap();
    {
        let p = store.get_active_profile();
        assert_eq!(p.mods.len(), 1);
    }
    store.delete_mod_in_group("default", "core", 0).unwrap();
    {
        let p = store.get_active_profile();
        let core = p.groups.get("core").unwrap();
        assert_eq!(core.mods.len(), 1);
        assert_eq!(core.mods[0].spec.url, "C");
    }
    // Out of range: silent no-op.
    store.delete_mod("default", 99).unwrap();
    store.delete_mod_in_group("default", "core", 99).unwrap();
    let p = store.get_active_profile();
    assert_eq!(p.mods.len(), 1);
    assert_eq!(p.groups.get("core").unwrap().mods.len(), 1);
}

#[test]
fn last_profile_cannot_be_deleted() {
    let mut store = ModData::default();
    assert!(!store.remove_active_profile());
    assert_eq!(store.profiles.len(), 1);
    assert!(store.check_wf());

    store.create_profile("second").unwrap();
    assert_eq!(
        store.create_profile("second"),
        Err(StateError::DuplicateProfileName)
    );
    assert!(store.remove_active_profile());
    assert_eq!(store.profiles.len(), 1);
    assert_eq!(store.active_profile, "second");
    assert!(store.check_wf());
    assert!(!store.remove_active_profile());
}

#[test]
fn delete_profile_reassigns_active() {
    let mut store = ModData::default();
    store.create_profile("b").unwrap();
    store.create_profile("c").unwrap();
    assert!(store.set_active_profile("b"));
    assert!(!store.set_active_profile("zzz"));
    assert!(store.delete_profile("b"));
    assert_eq!(store.active_profile, "default");
    assert!(store.delete_profile("c"));
    assert!(!store.delete_profile("default"));
    assert!(store.check_wf());
}

#[test]
fn predicate_engine_and_updates() {
    let store = scenario_store();
    // Gate closed: only root mods pass the predicate walk.
    let none_of_group = store.for_each_mod_predicate("default", |_| false, |_| true);
    assert_eq!(none_of_group.len(), 1);
    assert_eq!(none_of_group[0].spec.url, "A");
    // Everything admitted.
    let everything = store.for_each_mod_predicate("default", |_| true, |_| true);
    assert_eq!(everything.len(), 3);
    // Predicate picks disabled mods only.
    let disabled = store.for_each_mod_predicate("default", |_| true, |mc| !mc.enabled);
    assert_eq!(disabled.len(), 1);
    assert_eq!(disabled[0].spec.url, "C");

    // any_mod_mut searches root rows first.
    assert!(store.any_mod_mut("default", |mc, _| mc.spec.url == "C"));
    assert!(!store.any_mod_mut("default", |mc, _| mc.priority > 100));

    // Rewrite every reachable mod's priority.
    let mut store = scenario_store();
    store.for_each_mod_mut("default", |mc| {
        let mut c = mc.duplicate();
        c.priority = 42;
        c
    });
    for m in store.for_each_mod("default") {
        assert_eq!(m.priority, 42);
    }

    // Guarded update: disable every enabled mod, group filter open.
    let mut store = scenario_store();
    store.for_each_mod_predicate_mut(
        "default",
        |_| true,
        |mc| mc.enabled,
        |mc| {
            let mut c = mc.duplicate();
            c.enabled = false;
            c
        },
    );
    assert_eq!(store.for_each_enabled_mod("default").len(), 0);
    assert_eq!(store.for_each_mod("default").len(), 3);
}
