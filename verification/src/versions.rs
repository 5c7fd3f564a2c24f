use vstd::prelude::*;

use crate::mutations::as_individuals;
use crate::smap::StrMap;
use crate::smap::assoc_get;
use crate::smap::assoc_has_key;
use crate::state::ModConfig;
use crate::state::ModConfigView;
use crate::state::ModData;
use crate::state::ModDataView;
use crate::state::ModGroup;
use crate::state::ModGroupView;
use crate::state::ModOrGroup;
use crate::state::ModOrGroupView;
use crate::state::ModProfile;
use crate::state::ModProfileView;

verus! {

// ---------------------------------------------------------------------------
// The two legacy generations of the store, and the one-way transforms that
// take each generation to the next. A persisted document is read as one of
// these, then migrated before anything else looks at it; nothing outside
// this chain ever sees a non-current value.
// ---------------------------------------------------------------------------

/// Oldest generation of a profile: a flat list of mods, no groups.
#[derive(Debug)]
pub struct ModProfileV0 {
    pub mods: Vec<ModConfig>,
}

impl View for ModProfileV0 {
    type V = Seq<ModConfigView>;

    open spec fn view(&self) -> Seq<ModConfigView> {
        self.mods@.map_values(|m: ModConfig| m@)
    }
}

/// Oldest generation of the store.
#[derive(Debug)]
pub struct ModDataV0 {
    pub active_profile: String,
    pub profiles: StrMap<ModProfileV0>,
}

/// Mathematical value of a `ModDataV0`.
#[verifier::ext_equal]
pub struct ModDataV0View {
    pub active_profile: Seq<char>,
    pub profiles: Seq<(Seq<char>, Seq<ModConfigView>)>,
}

impl View for ModDataV0 {
    type V = ModDataV0View;

    open spec fn view(&self) -> ModDataV0View {
        ModDataV0View { active_profile: self.active_profile@, profiles: self.profiles@ }
    }
}

/// Middle generation of a profile: rows may reference groups, but the groups
/// live in one store-wide map.
#[derive(Debug)]
pub struct ModProfileV1 {
    pub mods: Vec<ModOrGroup>,
}

impl View for ModProfileV1 {
    type V = Seq<ModOrGroupView>;

    open spec fn view(&self) -> Seq<ModOrGroupView> {
        self.mods@.map_values(|m: ModOrGroup| m@)
    }
}

/// Middle generation of the store: groups are stored once, store-wide, and
/// referenced by name from any profile.
#[derive(Debug)]
pub struct ModDataV1 {
    pub active_profile: String,
    pub profiles: StrMap<ModProfileV1>,
    pub groups: StrMap<ModGroup>,
}

/// Mathematical value of a `ModDataV1`.
#[verifier::ext_equal]
pub struct ModDataV1View {
    pub active_profile: Seq<char>,
    pub profiles: Seq<(Seq<char>, Seq<ModOrGroupView>)>,
    pub groups: Seq<(Seq<char>, ModGroupView)>,
}

impl View for ModDataV1 {
    type V = ModDataV1View;

    open spec fn view(&self) -> ModDataV1View {
        ModDataV1View {
            active_profile: self.active_profile@,
            profiles: self.profiles@,
            groups: self.groups@,
        }
    }
}

// ---------------------------------------------------------------------------
// The mathematical migration chain.
// ---------------------------------------------------------------------------

/// Oldest to middle: every flat mod list is wrapped row by row into
/// individual entries; the store-wide group map starts empty.
pub open spec fn migrate_data_v0_v1(d: ModDataV0View) -> ModDataV1View {
    ModDataV1View {
        active_profile: d.active_profile,
        profiles: d.profiles.map_values(
            |p: (Seq<char>, Seq<ModConfigView>)| (p.0, as_individuals(p.1)),
        ),
        groups: Seq::empty(),
    }
}

/// The group entries a profile's rows reference, in the order of their first
/// reference, restricted to names the store-wide map actually has.
pub open spec fn referenced_groups_upto(
    mods: Seq<ModOrGroupView>,
    groups: Seq<(Seq<char>, ModGroupView)>,
    n: int,
) -> Seq<(Seq<char>, ModGroupView)>
    decreases n,
{
    if n <= 0 {
        Seq::empty()
    } else {
        let prev = referenced_groups_upto(mods, groups, n - 1);
        match mods[n - 1] {
            ModOrGroupView::Group { group_name, enabled } => match assoc_get(groups, group_name) {
                Some(g) => if assoc_has_key(prev, group_name) {
                    prev
                } else {
                    prev.push((group_name, g))
                },
                None => prev,
            },
            ModOrGroupView::Individual(mc) => prev,
        }
    }
}

pub open spec fn referenced_groups(
    mods: Seq<ModOrGroupView>,
    groups: Seq<(Seq<char>, ModGroupView)>,
) -> Seq<(Seq<char>, ModGroupView)> {
    referenced_groups_upto(mods, groups, mods.len() as int)
}

/// Middle to current, for one profile: the rows stay, and the profile gets
/// its own copy of every group it references. A group referenced by two
/// profiles is copied into both; a group no profile references is dropped.
pub open spec fn migrate_profile_v1_v2(
    mods: Seq<ModOrGroupView>,
    groups: Seq<(Seq<char>, ModGroupView)>,
) -> ModProfileView {
    ModProfileView { mods, groups: referenced_groups(mods, groups) }
}

/// Middle to current, for the whole store.
pub open spec fn migrate_data_v1_v2(d: ModDataV1View) -> ModDataView {
    ModDataView {
        active_profile: d.active_profile,
        profiles: d.profiles.map_values(
            |p: (Seq<char>, Seq<ModOrGroupView>)| (p.0, migrate_profile_v1_v2(p.1, d.groups)),
        ),
    }
}

/// The full chain from the oldest generation to the current one.
pub open spec fn migrate_data_v0_v2(d: ModDataV0View) -> ModDataView {
    migrate_data_v1_v2(migrate_data_v0_v1(d))
}

// ---------------------------------------------------------------------------
// The executable migration chain.
// ---------------------------------------------------------------------------

impl ModDataV0 {
    /// Oldest to middle generation.
    pub fn into_v0_1_0(self) -> (r: ModDataV1)
        ensures
            r@ == migrate_data_v0_v1(self@),
    {
        let ghost dv = self@;
        let mut profiles: StrMap<ModProfileV1> = StrMap::new();
        let n = self.profiles.len();
        let mut i: usize = 0;
        proof {
            assert(profiles@ =~= migrate_data_v0_v1(dv).profiles.take(0));
        }
        while i < n
            invariant
                self@ == dv,
                n == dv.profiles.len(),
                i <= n,
                profiles@ == migrate_data_v0_v1(dv).profiles.take(i as int),
            decreases n - i,
        {
            let key = self.profiles.key_at(i).clone();
            let prof0 = self.profiles.value_at(i);
            let ghost pv0 = dv.profiles[i as int].1;
            let mut mods: Vec<ModOrGroup> = Vec::new();
            let m = prof0.mods.len();
            let mut j: usize = 0;
            while j < m
                invariant
                    prof0@ == pv0,
                    m == pv0.len(),
                    j <= m,
                    mods@.map_values(|x: ModOrGroup| x@) == as_individuals(pv0.take(j as int)),
                decreases m - j,
            {
                let ghost mods0 = mods@;
                mods.push(ModOrGroup::Individual(prof0.mods[j].duplicate()));
                proof {
                    assert(pv0[j as int] == prof0.mods@[j as int]@);
                    assert(mods@.map_values(|x: ModOrGroup| x@) =~= mods0.map_values(
                        |x: ModOrGroup| x@,
                    ).push(ModOrGroupView::Individual(pv0[j as int])));
                    assert(pv0.take(j as int + 1) =~= pv0.take(j as int).push(pv0[j as int]));
                    assert(as_individuals(pv0.take(j as int + 1)) =~= as_individuals(
                        pv0.take(j as int),
                    ).push(ModOrGroupView::Individual(pv0[j as int])));
                }
                j += 1;
            }
            proof {
                assert(pv0.take(m as int) =~= pv0);
            }
            let prof1 = ModProfileV1 { mods };
            let ghost profiles0 = profiles@;
            let pos = profiles.len();
            profiles.insert_at(pos, key, prof1);
            proof {
                assert(profiles@ =~= profiles0.push((dv.profiles[i as int].0, as_individuals(pv0))));
                assert(migrate_data_v0_v1(dv).profiles[i as int] == (
                    dv.profiles[i as int].0,
                    as_individuals(pv0),
                ));
                assert(migrate_data_v0_v1(dv).profiles.take(i as int + 1) =~= migrate_data_v0_v1(
                    dv,
                ).profiles.take(i as int).push(migrate_data_v0_v1(dv).profiles[i as int]));
                assert(profiles@ =~= migrate_data_v0_v1(dv).profiles.take(i as int + 1));
            }
            i += 1;
        }
        proof {
            assert(migrate_data_v0_v1(dv).profiles.take(n as int) =~= migrate_data_v0_v1(
                dv,
            ).profiles);
        }
        let r = ModDataV1 {
            active_profile: self.active_profile,
            profiles,
            groups: StrMap::new(),
        };
        proof {
            assert(r@ =~= migrate_data_v0_v1(dv));
        }
        r
    }
}

impl ModProfileV1 {
    /// Middle to current generation for a single profile: the rows stay and
    /// the group map starts empty. Populating it is the store-level
    /// transform's responsibility; migrating a profile alone cannot
    /// materialize groups.
    pub fn into_v0_2_0(self) -> (r: ModProfile)
        ensures
            r@.mods == self@,
            r@.groups == Seq::<(Seq<char>, ModGroupView)>::empty(),
    {
        ModProfile { mods: self.mods, groups: StrMap::new() }
    }
}

impl ModDataV1 {
    /// Middle to current generation: each profile receives its own copy of
    /// every group it references; groups no profile references are dropped.
    pub fn into_v0_2_0(self) -> (r: ModData)
        ensures
            r@ == migrate_data_v1_v2(self@),
    {
        let ghost dv = self@;
        let mut profiles: StrMap<ModProfile> = StrMap::new();
        let n = self.profiles.len();
        let mut i: usize = 0;
        proof {
            assert(profiles@ =~= migrate_data_v1_v2(dv).profiles.take(0));
        }
        while i < n
            invariant
                self@ == dv,
                n == dv.profiles.len(),
                i <= n,
                profiles@ == migrate_data_v1_v2(dv).profiles.take(i as int),
            decreases n - i,
        {
            let key = self.profiles.key_at(i).clone();
            let prof1 = self.profiles.value_at(i);
            let ghost pv1 = dv.profiles[i as int].1;
            // Copy the groups this profile references, in first-reference
            // order.
            let mut groups2: StrMap<ModGroup> = StrMap::new();
            let m = prof1.mods.len();
            let mut j: usize = 0;
            proof {
                assert(groups2@ =~= referenced_groups_upto(pv1, dv.groups, 0));
            }
            while j < m
                invariant
                    self@ == dv,
                    prof1@ == pv1,
                    m == pv1.len(),
                    j <= m,
                    groups2@ == referenced_groups_upto(pv1, dv.groups, j as int),
                decreases m - j,
            {
                let ghost groups20 = groups2@;
                match &prof1.mods[j] {
                    ModOrGroup::Group { group_name, enabled } => {
                        match self.groups.get(group_name.as_str()) {
                            Some(g) => {
                                if !groups2.contains_key(group_name.as_str()) {
                                    let pos = groups2.len();
                                    groups2.insert_at(pos, group_name.clone(), g.duplicate());
                                    proof {
                                        assert(groups2@ =~= groups20.push((group_name@, g@)));
                                    }
                                }
                            },
                            None => {},
                        }
                    },
                    ModOrGroup::Individual(mc) => {},
                }
                proof {
                    assert(pv1[j as int] == prof1.mods@[j as int]@);
                    assert(groups2@ =~= referenced_groups_upto(pv1, dv.groups, j as int + 1));
                }
                j += 1;
            }
            // Copy the rows.
            let mut mods: Vec<ModOrGroup> = Vec::new();
            let mut k: usize = 0;
            while k < m
                invariant
                    prof1@ == pv1,
                    m == pv1.len(),
                    k <= m,
                    mods@.map_values(|x: ModOrGroup| x@) == pv1.take(k as int),
                decreases m - k,
            {
                let ghost mods0 = mods@;
                mods.push(prof1.mods[k].duplicate());
                proof {
                    assert(pv1[k as int] == prof1.mods@[k as int]@);
                    assert(mods@.map_values(|x: ModOrGroup| x@) =~= mods0.map_values(
                        |x: ModOrGroup| x@,
                    ).push(pv1[k as int]));
                    assert(pv1.take(k as int + 1) =~= pv1.take(k as int).push(pv1[k as int]));
                }
                k += 1;
            }
            proof {
                assert(pv1.take(m as int) =~= pv1);
            }
            let prof2 = ModProfile { mods, groups: groups2 };
            let ghost profiles0 = profiles@;
            let pos = profiles.len();
            profiles.insert_at(pos, key, prof2);
            proof {
                assert(prof2@ =~= migrate_profile_v1_v2(pv1, dv.groups));
                assert(profiles@ =~= profiles0.push((
                    dv.profiles[i as int].0,
                    migrate_profile_v1_v2(pv1, dv.groups),
                )));
                assert(migrate_data_v1_v2(dv).profiles[i as int] == (
                    dv.profiles[i as int].0,
                    migrate_profile_v1_v2(pv1, dv.groups),
                ));
                assert(migrate_data_v1_v2(dv).profiles.take(i as int + 1) =~= migrate_data_v1_v2(
                    dv,
                ).profiles.take(i as int).push(migrate_data_v1_v2(dv).profiles[i as int]));
                assert(profiles@ =~= migrate_data_v1_v2(dv).profiles.take(i as int + 1));
            }
            i += 1;
        }
        proof {
            assert(migrate_data_v1_v2(dv).profiles.take(n as int) =~= migrate_data_v1_v2(
                dv,
            ).profiles);
        }
        let r = ModData { active_profile: self.active_profile, profiles };
        proof {
            assert(r@ =~= migrate_data_v1_v2(dv));
        }
        r
    }
}

// ---------------------------------------------------------------------------
// The version envelope: a persisted store is one of these, and migrating it
// to the current generation is total. A version tag no variant carries is a
// parse failure in the persistence layer, never a silent coercion.
// ---------------------------------------------------------------------------

/// A store together with its schema generation tag.
#[derive(Debug)]
pub enum VersionAnnotatedModData {
    V0_0_0(ModDataV0),
    V0_1_0(ModDataV1),
    V0_2_0(ModData),
}

/// A store as read from disk: tagged with a generation, or the untagged
/// legacy shape, which is the oldest generation.
#[derive(Debug)]
pub enum MaybeVersionedModData {
    Versioned(VersionAnnotatedModData),
    Legacy(ModDataV0),
}

/// The current-generation value a tagged store migrates to.
pub open spec fn spec_current_of(d: VersionAnnotatedModData) -> ModDataView {
    match d {
        VersionAnnotatedModData::V0_0_0(m) => migrate_data_v0_v2(m@),
        VersionAnnotatedModData::V0_1_0(m) => migrate_data_v1_v2(m@),
        VersionAnnotatedModData::V0_2_0(m) => m@,
    }
}

/// The current-generation value any persisted store migrates to.
pub open spec fn spec_current_of_maybe(d: MaybeVersionedModData) -> ModDataView {
    match d {
        MaybeVersionedModData::Versioned(v) => spec_current_of(v),
        MaybeVersionedModData::Legacy(m) => migrate_data_v0_v2(m@),
    }
}

impl VersionAnnotatedModData {
    /// Runs the rest of the migration chain: each transform in order, up to
    /// the current generation. Total: every tagged value migrates.
    pub fn into_current(self) -> (r: ModData)
        ensures
            r@ == spec_current_of(self),
    {
        match self {
            VersionAnnotatedModData::V0_0_0(m) => m.into_v0_1_0().into_v0_2_0(),
            VersionAnnotatedModData::V0_1_0(m) => m.into_v0_2_0(),
            VersionAnnotatedModData::V0_2_0(m) => m,
        }
    }
}

impl MaybeVersionedModData {
    /// Runs the whole migration chain on what was read from disk.
    pub fn into_current(self) -> (r: ModData)
        ensures
            r@ == spec_current_of_maybe(self),
    {
        match self {
            MaybeVersionedModData::Versioned(v) => v.into_current(),
            MaybeVersionedModData::Legacy(m) => m.into_v0_1_0().into_v0_2_0(),
        }
    }
}

impl Default for ModDataV0 {
    /// One empty profile named "default", active.
    fn default() -> (r: Self)
        ensures
            r@.active_profile == "default"@,
            r@.profiles.len() == 1,
            r@.profiles[0].0 == "default"@,
            r@.profiles[0].1.len() == 0,
    {
        let mut profiles: StrMap<ModProfileV0> = StrMap::new();
        profiles.insert("default".to_owned(), ModProfileV0 { mods: Vec::new() });
        let r = ModDataV0 { active_profile: "default".to_owned(), profiles };
        proof {
            assert(r@.profiles[0].1 =~= Seq::<crate::state::ModConfigView>::empty());
        }
        r
    }
}

impl Default for ModDataV1 {
    /// One empty profile named "default", active, and no groups.
    fn default() -> (r: Self)
        ensures
            r@.active_profile == "default"@,
            r@.profiles.len() == 1,
            r@.profiles[0].0 == "default"@,
            r@.profiles[0].1.len() == 0,
            r@.groups.len() == 0,
    {
        let mut profiles: StrMap<ModProfileV1> = StrMap::new();
        profiles.insert("default".to_owned(), ModProfileV1 { mods: Vec::new() });
        let r = ModDataV1 {
            active_profile: "default".to_owned(),
            profiles,
            groups: StrMap::new(),
        };
        proof {
            assert(r@.profiles[0].1 =~= Seq::<ModOrGroupView>::empty());
        }
        r
    }
}

impl Default for VersionAnnotatedModData {
    /// A current-generation default store.
    fn default() -> (r: Self)
        ensures
            r is V0_2_0,
            r->V0_2_0_0@.wf(),
    {
        VersionAnnotatedModData::V0_2_0(ModData::default())
    }
}

impl Default for MaybeVersionedModData {
    /// A current-generation default store.
    fn default() -> (r: Self)
        ensures
            r is Versioned,
            r->Versioned_0 is V0_2_0,
            r->Versioned_0->V0_2_0_0@.wf(),
    {
        MaybeVersionedModData::Versioned(VersionAnnotatedModData::default())
    }
}

/// Migrating a store to the current generation and then handing the result
/// through the migration chain again changes nothing: on a current-tagged
/// value the chain is the identity.
pub proof fn lemma_migration_idempotent(d: MaybeVersionedModData, c: ModData)
    requires
        c@ == spec_current_of_maybe(d),
    ensures
        spec_current_of(VersionAnnotatedModData::V0_2_0(c)) == spec_current_of_maybe(d),
{
}

} // verus!
