use vstd::prelude::*;

use crate::smap::StrMap;
use crate::smap::assoc_get;
use crate::smap::assoc_has_key;
use crate::smap::assoc_keys_unique;

verus! {

/// Opaque identifier/locator for a mod (e.g. a URL). Equality is plain string
/// equality; resolving it to display metadata is a collaborator's job.
#[derive(Debug, Clone)]
pub struct ModSpecification {
    pub url: String,
}

impl View for ModSpecification {
    type V = Seq<char>;

    open spec fn view(&self) -> Seq<char> {
        self.url@
    }
}

impl ModSpecification {
    pub fn new(url: String) -> (r: Self)
        ensures
            r@ == url@,
    {
        ModSpecification { url }
    }
}

/// Mathematical value of a `ModConfig`.
#[verifier::ext_equal]
pub struct ModConfigView {
    pub url: Seq<char>,
    pub required: bool,
    pub enabled: bool,
    pub priority: int,
}

/// Mod configuration: the specification plus enable/priority state.
#[derive(Debug, Clone)]
pub struct ModConfig {
    pub spec: ModSpecification,
    pub required: bool,
    pub enabled: bool,
    pub priority: i32,
}

impl View for ModConfig {
    type V = ModConfigView;

    open spec fn view(&self) -> ModConfigView {
        ModConfigView {
            url: self.spec@,
            required: self.required,
            enabled: self.enabled,
            priority: self.priority as int,
        }
    }
}

impl ModConfig {
    /// A copy with the same mathematical value.
    pub fn duplicate(&self) -> (r: Self)
        ensures
            r@ == self@,
    {
        ModConfig {
            spec: ModSpecification { url: self.spec.url.clone() },
            required: self.required,
            enabled: self.enabled,
            priority: self.priority,
        }
    }
}

/// Mathematical value of a `ModGroup`.
#[verifier::ext_equal]
pub struct ModGroupView {
    pub mods: Seq<ModConfigView>,
    pub priority_override: Option<int>,
}

/// A named folder of mods. When `priority_override` is set, every mod in the
/// group takes that priority in effective-priority computations; the mods'
/// own `priority` fields are not touched.
#[derive(Debug, Clone)]
pub struct ModGroup {
    pub mods: Vec<ModConfig>,
    pub priority_override: Option<i32>,
}

impl View for ModGroup {
    type V = ModGroupView;

    open spec fn view(&self) -> ModGroupView {
        ModGroupView {
            mods: self.mods@.map_values(|m: ModConfig| m@),
            priority_override: match self.priority_override {
                Some(p) => Some(p as int),
                None => None,
            },
        }
    }
}

impl ModGroup {
    pub fn new() -> (r: Self)
        ensures
            r@.mods.len() == 0,
            r@.priority_override is None,
    {
        ModGroup { mods: Vec::new(), priority_override: None }
    }

    /// A copy with the same mathematical value.
    pub fn duplicate(&self) -> (r: Self)
        ensures
            r@ == self@,
    {
        let mut mods: Vec<ModConfig> = Vec::new();
        let n = self.mods.len();
        let mut i: usize = 0;
        while i < n
            invariant
                n == self.mods@.len(),
                i <= n,
                mods@.len() == i,
                forall|j: int| 0 <= j < i ==> mods@[j]@ == self.mods@[j]@,
            decreases n - i,
        {
            mods.push(self.mods[i].duplicate());
            i += 1;
        }
        let r = ModGroup { mods, priority_override: self.priority_override };
        proof {
            assert(r@.mods =~= self@.mods);
        }
        r
    }
}

impl Default for ModGroup {
    fn default() -> (r: Self)
        ensures
            r@.mods.len() == 0,
            r@.priority_override is None,
    {
        ModGroup::new()
    }
}

/// Mathematical value of a `ModOrGroup`.
#[verifier::ext_equal]
pub enum ModOrGroupView {
    Group { group_name: Seq<char>, enabled: bool },
    Individual(ModConfigView),
}

/// One row of a profile: either an individual mod, or a reference by name to
/// a group owned by the profile's group map.
#[derive(Debug, Clone)]
pub enum ModOrGroup {
    Group { group_name: String, enabled: bool },
    Individual(ModConfig),
}

impl View for ModOrGroup {
    type V = ModOrGroupView;

    open spec fn view(&self) -> ModOrGroupView {
        match self {
            ModOrGroup::Group { group_name, enabled } => ModOrGroupView::Group {
                group_name: group_name@,
                enabled: *enabled,
            },
            ModOrGroup::Individual(mc) => ModOrGroupView::Individual(mc@),
        }
    }
}

impl ModOrGroup {
    /// A copy with the same mathematical value.
    pub fn duplicate(&self) -> (r: Self)
        ensures
            r@ == self@,
    {
        match self {
            ModOrGroup::Group { group_name, enabled } => ModOrGroup::Group {
                group_name: group_name.clone(),
                enabled: *enabled,
            },
            ModOrGroup::Individual(mc) => ModOrGroup::Individual(mc.duplicate()),
        }
    }
}

/// Mathematical value of a `ModProfile`.
#[verifier::ext_equal]
pub struct ModProfileView {
    pub mods: Seq<ModOrGroupView>,
    pub groups: Seq<(Seq<char>, ModGroupView)>,
}

impl ModProfileView {
    /// Group names are unique within the profile.
    pub open spec fn wf(self) -> bool {
        assoc_keys_unique(self.groups)
    }

    /// Every group reference in the row sequence has a matching key in the
    /// group map. Well-formed stores avoid breaking this, but loaded data may
    /// violate it; queries tolerate the dangling references.
    pub open spec fn linked(self) -> bool {
        forall|i: int| 0 <= i < self.mods.len() && self.mods[i] is Group
            ==> assoc_has_key(self.groups, self.mods[i]->Group_group_name)
    }
}

/// A named, ordered loadout: individual mods mixed with group references,
/// plus the owning map from group name to group.
#[derive(Debug)]
pub struct ModProfile {
    pub mods: Vec<ModOrGroup>,
    pub groups: StrMap<ModGroup>,
}

impl View for ModProfile {
    type V = ModProfileView;

    open spec fn view(&self) -> ModProfileView {
        ModProfileView {
            mods: self.mods@.map_values(|m: ModOrGroup| m@),
            groups: self.groups@,
        }
    }
}

impl ModProfile {
    pub fn new() -> (r: Self)
        ensures
            r@.mods.len() == 0,
            r@.groups.len() == 0,
            r@.wf(),
    {
        let r = ModProfile { mods: Vec::new(), groups: StrMap::new() };
        proof {
            assert(r@.mods =~= Seq::<ModOrGroupView>::empty());
        }
        r
    }
}

impl Default for ModProfile {
    fn default() -> (r: Self)
        ensures
            r@.mods.len() == 0,
            r@.groups.len() == 0,
            r@.wf(),
    {
        ModProfile::new()
    }
}

/// Mathematical value of a `ModData` store.
#[verifier::ext_equal]
pub struct ModDataView {
    pub active_profile: Seq<char>,
    pub profiles: Seq<(Seq<char>, ModProfileView)>,
}

impl ModDataView {
    /// The store always holds at least one profile, profile names are unique,
    /// the active profile exists, and each profile is well-formed.
    pub open spec fn wf(self) -> bool {
        &&& self.profiles.len() > 0
        &&& assoc_keys_unique(self.profiles)
        &&& assoc_has_key(self.profiles, self.active_profile)
        &&& forall|i: int| 0 <= i < self.profiles.len() ==> (#[trigger] self.profiles[i]).1.wf()
    }

    pub open spec fn has_profile(self, name: Seq<char>) -> bool {
        assoc_has_key(self.profiles, name)
    }

    pub open spec fn profile(self, name: Seq<char>) -> ModProfileView
        recommends
            self.has_profile(name),
    {
        assoc_get(self.profiles, name)->0
    }
}

/// The profile store: every profile, and the name of the active one.
#[derive(Debug)]
pub struct ModData {
    pub active_profile: String,
    pub profiles: StrMap<ModProfile>,
}

impl View for ModData {
    type V = ModDataView;

    open spec fn view(&self) -> ModDataView {
        ModDataView { active_profile: self.active_profile@, profiles: self.profiles@ }
    }
}

impl Default for ModData {
    fn default() -> (r: Self)
        ensures
            r@.wf(),
            r@.active_profile == "default"@,
            r@.profiles.len() == 1,
            r@.profiles[0].0 == "default"@,
            r@.profiles[0].1.mods.len() == 0,
            r@.profiles[0].1.groups.len() == 0,
    {
        let mut profiles: StrMap<ModProfile> = StrMap::new();
        profiles.insert("default".to_owned(), ModProfile::new());
        let r = ModData { active_profile: "default".to_owned(), profiles };
        proof {
            crate::smap::lemma_assoc_index_first(r@.profiles, "default"@, 0);
        }
        r
    }
}

impl ModData {
    /// The active profile; the store must be well-formed enough for the
    /// active name to resolve.
    pub fn get_active_profile(&self) -> (r: &ModProfile)
        requires
            self@.has_profile(self@.active_profile),
        ensures
            Some(r@) == assoc_get(self@.profiles, self@.active_profile),
    {
        self.profiles.get(self.active_profile.as_str()).unwrap()
    }
}

/// Value equality helpers: whether two values have the same mathematical
/// value, field by field. Loaded and rebuilt stores compare with these.
impl ModConfig {
    pub fn same_as(&self, other: &ModConfig) -> (r: bool)
        ensures
            r == (self@ == other@),
    {
        let r = crate::smap::str_eq(self.spec.url.as_str(), other.spec.url.as_str())
            && self.required == other.required && self.enabled == other.enabled && self.priority
            == other.priority;
        proof {
            if r {
                assert(self@ =~= other@);
            }
        }
        r
    }
}

impl ModGroup {
    pub fn same_as(&self, other: &ModGroup) -> (r: bool)
        ensures
            r == (self@ == other@),
    {
        let over_eq = match (self.priority_override, other.priority_override) {
            (None, None) => true,
            (Some(a), Some(b)) => a == b,
            (None, Some(b)) => false,
            (Some(a), None) => false,
        };
        if !over_eq {
            return false;
        }
        let n = self.mods.len();
        if n != other.mods.len() {
            proof {
                assert(self@.mods.len() != other@.mods.len());
            }
            return false;
        }
        let mut i: usize = 0;
        while i < n
            invariant
                n == self.mods@.len(),
                n == other.mods@.len(),
                i <= n,
                self@.priority_override == other@.priority_override,
                forall|j: int| 0 <= j < i ==> self.mods@[j]@ == other.mods@[j]@,
            decreases n - i,
        {
            if !self.mods[i].same_as(&other.mods[i]) {
                proof {
                    assert(self@.mods[i as int] != other@.mods[i as int]);
                }
                return false;
            }
            i += 1;
        }
        proof {
            assert(self@.mods =~= other@.mods);
            assert(self@ =~= other@);
        }
        true
    }
}

impl ModOrGroup {
    pub fn same_as(&self, other: &ModOrGroup) -> (r: bool)
        ensures
            r == (self@ == other@),
    {
        match (self, other) {
            (ModOrGroup::Individual(a), ModOrGroup::Individual(b)) => a.same_as(b),
            (
                ModOrGroup::Group { group_name: na, enabled: ea },
                ModOrGroup::Group { group_name: nb, enabled: eb },
            ) => crate::smap::str_eq(na.as_str(), nb.as_str()) && *ea == *eb,
            (ModOrGroup::Individual(a), ModOrGroup::Group { group_name, enabled }) => false,
            (ModOrGroup::Group { group_name, enabled }, ModOrGroup::Individual(b)) => false,
        }
    }
}

impl ModProfile {
    pub fn same_as(&self, other: &ModProfile) -> (r: bool)
        ensures
            r == (self@ == other@),
    {
        let n = self.mods.len();
        if n != other.mods.len() {
            proof {
                assert(self@.mods.len() != other@.mods.len());
            }
            return false;
        }
        let mut i: usize = 0;
        while i < n
            invariant
                n == self.mods@.len(),
                n == other.mods@.len(),
                i <= n,
                forall|j: int| 0 <= j < i ==> self.mods@[j]@ == other.mods@[j]@,
            decreases n - i,
        {
            if !self.mods[i].same_as(&other.mods[i]) {
                proof {
                    assert(self@.mods[i as int] != other@.mods[i as int]);
                }
                return false;
            }
            i += 1;
        }
        let m = self.groups.len();
        if m != other.groups.len() {
            proof {
                assert(self@.groups.len() != other@.groups.len());
            }
            return false;
        }
        let mut k: usize = 0;
        while k < m
            invariant
                m == self.groups@.len(),
                m == other.groups@.len(),
                n == self.mods@.len(),
                n == other.mods@.len(),
                forall|j: int| 0 <= j < n ==> self.mods@[j]@ == other.mods@[j]@,
                k <= m,
                forall|j: int| 0 <= j < k ==> self.groups@[j] == other.groups@[j],
            decreases m - k,
        {
            let keys_eq = crate::smap::str_eq(
                self.groups.key_at(k).as_str(),
                other.groups.key_at(k).as_str(),
            );
            if !keys_eq {
                proof {
                    assert(self@.groups[k as int].0 != other@.groups[k as int].0);
                }
                return false;
            }
            if !self.groups.value_at(k).same_as(other.groups.value_at(k)) {
                proof {
                    assert(self@.groups[k as int].1 != other@.groups[k as int].1);
                }
                return false;
            }
            k += 1;
        }
        proof {
            assert(self@.mods =~= other@.mods);
            assert(self@.groups =~= other@.groups);
            assert(self@ =~= other@);
        }
        true
    }
}

impl ModData {
    pub fn same_as(&self, other: &ModData) -> (r: bool)
        ensures
            r == (self@ == other@),
    {
        if !crate::smap::str_eq(self.active_profile.as_str(), other.active_profile.as_str()) {
            return false;
        }
        let n = self.profiles.len();
        if n != other.profiles.len() {
            proof {
                assert(self@.profiles.len() != other@.profiles.len());
            }
            return false;
        }
        let mut i: usize = 0;
        while i < n
            invariant
                n == self.profiles@.len(),
                n == other.profiles@.len(),
                i <= n,
                self@.active_profile == other@.active_profile,
                forall|j: int| 0 <= j < i ==> self.profiles@[j] == other.profiles@[j],
            decreases n - i,
        {
            let keys_eq = crate::smap::str_eq(
                self.profiles.key_at(i).as_str(),
                other.profiles.key_at(i).as_str(),
            );
            if !keys_eq {
                proof {
                    assert(self@.profiles[i as int].0 != other@.profiles[i as int].0);
                }
                return false;
            }
            if !self.profiles.value_at(i).same_as(other.profiles.value_at(i)) {
                proof {
                    assert(self@.profiles[i as int].1 != other@.profiles[i as int].1);
                }
                return false;
            }
            i += 1;
        }
        proof {
            assert(self@.profiles =~= other@.profiles);
            assert(self@ =~= other@);
        }
        true
    }

    /// Checks the store invariant: at least one profile, unique profile
    /// names, an active profile that exists, and unique group names inside
    /// each profile.
    pub fn check_wf(&self) -> (r: bool)
        ensures
            r == self@.wf(),
    {
        if self.profiles.len() == 0 {
            return false;
        }
        if !self.profiles.keys_unique() {
            return false;
        }
        if !self.profiles.contains_key(self.active_profile.as_str()) {
            return false;
        }
        let n = self.profiles.len();
        let mut i: usize = 0;
        while i < n
            invariant
                n == self.profiles@.len(),
                i <= n,
                forall|j: int| 0 <= j < i ==> (#[trigger] self@.profiles[j]).1.wf(),
            decreases n - i,
        {
            if !self.profiles.value_at(i).groups.keys_unique() {
                proof {
                    assert(!self@.profiles[i as int].1.wf());
                }
                return false;
            }
            i += 1;
        }
        true
    }
}

/// The error kinds the store surfaces. Structural problems raised through the
/// mutation API are typed errors, never panics; schema and I/O problems are
/// fatal to store initialization.
#[derive(Debug, Clone, Copy, PartialEq, Eq, Structural)]
pub enum StateError {
    /// The named profile does not exist in the store.
    NoSuchProfile,
    /// A group with the requested name already exists in the profile.
    DuplicateGroupName,
    /// A profile with the requested name already exists in the store.
    DuplicateProfileName,
    /// A persisted document carries a version tag newer than any known
    /// generation.
    UnsupportedSchemaVersion,
    /// Persisted bytes did not parse as any known generation.
    DeserializationFailed,
    /// Reading, writing or replacing the persisted file failed.
    IoFailure,
}

} // verus!
