use vstd::prelude::*;

use crate::smap::assoc_get;
use crate::state::ModConfig;
use crate::state::ModConfigView;
use crate::state::ModData;
use crate::state::ModGroupView;
use crate::state::ModOrGroup;
use crate::state::ModOrGroupView;
use crate::state::ModProfileView;

verus! {

// ---------------------------------------------------------------------------
// The mathematical model of profile traversal. A profile is walked row by
// row; an `Individual` row contributes its own mod, a `Group` row contributes
// the mods of the group it names (nothing when the name is dangling).
// ---------------------------------------------------------------------------

pub open spec fn mc_views(s: Seq<ModConfig>) -> Seq<ModConfigView> {
    s.map_values(|m: ModConfig| m@)
}

pub open spec fn mcp_views(s: Seq<(ModConfig, i32)>) -> Seq<(ModConfigView, int)> {
    s.map_values(|p: (ModConfig, i32)| (p.0@, p.1 as int))
}

/// The enabled mods of a group's mod sequence, in order.
pub open spec fn enabled_only(mods: Seq<ModConfigView>) -> Seq<ModConfigView>
    decreases mods.len(),
{
    if mods.len() == 0 {
        Seq::empty()
    } else {
        let prefix = enabled_only(mods.drop_last());
        if mods.last().enabled {
            prefix.push(mods.last())
        } else {
            prefix
        }
    }
}

/// The enabled mods of a group's mod sequence paired with their effective
/// priority: the group's override when present, else the mod's own priority.
pub open spec fn enabled_with_override(mods: Seq<ModConfigView>, over: Option<int>) -> Seq<
    (ModConfigView, int),
>
    decreases mods.len(),
{
    if mods.len() == 0 {
        Seq::empty()
    } else {
        let prefix = enabled_with_override(mods.drop_last(), over);
        let m = mods.last();
        if m.enabled {
            prefix.push(
                (
                    m,
                    match over {
                        Some(p) => p,
                        None => m.priority,
                    },
                ),
            )
        } else {
            prefix
        }
    }
}

/// All mods one row contributes, regardless of enabled state.
pub open spec fn entry_all(groups: Seq<(Seq<char>, ModGroupView)>, e: ModOrGroupView) -> Seq<
    ModConfigView,
> {
    match e {
        ModOrGroupView::Individual(mc) => seq![mc],
        ModOrGroupView::Group { group_name, enabled } => match assoc_get(groups, group_name) {
            Some(g) => g.mods,
            None => Seq::empty(),
        },
    }
}

/// The enabled mods one row contributes: a disabled group contributes
/// nothing, an enabled group contributes its enabled mods, a root mod
/// contributes itself when enabled.
pub open spec fn entry_enabled(groups: Seq<(Seq<char>, ModGroupView)>, e: ModOrGroupView) -> Seq<
    ModConfigView,
> {
    match e {
        ModOrGroupView::Individual(mc) => if mc.enabled {
            seq![mc]
        } else {
            Seq::empty()
        },
        ModOrGroupView::Group { group_name, enabled } => if enabled {
            match assoc_get(groups, group_name) {
                Some(g) => enabled_only(g.mods),
                None => Seq::empty(),
            }
        } else {
            Seq::empty()
        },
    }
}

/// The (mod, effective priority) pairs one row contributes, by the same
/// enable rule as `entry_enabled`. Root mods always use their own priority.
pub open spec fn entry_with_priority(
    groups: Seq<(Seq<char>, ModGroupView)>,
    e: ModOrGroupView,
) -> Seq<(ModConfigView, int)> {
    match e {
        ModOrGroupView::Individual(mc) => if mc.enabled {
            seq![(mc, mc.priority)]
        } else {
            Seq::empty()
        },
        ModOrGroupView::Group { group_name, enabled } => if enabled {
            match assoc_get(groups, group_name) {
                Some(g) => enabled_with_override(g.mods, g.priority_override),
                None => Seq::empty(),
            }
        } else {
            Seq::empty()
        },
    }
}

/// The (mod, group-enabled flag) pairs one row offers to a predicate: a root
/// mod comes with `None`, a group member with the group reference's own
/// enabled flag, whatever the member's state.
pub open spec fn entry_pairs(groups: Seq<(Seq<char>, ModGroupView)>, e: ModOrGroupView) -> Seq<
    (ModConfigView, Option<bool>),
> {
    match e {
        ModOrGroupView::Individual(mc) => seq![(mc, None)],
        ModOrGroupView::Group { group_name, enabled } => match assoc_get(groups, group_name) {
            Some(g) => g.mods.map_values(|m: ModConfigView| (m, Some(enabled))),
            None => Seq::empty(),
        },
    }
}

pub open spec fn pred_pairs_upto(p: ModProfileView, n: int) -> Seq<(ModConfigView, Option<bool>)>
    decreases n,
{
    if n <= 0 {
        Seq::empty()
    } else {
        pred_pairs_upto(p, n - 1) + entry_pairs(p.groups, p.mods[n - 1])
    }
}

/// Every (mod, group-enabled flag) pair a predicate over the profile sees, in
/// visit order.
pub open spec fn pred_pairs(p: ModProfileView) -> Seq<(ModConfigView, Option<bool>)> {
    pred_pairs_upto(p, p.mods.len() as int)
}

/// Some call of `f` on a mod with this mathematical value may return true.
pub open spec fn pair_accepts<F: Fn(&ModConfig, Option<bool>) -> bool>(
    f: F,
    pair: (ModConfigView, Option<bool>),
) -> bool {
    exists|mc: ModConfig| mc@ == pair.0 && call_ensures(f, (&mc, pair.1), true)
}

/// Some call of `f` on a mod with this mathematical value may return false.
pub open spec fn pair_rejects<F: Fn(&ModConfig, Option<bool>) -> bool>(
    f: F,
    pair: (ModConfigView, Option<bool>),
) -> bool {
    exists|mc: ModConfig| mc@ == pair.0 && call_ensures(f, (&mc, pair.1), false)
}

/// A shorter prefix of the pair sequence is a prefix of a longer one.
pub proof fn lemma_pred_pairs_prefix(p: ModProfileView, n: int, m: int)
    requires
        0 <= n <= m,
    ensures
        pred_pairs_upto(p, n).is_prefix_of(pred_pairs_upto(p, m)),
    decreases m,
{
    if n < m {
        lemma_pred_pairs_prefix(p, n, m - 1);
        assert(pred_pairs_upto(p, m) == pred_pairs_upto(p, m - 1) + entry_pairs(
            p.groups,
            p.mods[m - 1],
        ));
    }
}

pub open spec fn all_mods_upto(p: ModProfileView, n: int) -> Seq<ModConfigView>
    decreases n,
{
    if n <= 0 {
        Seq::empty()
    } else {
        all_mods_upto(p, n - 1) + entry_all(p.groups, p.mods[n - 1])
    }
}

/// Every mod reachable from the profile, in visit order.
pub open spec fn all_mods(p: ModProfileView) -> Seq<ModConfigView> {
    all_mods_upto(p, p.mods.len() as int)
}

pub open spec fn enabled_mods_upto(p: ModProfileView, n: int) -> Seq<ModConfigView>
    decreases n,
{
    if n <= 0 {
        Seq::empty()
    } else {
        enabled_mods_upto(p, n - 1) + entry_enabled(p.groups, p.mods[n - 1])
    }
}

/// Every enabled mod reachable from the profile, in visit order.
pub open spec fn enabled_mods(p: ModProfileView) -> Seq<ModConfigView> {
    enabled_mods_upto(p, p.mods.len() as int)
}

pub open spec fn mods_with_priority_upto(p: ModProfileView, n: int) -> Seq<(ModConfigView, int)>
    decreases n,
{
    if n <= 0 {
        Seq::empty()
    } else {
        mods_with_priority_upto(p, n - 1) + entry_with_priority(p.groups, p.mods[n - 1])
    }
}

/// Every enabled mod paired with its effective priority, in visit order.
pub open spec fn mods_with_priority(p: ModProfileView) -> Seq<(ModConfigView, int)> {
    mods_with_priority_upto(p, p.mods.len() as int)
}

// ---------------------------------------------------------------------------
// The executable query engine.
// ---------------------------------------------------------------------------

impl ModData {
    /// Every mod reachable from the profile, in visit order: root individuals
    /// and every mod inside every referenced group, whatever their enabled
    /// state.
    pub fn for_each_mod(&self, profile: &str) -> (r: Vec<ModConfig>)
        requires
            self@.has_profile(profile@),
        ensures
            mc_views(r@) == all_mods(self@.profile(profile@)),
    {
        let prof = self.profiles.get(profile).unwrap();
        let ghost pv = self@.profile(profile@);
        let mut out: Vec<ModConfig> = Vec::new();
        proof {
            assert(mc_views(out@) =~= all_mods_upto(pv, 0));
        }
        let n = prof.mods.len();
        let mut i: usize = 0;
        while i < n
            invariant
                prof@ == pv,
                n == pv.mods.len(),
                i <= n,
                mc_views(out@) == all_mods_upto(pv, i as int),
            decreases n - i,
        {
            let ghost entry = pv.mods[i as int];
            match &prof.mods[i] {
                ModOrGroup::Individual(mc) => {
                    let ghost out0 = out@;
                    out.push(mc.duplicate());
                    proof {
                        assert(entry == prof.mods@[i as int]@);
                        assert(mc_views(out@) =~= mc_views(out0).push(entry->Individual_0));
                        assert(all_mods_upto(pv, i as int + 1) =~= all_mods_upto(pv, i as int)
                            + entry_all(pv.groups, entry));
                    }
                },
                ModOrGroup::Group { group_name, enabled } => {
                    match prof.groups.get(group_name.as_str()) {
                        Some(group) => {
                            let ghost gv = group@;
                            let m = group.mods.len();
                            let mut j: usize = 0;
                            proof {
                                assert(mc_views(out@) =~= all_mods_upto(pv, i as int) + gv.mods.take(0));
                            }
                            while j < m
                                invariant
                                    m == gv.mods.len(),
                                    j <= m,
                                    group@ == gv,
                                    mc_views(out@) == all_mods_upto(pv, i as int) + gv.mods.take(j as int),
                                decreases m - j,
                            {
                                let ghost out0 = out@;
                                out.push(group.mods[j].duplicate());
                                proof {
                                    assert(gv.mods[j as int] == group.mods@[j as int]@);
                                    assert(mc_views(out@) =~= mc_views(out0).push(gv.mods[j as int]));
                                    assert(gv.mods.take(j as int + 1) =~= gv.mods.take(j as int).push(gv.mods[j as int]));
                                    assert(mc_views(out@) =~= all_mods_upto(pv, i as int) + gv.mods.take(j as int + 1));
                                }
                                j += 1;
                            }
                            proof {
                                assert(gv.mods.take(m as int) =~= gv.mods);
                                assert(entry_all(pv.groups, entry) == gv.mods);
                                assert(all_mods_upto(pv, i as int + 1) =~= all_mods_upto(pv, i as int)
                                    + entry_all(pv.groups, entry));
                            }
                        },
                        None => {
                            proof {
                                assert(entry_all(pv.groups, entry) =~= Seq::<ModConfigView>::empty());
                                assert(all_mods_upto(pv, i as int + 1) =~= all_mods_upto(pv, i as int)
                                    + entry_all(pv.groups, entry));
                                assert(mc_views(out@) =~= all_mods_upto(pv, i as int + 1));
                            }
                        },
                    }
                },
            }
            i += 1;
        }
        out
    }

    /// The enabled mods reachable from the profile, in visit order: a
    /// disabled group hides all of its mods, and an individually disabled mod
    /// is skipped wherever it sits.
    pub fn for_each_enabled_mod(&self, profile: &str) -> (r: Vec<ModConfig>)
        requires
            self@.has_profile(profile@),
        ensures
            mc_views(r@) == enabled_mods(self@.profile(profile@)),
    {
        let prof = self.profiles.get(profile).unwrap();
        let ghost pv = self@.profile(profile@);
        let mut out: Vec<ModConfig> = Vec::new();
        proof {
            assert(mc_views(out@) =~= enabled_mods_upto(pv, 0));
        }
        let n = prof.mods.len();
        let mut i: usize = 0;
        while i < n
            invariant
                prof@ == pv,
                n == pv.mods.len(),
                i <= n,
                mc_views(out@) == enabled_mods_upto(pv, i as int),
            decreases n - i,
        {
            let ghost entry = pv.mods[i as int];
            match &prof.mods[i] {
                ModOrGroup::Individual(mc) => {
                    let ghost out0 = out@;
                    if mc.enabled {
                        out.push(mc.duplicate());
                        proof {
                            assert(entry == prof.mods@[i as int]@);
                            assert(mc_views(out@) =~= mc_views(out0).push(entry->Individual_0));
                        }
                    }
                    proof {
                        assert(enabled_mods_upto(pv, i as int + 1) =~= enabled_mods_upto(pv, i as int)
                            + entry_enabled(pv.groups, entry));
                        assert(mc_views(out@) =~= enabled_mods_upto(pv, i as int + 1));
                    }
                },
                ModOrGroup::Group { group_name, enabled } => {
                    if *enabled {
                        match prof.groups.get(group_name.as_str()) {
                            Some(group) => {
                                let ghost gv = group@;
                                let m = group.mods.len();
                                let mut j: usize = 0;
                                proof {
                                    assert(enabled_only(gv.mods.take(0)) =~= Seq::<ModConfigView>::empty());
                                    assert(mc_views(out@) =~= enabled_mods_upto(pv, i as int)
                                        + enabled_only(gv.mods.take(0)));
                                }
                                while j < m
                                    invariant
                                        m == gv.mods.len(),
                                        j <= m,
                                        group@ == gv,
                                        mc_views(out@) == enabled_mods_upto(pv, i as int)
                                            + enabled_only(gv.mods.take(j as int)),
                                    decreases m - j,
                                {
                                    let ghost out0 = out@;
                                    proof {
                                        assert(gv.mods[j as int] == group.mods@[j as int]@);
                                        assert(gv.mods.take(j as int + 1).drop_last() =~= gv.mods.take(j as int));
                                        assert(gv.mods.take(j as int + 1).last() == gv.mods[j as int]);
                                    }
                                    if group.mods[j].enabled {
                                        out.push(group.mods[j].duplicate());
                                        proof {
                                            assert(mc_views(out@) =~= mc_views(out0).push(gv.mods[j as int]));
                                        }
                                    }
                                    proof {
                                        assert(mc_views(out@) =~= enabled_mods_upto(pv, i as int)
                                            + enabled_only(gv.mods.take(j as int + 1)));
                                    }
                                    j += 1;
                                }
                                proof {
                                    assert(gv.mods.take(m as int) =~= gv.mods);
                                    assert(entry_enabled(pv.groups, entry) == enabled_only(gv.mods));
                                }
                            },
                            None => {
                                proof {
                                    assert(entry_enabled(pv.groups, entry) =~= Seq::<ModConfigView>::empty());
                                }
                            },
                        }
                    }
                    proof {
                        assert(enabled_mods_upto(pv, i as int + 1) =~= enabled_mods_upto(pv, i as int)
                            + entry_enabled(pv.groups, entry));
                        assert(mc_views(out@) =~= enabled_mods_upto(pv, i as int + 1));
                    }
                },
            }
            i += 1;
        }
        out
    }

    /// The enabled mods paired with their effective priority: the owning
    /// group's override when present, else the mod's own priority; root mods
    /// always use their own priority.
    pub fn get_enabled_mods_with_priority(&self, profile: &str) -> (r: Vec<(ModConfig, i32)>)
        requires
            self@.has_profile(profile@),
        ensures
            mcp_views(r@) == mods_with_priority(self@.profile(profile@)),
    {
        let prof = self.profiles.get(profile).unwrap();
        let ghost pv = self@.profile(profile@);
        let mut out: Vec<(ModConfig, i32)> = Vec::new();
        proof {
            assert(mcp_views(out@) =~= mods_with_priority_upto(pv, 0));
        }
        let n = prof.mods.len();
        let mut i: usize = 0;
        while i < n
            invariant
                prof@ == pv,
                n == pv.mods.len(),
                i <= n,
                mcp_views(out@) == mods_with_priority_upto(pv, i as int),
            decreases n - i,
        {
            let ghost entry = pv.mods[i as int];
            match &prof.mods[i] {
                ModOrGroup::Individual(mc) => {
                    let ghost out0 = out@;
                    if mc.enabled {
                        let prio = mc.priority;
                        out.push((mc.duplicate(), prio));
                        proof {
                            assert(entry == prof.mods@[i as int]@);
                            assert(mcp_views(out@) =~= mcp_views(out0).push(
                                (entry->Individual_0, entry->Individual_0.priority),
                            ));
                        }
                    }
                    proof {
                        assert(mods_with_priority_upto(pv, i as int + 1)
                            =~= mods_with_priority_upto(pv, i as int)
                            + entry_with_priority(pv.groups, entry));
                        assert(mcp_views(out@) =~= mods_with_priority_upto(pv, i as int + 1));
                    }
                },
                ModOrGroup::Group { group_name, enabled } => {
                    if *enabled {
                        match prof.groups.get(group_name.as_str()) {
                            Some(group) => {
                                let ghost gv = group@;
                                let m = group.mods.len();
                                let mut j: usize = 0;
                                proof {
                                    assert(enabled_with_override(gv.mods.take(0), gv.priority_override)
                                        =~= Seq::<(ModConfigView, int)>::empty());
                                    assert(mcp_views(out@) =~= mods_with_priority_upto(pv, i as int)
                                        + enabled_with_override(gv.mods.take(0), gv.priority_override));
                                }
                                while j < m
                                    invariant
                                        m == gv.mods.len(),
                                        j <= m,
                                        group@ == gv,
                                        mcp_views(out@) == mods_with_priority_upto(pv, i as int)
                                            + enabled_with_override(
                                            gv.mods.take(j as int),
                                            gv.priority_override,
                                        ),
                                    decreases m - j,
                                {
                                    let ghost out0 = out@;
                                    proof {
                                        assert(gv.mods[j as int] == group.mods@[j as int]@);
                                        assert(gv.mods.take(j as int + 1).drop_last() =~= gv.mods.take(j as int));
                                        assert(gv.mods.take(j as int + 1).last() == gv.mods[j as int]);
                                    }
                                    if group.mods[j].enabled {
                                        let mc = &group.mods[j];
                                        let eff = match group.priority_override {
                                            Some(p) => p,
                                            None => mc.priority,
                                        };
                                        out.push((mc.duplicate(), eff));
                                        proof {
                                            assert(mcp_views(out@) =~= mcp_views(out0).push(
                                                (gv.mods[j as int], eff as int),
                                            ));
                                        }
                                    }
                                    proof {
                                        assert(mcp_views(out@) =~= mods_with_priority_upto(pv, i as int)
                                            + enabled_with_override(
                                            gv.mods.take(j as int + 1),
                                            gv.priority_override,
                                        ));
                                    }
                                    j += 1;
                                }
                                proof {
                                    assert(gv.mods.take(m as int) =~= gv.mods);
                                    assert(entry_with_priority(pv.groups, entry)
                                        == enabled_with_override(gv.mods, gv.priority_override));
                                }
                            },
                            None => {
                                proof {
                                    assert(entry_with_priority(pv.groups, entry)
                                        =~= Seq::<(ModConfigView, int)>::empty());
                                }
                            },
                        }
                    }
                    proof {
                        assert(mods_with_priority_upto(pv, i as int + 1)
                            =~= mods_with_priority_upto(pv, i as int)
                            + entry_with_priority(pv.groups, entry));
                        assert(mcp_views(out@) =~= mods_with_priority_upto(pv, i as int + 1));
                    }
                },
            }
            i += 1;
        }
        out
    }

    /// Whether any reachable mod may satisfy the predicate. Besides the mod,
    /// the predicate receives the owning group reference's enabled flag
    /// (`None` for root mods), so a caller can tell "present but inside a
    /// disabled group" apart. Stops at the first match.
    pub fn any_mod<F: Fn(&ModConfig, Option<bool>) -> bool>(&self, profile: &str, f: F) -> (r:
        bool)
        requires
            self@.has_profile(profile@),
            forall|mc: &ModConfig, ge: Option<bool>| #[trigger] call_requires(f, (mc, ge)),
        ensures
            r ==> exists|k: int|
                0 <= k < pred_pairs(self@.profile(profile@)).len() && pair_accepts(
                    f,
                    #[trigger] pred_pairs(self@.profile(profile@))[k],
                ),
            !r ==> forall|k: int|
                0 <= k < pred_pairs(self@.profile(profile@)).len() ==> pair_rejects(
                    f,
                    #[trigger] pred_pairs(self@.profile(profile@))[k],
                ),
    {
        let prof = self.profiles.get(profile).unwrap();
        let ghost pv = self@.profile(profile@);
        let n = prof.mods.len();
        let mut i: usize = 0;
        while i < n
            invariant
                prof@ == pv,
                self@.has_profile(profile@),
                pv == self@.profile(profile@),
                n == pv.mods.len(),
                i <= n,
                forall|mc: &ModConfig, ge: Option<bool>| #[trigger] call_requires(f, (mc, ge)),
                forall|k: int|
                    0 <= k < pred_pairs_upto(pv, i as int).len() ==> pair_rejects(
                        f,
                        #[trigger] pred_pairs_upto(pv, i as int)[k],
                    ),
            decreases n - i,
        {
            let ghost entry = pv.mods[i as int];
            let ghost k0 = pred_pairs_upto(pv, i as int).len() as int;
            proof {
                assert(pred_pairs_upto(pv, i as int + 1) == pred_pairs_upto(pv, i as int)
                    + entry_pairs(pv.groups, entry));
            }
            match &prof.mods[i] {
                ModOrGroup::Individual(mc) => {
                    proof {
                        assert(entry == prof.mods@[i as int]@);
                    }
                    let b = f(mc, None);
                    let ghost pair = (entry->Individual_0, None::<bool>);
                    proof {
                        assert(entry_pairs(pv.groups, entry) =~= seq![pair]);
                        assert(pred_pairs_upto(pv, i as int + 1)[k0] == pair);
                        let w = *mc;
                        assert(w@ == pair.0 && call_ensures(f, (&w, pair.1), b));
                    }
                    if b {
                        proof {
                            assert(pair_accepts(f, pair));
                            lemma_pred_pairs_prefix(pv, i as int + 1, pv.mods.len() as int);
                            assert(pred_pairs(pv)[k0] == pair);
                        }
                        return true;
                    }
                    proof {
                        assert(pair_rejects(f, pair));
                        assert forall|k: int| 0 <= k < pred_pairs_upto(pv, i as int + 1).len()
                            implies pair_rejects(f, #[trigger] pred_pairs_upto(pv, i as int + 1)[k]) by {
                            if k < k0 {
                                assert(pred_pairs_upto(pv, i as int + 1)[k] == pred_pairs_upto(
                                    pv,
                                    i as int,
                                )[k]);
                            }
                        }
                    }
                },
                ModOrGroup::Group { group_name, enabled } => {
                    let ghost e = *enabled;
                    match prof.groups.get(group_name.as_str()) {
                        Some(group) => {
                            let ghost gv = group@;
                            let ghost gpairs = entry_pairs(pv.groups, entry);
                            proof {
                                assert(gpairs == gv.mods.map_values(
                                    |m: ModConfigView| (m, Some(e)),
                                ));
                            }
                            let m = group.mods.len();
                            let mut j: usize = 0;
                            while j < m
                                invariant
                                    m == gv.mods.len(),
                                    j <= m,
                                    group@ == gv,
                                    *enabled == e,
                                    self@.has_profile(profile@),
                                    pv == self@.profile(profile@),
                                    0 <= i < pv.mods.len(),
                                    k0 == pred_pairs_upto(pv, i as int).len(),
                                    gpairs == entry_pairs(pv.groups, pv.mods[i as int]),
                                    gpairs == gv.mods.map_values(|x: ModConfigView| (x, Some(e))),
                                    pred_pairs_upto(pv, i as int + 1) == pred_pairs_upto(
                                        pv,
                                        i as int,
                                    ) + gpairs,
                                    forall|mc: &ModConfig, ge: Option<bool>| #[trigger] call_requires(
                                        f,
                                        (mc, ge),
                                    ),
                                    forall|k: int|
                                        0 <= k < k0 + j ==> pair_rejects(
                                            f,
                                            #[trigger] pred_pairs_upto(pv, i as int + 1)[k],
                                        ),
                                decreases m - j,
                            {
                                let mc = &group.mods[j];
                                let b = f(mc, Some(*enabled));
                                let ghost pair = (gv.mods[j as int], Some(e));
                                proof {
                                    assert(gv.mods[j as int] == group.mods@[j as int]@);
                                    assert(pred_pairs_upto(pv, i as int + 1)[k0 + j] == gpairs[j as int]);
                                    assert(gpairs[j as int] == pair);
                                    let w = *mc;
                                    assert(w@ == pair.0);
                                    assert(call_ensures(f, (&w, pair.1), b));
                                }
                                if b {
                                    proof {
                                        assert(pair_accepts(f, pair));
                                        lemma_pred_pairs_prefix(pv, i as int + 1, pv.mods.len() as int);
                                        assert(pred_pairs(pv)[k0 + j] == pair);
                                    }
                                    return true;
                                }
                                proof {
                                    assert(pair_rejects(f, pair));
                                }
                                j += 1;
                            }
                            proof {
                                assert forall|k: int|
                                    0 <= k < pred_pairs_upto(pv, i as int + 1).len() implies pair_rejects(
                                    f,
                                    #[trigger] pred_pairs_upto(pv, i as int + 1)[k],
                                ) by {}
                            }
                        },
                        None => {
                            proof {
                                assert(entry_pairs(pv.groups, entry) =~= Seq::<
                                    (ModConfigView, Option<bool>),
                                >::empty());
                                assert forall|k: int|
                                    0 <= k < pred_pairs_upto(pv, i as int + 1).len() implies pair_rejects(
                                    f,
                                    #[trigger] pred_pairs_upto(pv, i as int + 1)[k],
                                ) by {
                                    assert(pred_pairs_upto(pv, i as int + 1)[k] == pred_pairs_upto(
                                        pv,
                                        i as int,
                                    )[k]);
                                }
                            }
                        },
                    }
                },
            }
            i += 1;
        }
        proof {
            assert(pred_pairs(pv) == pred_pairs_upto(pv, n as int));
        }
        false
    }
}

// ---------------------------------------------------------------------------
// Laws of the query engine.
// ---------------------------------------------------------------------------

/// How many mods of the sequence are disabled.
pub open spec fn count_disabled(mods: Seq<ModConfigView>) -> int
    decreases mods.len(),
{
    if mods.len() == 0 {
        0
    } else {
        count_disabled(mods.drop_last()) + if mods.last().enabled {
            0int
        } else {
            1int
        }
    }
}

/// Disabled mods hidden inside enabled groups, over the first `n` rows.
pub open spec fn hidden_disabled_upto(p: ModProfileView, n: int) -> int
    decreases n,
{
    if n <= 0 {
        0
    } else {
        hidden_disabled_upto(p, n - 1) + match p.mods[n - 1] {
            ModOrGroupView::Group { group_name, enabled } => if enabled {
                match assoc_get(p.groups, group_name) {
                    Some(g) => count_disabled(g.mods),
                    None => 0,
                }
            } else {
                0
            },
            ModOrGroupView::Individual(mc) => 0,
        }
    }
}

/// Mods of any state sitting inside disabled groups, over the first `n` rows.
pub open spec fn disabled_group_mods_upto(p: ModProfileView, n: int) -> int
    decreases n,
{
    if n <= 0 {
        0
    } else {
        disabled_group_mods_upto(p, n - 1) + match p.mods[n - 1] {
            ModOrGroupView::Group { group_name, enabled } => if !enabled {
                match assoc_get(p.groups, group_name) {
                    Some(g) => g.mods.len() as int,
                    None => 0,
                }
            } else {
                0
            },
            ModOrGroupView::Individual(mc) => 0,
        }
    }
}

/// Disabled root mods, over the first `n` rows.
pub open spec fn disabled_root_upto(p: ModProfileView, n: int) -> int
    decreases n,
{
    if n <= 0 {
        0
    } else {
        disabled_root_upto(p, n - 1) + match p.mods[n - 1] {
            ModOrGroupView::Individual(mc) => if mc.enabled {
                0int
            } else {
                1int
            },
            ModOrGroupView::Group { group_name, enabled } => 0,
        }
    }
}

/// A mod sequence splits into its enabled and its disabled mods.
pub proof fn lemma_enabled_disabled_split(mods: Seq<ModConfigView>)
    ensures
        mods.len() == enabled_only(mods).len() + count_disabled(mods),
    decreases mods.len(),
{
    if mods.len() > 0 {
        lemma_enabled_disabled_split(mods.drop_last());
    }
}

proof fn lemma_visit_count_partition_upto(p: ModProfileView, n: int)
    requires
        0 <= n <= p.mods.len(),
    ensures
        all_mods_upto(p, n).len() == enabled_mods_upto(p, n).len() + hidden_disabled_upto(p, n)
            + disabled_group_mods_upto(p, n) + disabled_root_upto(p, n),
    decreases n,
{
    if n > 0 {
        lemma_visit_count_partition_upto(p, n - 1);
        match p.mods[n - 1] {
            ModOrGroupView::Group { group_name, enabled } => {
                match assoc_get(p.groups, group_name) {
                    Some(g) => {
                        lemma_enabled_disabled_split(g.mods);
                    },
                    None => {},
                }
            },
            ModOrGroupView::Individual(mc) => {},
        }
    }
}

/// Visiting every mod visits exactly the enabled mods, plus the disabled mods
/// inside enabled groups, plus all mods inside disabled groups, plus the
/// disabled root mods.
pub proof fn lemma_visit_count_partition(p: ModProfileView)
    ensures
        all_mods(p).len() == enabled_mods(p).len() + hidden_disabled_upto(
            p,
            p.mods.len() as int,
        ) + disabled_group_mods_upto(p, p.mods.len() as int) + disabled_root_upto(
            p,
            p.mods.len() as int,
        ),
{
    lemma_visit_count_partition_upto(p, p.mods.len() as int);
}

/// The mod sits in a group that an enabled row references, and that group's
/// override is `pr`.
pub open spec fn from_override_group(p: ModProfileView, m: ModConfigView, pr: int) -> bool {
    exists|i: int|
        0 <= i < p.mods.len() && (#[trigger] p.mods[i]) is Group && p.mods[i]->Group_enabled
            && match assoc_get(p.groups, p.mods[i]->Group_group_name) {
            Some(g) => g.priority_override == Some(pr) && g.mods.contains(m),
            None => false,
        }
}

/// Every pair of `enabled_with_override` holds an enabled mod of the
/// sequence, and its priority is the override when present, else the mod's
/// own priority.
pub proof fn lemma_enabled_with_override_sound(mods: Seq<ModConfigView>, over: Option<int>)
    ensures
        forall|k: int|
            0 <= k < enabled_with_override(mods, over).len() ==> {
                let pr = #[trigger] enabled_with_override(mods, over)[k];
                &&& pr.0.enabled
                &&& mods.contains(pr.0)
                &&& pr.1 == match over {
                    Some(p) => p,
                    None => pr.0.priority,
                }
            },
    decreases mods.len(),
{
    if mods.len() > 0 {
        lemma_enabled_with_override_sound(mods.drop_last(), over);
        assert forall|k: int| 0 <= k < enabled_with_override(mods, over).len() implies {
            let pr = #[trigger] enabled_with_override(mods, over)[k];
            &&& pr.0.enabled
            &&& mods.contains(pr.0)
            &&& pr.1 == match over {
                Some(p) => p,
                None => pr.0.priority,
            }
        } by {
            let pr = enabled_with_override(mods, over)[k];
            if k < enabled_with_override(mods.drop_last(), over).len() {
                assert(mods.drop_last().contains(pr.0));
                let i = choose|i: int|
                    0 <= i < mods.drop_last().len() && mods.drop_last()[i] == pr.0;
                assert(mods[i] == pr.0);
            } else {
                assert(mods.last() == pr.0);
                assert(mods[mods.len() - 1] == pr.0);
            }
        }
    }
}

proof fn lemma_priority_rule_upto(p: ModProfileView, n: int)
    requires
        0 <= n <= p.mods.len(),
    ensures
        forall|k: int|
            0 <= k < mods_with_priority_upto(p, n).len() ==> {
                let pr = #[trigger] mods_with_priority_upto(p, n)[k];
                &&& pr.0.enabled
                &&& (pr.1 == pr.0.priority || from_override_group(p, pr.0, pr.1))
            },
    decreases n,
{
    if n > 0 {
        lemma_priority_rule_upto(p, n - 1);
        let prev = mods_with_priority_upto(p, n - 1);
        let added = entry_with_priority(p.groups, p.mods[n - 1]);
        assert forall|k: int| 0 <= k < mods_with_priority_upto(p, n).len() implies {
            let pr = #[trigger] mods_with_priority_upto(p, n)[k];
            &&& pr.0.enabled
            &&& (pr.1 == pr.0.priority || from_override_group(p, pr.0, pr.1))
        } by {
            let pr = mods_with_priority_upto(p, n)[k];
            if k < prev.len() {
                assert(mods_with_priority_upto(p, n)[k] == prev[k]);
            } else {
                assert(pr == added[k - prev.len()]);
                match p.mods[n - 1] {
                    ModOrGroupView::Group { group_name, enabled } => {
                        match assoc_get(p.groups, group_name) {
                            Some(g) => {
                                lemma_enabled_with_override_sound(g.mods, g.priority_override);
                                if g.priority_override is Some {
                                    assert(p.mods[n - 1] is Group && p.mods[n - 1]->Group_enabled);
                                    assert(from_override_group(p, pr.0, pr.1));
                                }
                            },
                            None => {},
                        }
                    },
                    ModOrGroupView::Individual(mc) => {},
                }
            }
        }
    }
}

/// Every pair the priority query returns holds an enabled mod admitted by the
/// enable rule, and its priority is the owning group's override when present,
/// else the mod's own priority.
pub proof fn lemma_priority_rule(p: ModProfileView)
    ensures
        forall|k: int|
            0 <= k < mods_with_priority(p).len() ==> {
                let pr = #[trigger] mods_with_priority(p)[k];
                &&& pr.0.enabled
                &&& (pr.1 == pr.0.priority || from_override_group(p, pr.0, pr.1))
            },
{
    lemma_priority_rule_upto(p, p.mods.len() as int);
}


// ---------------------------------------------------------------------------
// The generic predicate engine and the mutation-order predicate search.
// ---------------------------------------------------------------------------

/// The group filter may admit the flag, and the per-mod predicate may accept a
/// mod with this mathematical value.
pub open spec fn pair_admitted<G: Fn(bool) -> bool, P: Fn(&ModConfig) -> bool>(
    g: G,
    p: P,
    pair: (ModConfigView, Option<bool>),
) -> bool {
    &&& match pair.1 {
        Some(e) => call_ensures(g, (e,), true),
        None => true,
    }
    &&& exists|mc: ModConfig| mc@ == pair.0 && call_ensures(p, (&mc,), true)
}

/// Every collected mod is one of the profile's predicate pairs, admitted by
/// the group filter and the predicate.
pub open spec fn outputs_admitted<G: Fn(bool) -> bool, P: Fn(&ModConfig) -> bool>(
    g: G,
    p: P,
    pv: ModProfileView,
    out: Seq<ModConfig>,
) -> bool {
    forall|j: int|
        0 <= j < out.len() ==> exists|k: int|
            0 <= k < pred_pairs(pv).len() && (#[trigger] out[j])@ == pred_pairs(pv)[k].0
                && pair_admitted(g, p, pred_pairs(pv)[k])
}

/// The pair was passed over for a reason: the group filter may reject its
/// group's flag, or the predicate may reject the mod.
pub open spec fn pair_skipped<G: Fn(bool) -> bool, P: Fn(&ModConfig) -> bool>(
    g: G,
    p: P,
    pair: (ModConfigView, Option<bool>),
) -> bool {
    ||| match pair.1 {
        Some(e) => call_ensures(g, (e,), false),
        None => false,
    }
    ||| exists|mc: ModConfig| mc@ == pair.0 && call_ensures(p, (&mc,), false)
}

/// Every keep decision over the pairs is justified: a kept pair was admitted
/// by the group filter and the predicate, a dropped pair was passed over for
/// a reason.
pub open spec fn keeps_justified<G: Fn(bool) -> bool, P: Fn(&ModConfig) -> bool>(
    g: G,
    p: P,
    pairs: Seq<(ModConfigView, Option<bool>)>,
    keep: Seq<bool>,
) -> bool {
    &&& keep.len() == pairs.len()
    &&& forall|k: int|
        0 <= k < pairs.len() ==> if #[trigger] keep[k] {
            pair_admitted(g, p, pairs[k])
        } else {
            pair_skipped(g, p, pairs[k])
        }
}

/// The mods the keep decisions select from the pairs, in order.
pub open spec fn selected(
    pairs: Seq<(ModConfigView, Option<bool>)>,
    keep: Seq<bool>,
) -> Seq<ModConfigView>
    decreases pairs.len(),
{
    if pairs.len() == 0 {
        Seq::empty()
    } else {
        let prefix = selected(pairs.drop_last(), keep.drop_last());
        if keep.len() == pairs.len() && keep.last() {
            prefix.push(pairs.last().0)
        } else {
            prefix
        }
    }
}

/// One more decision extends the selection by the pair's mod exactly when
/// the decision keeps it.
proof fn lemma_selected_push(
    pairs: Seq<(ModConfigView, Option<bool>)>,
    keep: Seq<bool>,
    pr: (ModConfigView, Option<bool>),
    b: bool,
)
    requires
        keep.len() == pairs.len(),
    ensures
        selected(pairs.push(pr), keep.push(b)) == if b {
            selected(pairs, keep).push(pr.0)
        } else {
            selected(pairs, keep)
        },
{
    assert(pairs.push(pr).drop_last() =~= pairs);
    assert(keep.push(b).drop_last() =~= keep);
}

/// A run of dropped pairs selects nothing.
proof fn lemma_selected_skip_run(
    pairs: Seq<(ModConfigView, Option<bool>)>,
    keep: Seq<bool>,
    ps: Seq<(ModConfigView, Option<bool>)>,
)
    requires
        keep.len() == pairs.len(),
    ensures
        selected(pairs + ps, keep + Seq::new(ps.len(), |q: int| false)) == selected(pairs, keep),
    decreases ps.len(),
{
    let falses = Seq::new(ps.len(), |q: int| false);
    if ps.len() == 0 {
        assert(pairs + ps =~= pairs);
        assert(keep + falses =~= keep);
    } else {
        let shorter = ps.drop_last();
        lemma_selected_skip_run(pairs, keep, shorter);
        assert((pairs + ps).drop_last() =~= pairs + shorter);
        assert((keep + falses).drop_last() =~= keep + Seq::new(shorter.len(), |q: int| false));
        assert(!(keep + falses).last());
    }
}

impl ModData {
    /// The generic traversal: visits the profile's rows in order, asks the
    /// group filter `g` whether to enter each group (handing it the reference's
    /// enabled flag), asks `p` about each mod, and collects the mods both
    /// admit. The result is a justified selection from the profile's
    /// predicate pairs: every kept pair was admitted by both closures, every
    /// dropped pair was rejected by one of them.
    pub fn for_each_mod_predicate<G: Fn(bool) -> bool, P: Fn(&ModConfig) -> bool>(
        &self,
        profile: &str,
        g: G,
        p: P,
    ) -> (r: Vec<ModConfig>)
        requires
            self@.has_profile(profile@),
            forall|e: bool| #[trigger] call_requires(g, (e,)),
            forall|mc: &ModConfig| #[trigger] call_requires(p, (mc,)),
        ensures
            outputs_admitted(g, p, self@.profile(profile@), r@),
            exists|keep: Seq<bool>|
                #[trigger] keeps_justified(g, p, pred_pairs(self@.profile(profile@)), keep)
                    && mc_views(r@) == selected(pred_pairs(self@.profile(profile@)), keep),
    {
        let prof = self.profiles.get(profile).unwrap();
        let ghost pv = self@.profile(profile@);
        let mut out: Vec<ModConfig> = Vec::new();
        let ghost mut keep = Seq::<bool>::empty();
        proof {
            assert(mc_views(out@) =~= Seq::<ModConfigView>::empty());
            assert(selected(pred_pairs_upto(pv, 0), keep) =~= Seq::<ModConfigView>::empty());
        }
        let n = prof.mods.len();
        let mut i: usize = 0;
        while i < n
            invariant
                prof@ == pv,
                self@.has_profile(profile@),
                pv == self@.profile(profile@),
                n == pv.mods.len(),
                i <= n,
                forall|e: bool| #[trigger] call_requires(g, (e,)),
                forall|mc: &ModConfig| #[trigger] call_requires(p, (mc,)),
                outputs_admitted(g, p, pv, out@),
                keeps_justified(g, p, pred_pairs_upto(pv, i as int), keep),
                mc_views(out@) == selected(pred_pairs_upto(pv, i as int), keep),
            decreases n - i,
        {
            let ghost entry = pv.mods[i as int];
            let ghost k0 = pred_pairs_upto(pv, i as int).len() as int;
            let ghost pairs0 = pred_pairs_upto(pv, i as int);
            let ghost pairs1 = pred_pairs_upto(pv, i as int + 1);
            let ghost keep0 = keep;
            proof {
                assert(pairs1 == pairs0 + entry_pairs(pv.groups, entry));
                lemma_pred_pairs_prefix(pv, i as int + 1, pv.mods.len() as int);
            }
            match &prof.mods[i] {
                ModOrGroup::Individual(mc) => {
                    proof {
                        assert(entry == prof.mods@[i as int]@);
                        assert(entry_pairs(pv.groups, entry) =~= seq![
                            (entry->Individual_0, None::<bool>),
                        ]);
                        assert(pairs1 =~= pairs0.push((entry->Individual_0, None::<bool>)));
                    }
                    let b = p(mc);
                    let ghost pair = (entry->Individual_0, None::<bool>);
                    proof {
                        let w = *mc;
                        assert(w@ == pair.0 && call_ensures(p, (&w,), b));
                        keep = keep.push(b);
                        lemma_selected_push(pairs0, keep0, pair, b);
                        assert(keeps_justified(g, p, pairs1, keep)) by {
                            assert forall|k: int| 0 <= k < pairs1.len() implies if #[trigger] keep[k] {
                                pair_admitted(g, p, pairs1[k])
                            } else {
                                pair_skipped(g, p, pairs1[k])
                            } by {
                                if k < k0 {
                                    assert(pairs1[k] == pairs0[k]);
                                    assert(keep[k] == keep0[k]);
                                } else {
                                    assert(pairs1[k] == pair);
                                    assert(keep[k] == b);
                                }
                            }
                        }
                    }
                    if b {
                        let ghost out0 = out@;
                        out.push(mc.duplicate());
                        proof {
                            let w = *mc;
                            assert(w@ == pair.0 && call_ensures(p, (&w,), true));
                            assert(pred_pairs_upto(pv, i as int + 1)[k0] == pair);
                            assert(pred_pairs(pv)[k0] == pair);
                            assert(pair_admitted(g, p, pred_pairs(pv)[k0]));
                            assert(mc_views(out@) =~= mc_views(out0).push(pair.0));
                            assert(outputs_admitted(g, p, pv, out@)) by {
                                assert forall|j: int| 0 <= j < out@.len() implies exists|k: int|
                                    0 <= k < pred_pairs(pv).len() && (#[trigger] out@[j])@
                                        == pred_pairs(pv)[k].0 && pair_admitted(
                                    g,
                                    p,
                                    pred_pairs(pv)[k],
                                ) by {
                                    if j < out0.len() {
                                        assert(out@[j] == out0[j]);
                                    } else {
                                        assert(out@[j]@ == pred_pairs(pv)[k0].0);
                                    }
                                }
                            }
                        }
                    }
                    proof {
                        assert(mc_views(out@) =~= selected(pairs1, keep));
                    }
                },
                ModOrGroup::Group { group_name, enabled } => {
                    let ghost e = *enabled;
                    let ghost gpairs = entry_pairs(pv.groups, entry);
                    proof {
                        assert(entry == prof.mods@[i as int]@);
                    }
                    let enter = g(*enabled);
                    if enter {
                        match prof.groups.get(group_name.as_str()) {
                            Some(group) => {
                                let ghost gv = group@;
                                proof {
                                    assert(gpairs == gv.mods.map_values(
                                        |m: ModConfigView| (m, Some(e)),
                                    ));
                                }
                                let m = group.mods.len();
                                let mut j: usize = 0;
                                while j < m
                                    invariant
                                        m == gv.mods.len(),
                                        j <= m,
                                        group@ == gv,
                                        *enabled == e,
                                        call_ensures(g, (e,), true),
                                        self@.has_profile(profile@),
                                        pv == self@.profile(profile@),
                                        0 <= i < pv.mods.len(),
                                        k0 == pred_pairs_upto(pv, i as int).len(),
                                        pairs0 == pred_pairs_upto(pv, i as int),
                                        pairs1 == pred_pairs_upto(pv, i as int + 1),
                                        gpairs == entry_pairs(pv.groups, pv.mods[i as int]),
                                        gpairs == gv.mods.map_values(
                                            |x: ModConfigView| (x, Some(e)),
                                        ),
                                        pairs1 == pairs0 + gpairs,
                                        pairs1.is_prefix_of(pred_pairs(pv)),
                                        forall|e2: bool| #[trigger] call_requires(g, (e2,)),
                                        forall|mc: &ModConfig| #[trigger] call_requires(p, (mc,)),
                                        outputs_admitted(g, p, pv, out@),
                                        keep.len() == k0 + j,
                                        forall|k: int|
                                            0 <= k < keep.len() ==> if #[trigger] keep[k] {
                                                pair_admitted(g, p, pairs1[k])
                                            } else {
                                                pair_skipped(g, p, pairs1[k])
                                            },
                                        mc_views(out@) == selected(
                                            pairs0 + gpairs.take(j as int),
                                            keep,
                                        ),
                                    decreases m - j,
                                {
                                    let mc = &group.mods[j];
                                    let b = p(mc);
                                    let ghost pair = (gv.mods[j as int], Some(e));
                                    let ghost keepin = keep;
                                    proof {
                                        assert(gv.mods[j as int] == group.mods@[j as int]@);
                                        assert(gpairs[j as int] == pair);
                                        assert(pairs1[k0 + j] == pair);
                                        let w = *mc;
                                        assert(w@ == pair.0 && call_ensures(p, (&w,), b));
                                        keep = keep.push(b);
                                        assert(pairs0 + gpairs.take(j as int + 1) =~= (pairs0
                                            + gpairs.take(j as int)).push(pair));
                                        lemma_selected_push(
                                            pairs0 + gpairs.take(j as int),
                                            keepin,
                                            pair,
                                            b,
                                        );
                                        assert forall|k: int| 0 <= k < keep.len() implies if #[trigger] keep[k] {
                                            pair_admitted(g, p, pairs1[k])
                                        } else {
                                            pair_skipped(g, p, pairs1[k])
                                        } by {
                                            if k < k0 + j {
                                                assert(keep[k] == keepin[k]);
                                            } else {
                                                assert(keep[k] == b);
                                                assert(pairs1[k] == pair);
                                            }
                                        }
                                    }
                                    if b {
                                        let ghost out0 = out@;
                                        out.push(mc.duplicate());
                                        proof {
                                            let w = *mc;
                                            assert(w@ == pair.0 && call_ensures(p, (&w,), true));
                                            assert(pred_pairs(pv)[k0 + j] == pair);
                                            assert(pair_admitted(g, p, pred_pairs(pv)[k0 + j]));
                                            assert(mc_views(out@) =~= mc_views(out0).push(pair.0));
                                            assert(outputs_admitted(g, p, pv, out@)) by {
                                                assert forall|jj: int| 0 <= jj < out@.len() implies exists|
                                                    k: int,
                                                |
                                                    0 <= k < pred_pairs(pv).len() && (
                                                    #[trigger] out@[jj])@ == pred_pairs(pv)[k].0
                                                        && pair_admitted(g, p, pred_pairs(pv)[k]) by {
                                                    if jj < out0.len() {
                                                        assert(out@[jj] == out0[jj]);
                                                    } else {
                                                        assert(out@[jj]@ == pred_pairs(pv)[k0 + j].0);
                                                    }
                                                }
                                            }
                                        }
                                    }
                                    proof {
                                        assert(mc_views(out@) =~= selected(
                                            pairs0 + gpairs.take(j as int + 1),
                                            keep,
                                        ));
                                    }
                                    j += 1;
                                }
                                proof {
                                    assert(gpairs.take(m as int) =~= gpairs);
                                    assert(keeps_justified(g, p, pairs1, keep));
                                    assert(mc_views(out@) =~= selected(pairs1, keep));
                                }
                            },
                            None => {
                                proof {
                                    assert(gpairs =~= Seq::<(ModConfigView, Option<bool>)>::empty());
                                    assert(pairs1 =~= pairs0);
                                    assert(keeps_justified(g, p, pairs1, keep));
                                    assert(mc_views(out@) =~= selected(pairs1, keep));
                                }
                            },
                        }
                    } else {
                        proof {
                            let falses = Seq::new(gpairs.len(), |q: int| false);
                            keep = keep + falses;
                            lemma_selected_skip_run(pairs0, keep0, gpairs);
                            assert(mc_views(out@) =~= selected(pairs1, keep));
                            assert forall|k: int| 0 <= k < keep.len() implies if #[trigger] keep[k] {
                                pair_admitted(g, p, pairs1[k])
                            } else {
                                pair_skipped(g, p, pairs1[k])
                            } by {
                                if k < k0 {
                                    assert(keep[k] == keep0[k]);
                                    assert(pairs1[k] == pairs0[k]);
                                } else {
                                    assert(keep[k] == falses[k - k0]);
                                    assert(!keep[k]);
                                    assert(pairs1[k] == gpairs[k - k0]);
                                    match pv.mods[i as int] {
                                        ModOrGroupView::Group { group_name: gn, enabled: en } => {
                                            match crate::smap::assoc_get(pv.groups, gn) {
                                                Some(gx) => {
                                                    assert(gpairs[k - k0] == (
                                                        gx.mods[k - k0],
                                                        Some(e),
                                                    ));
                                                    assert(call_ensures(g, (e,), false));
                                                },
                                                None => {
                                                    assert(false);
                                                },
                                            }
                                        },
                                        ModOrGroupView::Individual(mcx) => {
                                            assert(false);
                                        },
                                    }
                                }
                            }
                            assert(keeps_justified(g, p, pairs1, keep));
                        }
                    }
                },
            }
            i += 1;
        }
        proof {
            assert(pred_pairs(pv) == pred_pairs_upto(pv, n as int));
            assert(keeps_justified(g, p, pred_pairs(pv), keep));
            assert(mc_views(out@) == selected(pred_pairs(pv), keep));
        }
        out
    }
}

// ---------------------------------------------------------------------------
// The mutation-order predicate search: root mods first, then every group's
// mods, group references in row order.
// ---------------------------------------------------------------------------

pub open spec fn ind_entry_pairs(e: ModOrGroupView) -> Seq<(ModConfigView, Option<bool>)> {
    match e {
        ModOrGroupView::Individual(mc) => seq![(mc, None)],
        ModOrGroupView::Group { group_name, enabled } => Seq::empty(),
    }
}

pub open spec fn grp_entry_pairs(groups: Seq<(Seq<char>, ModGroupView)>, e: ModOrGroupView) -> Seq<
    (ModConfigView, Option<bool>),
> {
    match e {
        ModOrGroupView::Individual(mc) => Seq::empty(),
        ModOrGroupView::Group { group_name, enabled } => match assoc_get(groups, group_name) {
            Some(g) => g.mods.map_values(|m: ModConfigView| (m, Some(enabled))),
            None => Seq::empty(),
        },
    }
}

pub open spec fn ind_pairs_upto(p: ModProfileView, n: int) -> Seq<(ModConfigView, Option<bool>)>
    decreases n,
{
    if n <= 0 {
        Seq::empty()
    } else {
        ind_pairs_upto(p, n - 1) + ind_entry_pairs(p.mods[n - 1])
    }
}

pub open spec fn grp_pairs_upto(p: ModProfileView, n: int) -> Seq<(ModConfigView, Option<bool>)>
    decreases n,
{
    if n <= 0 {
        Seq::empty()
    } else {
        grp_pairs_upto(p, n - 1) + grp_entry_pairs(p.groups, p.mods[n - 1])
    }
}

/// The pairs the mutation-order search visits: every root mod first, then
/// every group member, in row order.
pub open spec fn mut_pairs(p: ModProfileView) -> Seq<(ModConfigView, Option<bool>)> {
    ind_pairs_upto(p, p.mods.len() as int) + grp_pairs_upto(p, p.mods.len() as int)
}

proof fn lemma_ind_pairs_prefix(p: ModProfileView, n: int, m: int)
    requires
        0 <= n <= m,
    ensures
        ind_pairs_upto(p, n).is_prefix_of(ind_pairs_upto(p, m)),
    decreases m,
{
    if n < m {
        lemma_ind_pairs_prefix(p, n, m - 1);
        assert(ind_pairs_upto(p, m) == ind_pairs_upto(p, m - 1) + ind_entry_pairs(p.mods[m - 1]));
    }
}

proof fn lemma_grp_pairs_prefix(p: ModProfileView, n: int, m: int)
    requires
        0 <= n <= m,
    ensures
        grp_pairs_upto(p, n).is_prefix_of(grp_pairs_upto(p, m)),
    decreases m,
{
    if n < m {
        lemma_grp_pairs_prefix(p, n, m - 1);
        assert(grp_pairs_upto(p, m) == grp_pairs_upto(p, m - 1) + grp_entry_pairs(
            p.groups,
            p.mods[m - 1],
        ));
    }
}

impl ModData {
    /// Whether any reachable mod may satisfy the predicate, searching every
    /// root mod first and the group members after, as the in-place update
    /// pass does. The flag handed beside a group member is its group
    /// reference's enabled flag.
    pub fn any_mod_mut<F: Fn(&ModConfig, Option<bool>) -> bool>(&self, profile: &str, f: F) -> (r:
        bool)
        requires
            self@.has_profile(profile@),
            forall|mc: &ModConfig, ge: Option<bool>| #[trigger] call_requires(f, (mc, ge)),
        ensures
            r ==> exists|k: int|
                0 <= k < mut_pairs(self@.profile(profile@)).len() && pair_accepts(
                    f,
                    #[trigger] mut_pairs(self@.profile(profile@))[k],
                ),
            !r ==> forall|k: int|
                0 <= k < mut_pairs(self@.profile(profile@)).len() ==> pair_rejects(
                    f,
                    #[trigger] mut_pairs(self@.profile(profile@))[k],
                ),
    {
        let prof = self.profiles.get(profile).unwrap();
        let ghost pv = self@.profile(profile@);
        let n = prof.mods.len();
        let ghost ind_total = ind_pairs_upto(pv, n as int).len() as int;
        let mut i: usize = 0;
        while i < n
            invariant
                prof@ == pv,
                self@.has_profile(profile@),
                pv == self@.profile(profile@),
                n == pv.mods.len(),
                ind_total == ind_pairs_upto(pv, n as int).len(),
                i <= n,
                forall|mc: &ModConfig, ge: Option<bool>| #[trigger] call_requires(f, (mc, ge)),
                forall|k: int|
                    0 <= k < ind_pairs_upto(pv, i as int).len() ==> pair_rejects(
                        f,
                        #[trigger] mut_pairs(pv)[k],
                    ),
            decreases n - i,
        {
            let ghost entry = pv.mods[i as int];
            let ghost k0 = ind_pairs_upto(pv, i as int).len() as int;
            proof {
                assert(ind_pairs_upto(pv, i as int + 1) == ind_pairs_upto(pv, i as int)
                    + ind_entry_pairs(entry));
                lemma_ind_pairs_prefix(pv, i as int + 1, n as int);
            }
            match &prof.mods[i] {
                ModOrGroup::Individual(mc) => {
                    proof {
                        assert(entry == prof.mods@[i as int]@);
                        assert(ind_entry_pairs(entry) =~= seq![(entry->Individual_0, None::<bool>)]);
                    }
                    let b = f(mc, None);
                    let ghost pair = (entry->Individual_0, None::<bool>);
                    proof {
                        assert(ind_pairs_upto(pv, i as int + 1)[k0] == pair);
                        assert(ind_pairs_upto(pv, n as int)[k0] == pair);
                        assert(mut_pairs(pv)[k0] == pair);
                        let w = *mc;
                        assert(w@ == pair.0 && call_ensures(f, (&w, pair.1), b));
                    }
                    if b {
                        proof {
                            assert(pair_accepts(f, mut_pairs(pv)[k0]));
                        }
                        return true;
                    }
                    proof {
                        assert(pair_rejects(f, mut_pairs(pv)[k0]));
                        assert(ind_pairs_upto(pv, i as int + 1).len() == k0 + 1);
                    }
                },
                ModOrGroup::Group { group_name, enabled } => {
                    proof {
                        assert(entry == prof.mods@[i as int]@);
                        assert(ind_entry_pairs(entry) =~= Seq::<(ModConfigView, Option<bool>)>::empty());
                        assert(ind_pairs_upto(pv, i as int + 1).len() == k0);
                    }
                },
            }
            i += 1;
        }
        let mut i2: usize = 0;
        while i2 < n
            invariant
                prof@ == pv,
                self@.has_profile(profile@),
                pv == self@.profile(profile@),
                n == pv.mods.len(),
                ind_total == ind_pairs_upto(pv, n as int).len(),
                i2 <= n,
                forall|mc: &ModConfig, ge: Option<bool>| #[trigger] call_requires(f, (mc, ge)),
                forall|k: int|
                    0 <= k < ind_total + grp_pairs_upto(pv, i2 as int).len() ==> pair_rejects(
                        f,
                        #[trigger] mut_pairs(pv)[k],
                    ),
            decreases n - i2,
        {
            let ghost entry = pv.mods[i2 as int];
            let ghost k0 = ind_total + grp_pairs_upto(pv, i2 as int).len() as int;
            proof {
                assert(grp_pairs_upto(pv, i2 as int + 1) == grp_pairs_upto(pv, i2 as int)
                    + grp_entry_pairs(pv.groups, entry));
                lemma_grp_pairs_prefix(pv, i2 as int + 1, n as int);
            }
            match &prof.mods[i2] {
                ModOrGroup::Individual(mc) => {
                    proof {
                        assert(entry == prof.mods@[i2 as int]@);
                        assert(grp_entry_pairs(pv.groups, entry) =~= Seq::<
                            (ModConfigView, Option<bool>),
                        >::empty());
                    }
                },
                ModOrGroup::Group { group_name, enabled } => {
                    let ghost e = *enabled;
                    proof {
                        assert(entry == prof.mods@[i2 as int]@);
                    }
                    match prof.groups.get(group_name.as_str()) {
                        Some(group) => {
                            let ghost gv = group@;
                            let ghost gpairs = grp_entry_pairs(pv.groups, entry);
                            proof {
                                assert(gpairs == gv.mods.map_values(
                                    |m: ModConfigView| (m, Some(e)),
                                ));
                            }
                            let m = group.mods.len();
                            let mut j: usize = 0;
                            while j < m
                                invariant
                                    m == gv.mods.len(),
                                    j <= m,
                                    group@ == gv,
                                    *enabled == e,
                                    self@.has_profile(profile@),
                                    pv == self@.profile(profile@),
                                    0 <= i2 < pv.mods.len(),
                                    ind_total == ind_pairs_upto(pv, pv.mods.len() as int).len(),
                                    k0 == ind_total + grp_pairs_upto(pv, i2 as int).len(),
                                    gpairs == grp_entry_pairs(pv.groups, pv.mods[i2 as int]),
                                    gpairs == gv.mods.map_values(|x: ModConfigView| (x, Some(e))),
                                    grp_pairs_upto(pv, i2 as int + 1) == grp_pairs_upto(
                                        pv,
                                        i2 as int,
                                    ) + gpairs,
                                    grp_pairs_upto(pv, i2 as int + 1).is_prefix_of(
                                        grp_pairs_upto(pv, pv.mods.len() as int),
                                    ),
                                    forall|mc: &ModConfig, ge: Option<bool>| #[trigger] call_requires(
                                        f,
                                        (mc, ge),
                                    ),
                                    forall|k: int|
                                        0 <= k < k0 + j ==> pair_rejects(
                                            f,
                                            #[trigger] mut_pairs(pv)[k],
                                        ),
                                decreases m - j,
                            {
                                let mc = &group.mods[j];
                                let b = f(mc, Some(*enabled));
                                let ghost pair = (gv.mods[j as int], Some(e));
                                proof {
                                    assert(gv.mods[j as int] == group.mods@[j as int]@);
                                    assert(gpairs[j as int] == pair);
                                    assert(grp_pairs_upto(pv, i2 as int + 1)[k0 - ind_total + j]
                                        == pair);
                                    assert(grp_pairs_upto(pv, pv.mods.len() as int)[k0 - ind_total
                                        + j] == pair);
                                    assert(mut_pairs(pv)[k0 + j] == pair);
                                    let w = *mc;
                                    assert(w@ == pair.0 && call_ensures(f, (&w, pair.1), b));
                                }
                                if b {
                                    proof {
                                        assert(pair_accepts(f, mut_pairs(pv)[k0 + j]));
                                    }
                                    return true;
                                }
                                proof {
                                    assert(pair_rejects(f, mut_pairs(pv)[k0 + j]));
                                }
                                j += 1;
                            }
                        },
                        None => {
                            proof {
                                assert(grp_entry_pairs(pv.groups, entry) =~= Seq::<
                                    (ModConfigView, Option<bool>),
                                >::empty());
                            }
                        },
                    }
                },
            }
            i2 += 1;
        }
        proof {
            assert(mut_pairs(pv).len() == ind_total + grp_pairs_upto(pv, n as int).len());
        }
        false
    }
}

} // verus!
