use vstd::prelude::*;

use crate::smap::assoc_get;
use crate::smap::assoc_has_key;
use crate::smap::assoc_index_of;
use crate::smap::assoc_keys_unique;
use crate::smap::lemma_assoc_index_first;
use crate::smap::lemma_assoc_index_of;
use crate::smap::lemma_assoc_index_same_keys;
use crate::smap::lemma_assoc_remove_key;
use crate::smap::lemma_assoc_unique_remove;
use crate::state::ModConfigView;
use crate::state::ModData;
use crate::state::ModDataView;
use crate::state::ModGroup;
use crate::state::ModGroupView;
use crate::state::ModOrGroup;
use crate::state::ModOrGroupView;
use crate::state::ModProfile;
use crate::state::ModProfileView;
use crate::state::StateError;

verus! {

// ---------------------------------------------------------------------------
// The mathematical model of the mutation API: one transformer per operation,
// on the profile value; the store-level operation replaces the named
// profile's value with the transformed one.
// ---------------------------------------------------------------------------

pub open spec fn empty_group() -> ModGroupView {
    ModGroupView { mods: Seq::empty(), priority_override: None }
}

/// The store with the named profile's value replaced.
pub open spec fn with_profile(d: ModDataView, name: Seq<char>, pv: ModProfileView) -> ModDataView
    recommends
        d.has_profile(name),
{
    ModDataView {
        active_profile: d.active_profile,
        profiles: d.profiles.update(assoc_index_of(d.profiles, name), (name, pv)),
    }
}

/// A new empty, enabled group: one more group map entry, and a reference to
/// it appended to the rows.
pub open spec fn create_group_p(p: ModProfileView, name: Seq<char>) -> ModProfileView {
    ModProfileView {
        mods: p.mods.push(ModOrGroupView::Group { group_name: name, enabled: true }),
        groups: p.groups.push((name, empty_group())),
    }
}

/// A row with every reference to `o` turned into a reference to `n`.
pub open spec fn rename_ref(e: ModOrGroupView, o: Seq<char>, n: Seq<char>) -> ModOrGroupView {
    match e {
        ModOrGroupView::Group { group_name, enabled } => ModOrGroupView::Group {
            group_name: if group_name == o {
                n
            } else {
                group_name
            },
            enabled,
        },
        ModOrGroupView::Individual(mc) => e,
    }
}

pub open spec fn rename_refs(mods: Seq<ModOrGroupView>, o: Seq<char>, n: Seq<char>) -> Seq<
    ModOrGroupView,
> {
    mods.map_values(|e: ModOrGroupView| rename_ref(e, o, n))
}

/// The group entry keyed `o` re-keyed to `n` in place, and every reference
/// rewritten.
pub open spec fn rename_group_p(p: ModProfileView, o: Seq<char>, n: Seq<char>) -> ModProfileView {
    ModProfileView {
        mods: rename_refs(p.mods, o, n),
        groups: if assoc_has_key(p.groups, o) {
            p.groups.update(assoc_index_of(p.groups, o), (n, p.groups[assoc_index_of(p.groups, o)].1))
        } else {
            p.groups
        },
    }
}

/// The rows that survive deleting the group named `name`: every reference to
/// it goes, everything else keeps its place.
pub open spec fn strip_refs(mods: Seq<ModOrGroupView>, name: Seq<char>) -> Seq<ModOrGroupView>
    decreases mods.len(),
{
    if mods.len() == 0 {
        Seq::empty()
    } else {
        let prefix = strip_refs(mods.drop_last(), name);
        if mods.last() is Group && mods.last()->Group_group_name == name {
            prefix
        } else {
            prefix.push(mods.last())
        }
    }
}

pub open spec fn as_individuals(mods: Seq<ModConfigView>) -> Seq<ModOrGroupView> {
    mods.map_values(|m: ModConfigView| ModOrGroupView::Individual(m))
}

/// The group entry removed, its mods relocated to the end of the rows as
/// individuals in their group order, and every reference to the name gone.
pub open spec fn delete_group_p(p: ModProfileView, name: Seq<char>) -> ModProfileView {
    let relocated = match assoc_get(p.groups, name) {
        Some(g) => as_individuals(g.mods),
        None => Seq::empty(),
    };
    ModProfileView {
        mods: strip_refs(p.mods, name) + relocated,
        groups: if assoc_has_key(p.groups, name) {
            p.groups.remove(assoc_index_of(p.groups, name))
        } else {
            p.groups
        },
    }
}

/// A profile with no rows and no groups.
pub open spec fn empty_profile() -> ModProfileView {
    ModProfileView { mods: Seq::empty(), groups: Seq::empty() }
}

/// One root row, which must be an individual mod, moved into the named
/// group: the row disappears and the mod lands at the end of the group. Out
/// of range, a group row, or an unknown group name: no change.
pub open spec fn move_to_group_p(p: ModProfileView, idx: int, gname: Seq<char>) -> ModProfileView {
    if 0 <= idx < p.mods.len() && p.mods[idx] is Individual && assoc_has_key(p.groups, gname) {
        let mc = p.mods[idx]->Individual_0;
        let gi = assoc_index_of(p.groups, gname);
        let g = p.groups[gi].1;
        ModProfileView {
            mods: p.mods.remove(idx),
            groups: p.groups.update(
                gi,
                (gname, ModGroupView { mods: g.mods.push(mc), priority_override: g.priority_override }),
            ),
        }
    } else {
        p
    }
}

/// One mod moved out of the named group to the end of the root rows as an
/// individual entry. Out of range or an unknown group name: no change.
pub open spec fn move_out_of_group_p(p: ModProfileView, gname: Seq<char>, idx: int) -> ModProfileView {
    if assoc_has_key(p.groups, gname) && 0 <= idx < p.groups[assoc_index_of(p.groups, gname)].1.mods.len() {
        let gi = assoc_index_of(p.groups, gname);
        let g = p.groups[gi].1;
        ModProfileView {
            mods: p.mods.push(ModOrGroupView::Individual(g.mods[idx])),
            groups: p.groups.update(
                gi,
                (gname, ModGroupView { mods: g.mods.remove(idx), priority_override: g.priority_override }),
            ),
        }
    } else {
        p
    }
}

/// One mod moved from one group to the end of another. Either group unknown
/// or the index out of range: no change. Moving within one group moves the
/// mod to its end.
pub open spec fn move_between_groups_p(
    p: ModProfileView,
    from: Seq<char>,
    idx: int,
    to: Seq<char>,
) -> ModProfileView {
    if assoc_has_key(p.groups, from) && assoc_has_key(p.groups, to) && 0 <= idx < p.groups[
        assoc_index_of(p.groups, from)
    ].1.mods.len() {
        let fi = assoc_index_of(p.groups, from);
        let fg = p.groups[fi].1;
        let mc = fg.mods[idx];
        let groups1 = p.groups.update(
            fi,
            (from, ModGroupView { mods: fg.mods.remove(idx), priority_override: fg.priority_override }),
        );
        let ti = assoc_index_of(groups1, to);
        let tg = groups1[ti].1;
        ModProfileView {
            mods: p.mods,
            groups: groups1.update(
                ti,
                (to, ModGroupView { mods: tg.mods.push(mc), priority_override: tg.priority_override }),
            ),
        }
    } else {
        p
    }
}

pub open spec fn opt_priority_view(o: Option<i32>) -> Option<int> {
    match o {
        Some(p) => Some(p as int),
        None => None,
    }
}

/// The named group's priority override replaced; its mods and everything
/// else stay. An unknown group name: no change.
pub open spec fn set_override_p(
    p: ModProfileView,
    gname: Seq<char>,
    over: Option<int>,
) -> ModProfileView {
    if assoc_has_key(p.groups, gname) {
        let gi = assoc_index_of(p.groups, gname);
        let g = p.groups[gi].1;
        ModProfileView {
            mods: p.mods,
            groups: p.groups.update(
                gi,
                (gname, ModGroupView { mods: g.mods, priority_override: over }),
            ),
        }
    } else {
        p
    }
}

/// The row at the index removed; the rows after it move up one place. Out of
/// range: no change.
pub open spec fn delete_mod_p(p: ModProfileView, idx: int) -> ModProfileView {
    if 0 <= idx < p.mods.len() {
        ModProfileView { mods: p.mods.remove(idx), groups: p.groups }
    } else {
        p
    }
}

/// The mod at the index removed from the named group. Out of range or an
/// unknown group name: no change.
pub open spec fn delete_mod_in_group_p(p: ModProfileView, gname: Seq<char>, idx: int) -> ModProfileView {
    if assoc_has_key(p.groups, gname) && 0 <= idx < p.groups[assoc_index_of(p.groups, gname)].1.mods.len() {
        let gi = assoc_index_of(p.groups, gname);
        let g = p.groups[gi].1;
        ModProfileView {
            mods: p.mods,
            groups: p.groups.update(
                gi,
                (gname, ModGroupView { mods: g.mods.remove(idx), priority_override: g.priority_override }),
            ),
        }
    } else {
        p
    }
}

// ---------------------------------------------------------------------------
// Well-formedness preservation.
// ---------------------------------------------------------------------------

/// Replacing the value of one entry, keeping its key, keeps the keys unique.
pub proof fn lemma_assoc_unique_update_value<T>(m: Seq<(Seq<char>, T)>, i: int, v: T)
    requires
        assoc_keys_unique(m),
        0 <= i < m.len(),
    ensures
        assoc_keys_unique(m.update(i, (m[i].0, v))),
{
}

/// The move and delete transformers keep the profile well-formed: none of
/// them changes the set of group keys.
pub proof fn lemma_moves_wf(p: ModProfileView, idx: int, a: Seq<char>, b: Seq<char>)
    requires
        p.wf(),
    ensures
        move_to_group_p(p, idx, a).wf(),
        move_out_of_group_p(p, a, idx).wf(),
        move_between_groups_p(p, a, idx, b).wf(),
        delete_mod_p(p, idx).wf(),
        delete_mod_in_group_p(p, a, idx).wf(),
{
    lemma_assoc_index_of(p.groups, a);
    lemma_assoc_index_of(p.groups, b);
    if assoc_has_key(p.groups, a) && assoc_has_key(p.groups, b) && 0 <= idx < p.groups[
        assoc_index_of(p.groups, a)
    ].1.mods.len() {
        let fi = assoc_index_of(p.groups, a);
        let fg = p.groups[fi].1;
        let groups1 = p.groups.update(
            fi,
            (a, ModGroupView { mods: fg.mods.remove(idx), priority_override: fg.priority_override }),
        );
        assert forall|x: int| 0 <= x < groups1.len() implies groups1[x].0 == p.groups[x].0 by {}
        lemma_assoc_index_same_keys(groups1, p.groups, b);
        assert(assoc_keys_unique(groups1));
        assert(groups1[assoc_index_of(groups1, b)].0 == b);
        assert(assoc_keys_unique(move_between_groups_p(p, a, idx, b).groups));
    }
}

/// Replacing a profile's value with a well-formed one keeps the store
/// well-formed.
pub proof fn lemma_with_profile_wf(d: ModDataView, name: Seq<char>, pv: ModProfileView)
    requires
        d.wf(),
        d.has_profile(name),
        pv.wf(),
    ensures
        with_profile(d, name, pv).wf(),
{
    lemma_assoc_index_of(d.profiles, name);
    let i = assoc_index_of(d.profiles, name);
    let d2 = with_profile(d, name, pv);
    assert forall|x: int| 0 <= x < d2.profiles.len() implies d2.profiles[x].0 == d.profiles[x].0
        by {}
    lemma_assoc_index_same_keys(d2.profiles, d.profiles, d.active_profile);
}

pub proof fn lemma_create_group_wf(p: ModProfileView, name: Seq<char>)
    requires
        p.wf(),
        !assoc_has_key(p.groups, name),
    ensures
        create_group_p(p, name).wf(),
{
    lemma_assoc_index_of(p.groups, name);
    let g2 = create_group_p(p, name).groups;
    assert forall|i: int, j: int| 0 <= i < j < g2.len() implies g2[i].0 != g2[j].0 by {
        if j < g2.len() - 1 {
            assert(g2[i] == p.groups[i]);
            assert(g2[j] == p.groups[j]);
        } else {
            assert(g2[i] == p.groups[i]);
            assert(p.groups[i].0 != name);
        }
    }
}

pub proof fn lemma_rename_group_wf(p: ModProfileView, o: Seq<char>, n: Seq<char>)
    requires
        p.wf(),
        n == o || !assoc_has_key(p.groups, n),
    ensures
        rename_group_p(p, o, n).wf(),
{
    if assoc_has_key(p.groups, o) {
        lemma_assoc_index_of(p.groups, o);
        lemma_assoc_index_of(p.groups, n);
        let gi = assoc_index_of(p.groups, o);
        let g2 = rename_group_p(p, o, n).groups;
        assert forall|i: int, j: int| 0 <= i < j < g2.len() implies g2[i].0 != g2[j].0 by {
            if i != gi && j != gi {
                assert(g2[i] == p.groups[i]);
                assert(g2[j] == p.groups[j]);
            }
        }
    }
}

pub proof fn lemma_delete_group_wf(p: ModProfileView, name: Seq<char>)
    requires
        p.wf(),
    ensures
        delete_group_p(p, name).wf(),
{
    if assoc_has_key(p.groups, name) {
        lemma_assoc_index_of(p.groups, name);
        lemma_assoc_unique_remove(p.groups, assoc_index_of(p.groups, name));
    }
}

// ---------------------------------------------------------------------------
// The executable mutation API. Every operation takes the profile's name and
// fails with `NoSuchProfile` when the store has no profile of that name; no
// operation panics or touches any other profile.
// ---------------------------------------------------------------------------

impl ModData {
    /// Creates an empty, enabled group named `name` in the profile: fails
    /// with `DuplicateGroupName` when the profile already has a group of that
    /// name, else adds the group and appends a reference to it to the rows.
    pub fn create_group(&mut self, profile: &str, name: &str) -> (r: Result<(), StateError>)
        ensures
            match r {
                Ok(()) => {
                    &&& old(self)@.has_profile(profile@)
                    &&& !assoc_has_key(old(self)@.profile(profile@).groups, name@)
                    &&& final(self)@ == with_profile(
                        old(self)@,
                        profile@,
                        create_group_p(old(self)@.profile(profile@), name@),
                    )
                    &&& (old(self)@.wf() ==> final(self)@.wf())
                },
                Err(StateError::NoSuchProfile) => {
                    &&& !old(self)@.has_profile(profile@)
                    &&& final(self)@ == old(self)@
                },
                Err(StateError::DuplicateGroupName) => {
                    &&& old(self)@.has_profile(profile@)
                    &&& assoc_has_key(old(self)@.profile(profile@).groups, name@)
                    &&& final(self)@ == old(self)@
                },
                Err(e) => false,
            },
    {
        let pi = match self.profiles.index_of(profile) {
            Some(i) => i,
            None => {
                return Err(StateError::NoSuchProfile);
            },
        };
        let ghost pv = self@.profile(profile@);
        if self.profiles.value_at(pi).groups.contains_key(name) {
            return Err(StateError::DuplicateGroupName);
        }
        let (pname, mut prof) = self.profiles.remove_at(pi);
        let ghost mods0 = prof.mods@;
        let g0 = ModGroup::new();
        proof {
            assert(g0@ =~= empty_group());
        }
        prof.groups.insert(name.to_owned(), g0);
        prof.mods.push(ModOrGroup::Group { group_name: name.to_owned(), enabled: true });
        proof {
            assert(prof@.mods =~= pv.mods.push(
                ModOrGroupView::Group { group_name: name@, enabled: true },
            ));
            assert(prof@.groups =~= pv.groups.push((name@, empty_group())));
            assert(prof@ =~= create_group_p(pv, name@));
        }
        self.profiles.insert_at(pi, pname, prof);
        proof {
            assert(self@.profiles =~= old(self)@.profiles.update(
                pi as int,
                (profile@, create_group_p(pv, name@)),
            ));
            if old(self)@.wf() {
                lemma_create_group_wf(pv, name@);
                lemma_with_profile_wf(old(self)@, profile@, create_group_p(pv, name@));
            }
        }
        Ok(())
    }

    /// Renames the group `old_name` to `new_name`: fails with
    /// `DuplicateGroupName` when a different group already holds `new_name`;
    /// otherwise re-keys the group entry in place and rewrites every matching
    /// reference, keeping every position.
    pub fn rename_group(&mut self, profile: &str, old_name: &str, new_name: &str) -> (r: Result<
        (),
        StateError,
    >)
        ensures
            match r {
                Ok(()) => {
                    &&& old(self)@.has_profile(profile@)
                    &&& (new_name@ == old_name@ || !assoc_has_key(
                        old(self)@.profile(profile@).groups,
                        new_name@,
                    ))
                    &&& final(self)@ == with_profile(
                        old(self)@,
                        profile@,
                        rename_group_p(old(self)@.profile(profile@), old_name@, new_name@),
                    )
                    &&& (old(self)@.wf() ==> final(self)@.wf())
                },
                Err(StateError::NoSuchProfile) => {
                    &&& !old(self)@.has_profile(profile@)
                    &&& final(self)@ == old(self)@
                },
                Err(StateError::DuplicateGroupName) => {
                    &&& old(self)@.has_profile(profile@)
                    &&& new_name@ != old_name@
                    &&& assoc_has_key(old(self)@.profile(profile@).groups, new_name@)
                    &&& final(self)@ == old(self)@
                },
                Err(e) => false,
            },
    {
        let pi = match self.profiles.index_of(profile) {
            Some(i) => i,
            None => {
                return Err(StateError::NoSuchProfile);
            },
        };
        let ghost pv = self@.profile(profile@);
        let same = crate::smap::str_eq(old_name, new_name);
        if !same && self.profiles.value_at(pi).groups.contains_key(new_name) {
            return Err(StateError::DuplicateGroupName);
        }
        let (pname, mut prof) = self.profiles.remove_at(pi);
        match prof.groups.index_of(old_name) {
            Some(gi) => {
                let (_, g) = prof.groups.remove_at(gi);
                prof.groups.insert_at(gi, new_name.to_owned(), g);
                proof {
                    assert(prof@.groups =~= pv.groups.update(
                        assoc_index_of(pv.groups, old_name@),
                        (new_name@, pv.groups[assoc_index_of(pv.groups, old_name@)].1),
                    ));
                }
            },
            None => {},
        }
        let ghost mods1 = prof.mods@;
        let ghost groups1 = prof@.groups;
        let n = prof.mods.len();
        let mut i: usize = 0;
        while i < n
            invariant
                n == prof.mods@.len(),
                i <= n,
                mods1.len() == n,
                prof@.groups == groups1,
                forall|j: int| i <= j < n ==> prof.mods@[j] == mods1[j],
                forall|j: int|
                    0 <= j < i ==> (#[trigger] prof.mods@[j])@ == rename_ref(
                        mods1[j]@,
                        old_name@,
                        new_name@,
                    ),
            decreases n - i,
        {
            let replace = match &prof.mods[i] {
                ModOrGroup::Group { group_name, enabled } => {
                    if crate::smap::str_eq(group_name.as_str(), old_name) {
                        Some(*enabled)
                    } else {
                        None
                    }
                },
                ModOrGroup::Individual(mc) => None,
            };
            match replace {
                Some(en) => {
                    prof.mods.set(
                        i,
                        ModOrGroup::Group { group_name: new_name.to_owned(), enabled: en },
                    );
                },
                None => {},
            }
            i += 1;
        }
        proof {
            assert forall|j: int| 0 <= j < n implies mods1[j]@ == pv.mods[j] by {}
            assert(prof@.mods =~= rename_refs(pv.mods, old_name@, new_name@));
            assert(prof@.groups == rename_group_p(pv, old_name@, new_name@).groups);
            assert(prof@ =~= rename_group_p(pv, old_name@, new_name@));
        }
        self.profiles.insert_at(pi, pname, prof);
        proof {
            assert(self@.profiles =~= old(self)@.profiles.update(
                pi as int,
                (profile@, rename_group_p(pv, old_name@, new_name@)),
            ));
            if old(self)@.wf() {
                lemma_rename_group_wf(pv, old_name@, new_name@);
                lemma_with_profile_wf(
                    old(self)@,
                    profile@,
                    rename_group_p(pv, old_name@, new_name@),
                );
            }
        }
        Ok(())
    }

    /// Deletes the group named `name`: its mods move to the end of the rows
    /// as individual entries in their group order, and every reference to the
    /// name disappears from the rows.
    pub fn delete_group(&mut self, profile: &str, name: &str) -> (r: Result<(), StateError>)
        ensures
            match r {
                Ok(()) => {
                    &&& old(self)@.has_profile(profile@)
                    &&& final(self)@ == with_profile(
                        old(self)@,
                        profile@,
                        delete_group_p(old(self)@.profile(profile@), name@),
                    )
                    &&& (old(self)@.wf() ==> final(self)@.wf())
                },
                Err(StateError::NoSuchProfile) => {
                    &&& !old(self)@.has_profile(profile@)
                    &&& final(self)@ == old(self)@
                },
                Err(e) => false,
            },
    {
        let pi = match self.profiles.index_of(profile) {
            Some(i) => i,
            None => {
                return Err(StateError::NoSuchProfile);
            },
        };
        let ghost pv = self@.profile(profile@);
        let (pname, mut prof) = self.profiles.remove_at(pi);
        let removed = prof.groups.remove(name);
        let ghost mods0 = prof.mods@;
        let mut kept: Vec<ModOrGroup> = Vec::new();
        proof {
            assert(mods0.map_values(|m: ModOrGroup| m@) == pv.mods);
            assert(kept@.map_values(|m: ModOrGroup| m@) =~= strip_refs(pv.mods.take(0), name@));
        }
        let n = prof.mods.len();
        let mut i: usize = 0;
        while i < n
            invariant
                n == prof.mods@.len(),
                prof.mods@ == mods0,
                mods0.map_values(|m: ModOrGroup| m@) == pv.mods,
                i <= n,
                kept@.map_values(|m: ModOrGroup| m@) == strip_refs(pv.mods.take(i as int), name@),
            decreases n - i,
        {
            let ghost kept0 = kept@;
            let keep = match &prof.mods[i] {
                ModOrGroup::Group { group_name, enabled } => !crate::smap::str_eq(
                    group_name.as_str(),
                    name,
                ),
                ModOrGroup::Individual(mc) => true,
            };
            if keep {
                kept.push(prof.mods[i].duplicate());
            }
            proof {
                assert(pv.mods.take(i as int + 1).drop_last() =~= pv.mods.take(i as int));
                assert(pv.mods.take(i as int + 1).last() == pv.mods[i as int]);
                assert(pv.mods[i as int] == mods0[i as int]@);
                if keep {
                    assert(kept@.map_values(|m: ModOrGroup| m@) =~= kept0.map_values(
                        |m: ModOrGroup| m@,
                    ).push(mods0[i as int]@));
                }
                assert(kept@.map_values(|m: ModOrGroup| m@) =~= strip_refs(
                    pv.mods.take(i as int + 1),
                    name@,
                ));
            }
            i += 1;
        }
        proof {
            assert(pv.mods.take(n as int) =~= pv.mods);
        }
        let ghost relocated = match assoc_get(pv.groups, name@) {
            Some(g) => as_individuals(g.mods),
            None => Seq::<ModOrGroupView>::empty(),
        };
        match removed {
            Some(group) => {
                let m = group.mods.len();
                let ghost gv = group@;
                let mut j: usize = 0;
                proof {
                    assert(relocated =~= as_individuals(gv.mods));
                }
                while j < m
                    invariant
                        m == group.mods@.len(),
                        gv == group@,
                        j <= m,
                        relocated == as_individuals(gv.mods),
                        kept@.map_values(|x: ModOrGroup| x@) == strip_refs(pv.mods, name@)
                            + relocated.take(j as int),
                    decreases m - j,
                {
                    let ghost kept0 = kept@;
                    kept.push(ModOrGroup::Individual(group.mods[j].duplicate()));
                    proof {
                        assert(gv.mods[j as int] == group.mods@[j as int]@);
                        assert(relocated[j as int] == ModOrGroupView::Individual(gv.mods[j as int]));
                        assert(kept@.map_values(|x: ModOrGroup| x@) =~= kept0.map_values(
                            |x: ModOrGroup| x@,
                        ).push(relocated[j as int]));
                        assert(relocated.take(j as int + 1) =~= relocated.take(j as int).push(
                            relocated[j as int],
                        ));
                        assert(kept@.map_values(|x: ModOrGroup| x@) =~= strip_refs(pv.mods, name@)
                            + relocated.take(j as int + 1));
                    }
                    j += 1;
                }
                proof {
                    assert(relocated.take(m as int) =~= relocated);
                }
            },
            None => {
                proof {
                    assert(relocated =~= Seq::<ModOrGroupView>::empty());
                }
            },
        }
        prof.mods = kept;
        proof {
            assert(prof@.mods =~= strip_refs(pv.mods, name@) + relocated);
            assert(prof@ =~= delete_group_p(pv, name@));
        }
        self.profiles.insert_at(pi, pname, prof);
        proof {
            assert(self@.profiles =~= old(self)@.profiles.update(
                pi as int,
                (profile@, delete_group_p(pv, name@)),
            ));
            if old(self)@.wf() {
                lemma_delete_group_wf(pv, name@);
                lemma_with_profile_wf(old(self)@, profile@, delete_group_p(pv, name@));
            }
        }
        Ok(())
    }

    /// Moves the root row at `mod_index`, which must be an individual mod,
    /// into the named group. Out-of-range index, a group row, or an unknown
    /// group name: the profile stays as it is.
    pub fn move_mod_to_group(&mut self, profile: &str, mod_index: usize, group_name: &str) -> (r:
        Result<(), StateError>)
        ensures
            match r {
                Ok(()) => {
                    &&& old(self)@.has_profile(profile@)
                    &&& final(self)@ == with_profile(
                        old(self)@,
                        profile@,
                        move_to_group_p(old(self)@.profile(profile@), mod_index as int, group_name@),
                    )
                    &&& (old(self)@.wf() ==> final(self)@.wf())
                },
                Err(StateError::NoSuchProfile) => {
                    &&& !old(self)@.has_profile(profile@)
                    &&& final(self)@ == old(self)@
                },
                Err(e) => false,
            },
    {
        let pi = match self.profiles.index_of(profile) {
            Some(i) => i,
            None => {
                return Err(StateError::NoSuchProfile);
            },
        };
        let ghost pv = self@.profile(profile@);
        let (pname, mut prof) = self.profiles.remove_at(pi);
        let ghost target = move_to_group_p(pv, mod_index as int, group_name@);
        let in_range_ind = if mod_index < prof.mods.len() {
            match &prof.mods[mod_index] {
                ModOrGroup::Individual(mc) => true,
                ModOrGroup::Group { .. } => false,
            }
        } else {
            false
        };
        if in_range_ind {
            match prof.groups.index_of(group_name) {
                Some(gi) => {
                    let entry = prof.mods.remove(mod_index);
                    match entry {
                        ModOrGroup::Individual(mc) => {
                            let (gname2, mut g) = prof.groups.remove_at(gi);
                            let ghost gv = pv.groups[gi as int].1;
                            g.mods.push(mc);
                            proof {
                                assert(g@.mods =~= gv.mods.push(pv.mods[mod_index as int]->Individual_0));
                                assert(g@ =~= ModGroupView {
                                    mods: gv.mods.push(pv.mods[mod_index as int]->Individual_0),
                                    priority_override: gv.priority_override,
                                });
                            }
                            prof.groups.insert_at(gi, gname2, g);
                            proof {
                                assert(prof@.mods =~= pv.mods.remove(mod_index as int));
                                assert(prof@.groups =~= target.groups);
                                assert(prof@ =~= target);
                            }
                        },
                        ModOrGroup::Group { group_name: gn, enabled } => {
                            proof {
                                assert(false);
                            }
                            prof.mods.insert(mod_index, ModOrGroup::Group { group_name: gn, enabled });
                        },
                    }
                },
                None => {
                    proof {
                        assert(prof@ =~= target);
                    }
                },
            }
        } else {
            proof {
                assert(prof@ =~= target);
            }
        }
        self.profiles.insert_at(pi, pname, prof);
        proof {
            assert(self@.profiles =~= old(self)@.profiles.update(pi as int, (profile@, target)));
            if old(self)@.wf() {
                lemma_moves_wf(pv, mod_index as int, group_name@, group_name@);
                lemma_with_profile_wf(old(self)@, profile@, target);
            }
        }
        Ok(())
    }

    /// Moves the mod at `mod_index` out of the named group to the end of the
    /// root rows. Out-of-range index or an unknown group name: the profile
    /// stays as it is.
    pub fn move_mod_out_of_group(&mut self, profile: &str, group_name: &str, mod_index: usize) -> (r:
        Result<(), StateError>)
        ensures
            match r {
                Ok(()) => {
                    &&& old(self)@.has_profile(profile@)
                    &&& final(self)@ == with_profile(
                        old(self)@,
                        profile@,
                        move_out_of_group_p(old(self)@.profile(profile@), group_name@, mod_index as int),
                    )
                    &&& (old(self)@.wf() ==> final(self)@.wf())
                },
                Err(StateError::NoSuchProfile) => {
                    &&& !old(self)@.has_profile(profile@)
                    &&& final(self)@ == old(self)@
                },
                Err(e) => false,
            },
    {
        let pi = match self.profiles.index_of(profile) {
            Some(i) => i,
            None => {
                return Err(StateError::NoSuchProfile);
            },
        };
        let ghost pv = self@.profile(profile@);
        let (pname, mut prof) = self.profiles.remove_at(pi);
        let ghost target = move_out_of_group_p(pv, group_name@, mod_index as int);
        match prof.groups.index_of(group_name) {
            Some(gi) => {
                let (gname2, mut g) = prof.groups.remove_at(gi);
                let ghost gv = pv.groups[gi as int].1;
                if mod_index < g.mods.len() {
                    let mc = g.mods.remove(mod_index);
                    proof {
                        assert(g@.mods =~= gv.mods.remove(mod_index as int));
                    }
                    prof.groups.insert_at(gi, gname2, g);
                    prof.mods.push(ModOrGroup::Individual(mc));
                    proof {
                        assert(mc@ == gv.mods[mod_index as int]);
                        assert(prof@.mods =~= pv.mods.push(
                            ModOrGroupView::Individual(gv.mods[mod_index as int]),
                        ));
                        assert(prof@.groups =~= target.groups);
                        assert(prof@ =~= target);
                    }
                } else {
                    prof.groups.insert_at(gi, gname2, g);
                    proof {
                        assert(prof@.groups =~= pv.groups);
                        assert(prof@ =~= target);
                    }
                }
            },
            None => {
                proof {
                    assert(prof@ =~= target);
                }
            },
        }
        self.profiles.insert_at(pi, pname, prof);
        proof {
            assert(self@.profiles =~= old(self)@.profiles.update(pi as int, (profile@, target)));
            if old(self)@.wf() {
                lemma_moves_wf(pv, mod_index as int, group_name@, group_name@);
                lemma_with_profile_wf(old(self)@, profile@, target);
            }
        }
        Ok(())
    }

    /// Moves the mod at `mod_index` from one group to the end of another.
    /// Either group unknown or the index out of range: the profile stays as
    /// it is.
    pub fn move_mod_between_groups(
        &mut self,
        profile: &str,
        from_group: &str,
        mod_index: usize,
        to_group: &str,
    ) -> (r: Result<(), StateError>)
        ensures
            match r {
                Ok(()) => {
                    &&& old(self)@.has_profile(profile@)
                    &&& final(self)@ == with_profile(
                        old(self)@,
                        profile@,
                        move_between_groups_p(
                            old(self)@.profile(profile@),
                            from_group@,
                            mod_index as int,
                            to_group@,
                        ),
                    )
                    &&& (old(self)@.wf() ==> final(self)@.wf())
                },
                Err(StateError::NoSuchProfile) => {
                    &&& !old(self)@.has_profile(profile@)
                    &&& final(self)@ == old(self)@
                },
                Err(e) => false,
            },
    {
        let pi = match self.profiles.index_of(profile) {
            Some(i) => i,
            None => {
                return Err(StateError::NoSuchProfile);
            },
        };
        let ghost pv = self@.profile(profile@);
        let (pname, mut prof) = self.profiles.remove_at(pi);
        let ghost target = move_between_groups_p(pv, from_group@, mod_index as int, to_group@);
        let fi_found = prof.groups.index_of(from_group);
        let ti_found = prof.groups.index_of(to_group);
        match fi_found {
            Some(fi) => {
                match ti_found {
                    Some(ti) => {
                        let (fname, mut fg) = prof.groups.remove_at(fi);
                        let ghost fgv = pv.groups[fi as int].1;
                        if mod_index < fg.mods.len() {
                            let mc = fg.mods.remove(mod_index);
                            proof {
                                assert(fg@.mods =~= fgv.mods.remove(mod_index as int));
                            }
                            prof.groups.insert_at(fi, fname, fg);
                            let ghost groups1 = pv.groups.update(
                                fi as int,
                                (
                                    from_group@,
                                    ModGroupView {
                                        mods: fgv.mods.remove(mod_index as int),
                                        priority_override: fgv.priority_override,
                                    },
                                ),
                            );
                            proof {
                                assert(prof@.groups =~= groups1);
                                assert forall|x: int| 0 <= x < groups1.len() implies groups1[x].0
                                    == pv.groups[x].0 by {}
                                lemma_assoc_index_same_keys(groups1, pv.groups, to_group@);
                                assert(ti == assoc_index_of(groups1, to_group@));
                            }
                            let (tname, mut tg) = prof.groups.remove_at(ti);
                            let ghost tgv = groups1[ti as int].1;
                            tg.mods.push(mc);
                            proof {
                                assert(mc@ == fgv.mods[mod_index as int]);
                                assert(tg@.mods =~= tgv.mods.push(fgv.mods[mod_index as int]));
                            }
                            prof.groups.insert_at(ti, tname, tg);
                            proof {
                                assert(prof@.groups =~= target.groups);
                                assert(prof@ =~= target);
                            }
                        } else {
                            prof.groups.insert_at(fi, fname, fg);
                            proof {
                                assert(prof@.groups =~= pv.groups);
                                assert(prof@ =~= target);
                            }
                        }
                    },
                    None => {
                        proof {
                            assert(prof@ =~= target);
                        }
                    },
                }
            },
            None => {
                proof {
                    assert(prof@ =~= target);
                }
            },
        }
        self.profiles.insert_at(pi, pname, prof);
        proof {
            assert(self@.profiles =~= old(self)@.profiles.update(pi as int, (profile@, target)));
            if old(self)@.wf() {
                lemma_moves_wf(pv, mod_index as int, from_group@, to_group@);
                lemma_with_profile_wf(old(self)@, profile@, target);
            }
        }
        Ok(())
    }

    /// Removes the row at `row_index`; the rows after it move up one place.
    /// Out of range: the profile stays as it is.
    pub fn delete_mod(&mut self, profile: &str, row_index: usize) -> (r: Result<(), StateError>)
        ensures
            match r {
                Ok(()) => {
                    &&& old(self)@.has_profile(profile@)
                    &&& final(self)@ == with_profile(
                        old(self)@,
                        profile@,
                        delete_mod_p(old(self)@.profile(profile@), row_index as int),
                    )
                    &&& (old(self)@.wf() ==> final(self)@.wf())
                },
                Err(StateError::NoSuchProfile) => {
                    &&& !old(self)@.has_profile(profile@)
                    &&& final(self)@ == old(self)@
                },
                Err(e) => false,
            },
    {
        let pi = match self.profiles.index_of(profile) {
            Some(i) => i,
            None => {
                return Err(StateError::NoSuchProfile);
            },
        };
        let ghost pv = self@.profile(profile@);
        let (pname, mut prof) = self.profiles.remove_at(pi);
        let ghost target = delete_mod_p(pv, row_index as int);
        if row_index < prof.mods.len() {
            prof.mods.remove(row_index);
            proof {
                assert(prof@.mods =~= pv.mods.remove(row_index as int));
                assert(prof@ =~= target);
            }
        } else {
            proof {
                assert(prof@ =~= target);
            }
        }
        self.profiles.insert_at(pi, pname, prof);
        proof {
            assert(self@.profiles =~= old(self)@.profiles.update(pi as int, (profile@, target)));
            if old(self)@.wf() {
                lemma_moves_wf(pv, row_index as int, profile@, profile@);
                lemma_with_profile_wf(old(self)@, profile@, target);
            }
        }
        Ok(())
    }

    /// Removes the mod at `mod_index` from the named group. Out of range or
    /// an unknown group name: the profile stays as it is.
    pub fn delete_mod_in_group(&mut self, profile: &str, group_name: &str, mod_index: usize) -> (r:
        Result<(), StateError>)
        ensures
            match r {
                Ok(()) => {
                    &&& old(self)@.has_profile(profile@)
                    &&& final(self)@ == with_profile(
                        old(self)@,
                        profile@,
                        delete_mod_in_group_p(old(self)@.profile(profile@), group_name@, mod_index as int),
                    )
                    &&& (old(self)@.wf() ==> final(self)@.wf())
                },
                Err(StateError::NoSuchProfile) => {
                    &&& !old(self)@.has_profile(profile@)
                    &&& final(self)@ == old(self)@
                },
                Err(e) => false,
            },
    {
        let pi = match self.profiles.index_of(profile) {
            Some(i) => i,
            None => {
                return Err(StateError::NoSuchProfile);
            },
        };
        let ghost pv = self@.profile(profile@);
        let (pname, mut prof) = self.profiles.remove_at(pi);
        let ghost target = delete_mod_in_group_p(pv, group_name@, mod_index as int);
        match prof.groups.index_of(group_name) {
            Some(gi) => {
                let (gname2, mut g) = prof.groups.remove_at(gi);
                let ghost gv = pv.groups[gi as int].1;
                if mod_index < g.mods.len() {
                    g.mods.remove(mod_index);
                    proof {
                        assert(g@.mods =~= gv.mods.remove(mod_index as int));
                    }
                    prof.groups.insert_at(gi, gname2, g);
                    proof {
                        assert(prof@.groups =~= target.groups);
                        assert(prof@ =~= target);
                    }
                } else {
                    prof.groups.insert_at(gi, gname2, g);
                    proof {
                        assert(prof@.groups =~= pv.groups);
                        assert(prof@ =~= target);
                    }
                }
            },
            None => {
                proof {
                    assert(prof@ =~= target);
                }
            },
        }
        self.profiles.insert_at(pi, pname, prof);
        proof {
            assert(self@.profiles =~= old(self)@.profiles.update(pi as int, (profile@, target)));
            if old(self)@.wf() {
                lemma_moves_wf(pv, mod_index as int, group_name@, group_name@);
                lemma_with_profile_wf(old(self)@, profile@, target);
            }
        }
        Ok(())
    }

    /// Sets or clears the named group's priority override. The override
    /// changes effective priorities only; no mod's own priority moves. An
    /// unknown group name: the profile stays as it is.
    pub fn set_group_priority_override(
        &mut self,
        profile: &str,
        group_name: &str,
        over: Option<i32>,
    ) -> (r: Result<(), StateError>)
        ensures
            match r {
                Ok(()) => {
                    &&& old(self)@.has_profile(profile@)
                    &&& final(self)@ == with_profile(
                        old(self)@,
                        profile@,
                        set_override_p(
                            old(self)@.profile(profile@),
                            group_name@,
                            opt_priority_view(over),
                        ),
                    )
                    &&& (old(self)@.wf() ==> final(self)@.wf())
                },
                Err(StateError::NoSuchProfile) => {
                    &&& !old(self)@.has_profile(profile@)
                    &&& final(self)@ == old(self)@
                },
                Err(e) => false,
            },
    {
        let pi = match self.profiles.index_of(profile) {
            Some(i) => i,
            None => {
                return Err(StateError::NoSuchProfile);
            },
        };
        let ghost pv = self@.profile(profile@);
        let (pname, mut prof) = self.profiles.remove_at(pi);
        let ghost target = set_override_p(pv, group_name@, opt_priority_view(over));
        match prof.groups.index_of(group_name) {
            Some(gi) => {
                let (gname2, mut g) = prof.groups.remove_at(gi);
                let ghost gv = pv.groups[gi as int].1;
                g.priority_override = over;
                proof {
                    assert(g@ =~= ModGroupView {
                        mods: gv.mods,
                        priority_override: opt_priority_view(over),
                    });
                }
                prof.groups.insert_at(gi, gname2, g);
                proof {
                    assert(prof@.groups =~= target.groups);
                    assert(prof@ =~= target);
                }
            },
            None => {
                proof {
                    assert(prof@ =~= target);
                }
            },
        }
        self.profiles.insert_at(pi, pname, prof);
        proof {
            assert(self@.profiles =~= old(self)@.profiles.update(pi as int, (profile@, target)));
            if old(self)@.wf() {
                assert(target.wf()) by {
                    if assoc_has_key(pv.groups, group_name@) {
                        lemma_assoc_index_of(pv.groups, group_name@);
                        lemma_assoc_unique_update_value(
                            pv.groups,
                            assoc_index_of(pv.groups, group_name@),
                            ModGroupView {
                                mods: pv.groups[assoc_index_of(pv.groups, group_name@)].1.mods,
                                priority_override: opt_priority_view(over),
                            },
                        );
                    }
                }
                lemma_with_profile_wf(old(self)@, profile@, target);
            }
        }
        Ok(())
    }

    /// Adds a new empty profile under the name: fails with
    /// `DuplicateProfileName` when the store already has one.
    pub fn create_profile(&mut self, name: &str) -> (r: Result<(), StateError>)
        ensures
            match r {
                Ok(()) => {
                    &&& !assoc_has_key(old(self)@.profiles, name@)
                    &&& final(self)@.active_profile == old(self)@.active_profile
                    &&& final(self)@.profiles == old(self)@.profiles.push((name@, empty_profile()))
                    &&& (old(self)@.wf() ==> final(self)@.wf())
                },
                Err(StateError::DuplicateProfileName) => {
                    &&& assoc_has_key(old(self)@.profiles, name@)
                    &&& final(self)@ == old(self)@
                },
                Err(e) => false,
            },
    {
        if self.profiles.contains_key(name) {
            return Err(StateError::DuplicateProfileName);
        }
        let p = ModProfile::new();
        proof {
            assert(p@ =~= empty_profile());
        }
        self.profiles.insert(name.to_owned(), p);
        proof {
            if old(self)@.wf() {
                let m2 = self@.profiles;
                lemma_assoc_index_of(old(self)@.profiles, name@);
                assert forall|i: int, j: int| 0 <= i < j < m2.len() implies m2[i].0 != m2[j].0 by {
                    if j < m2.len() - 1 {
                        assert(m2[i] == old(self)@.profiles[i]);
                        assert(m2[j] == old(self)@.profiles[j]);
                    } else {
                        assert(m2[i] == old(self)@.profiles[i]);
                        assert(old(self)@.profiles[i].0 != name@);
                    }
                }
                lemma_assoc_index_of(old(self)@.profiles, old(self)@.active_profile);
                let ai = assoc_index_of(old(self)@.profiles, old(self)@.active_profile);
                lemma_assoc_index_first(m2, old(self)@.active_profile, ai);
            }
        }
        Ok(())
    }

    /// Deletes the named profile and, when it was active, makes the first
    /// remaining profile active. Rejected (no change) when the profile does
    /// not exist or is the only one: the store always keeps at least one
    /// profile.
    pub fn delete_profile(&mut self, name: &str) -> (r: bool)
        ensures
            r ==> {
                &&& assoc_has_key(old(self)@.profiles, name@)
                &&& old(self)@.profiles.len() > 1
                &&& final(self)@.profiles == old(self)@.profiles.remove(
                    assoc_index_of(old(self)@.profiles, name@),
                )
                &&& (old(self)@.active_profile == name@ ==> final(self)@.active_profile
                    == final(self)@.profiles[0].0)
                &&& (old(self)@.active_profile != name@ ==> final(self)@.active_profile
                    == old(self)@.active_profile)
                &&& (old(self)@.wf() ==> final(self)@.wf())
            },
            !r ==> {
                &&& final(self)@ == old(self)@
                &&& (!assoc_has_key(old(self)@.profiles, name@) || old(self)@.profiles.len() <= 1)
            },
    {
        let di = match self.profiles.index_of(name) {
            Some(i) => i,
            None => {
                return false;
            },
        };
        if self.profiles.len() <= 1 {
            return false;
        }
        let was_active = crate::smap::str_eq(self.active_profile.as_str(), name);
        let _removed = self.profiles.remove_at(di);
        if was_active {
            let first = self.profiles.key_at(0).clone();
            self.active_profile = first;
        }
        proof {
            if old(self)@.wf() {
                let m2 = self@.profiles;
                lemma_assoc_unique_remove(old(self)@.profiles, di as int);
                lemma_assoc_index_first(m2, m2[0].0, 0);
                if !was_active {
                    lemma_assoc_index_of(old(self)@.profiles, old(self)@.active_profile);
                    let ai = assoc_index_of(old(self)@.profiles, old(self)@.active_profile);
                    let ai2: int = if ai < di as int {
                        ai
                    } else {
                        ai - 1
                    };
                    assert(m2[ai2] == old(self)@.profiles[ai]);
                    lemma_assoc_index_of(m2, old(self)@.active_profile);
                    if !assoc_has_key(m2, old(self)@.active_profile) {
                        assert(m2[ai2].0 != old(self)@.active_profile);
                    }
                }
            }
        }
        true
    }

    /// Deletes the active profile and makes the first remaining profile
    /// active. Rejected (no change) when it is the only profile: the store
    /// always keeps at least one profile.
    pub fn remove_active_profile(&mut self) -> (r: bool)
        ensures
            r ==> {
                &&& assoc_has_key(old(self)@.profiles, old(self)@.active_profile)
                &&& old(self)@.profiles.len() > 1
                &&& final(self)@.profiles == old(self)@.profiles.remove(
                    assoc_index_of(old(self)@.profiles, old(self)@.active_profile),
                )
                &&& final(self)@.active_profile == final(self)@.profiles[0].0
                &&& (old(self)@.wf() ==> final(self)@.wf())
            },
            !r ==> {
                &&& final(self)@ == old(self)@
                &&& (!assoc_has_key(old(self)@.profiles, old(self)@.active_profile)
                    || old(self)@.profiles.len() <= 1)
            },
    {
        let name = self.active_profile.clone();
        self.delete_profile(name.as_str())
    }

    /// Makes the named profile active; rejected (no change) when the store
    /// has no profile of that name.
    pub fn set_active_profile(&mut self, name: &str) -> (r: bool)
        ensures
            r ==> {
                &&& assoc_has_key(old(self)@.profiles, name@)
                &&& final(self)@.profiles == old(self)@.profiles
                &&& final(self)@.active_profile == name@
                &&& (old(self)@.wf() ==> final(self)@.wf())
            },
            !r ==> {
                &&& final(self)@ == old(self)@
                &&& !assoc_has_key(old(self)@.profiles, name@)
            },
    {
        if self.profiles.contains_key(name) {
            self.active_profile = name.to_owned();
            true
        } else {
            false
        }
    }
}

// ---------------------------------------------------------------------------
// Laws of the mutation API.
// ---------------------------------------------------------------------------

/// No row that survives `strip_refs` references the stripped name.
pub proof fn lemma_strip_refs_clean(mods: Seq<ModOrGroupView>, name: Seq<char>)
    ensures
        forall|i: int|
            0 <= i < strip_refs(mods, name).len() ==> !((#[trigger] strip_refs(mods, name)[i]) is Group
                && strip_refs(mods, name)[i]->Group_group_name == name),
    decreases mods.len(),
{
    if mods.len() > 0 {
        lemma_strip_refs_clean(mods.drop_last(), name);
        let prefix = strip_refs(mods.drop_last(), name);
        assert forall|i: int|
            0 <= i < strip_refs(mods, name).len() implies !((#[trigger] strip_refs(mods, name)[i]) is Group
            && strip_refs(mods, name)[i]->Group_group_name == name) by {
            if i < prefix.len() {
                assert(strip_refs(mods, name)[i] == prefix[i]);
            }
        }
    }
}

/// Deleting a group leaves no reference to its name in the rows and no group
/// map entry under it, and the relocated mods stand at the end of the rows
/// in their original group order.
pub proof fn lemma_delete_group_clean(p: ModProfileView, name: Seq<char>)
    requires
        p.wf(),
    ensures
        !assoc_has_key(delete_group_p(p, name).groups, name),
        forall|i: int|
            0 <= i < delete_group_p(p, name).mods.len() ==> !((#[trigger] delete_group_p(
                p,
                name,
            ).mods[i]) is Group && delete_group_p(p, name).mods[i]->Group_group_name == name),
        assoc_has_key(p.groups, name) ==> delete_group_p(p, name).mods.skip(
            strip_refs(p.mods, name).len() as int,
        ) == as_individuals(assoc_get(p.groups, name)->0.mods),
{
    lemma_strip_refs_clean(p.mods, name);
    let stripped = strip_refs(p.mods, name);
    let d = delete_group_p(p, name);
    if assoc_has_key(p.groups, name) {
        lemma_assoc_remove_key(p.groups, name);
        let relocated = as_individuals(assoc_get(p.groups, name)->0.mods);
        assert(d.mods.skip(stripped.len() as int) =~= relocated);
        assert forall|i: int|
            0 <= i < d.mods.len() implies !((#[trigger] d.mods[i]) is Group
            && d.mods[i]->Group_group_name == name) by {
            if i < stripped.len() {
                assert(d.mods[i] == stripped[i]);
            } else {
                assert(d.mods[i] == relocated[i - stripped.len()]);
                assert(relocated[i - stripped.len()] is Individual);
            }
        }
    } else {
        lemma_assoc_index_of(p.groups, name);
        assert(d.mods =~= stripped);
    }
}

/// Renaming a group and renaming it straight back restores the profile
/// exactly, whenever the first rename was legal: the profile is well-formed
/// and fully linked, it has the old name, and the new name is free.
pub proof fn lemma_rename_round_trip(p: ModProfileView, o: Seq<char>, n: Seq<char>)
    requires
        p.wf(),
        p.linked(),
        assoc_has_key(p.groups, o),
        !assoc_has_key(p.groups, n),
        o != n,
    ensures
        rename_group_p(rename_group_p(p, o, n), n, o) == p,
{
    lemma_assoc_index_of(p.groups, o);
    lemma_assoc_index_of(p.groups, n);
    let gi = assoc_index_of(p.groups, o);
    let p1 = rename_group_p(p, o, n);
    assert forall|j: int| 0 <= j < gi implies p1.groups[j].0 != n by {
        assert(p1.groups[j] == p.groups[j]);
    }
    lemma_assoc_index_first(p1.groups, n, gi);
    let p2 = rename_group_p(p1, n, o);
    assert(p2.groups =~= p.groups);
    assert forall|j: int| 0 <= j < p.mods.len() implies p2.mods[j] == p.mods[j] by {
        let e = p.mods[j];
        assert(p1.mods[j] == rename_ref(e, o, n));
        match e {
            ModOrGroupView::Group { group_name, enabled } => {
                assert(assoc_has_key(p.groups, group_name));
                assert(group_name != n);
            },
            ModOrGroupView::Individual(mc) => {},
        }
    }
    assert(p2.mods =~= p.mods);
    assert(p2 =~= p);
}

} // verus!
