use vstd::prelude::*;

use crate::mutations::with_profile;
use crate::mutations::lemma_with_profile_wf;
use crate::smap::assoc_keys_unique;
use crate::state::ModConfig;
use crate::state::ModConfigView;
use crate::state::ModData;
use crate::state::ModGroupView;
use crate::state::ModOrGroup;
use crate::state::ModOrGroupView;
use crate::state::ModProfileView;

verus! {

// ---------------------------------------------------------------------------
// The in-place update passes: every reachable mod is handed to a function
// and replaced by what it returns, optionally guarded by a group filter and a
// per-mod predicate.
// ---------------------------------------------------------------------------

/// `b` is what some call of `f` may turn a mod with value `a` into.
pub open spec fn mod_rewritten<F: Fn(&ModConfig) -> ModConfig>(
    f: F,
    a: ModConfigView,
    b: ModConfigView,
) -> bool {
    exists|x: ModConfig, y: ModConfig| x@ == a && y@ == b && call_ensures(f, (&x,), y)
}

/// `b` is `a` left alone because the predicate may reject it, or what the
/// predicate may accept and `f` may rewrite.
pub open spec fn mod_updated<P: Fn(&ModConfig) -> bool, F: Fn(&ModConfig) -> ModConfig>(
    p: P,
    f: F,
    a: ModConfigView,
    b: ModConfigView,
) -> bool {
    ||| (b == a && exists|x: ModConfig| x@ == a && call_ensures(p, (&x,), false))
    ||| (exists|x: ModConfig, y: ModConfig|
        x@ == a && y@ == b && call_ensures(p, (&x,), true) && call_ensures(f, (&x,), y))
}

/// Some row references the group name.
pub open spec fn referenced(mods: Seq<ModOrGroupView>, name: Seq<char>) -> bool {
    exists|i: int|
        0 <= i < mods.len() && (#[trigger] mods[i]) is Group && mods[i]->Group_group_name == name
}

/// The enabled flag of the first row that references the group name.
pub open spec fn first_ref_flag(mods: Seq<ModOrGroupView>, name: Seq<char>) -> Option<bool>
    decreases mods.len(),
{
    if mods.len() == 0 {
        None
    } else if mods[0] is Group && mods[0]->Group_group_name == name {
        Some(mods[0]->Group_enabled)
    } else {
        first_ref_flag(mods.subrange(1, mods.len() as int), name)
    }
}

/// Row-by-row rewriting: individual rows hold a rewritten mod, group
/// reference rows stay as they were.
pub open spec fn rows_rewritten<F: Fn(&ModConfig) -> ModConfig>(
    f: F,
    a: Seq<ModOrGroupView>,
    b: Seq<ModOrGroupView>,
) -> bool {
    &&& b.len() == a.len()
    &&& forall|i: int|
        0 <= i < a.len() ==> match #[trigger] a[i] {
            ModOrGroupView::Individual(mc) => b[i] is Individual && mod_rewritten(
                f,
                mc,
                b[i]->Individual_0,
            ),
            ModOrGroupView::Group { group_name, enabled } => b[i] == a[i],
        }
}

/// A group whose every mod was rewritten, its override untouched.
pub open spec fn group_rewritten<F: Fn(&ModConfig) -> ModConfig>(
    f: F,
    a: ModGroupView,
    b: ModGroupView,
) -> bool {
    &&& b.priority_override == a.priority_override
    &&& b.mods.len() == a.mods.len()
    &&& forall|j: int| 0 <= j < a.mods.len() ==> #[trigger] mod_rewritten(f, a.mods[j], b.mods[j])
}

/// The whole update pass: every individual row rewritten, every group some
/// row references rewritten throughout, every other group untouched.
pub open spec fn profile_rewritten<F: Fn(&ModConfig) -> ModConfig>(
    f: F,
    a: ModProfileView,
    b: ModProfileView,
) -> bool {
    &&& rows_rewritten(f, a.mods, b.mods)
    &&& b.groups.len() == a.groups.len()
    &&& forall|gi: int|
        0 <= gi < a.groups.len() ==> {
            &&& (#[trigger] b.groups[gi]).0 == a.groups[gi].0
            &&& if referenced(a.mods, a.groups[gi].0) {
                group_rewritten(f, a.groups[gi].1, b.groups[gi].1)
            } else {
                b.groups[gi].1 == a.groups[gi].1
            }
        }
}

/// A group whose every mod was updated under the predicate.
pub open spec fn group_updated<P: Fn(&ModConfig) -> bool, F: Fn(&ModConfig) -> ModConfig>(
    p: P,
    f: F,
    a: ModGroupView,
    b: ModGroupView,
) -> bool {
    &&& b.priority_override == a.priority_override
    &&& b.mods.len() == a.mods.len()
    &&& forall|j: int| 0 <= j < a.mods.len() ==> #[trigger] mod_updated(p, f, a.mods[j], b.mods[j])
}

/// Row-by-row updating under the predicate.
pub open spec fn rows_updated<P: Fn(&ModConfig) -> bool, F: Fn(&ModConfig) -> ModConfig>(
    p: P,
    f: F,
    a: Seq<ModOrGroupView>,
    b: Seq<ModOrGroupView>,
) -> bool {
    &&& b.len() == a.len()
    &&& forall|i: int|
        0 <= i < a.len() ==> match #[trigger] a[i] {
            ModOrGroupView::Individual(mc) => b[i] is Individual && mod_updated(
                p,
                f,
                mc,
                b[i]->Individual_0,
            ),
            ModOrGroupView::Group { group_name, enabled } => b[i] == a[i],
        }
}

/// The guarded update pass: individual rows updated under the predicate; a
/// group that no row references is left alone; a referenced group is left
/// alone only when the group filter may reject its first reference's flag,
/// and has its mods updated under the predicate when the filter may admit
/// it.
pub open spec fn profile_updated<
    G: Fn(bool) -> bool,
    P: Fn(&ModConfig) -> bool,
    F: Fn(&ModConfig) -> ModConfig,
>(g: G, p: P, f: F, a: ModProfileView, b: ModProfileView) -> bool {
    &&& rows_updated(p, f, a.mods, b.mods)
    &&& b.groups.len() == a.groups.len()
    &&& forall|gi: int|
        0 <= gi < a.groups.len() ==> {
            &&& (#[trigger] b.groups[gi]).0 == a.groups[gi].0
            &&& match first_ref_flag(a.mods, a.groups[gi].0) {
                None => b.groups[gi].1 == a.groups[gi].1,
                Some(e) => (call_ensures(g, (e,), false) && b.groups[gi].1 == a.groups[gi].1) || (
                call_ensures(g, (e,), true) && group_updated(p, f, a.groups[gi].1, b.groups[gi].1)),
            }
        }
}

/// Whether any row references the name.
fn references_name(mods: &Vec<ModOrGroup>, name: &str) -> (r: bool)
    ensures
        r == referenced(mods@.map_values(|m: ModOrGroup| m@), name@),
{
    let ghost mv = mods@.map_values(|m: ModOrGroup| m@);
    let n = mods.len();
    let mut i: usize = 0;
    while i < n
        invariant
            n == mv.len(),
            mv == mods@.map_values(|m: ModOrGroup| m@),
            i <= n,
            forall|j: int|
                0 <= j < i ==> !((#[trigger] mv[j]) is Group && mv[j]->Group_group_name == name@),
        decreases n - i,
    {
        let hit = match &mods[i] {
            ModOrGroup::Group { group_name, enabled } => crate::smap::str_eq(
                group_name.as_str(),
                name,
            ),
            ModOrGroup::Individual(mc) => false,
        };
        proof {
            assert(mv[i as int] == mods@[i as int]@);
        }
        if hit {
            return true;
        }
        i += 1;
    }
    false
}

/// The enabled flag of the first row that references the name.
fn find_first_ref_flag(mods: &Vec<ModOrGroup>, name: &str) -> (r: Option<bool>)
    ensures
        r == first_ref_flag(mods@.map_values(|m: ModOrGroup| m@), name@),
{
    let ghost mv = mods@.map_values(|m: ModOrGroup| m@);
    let n = mods.len();
    let mut i: usize = 0;
    proof {
        assert(mv.skip(0) =~= mv);
    }
    while i < n
        invariant
            n == mv.len(),
            mv == mods@.map_values(|m: ModOrGroup| m@),
            i <= n,
            first_ref_flag(mv, name@) == first_ref_flag(mv.skip(i as int), name@),
        decreases n - i,
    {
        let hit = match &mods[i] {
            ModOrGroup::Group { group_name, enabled } => crate::smap::str_eq(
                group_name.as_str(),
                name,
            ),
            ModOrGroup::Individual(mc) => false,
        };
        proof {
            assert(mv[i as int] == mods@[i as int]@);
            assert(mv.skip(i as int)[0] == mv[i as int]);
        }
        if hit {
            match &mods[i] {
                ModOrGroup::Group { group_name, enabled } => {
                    return Some(*enabled);
                },
                ModOrGroup::Individual(mc) => {
                    proof {
                        assert(false);
                    }
                },
            }
        }
        proof {
            assert(mv.skip(i as int).subrange(1, mv.skip(i as int).len() as int) =~= mv.skip(
                i as int + 1,
            ));
        }
        i += 1;
    }
    proof {
        assert(mv.skip(n as int) =~= Seq::<ModOrGroupView>::empty());
    }
    None
}

impl ModData {
    /// Hands every reachable mod to `f` and stores what it returns: every
    /// individual row, and every mod of every group that some row
    /// references. Group references, overrides and everything outside the
    /// profile stay as they were.
    pub fn for_each_mod_mut<F: Fn(&ModConfig) -> ModConfig>(&mut self, profile: &str, f: F)
        requires
            old(self)@.has_profile(profile@),
            forall|mc: &ModConfig| #[trigger] call_requires(f, (mc,)),
        ensures
            exists|pv2: ModProfileView|
                {
                    &&& final(self)@ == with_profile(old(self)@, profile@, pv2)
                    &&& #[trigger] profile_rewritten(f, old(self)@.profile(profile@), pv2)
                },
            old(self)@.wf() ==> final(self)@.wf(),
    {
        let pi = match self.profiles.index_of(profile) {
            Some(i) => i,
            None => {
                proof {
                    assert(false);
                }
                return ;
            },
        };
        let ghost pv = self@.profile(profile@);
        let (pname, mut prof) = self.profiles.remove_at(pi);
        // Groups first, as the interactive update pass does.
        let gcount = prof.groups.len();
        let mut gi: usize = 0;
        while gi < gcount
            invariant
                gcount == prof@.groups.len(),
                gi <= gcount,
                prof@.mods == pv.mods,
                prof@.groups.len() == pv.groups.len(),
                forall|mc: &ModConfig| #[trigger] call_requires(f, (mc,)),
                forall|x: int| gi <= x < gcount ==> prof@.groups[x] == pv.groups[x],
                forall|x: int|
                    0 <= x < gi ==> {
                        &&& (#[trigger] prof@.groups[x]).0 == pv.groups[x].0
                        &&& if referenced(pv.mods, pv.groups[x].0) {
                            group_rewritten(f, pv.groups[x].1, prof@.groups[x].1)
                        } else {
                            prof@.groups[x].1 == pv.groups[x].1
                        }
                    },
            decreases gcount - gi,
        {
            let name = prof.groups.key_at(gi).clone();
            let is_ref = references_name(&prof.mods, name.as_str());
            if is_ref {
                let (gname, mut g) = prof.groups.remove_at(gi);
                let ghost gv = pv.groups[gi as int].1;
                let m = g.mods.len();
                let mut j: usize = 0;
                while j < m
                    invariant
                        m == g.mods@.len(),
                        m == gv.mods.len(),
                        j <= m,
                        g@.priority_override == gv.priority_override,
                        forall|mc: &ModConfig| #[trigger] call_requires(f, (mc,)),
                        forall|x: int| j <= x < m ==> g.mods@[x]@ == gv.mods[x],
                        forall|x: int|
                            0 <= x < j ==> #[trigger] mod_rewritten(f, gv.mods[x], g.mods@[x]@),
                    decreases m - j,
                {
                    let y = f(&g.mods[j]);
                    proof {
                        let w = g.mods@[j as int];
                        assert(w@ == gv.mods[j as int] && call_ensures(f, (&w,), y));
                        assert(mod_rewritten(f, gv.mods[j as int], y@));
                    }
                    g.mods.set(j, y);
                    j += 1;
                }
                proof {
                    assert(group_rewritten(f, gv, g@));
                }
                prof.groups.insert_at(gi, gname, g);
                proof {
                    assert(prof@.groups[gi as int].0 == pv.groups[gi as int].0);
                }
            }
            gi += 1;
        }
        // Then the individual rows.
        let ghost groups_done = prof@.groups;
        let n = prof.mods.len();
        let mut i: usize = 0;
        while i < n
            invariant
                n == prof.mods@.len(),
                n == pv.mods.len(),
                i <= n,
                prof@.groups == groups_done,
                forall|mc: &ModConfig| #[trigger] call_requires(f, (mc,)),
                forall|x: int| i <= x < n ==> (#[trigger] prof.mods@[x])@ == pv.mods[x],
                forall|x: int|
                    0 <= x < i ==> match #[trigger] pv.mods[x] {
                        ModOrGroupView::Individual(mc) => prof.mods@[x]@ is Individual
                            && mod_rewritten(f, mc, prof.mods@[x]@->Individual_0),
                        ModOrGroupView::Group { group_name, enabled } => prof.mods@[x]@
                            == pv.mods[x],
                    },
            decreases n - i,
        {
            let repl = match &prof.mods[i] {
                ModOrGroup::Individual(mc) => {
                    let y = f(mc);
                    proof {
                        let w = prof.mods@[i as int];
                        assert(call_ensures(f, (&w->Individual_0,), y));
                        assert(mod_rewritten(f, pv.mods[i as int]->Individual_0, y@));
                    }
                    Some(y)
                },
                ModOrGroup::Group { group_name, enabled } => None,
            };
            match repl {
                Some(y) => {
                    prof.mods.set(i, ModOrGroup::Individual(y));
                },
                None => {},
            }
            i += 1;
        }
        proof {
            assert(rows_rewritten(f, pv.mods, prof@.mods)) by {
                assert forall|x: int| 0 <= x < pv.mods.len() implies match #[trigger] pv.mods[x] {
                    ModOrGroupView::Individual(mc) => prof@.mods[x] is Individual && mod_rewritten(
                        f,
                        mc,
                        prof@.mods[x]->Individual_0,
                    ),
                    ModOrGroupView::Group { group_name, enabled } => prof@.mods[x] == pv.mods[x],
                } by {
                    assert(prof@.mods[x] == prof.mods@[x]@);
                }
            }
            assert(profile_rewritten(f, pv, prof@));
        }
        self.profiles.insert_at(pi, pname, prof);
        let ghost pv2 = prof@;
        proof {
            assert(self@.profiles =~= old(self)@.profiles.update(pi as int, (profile@, pv2)));
            assert(self@ == with_profile(old(self)@, profile@, pv2));
            assert(profile_rewritten(f, old(self)@.profile(profile@), pv2));
            if old(self)@.wf() {
                assert(pv2.wf()) by {
                    assert forall|x: int| 0 <= x < pv2.groups.len() implies pv2.groups[x].0
                        == pv.groups[x].0 by {}
                    assert(assoc_keys_unique(pv2.groups));
                }
                lemma_with_profile_wf(old(self)@, profile@, pv2);
            }
        }
    }

    /// The guarded update pass: asks the group filter about each group's first
    /// reference flag and the predicate about each mod, and stores what `f`
    /// returns for every mod both admit. Structure, group references and
    /// overrides stay as they were.
    pub fn for_each_mod_predicate_mut<
        G: Fn(bool) -> bool,
        P: Fn(&ModConfig) -> bool,
        F: Fn(&ModConfig) -> ModConfig,
    >(&mut self, profile: &str, g: G, p: P, f: F)
        requires
            old(self)@.has_profile(profile@),
            forall|e: bool| #[trigger] call_requires(g, (e,)),
            forall|mc: &ModConfig| #[trigger] call_requires(p, (mc,)),
            forall|mc: &ModConfig| #[trigger] call_requires(f, (mc,)),
        ensures
            exists|pv2: ModProfileView|
                {
                    &&& final(self)@ == with_profile(old(self)@, profile@, pv2)
                    &&& #[trigger] profile_updated(g, p, f, old(self)@.profile(profile@), pv2)
                },
            old(self)@.wf() ==> final(self)@.wf(),
    {
        let pi = match self.profiles.index_of(profile) {
            Some(i) => i,
            None => {
                proof {
                    assert(false);
                }
                return ;
            },
        };
        let ghost pv = self@.profile(profile@);
        let (pname, mut prof) = self.profiles.remove_at(pi);
        let gcount = prof.groups.len();
        let mut gi: usize = 0;
        while gi < gcount
            invariant
                gcount == prof@.groups.len(),
                gi <= gcount,
                prof@.mods == pv.mods,
                prof@.groups.len() == pv.groups.len(),
                forall|e: bool| #[trigger] call_requires(g, (e,)),
                forall|mc: &ModConfig| #[trigger] call_requires(p, (mc,)),
                forall|mc: &ModConfig| #[trigger] call_requires(f, (mc,)),
                forall|x: int| gi <= x < gcount ==> prof@.groups[x] == pv.groups[x],
                forall|x: int|
                    0 <= x < gi ==> {
                        &&& (#[trigger] prof@.groups[x]).0 == pv.groups[x].0
                        &&& match first_ref_flag(pv.mods, pv.groups[x].0) {
                            None => prof@.groups[x].1 == pv.groups[x].1,
                            Some(e) => (call_ensures(g, (e,), false) && prof@.groups[x].1
                                == pv.groups[x].1) || (call_ensures(g, (e,), true)
                                && group_updated(p, f, pv.groups[x].1, prof@.groups[x].1)),
                        }
                    },
            decreases gcount - gi,
        {
            let ghost groups_in = prof@.groups;
            let name = prof.groups.key_at(gi).clone();
            let flag = find_first_ref_flag(&prof.mods, name.as_str());
            proof {
                assert(name@ == pv.groups[gi as int].0);
                assert(flag == first_ref_flag(pv.mods, pv.groups[gi as int].0));
            }
            let admitted = match flag {
                Some(e) => g(e),
                None => false,
            };
            proof {
                match flag {
                    Some(e) => {
                        assert(call_ensures(g, (e,), admitted));
                    },
                    None => {},
                }
            }
            if admitted {
                let ghost e = flag->0;
                let (gname, mut gr) = prof.groups.remove_at(gi);
                let ghost gname_v = gname@;
                let ghost gv = pv.groups[gi as int].1;
                let m = gr.mods.len();
                let mut j: usize = 0;
                while j < m
                    invariant
                        m == gr.mods@.len(),
                        m == gv.mods.len(),
                        j <= m,
                        gr@.priority_override == gv.priority_override,
                        forall|mc: &ModConfig| #[trigger] call_requires(p, (mc,)),
                        forall|mc: &ModConfig| #[trigger] call_requires(f, (mc,)),
                        forall|x: int| j <= x < m ==> gr.mods@[x]@ == gv.mods[x],
                        forall|x: int|
                            0 <= x < j ==> #[trigger] mod_updated(p, f, gv.mods[x], gr.mods@[x]@),
                    decreases m - j,
                {
                    let keep = p(&gr.mods[j]);
                    proof {
                        let w = gr.mods@[j as int];
                        assert(w@ == gv.mods[j as int] && call_ensures(p, (&w,), keep));
                    }
                    if keep {
                        let y = f(&gr.mods[j]);
                        proof {
                            let w = gr.mods@[j as int];
                            assert(call_ensures(f, (&w,), y));
                            assert(mod_updated(p, f, gv.mods[j as int], y@));
                        }
                        gr.mods.set(j, y);
                    } else {
                        proof {
                            assert(mod_updated(p, f, gv.mods[j as int], gr.mods@[j as int]@));
                        }
                    }
                    j += 1;
                }
                proof {
                    assert(group_updated(p, f, gv, gr@));
                }
                prof.groups.insert_at(gi, gname, gr);
                proof {
                    assert(prof@.groups =~= groups_in.update(gi as int, (gname_v, gr@)));
                    assert(prof@.groups[gi as int].0 == pv.groups[gi as int].0);
                    assert(prof@.groups[gi as int].1 == gr@);
                    assert(first_ref_flag(pv.mods, pv.groups[gi as int].0) == Some(e));
                    assert(call_ensures(g, (e,), true));
                    assert(group_updated(p, f, pv.groups[gi as int].1, prof@.groups[gi as int].1));
                }
            }
            proof {
                assert forall|x: int| 0 <= x < gi + 1 implies {
                    &&& (#[trigger] prof@.groups[x]).0 == pv.groups[x].0
                    &&& match first_ref_flag(pv.mods, pv.groups[x].0) {
                        None => prof@.groups[x].1 == pv.groups[x].1,
                        Some(e2) => (call_ensures(g, (e2,), false) && prof@.groups[x].1
                            == pv.groups[x].1) || (call_ensures(g, (e2,), true) && group_updated(
                            p,
                            f,
                            pv.groups[x].1,
                            prof@.groups[x].1,
                        )),
                    }
                } by {
                    if x < gi {
                        assert(prof@.groups[x] == groups_in[x]);
                    } else {
                        assert(x == gi);
                        if !admitted {
                            assert(prof@.groups == groups_in);
                            assert(prof@.groups[x] == pv.groups[x]);
                            match flag {
                                Some(e2) => {
                                    assert(call_ensures(g, (e2,), false));
                                },
                                None => {},
                            }
                        } else {
                            assert(first_ref_flag(pv.mods, pv.groups[x].0) is Some);
                            assert(call_ensures(
                                g,
                                (first_ref_flag(pv.mods, pv.groups[x].0)->0,),
                                true,
                            ));
                            assert(group_updated(p, f, pv.groups[x].1, prof@.groups[x].1));
                        }
                    }
                }
            }
            gi += 1;
        }
        let ghost groups_done = prof@.groups;
        let n = prof.mods.len();
        let mut i: usize = 0;
        while i < n
            invariant
                n == prof.mods@.len(),
                n == pv.mods.len(),
                i <= n,
                prof@.groups == groups_done,
                forall|mc: &ModConfig| #[trigger] call_requires(p, (mc,)),
                forall|mc: &ModConfig| #[trigger] call_requires(f, (mc,)),
                forall|x: int| i <= x < n ==> (#[trigger] prof.mods@[x])@ == pv.mods[x],
                forall|x: int|
                    0 <= x < i ==> match #[trigger] pv.mods[x] {
                        ModOrGroupView::Individual(mc) => prof.mods@[x]@ is Individual
                            && mod_updated(p, f, mc, prof.mods@[x]@->Individual_0),
                        ModOrGroupView::Group { group_name, enabled } => prof.mods@[x]@
                            == pv.mods[x],
                    },
            decreases n - i,
        {
            let repl = match &prof.mods[i] {
                ModOrGroup::Individual(mc) => {
                    let keep = p(mc);
                    proof {
                        let w = prof.mods@[i as int];
                        assert(call_ensures(p, (&w->Individual_0,), keep));
                    }
                    if keep {
                        let y = f(mc);
                        proof {
                            let w = prof.mods@[i as int];
                            assert(call_ensures(f, (&w->Individual_0,), y));
                            assert(mod_updated(p, f, pv.mods[i as int]->Individual_0, y@));
                        }
                        Some(y)
                    } else {
                        proof {
                            assert(mod_updated(
                                p,
                                f,
                                pv.mods[i as int]->Individual_0,
                                pv.mods[i as int]->Individual_0,
                            ));
                        }
                        None
                    }
                },
                ModOrGroup::Group { group_name, enabled } => None,
            };
            match repl {
                Some(y) => {
                    prof.mods.set(i, ModOrGroup::Individual(y));
                },
                None => {},
            }
            i += 1;
        }
        proof {
            assert(rows_updated(p, f, pv.mods, prof@.mods)) by {
                assert forall|x: int| 0 <= x < pv.mods.len() implies match #[trigger] pv.mods[x] {
                    ModOrGroupView::Individual(mc) => prof@.mods[x] is Individual && mod_updated(
                        p,
                        f,
                        mc,
                        prof@.mods[x]->Individual_0,
                    ),
                    ModOrGroupView::Group { group_name, enabled } => prof@.mods[x] == pv.mods[x],
                } by {
                    assert(prof@.mods[x] == prof.mods@[x]@);
                }
            }
            assert(profile_updated(g, p, f, pv, prof@));
        }
        self.profiles.insert_at(pi, pname, prof);
        let ghost pv2 = prof@;
        proof {
            assert(self@.profiles =~= old(self)@.profiles.update(pi as int, (profile@, pv2)));
            assert(self@ == with_profile(old(self)@, profile@, pv2));
            assert(profile_updated(g, p, f, old(self)@.profile(profile@), pv2));
            if old(self)@.wf() {
                assert(pv2.wf()) by {
                    assert forall|x: int| 0 <= x < pv2.groups.len() implies pv2.groups[x].0
                        == pv.groups[x].0 by {}
                    assert(assoc_keys_unique(pv2.groups));
                }
                lemma_with_profile_wf(old(self)@, profile@, pv2);
            }
        }
    }
}

} // verus!
