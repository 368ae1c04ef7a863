//! The army root: detachments built from forces, and the root cost totals
//! selected by fixed type identifiers.

use vstd::prelude::*;

use crate::ability::{spec_ability_from_profile, Ability, AbilityView};
use crate::error::{res_view, RosterError, RosterErrorView};
use crate::fold::{lemma_fold_prefix_err, spec_fold};
use crate::ros_parser::{Cost, Force, Profile, Roster, Selection};
use crate::text::str_eq;
use crate::unit::{spec_cat_names, spec_unit_from_selection, Unit, UnitView};
use vstd::string::StringExecFns;

verus! {

broadcast use vstd::std_specs::vec::group_vec_axioms;

/// One detachment: a named force with its harvested abilities and units.
#[derive(Debug, PartialEq, Eq)]
pub struct Detachment {
    pub name: String,
    pub abilities: Vec<Ability>,
    pub units: Vec<Unit>,
}

/// The mathematical shadow of a [`Detachment`].
pub ghost struct DetachmentView {
    pub name: Seq<char>,
    pub abilities: Seq<AbilityView>,
    pub units: Seq<UnitView>,
}

impl DeepView for Detachment {
    type V = DetachmentView;

    open spec fn deep_view(&self) -> DetachmentView {
        DetachmentView {
            name: self.name@,
            abilities: self.abilities.deep_view(),
            units: self.units.deep_view(),
        }
    }
}

/// A whole army: its detachments and the root cost totals.
#[derive(Debug, PartialEq, Eq)]
pub struct Army {
    pub name: String,
    pub detachments: Vec<Detachment>,
    pub cp: i64,
    pub pl: i64,
    pub pts: i64,
}

/// The mathematical shadow of an [`Army`].
pub ghost struct ArmyView {
    pub name: Seq<char>,
    pub detachments: Seq<DetachmentView>,
    pub cp: i64,
    pub pl: i64,
    pub pts: i64,
}

impl DeepView for Army {
    type V = ArmyView;

    open spec fn deep_view(&self) -> ArmyView {
        ArmyView {
            name: self.name@,
            detachments: self.detachments.deep_view(),
            cp: self.cp,
            pl: self.pl,
            pts: self.pts,
        }
    }
}

/// The abilities and units gathered while walking a force's selections.
pub ghost struct DetachAccView {
    pub abilities: Seq<AbilityView>,
    pub units: Seq<UnitView>,
}

/// One step harvesting a detachment ability from a profile: only
/// `Abilities` and `Allegiance Oath` profiles are understood here.
pub open spec fn spec_harvest_step(st: Seq<AbilityView>, p: Profile) -> Result<
    Seq<AbilityView>,
    RosterErrorView,
> {
    if p.profile_type@ == "Abilities"@ || p.profile_type@ == "Allegiance Oath"@ {
        match spec_ability_from_profile(p) {
            Ok(a) => Ok(st.push(a)),
            Err(e) => Err(e),
        }
    } else {
        Err(RosterErrorView::UnhandledProfileType { profile_type: p.profile_type@ })
    }
}

/// One step over the nested selections of a configuration: each must be an
/// upgrade, and its profiles (if any) are harvested for abilities.
pub open spec fn spec_config_inner_step(st: Seq<AbilityView>, inner: Selection) -> Result<
    Seq<AbilityView>,
    RosterErrorView,
> {
    if inner.selection_type@ != "upgrade"@ {
        Err(RosterErrorView::UnknownSelectionType { selection_type: inner.selection_type@ })
    } else {
        match inner.profiles {
            None => Ok(st),
            Some(ps) => spec_fold(
                |st2: Seq<AbilityView>, p: Profile| spec_harvest_step(st2, p),
                st,
                ps.profiles@,
            ),
        }
    }
}

/// What an upgrade selection contributes at the detachment level. A
/// `Configuration` upgrade must carry no profiles of its own and is
/// searched one level down for ability profiles; a `Stratagems` upgrade is
/// harvested from its own profiles and must carry no nested selections;
/// any other upgrade is passed over.
pub open spec fn spec_upgrade_abilities(st: Seq<AbilityView>, sel: Selection) -> Result<
    Seq<AbilityView>,
    RosterErrorView,
> {
    match sel.categories {
        None => Err(RosterErrorView::MalformedSelection { context: sel.name@ }),
        Some(cats) => {
            let names = spec_cat_names(cats.categories@);
            let after_config = (if names.contains("Configuration"@) {
                if names[0] != "Configuration"@ {
                    Err(RosterErrorView::MalformedSelection { context: sel.name@ })
                } else if sel.profiles is Some {
                    Err(RosterErrorView::MalformedSelection { context: sel.name@ })
                } else {
                    match sel.selections {
                        None => Ok(st),
                        Some(ss) => spec_fold(
                            |st2: Seq<AbilityView>, inner: Selection| spec_config_inner_step(
                                st2,
                                inner,
                            ),
                            st,
                            ss.selections@,
                        ),
                    }
                }
            } else {
                Ok(st)
            });
            match after_config {
                Err(e) => Err(e),
                Ok(st1) => {
                    if names.contains("Stratagems"@) {
                        match spec_fold(
                            |st2: Seq<AbilityView>, p: Profile| spec_harvest_step(st2, p),
                            st1,
                            sel.spec_profiles(),
                        ) {
                            Err(e) => Err(e),
                            Ok(st2) => {
                                if sel.selections is Some {
                                    Err(
                                        RosterErrorView::MalformedSelection {
                                            context: sel.name@,
                                        },
                                    )
                                } else {
                                    Ok(st2)
                                }
                            },
                        }
                    } else {
                        Ok(st1)
                    }
                },
            }
        },
    }
}

/// One step of the fold over a force's selections: upgrades feed the
/// detachment's abilities, `model` and `unit` selections become units,
/// anything else fails.
pub open spec fn spec_detachment_step(acc: DetachAccView, sel: Selection) -> Result<
    DetachAccView,
    RosterErrorView,
> {
    if sel.selection_type@ == "upgrade"@ {
        match spec_upgrade_abilities(acc.abilities, sel) {
            Ok(ab) => Ok(DetachAccView { abilities: ab, ..acc }),
            Err(e) => Err(e),
        }
    } else if sel.selection_type@ == "model"@ || sel.selection_type@ == "unit"@ {
        match spec_unit_from_selection(sel) {
            Ok(u) => Ok(DetachAccView { units: acc.units.push(u), ..acc }),
            Err(e) => Err(e),
        }
    } else {
        Err(RosterErrorView::UnknownSelectionType { selection_type: sel.selection_type@ })
    }
}

/// What `detachment_from_force` returns on a force.
pub open spec fn spec_detachment_from_force(f: Force) -> Result<DetachmentView, RosterErrorView> {
    match spec_fold(
        |acc: DetachAccView, sel: Selection| spec_detachment_step(acc, sel),
        DetachAccView { abilities: Seq::empty(), units: Seq::empty() },
        f.selections.selections@,
    ) {
        Ok(acc) => Ok(
            DetachmentView { name: f.name@, abilities: acc.abilities, units: acc.units },
        ),
        Err(e) => Err(e),
    }
}

/// The root cost totals: command points, power level and points.
#[derive(Debug, Clone, Copy, PartialEq, Eq)]
pub struct CostTotals {
    pub cp: i64,
    pub pl: i64,
    pub pts: i64,
}

impl DeepView for CostTotals {
    type V = CostTotals;

    open spec fn deep_view(&self) -> CostTotals {
        *self
    }
}

/// One step over the root cost list, keyed by the fixed type identifiers
/// of power level, command points and points; any other identifier fails.
pub open spec fn spec_army_cost_step(t: CostTotals, c: Cost) -> Result<
    CostTotals,
    RosterErrorView,
> {
    if c.type_id@ == "e356-c769-5920-6e14"@ {
        Ok(CostTotals { pl: c.value, ..t })
    } else if c.type_id@ == "2d3b-b544-ad49-fb75"@ {
        Ok(CostTotals { cp: c.value, ..t })
    } else if c.type_id@ == "points"@ {
        Ok(CostTotals { pts: c.value, ..t })
    } else {
        Err(RosterErrorView::UnknownCostType { type_id: c.type_id@ })
    }
}

/// The detachments of a list of forces, in order.
pub open spec fn spec_detachments_fold(fs: Seq<Force>) -> Result<
    Seq<DetachmentView>,
    RosterErrorView,
>
    decreases fs.len(),
{
    if fs.len() == 0 {
        Ok(Seq::empty())
    } else {
        match spec_detachments_fold(fs.drop_last()) {
            Ok(ds) => match spec_detachment_from_force(fs.last()) {
                Ok(d) => Ok(ds.push(d)),
                Err(e) => Err(e),
            },
            Err(e) => Err(e),
        }
    }
}

/// What `army_from_roster` returns on a roster: the root cost totals read
/// by fixed type identifier, and one detachment per force.
pub open spec fn spec_army_from_roster(r: Roster) -> Result<ArmyView, RosterErrorView> {
    match spec_fold(
        |t: CostTotals, c: Cost| spec_army_cost_step(t, c),
        CostTotals { cp: 0, pl: 0, pts: 0 },
        r.costs.costs@,
    ) {
        Err(e) => Err(e),
        Ok(t) => match spec_detachments_fold(r.forces.forces@) {
            Err(e) => Err(e),
            Ok(ds) => Ok(
                ArmyView {
                    name: r.name@,
                    detachments: ds,
                    cp: t.cp,
                    pl: t.pl,
                    pts: t.pts,
                },
            ),
        },
    }
}

/// Whether a list of names holds the given one.
fn names_contain(v: &Vec<String>, t: &str) -> (r: bool)
    ensures
        r == v.deep_view().contains(t@),
{
    let n = v.len();
    let mut i: usize = 0;
    while i < n
        invariant
            0 <= i <= n,
            n == v.deep_view().len(),
            forall|k: int| 0 <= k < i ==> #[trigger] v.deep_view()[k] != t@,
        decreases n - i,
    {
        if str_eq(v[i].as_str(), t) {
            assert(v.deep_view()[i as int] == t@);
            return true;
        }
        i = i + 1;
    }
    assert(forall|k: int| 0 <= k < v.deep_view().len() ==> #[trigger] v.deep_view()[k] != t@);
    false
}

/// Harvest detachment abilities from one profile.
fn harvest_step(st: Vec<Ability>, p: &Profile) -> (r: Result<Vec<Ability>, RosterError>)
    ensures
        match r {
            Ok(v) => spec_harvest_step(st.deep_view(), *p) == Ok::<_, RosterErrorView>(
                v.deep_view(),
            ),
            Err(e) => spec_harvest_step(st.deep_view(), *p) == Err::<Seq<AbilityView>, _>(
                e.deep_view(),
            ),
        },
{
    let mut st = st;
    let is_ability = str_eq(p.profile_type.as_str(), "Abilities") || str_eq(
        p.profile_type.as_str(),
        "Allegiance Oath",
    );
    if is_ability {
        match Ability::from_profile(p) {
            Ok(a) => {
                let ghost old_dv = st.deep_view();
                let ghost av = a.deep_view();
                st.push(a);
                proof {
                    assert(st.deep_view() =~= old_dv.push(av));
                }
                Ok(st)
            },
            Err(e) => Err(e),
        }
    } else {
        Err(RosterError::UnhandledProfileType { profile_type: p.profile_type.clone() })
    }
}

/// Harvest detachment abilities from a profile list.
#[verifier::loop_isolation(false)]
fn harvest_fold(st: Vec<Ability>, ps: &crate::ros_parser::Profiles) -> (r: Result<
    Vec<Ability>,
    RosterError,
>)
    ensures
        match r {
            Ok(v) => spec_fold(
                |st2: Seq<AbilityView>, p: Profile| spec_harvest_step(st2, p),
                st.deep_view(),
                ps.profiles@,
            ) == Ok::<_, RosterErrorView>(v.deep_view()),
            Err(e) => spec_fold(
                |st2: Seq<AbilityView>, p: Profile| spec_harvest_step(st2, p),
                st.deep_view(),
                ps.profiles@,
            ) == Err::<Seq<AbilityView>, _>(e.deep_view()),
        },
{
    let ghost st0 = st.deep_view();
    let ghost hstep = |st2: Seq<AbilityView>, p: Profile| spec_harvest_step(st2, p);
    let mut st = st;
    let pn = ps.profiles.len();
    let mut i: usize = 0;
    while i < pn
        invariant
            0 <= i <= pn,
            pn == ps.profiles@.len(),
            spec_fold(hstep, st0, ps.profiles@.take(i as int)) == Ok::<_, RosterErrorView>(
                st.deep_view(),
            ),
        decreases pn - i,
    {
        proof {
            assert(ps.profiles@.take(i + 1).drop_last() =~= ps.profiles@.take(i as int));
            assert(ps.profiles@.take(i + 1).last() == ps.profiles@[i as int]);
            assert(spec_fold(hstep, st0, ps.profiles@.take(i + 1)) == spec_harvest_step(
                st.deep_view(),
                ps.profiles@[i as int],
            ));
        }
        st = match harvest_step(st, &ps.profiles[i]) {
            Ok(s2) => s2,
            Err(e) => {
                proof {
                    lemma_fold_prefix_err(hstep, st0, ps.profiles@, i + 1);
                }
                return Err(e);
            },
        };
        i = i + 1;
    }
    proof {
        assert(ps.profiles@.take(pn as int) =~= ps.profiles@);
    }
    Ok(st)
}

/// The abilities an upgrade selection contributes at the detachment level.
#[verifier::loop_isolation(false)]
#[verifier::rlimit(50)]
fn upgrade_abilities(st: Vec<Ability>, sel: &Selection) -> (r: Result<Vec<Ability>, RosterError>)
    ensures
        match r {
            Ok(v) => spec_upgrade_abilities(st.deep_view(), *sel) == Ok::<_, RosterErrorView>(
                v.deep_view(),
            ),
            Err(e) => spec_upgrade_abilities(st.deep_view(), *sel) == Err::<Seq<AbilityView>, _>(
                e.deep_view(),
            ),
        },
{
    let ghost st0 = st.deep_view();
    let cats = match &sel.categories {
        Some(cats) => cats,
        None => {
            return Err(RosterError::MalformedSelection { context: sel.name.clone() });
        },
    };
    let names = crate::unit::collect_cat_names(cats);
    let mut st = st;
    if names_contain(&names, "Configuration") {
        if !str_eq(names[0].as_str(), "Configuration") {
            return Err(RosterError::MalformedSelection { context: sel.name.clone() });
        }
        if sel.profiles.is_some() {
            return Err(RosterError::MalformedSelection { context: sel.name.clone() });
        }
        match &sel.selections {
            None => {},
            Some(ss) => {
                let ghost istep = |st2: Seq<AbilityView>, inner: Selection|
                    spec_config_inner_step(st2, inner);
                let cn = ss.selections.len();
                let mut j: usize = 0;
                while j < cn
                    invariant
                        0 <= j <= cn,
                        cn == ss.selections@.len(),
                        sel.selections == Some(*ss),
                        spec_fold(istep, st0, ss.selections@.take(j as int)) == Ok::<
                            _,
                            RosterErrorView,
                        >(st.deep_view()),
                    decreases cn - j,
                {
                    proof {
                        assert(ss.selections@.take(j + 1).drop_last() =~= ss.selections@.take(
                            j as int,
                        ));
                        assert(ss.selections@.take(j + 1).last() == ss.selections@[j as int]);
                        assert(spec_fold(istep, st0, ss.selections@.take(j + 1))
                            == spec_config_inner_step(st.deep_view(), ss.selections@[j as int]));
                    }
                    let inner = &ss.selections[j];
                    if !str_eq(inner.selection_type.as_str(), "upgrade") {
                        proof {
                            lemma_fold_prefix_err(istep, st0, ss.selections@, j + 1);
                        }
                        return Err(RosterError::UnknownSelectionType {
                            selection_type: inner.selection_type.clone(),
                        });
                    }
                    match &inner.profiles {
                        None => {},
                        Some(ps) => {
                            st = match harvest_fold(st, ps) {
                                Ok(s2) => s2,
                                Err(e) => {
                                    proof {
                                        lemma_fold_prefix_err(istep, st0, ss.selections@, j + 1);
                                    }
                                    return Err(e);
                                },
                            };
                        },
                    }
                    j = j + 1;
                }
                proof {
                    assert(ss.selections@.take(cn as int) =~= ss.selections@);
                }
            },
        }
    }
    if names_contain(&names, "Stratagems") {
        match &sel.profiles {
            None => {
                proof {
                    assert(sel.spec_profiles() =~= Seq::<Profile>::empty());
                }
            },
            Some(ps) => {
                st = match harvest_fold(st, ps) {
                    Ok(s2) => s2,
                    Err(e) => {
                        return Err(e);
                    },
                };
            },
        }
        if sel.selections.is_some() {
            return Err(RosterError::MalformedSelection { context: sel.name.clone() });
        }
    }
    Ok(st)
}

/// Build one detachment from a force: its upgrades feed the abilities,
/// its `model` and `unit` selections become units.
#[verifier::loop_isolation(false)]
#[verifier::rlimit(50)]
pub fn detachment_from_force(force: &Force) -> (r: Result<Detachment, RosterError>)
    ensures
        res_view(r) == spec_detachment_from_force(*force),
{
    let ghost dstep = |acc: DetachAccView, sel: Selection| spec_detachment_step(acc, sel);
    let ghost acc0 = DetachAccView { abilities: Seq::empty(), units: Seq::empty() };
    let mut abilities: Vec<Ability> = Vec::new();
    let mut units: Vec<Unit> = Vec::new();
    proof {
        assert(abilities.deep_view() =~= Seq::<AbilityView>::empty());
        assert(units.deep_view() =~= Seq::<UnitView>::empty());
    }
    let sn = force.selections.selections.len();
    let mut i: usize = 0;
    while i < sn
        invariant
            0 <= i <= sn,
            sn == force.selections.selections@.len(),
            spec_fold(dstep, acc0, force.selections.selections@.take(i as int)) == Ok::<
                _,
                RosterErrorView,
            >(DetachAccView { abilities: abilities.deep_view(), units: units.deep_view() }),
        decreases sn - i,
    {
        proof {
            assert(force.selections.selections@.take(i + 1).drop_last() =~= force.selections
                .selections@.take(i as int));
            assert(force.selections.selections@.take(i + 1).last() == force.selections
                .selections@[i as int]);
            assert(spec_fold(dstep, acc0, force.selections.selections@.take(i + 1))
                == spec_detachment_step(
                DetachAccView { abilities: abilities.deep_view(), units: units.deep_view() },
                force.selections.selections@[i as int],
            ));
        }
        let sel = &force.selections.selections[i];
        if str_eq(sel.selection_type.as_str(), "upgrade") {
            abilities = match upgrade_abilities(abilities, sel) {
                Ok(a2) => a2,
                Err(e) => {
                    proof {
                        lemma_fold_prefix_err(dstep, acc0, force.selections.selections@, i + 1);
                    }
                    return Err(e);
                },
            };
        } else if str_eq(sel.selection_type.as_str(), "model") || str_eq(
            sel.selection_type.as_str(),
            "unit",
        ) {
            match Unit::from_selection(sel) {
                Ok(u) => {
                    let ghost old_dv = units.deep_view();
                    let ghost uv = u.deep_view();
                    units.push(u);
                    proof {
                        assert(units.deep_view() =~= old_dv.push(uv));
                    }
                },
                Err(e) => {
                    proof {
                        lemma_fold_prefix_err(dstep, acc0, force.selections.selections@, i + 1);
                    }
                    return Err(e);
                },
            }
        } else {
            proof {
                lemma_fold_prefix_err(dstep, acc0, force.selections.selections@, i + 1);
            }
            return Err(RosterError::UnknownSelectionType {
                selection_type: sel.selection_type.clone(),
            });
        }
        i = i + 1;
    }
    proof {
        assert(force.selections.selections@.take(sn as int) =~= force.selections.selections@);
    }
    Ok(Detachment { name: force.name.clone(), abilities, units })
}

/// Build a whole army from a roster: read the root cost totals by their
/// fixed type identifiers, then one detachment per force.
#[verifier::loop_isolation(false)]
#[verifier::rlimit(50)]
pub fn army_from_roster(roster: &Roster) -> (r: Result<Army, RosterError>)
    ensures
        res_view(r) == spec_army_from_roster(*roster),
{
    let ghost cstep = |t: CostTotals, c: Cost| spec_army_cost_step(t, c);
    let ghost t0 = CostTotals { cp: 0, pl: 0, pts: 0 };
    let mut totals = CostTotals { cp: 0, pl: 0, pts: 0 };
    let cn = roster.costs.costs.len();
    let mut i: usize = 0;
    while i < cn
        invariant
            0 <= i <= cn,
            cn == roster.costs.costs@.len(),
            spec_fold(cstep, t0, roster.costs.costs@.take(i as int)) == Ok::<_, RosterErrorView>(
                totals,
            ),
        decreases cn - i,
    {
        proof {
            assert(roster.costs.costs@.take(i + 1).drop_last() =~= roster.costs.costs@.take(
                i as int,
            ));
            assert(roster.costs.costs@.take(i + 1).last() == roster.costs.costs@[i as int]);
            assert(spec_fold(cstep, t0, roster.costs.costs@.take(i + 1)) == spec_army_cost_step(
                totals,
                roster.costs.costs@[i as int],
            ));
        }
        let c = &roster.costs.costs[i];
        if str_eq(c.type_id.as_str(), "e356-c769-5920-6e14") {
            totals.pl = c.value;
        } else if str_eq(c.type_id.as_str(), "2d3b-b544-ad49-fb75") {
            totals.cp = c.value;
        } else if str_eq(c.type_id.as_str(), "points") {
            totals.pts = c.value;
        } else {
            proof {
                lemma_fold_prefix_err(cstep, t0, roster.costs.costs@, i + 1);
            }
            return Err(RosterError::UnknownCostType { type_id: c.type_id.clone() });
        }
        i = i + 1;
    }
    proof {
        assert(roster.costs.costs@.take(cn as int) =~= roster.costs.costs@);
    }
    let mut detachments: Vec<Detachment> = Vec::new();
    proof {
        assert(detachments.deep_view() =~= Seq::<DetachmentView>::empty());
        assert(roster.forces.forces@.take(0) =~= Seq::<Force>::empty());
    }
    let fcount = roster.forces.forces.len();
    let mut j: usize = 0;
    while j < fcount
        invariant
            0 <= j <= fcount,
            fcount == roster.forces.forces@.len(),
            spec_detachments_fold(roster.forces.forces@.take(j as int)) == Ok::<
                _,
                RosterErrorView,
            >(detachments.deep_view()),
        decreases fcount - j,
    {
        proof {
            assert(roster.forces.forces@.take(j + 1).drop_last() =~= roster.forces.forces@.take(
                j as int,
            ));
            assert(roster.forces.forces@.take(j + 1).last() == roster.forces.forces@[j as int]);
        }
        match detachment_from_force(&roster.forces.forces[j]) {
            Ok(d) => {
                let ghost old_dv = detachments.deep_view();
                let ghost dv = d.deep_view();
                detachments.push(d);
                proof {
                    assert(detachments.deep_view() =~= old_dv.push(dv));
                }
            },
            Err(e) => {
                proof {
                    lemma_detachments_fold_prefix_err(roster.forces.forces@, j + 1);
                }
                return Err(e);
            },
        }
        j = j + 1;
    }
    proof {
        assert(roster.forces.forces@.take(fcount as int) =~= roster.forces.forces@);
    }
    Ok(
        Army {
            name: roster.name.clone(),
            detachments,
            cp: totals.cp,
            pl: totals.pl,
            pts: totals.pts,
        },
    )
}

/// Once a prefix of the detachment fold has failed, the whole fold fails
/// the same way.
proof fn lemma_detachments_fold_prefix_err(fs: Seq<Force>, i: int)
    requires
        0 <= i <= fs.len(),
        spec_detachments_fold(fs.take(i)) is Err,
    ensures
        spec_detachments_fold(fs) == spec_detachments_fold(fs.take(i)),
    decreases fs.len() - i,
{
    if i < fs.len() {
        assert(fs.take(i + 1).drop_last() =~= fs.take(i));
        lemma_detachments_fold_prefix_err(fs, i + 1);
    } else {
        assert(fs.take(i) =~= fs);
    }
}

/// A successful detachment fold means every force in the prefix built.
proof fn lemma_detachments_fold_ok(fs: Seq<Force>, i: int)
    requires
        0 <= i < fs.len(),
        spec_detachments_fold(fs) is Ok,
    ensures
        spec_detachment_from_force(fs[i]) is Ok,
    decreases fs.len(),
{
    if i == fs.len() - 1 {
    } else {
        assert(fs.drop_last()[i] == fs[i]);
        lemma_detachments_fold_ok(fs.drop_last(), i);
    }
}

/// An army builds only when every force builds as a detachment: one
/// failing force aborts the whole army.
pub proof fn lemma_army_ok_detachments_parse(r: Roster, i: int)
    requires
        spec_army_from_roster(r) is Ok,
        0 <= i < r.forces.forces@.len(),
    ensures
        spec_detachment_from_force(r.forces.forces@[i]) is Ok,
{
    lemma_detachments_fold_ok(r.forces.forces@, i);
}

/// A detachment builds only when each of its `model` and `unit`
/// selections builds as a unit: one failing unit aborts the detachment.
pub proof fn lemma_detachment_ok_units_parse(f: Force, i: int)
    requires
        spec_detachment_from_force(f) is Ok,
        0 <= i < f.selections.selections@.len(),
        f.selections.selections@[i].selection_type@ == "model"@ || f.selections.selections@[
            i
        ].selection_type@ == "unit"@,
    ensures
        spec_unit_from_selection(f.selections.selections@[i]) is Ok,
{
    let q = f.selections.selections@;
    let acc0 = DetachAccView { abilities: Seq::empty(), units: Seq::empty() };
    let dstep = |acc: DetachAccView, sel: Selection| spec_detachment_step(acc, sel);
    crate::fold::lemma_fold_ok_prefix(dstep, acc0, q, i + 1);
    crate::fold::lemma_fold_ok_prefix(dstep, acc0, q, i);
    assert(q.take(i + 1).drop_last() =~= q.take(i));
    assert(q.take(i + 1).last() == q[i]);
    let before = spec_fold(dstep, acc0, q.take(i));
    assert(spec_fold(dstep, acc0, q.take(i + 1)) == spec_detachment_step(before->Ok_0, q[i]));
    proof_helper_upgrade_tags_differ();
}

/// The `upgrade` tag differs from `model` and `unit`.
proof fn proof_helper_upgrade_tags_differ()
    ensures
        "upgrade"@ != "model"@,
        "upgrade"@ != "unit"@,
{
    reveal_strlit("upgrade");
    reveal_strlit("model");
    reveal_strlit("unit");
    assert("upgrade"@.len() == 7);
    assert("model"@.len() == 5);
    assert("unit"@.len() == 4);
}

} // verus!
