//! Abilities: free-text effects attached to profiles, and the recursive
//! extraction of every ability profile below a selection.

use vstd::prelude::*;

use crate::error::{res_view, RosterError, RosterErrorView};
use crate::ros_parser::{lemma_child_vec_decreases, Characteristic, Profile, Selection};
use crate::text::str_eq;
use vstd::string::StringExecFns;

verus! {

broadcast use vstd::std_specs::vec::group_vec_axioms;

/// A named free-text effect. A generic escape hatch: the text is not
/// further interpreted.
#[derive(Debug, PartialEq, Eq)]
pub struct Ability {
    pub value: String,
    pub name: String,
}

/// The mathematical shadow of an [`Ability`].
pub ghost struct AbilityView {
    pub value: Seq<char>,
    pub name: Seq<char>,
}

impl DeepView for Ability {
    type V = AbilityView;

    open spec fn deep_view(&self) -> AbilityView {
        AbilityView { value: self.value@, name: self.name@ }
    }
}

impl Clone for Ability {
    fn clone(&self) -> (r: Self)
        ensures
            r == *self,
    {
        Ability { value: self.value.clone(), name: self.name.clone() }
    }
}

/// The text of an optional characteristic value, empty when absent.
pub open spec fn spec_value_or_empty(v: Option<String>) -> Seq<char> {
    match v {
        Some(s) => s@,
        None => Seq::empty(),
    }
}

/// The text of an optional characteristic value, empty when absent.
pub fn value_or_empty(v: &Option<String>) -> (r: String)
    ensures
        r@ == spec_value_or_empty(*v),
{
    match v {
        Some(s) => s.clone(),
        None => String::new(),
    }
}

/// What `Ability::from_profile` returns: the description characteristic of
/// an ability profile, or the error that rejects the record.
pub open spec fn spec_ability_from_profile(p: Profile) -> Result<AbilityView, RosterErrorView> {
    if p.profile_type@ != "Abilities"@ && p.profile_type@ != "Allegiance Oath"@ {
        Err(RosterErrorView::UnhandledProfileType { profile_type: p.profile_type@ })
    } else if p.characteristics.characteristics@.len() == 0 {
        Err(RosterErrorView::MalformedSelection { context: p.name@ })
    } else {
        let c = p.characteristics.characteristics@[0];
        if c.name@ == "Description"@ {
            Ok(AbilityView { value: spec_value_or_empty(c.value), name: c.name@ })
        } else {
            Err(RosterErrorView::UnknownCharacteristic { name: c.name@ })
        }
    }
}

impl Ability {
    /// Read one ability from an `Abilities` (or `Allegiance Oath`) profile:
    /// its first characteristic must be the description.
    pub fn from_profile(profile: &Profile) -> (r: Result<Ability, RosterError>)
        ensures
            res_view(r) == spec_ability_from_profile(*profile),
    {
        if !str_eq(profile.profile_type.as_str(), "Abilities") && !str_eq(
            profile.profile_type.as_str(),
            "Allegiance Oath",
        ) {
            return Err(RosterError::UnhandledProfileType {
                profile_type: profile.profile_type.clone(),
            });
        }
        if profile.characteristics.characteristics.len() == 0 {
            return Err(RosterError::MalformedSelection { context: profile.name.clone() });
        }
        let c = &profile.characteristics.characteristics[0];
        if str_eq(c.name.as_str(), "Description") {
            Ok(Ability { value: value_or_empty(&c.value), name: c.name.clone() })
        } else {
            Err(RosterError::UnknownCharacteristic { name: c.name.clone() })
        }
    }
}

/// The abilities contributed by one characteristic list of an ability
/// profile named `pname`: one entry per characteristic.
pub open spec fn spec_chars_abilities(pname: Seq<char>, cs: Seq<Characteristic>) -> Seq<
    AbilityView,
>
    decreases cs.len(),
{
    if cs.len() == 0 {
        Seq::empty()
    } else {
        spec_chars_abilities(pname, cs.drop_last()).push(
            AbilityView { value: spec_value_or_empty(cs.last().value), name: pname },
        )
    }
}

/// The abilities contributed by a profile list: every characteristic of
/// every profile typed `Abilities`, in order.
pub open spec fn spec_profiles_abilities(ps: Seq<Profile>) -> Seq<AbilityView>
    decreases ps.len(),
{
    if ps.len() == 0 {
        Seq::empty()
    } else {
        spec_profiles_abilities(ps.drop_last()) + (if ps.last().profile_type@ == "Abilities"@ {
            spec_chars_abilities(ps.last().name@, ps.last().characteristics.characteristics@)
        } else {
            Seq::empty()
        })
    }
}

/// What `parse_abilities` returns on a selection: the abilities of every
/// descendant selection (depth first), then the selection's own.
pub open spec fn spec_parse_abilities(s: Selection) -> Seq<AbilityView>
    decreases s,
    via spec_parse_abilities_decreases
{
    (match s.selections {
        Some(ss) => spec_parse_abilities_children(ss.selections@),
        None => Seq::empty(),
    }) + spec_profiles_abilities(s.spec_profiles())
}

#[via_fn]
proof fn spec_parse_abilities_decreases(s: Selection) {
    match s.selections {
        Some(ss) => {
            lemma_child_vec_decreases(s, ss);
        },
        None => {},
    }
}

/// The abilities of a list of sibling selections, in order.
pub open spec fn spec_parse_abilities_children(q: Seq<Selection>) -> Seq<AbilityView>
    decreases q,
{
    if q.len() == 0 {
        Seq::empty()
    } else {
        spec_parse_abilities_children(q.drop_last()) + spec_parse_abilities(q.last())
    }
}

/// Collect every ability profile at or below `selection`: descendants
/// first, then the selection's own profile list.
pub fn parse_abilities(selection: &Selection) -> (r: Vec<Ability>)
    ensures
        r.deep_view() == spec_parse_abilities(*selection),
    decreases *selection,
{
    let mut v: Vec<Ability> = Vec::new();
    match &selection.selections {
        Some(ss) => {
            let n = ss.selections.len();
            let mut i: usize = 0;
            while i < n
                invariant
                    0 <= i <= n,
                    n == ss.selections@.len(),
                    selection.selections == Some(*ss),
                    v.deep_view() == spec_parse_abilities_children(ss.selections@.take(i as int)),
                decreases n - i,
            {
                proof {
                    assert(ss.selections@.take(i + 1).drop_last() =~= ss.selections@.take(i as int));
                    assert(ss.selections@.take(i + 1).last() == ss.selections@[i as int]);
                    lemma_child_vec_decreases(*selection, *ss);
                    assert(decreases_to!(ss.selections@ => ss.selections@[i as int]));
                }
                let mut child = parse_abilities(&ss.selections[i]);
                let ghost old_dv = v.deep_view();
                let ghost child_dv = child.deep_view();
                v.append(&mut child);
                proof {
                    assert(v.deep_view() =~= old_dv + child_dv);
                }
                i = i + 1;
            }
            proof {
                assert(ss.selections@.take(n as int) =~= ss.selections@);
            }
        },
        None => {
            proof {
                assert(selection.spec_children() =~= Seq::<Selection>::empty());
            }
        },
    }
    let ghost children_dv = v.deep_view();
    match &selection.profiles {
        Some(ps) => {
            let m = ps.profiles.len();
            let mut j: usize = 0;
            while j < m
                invariant
                    0 <= j <= m,
                    m == ps.profiles@.len(),
                    ps == selection.profiles->0,
                    v.deep_view() == children_dv + spec_profiles_abilities(
                        ps.profiles@.take(j as int),
                    ),
                decreases m - j,
            {
                proof {
                    assert(ps.profiles@.take(j + 1).drop_last() =~= ps.profiles@.take(j as int));
                    assert(ps.profiles@.take(j + 1).last() == ps.profiles@[j as int]);
                }
                let p = &ps.profiles[j];
                if str_eq(p.profile_type.as_str(), "Abilities") {
                    let cs = &p.characteristics.characteristics;
                    let cn = cs.len();
                    let mut k: usize = 0;
                    while k < cn
                        invariant
                            0 <= k <= cn,
                            cn == cs@.len(),
                            cs == &p.characteristics.characteristics,
                            p == &ps.profiles@[j as int],
                            0 <= j < ps.profiles@.len(),
                            v.deep_view() == children_dv + spec_profiles_abilities(
                                ps.profiles@.take(j as int),
                            ) + spec_chars_abilities(p.name@, cs@.take(k as int)),
                        decreases cn - k,
                    {
                        proof {
                            assert(cs@.take(k + 1).drop_last() =~= cs@.take(k as int));
                            assert(cs@.take(k + 1).last() == cs@[k as int]);
                        }
                        let c = &cs[k];
                        let ghost old_dv = v.deep_view();
                        v.push(Ability { value: value_or_empty(&c.value), name: p.name.clone() });
                        proof {
                            assert(v.deep_view() =~= old_dv.push(
                                AbilityView {
                                    value: spec_value_or_empty(c.value),
                                    name: p.name@,
                                },
                            ));
                        }
                        k = k + 1;
                    }
                    proof {
                        assert(cs@.take(cn as int) =~= cs@);
                        assert(v.deep_view() =~= children_dv + spec_profiles_abilities(
                            ps.profiles@.take(j + 1),
                        ));
                    }
                } else {
                    proof {
                        assert(v.deep_view() =~= children_dv + spec_profiles_abilities(
                            ps.profiles@.take(j + 1),
                        ));
                    }
                }
                j = j + 1;
            }
            proof {
                assert(ps.profiles@.take(m as int) =~= ps.profiles@);
            }
        },
        None => {
            proof {
                assert(selection.spec_profiles() =~= Seq::<Profile>::empty());
                assert(v.deep_view() =~= children_dv + spec_profiles_abilities(
                    selection.spec_profiles(),
                ));
            }
        },
    }
    v
}

} // verus!
