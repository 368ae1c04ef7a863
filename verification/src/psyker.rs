//! Psyker records: the cast/deny profile of a psyker and the description of
//! one psychic power.

use vstd::prelude::*;

use crate::ability::{spec_value_or_empty, value_or_empty};
use crate::error::{res_view, RosterError, RosterErrorView};
use crate::fold::{lemma_fold_prefix_err, spec_fold};
use crate::ros_parser::{Characteristic, Profile};
use crate::text::{parse_leading_u8, parse_plain_u8, spec_parse_leading_u8, spec_parse_u8, str_eq};
use vstd::string::StringExecFns;

verus! {

/// One psychic power: name, range, warp charge and free-text details.
#[derive(Debug, PartialEq, Eq)]
pub struct PsychicPower {
    pub name: String,
    pub warp_charge: u8,
    pub range: u8,
    pub details: String,
}

/// The mathematical shadow of a [`PsychicPower`].
pub ghost struct PsychicPowerView {
    pub name: Seq<char>,
    pub warp_charge: u8,
    pub range: u8,
    pub details: Seq<char>,
}

impl DeepView for PsychicPower {
    type V = PsychicPowerView;

    open spec fn deep_view(&self) -> PsychicPowerView {
        PsychicPowerView {
            name: self.name@,
            warp_charge: self.warp_charge,
            range: self.range,
            details: self.details@,
        }
    }
}

impl Clone for PsychicPower {
    fn clone(&self) -> (r: Self)
        ensures
            r == *self,
    {
        PsychicPower {
            name: self.name.clone(),
            warp_charge: self.warp_charge,
            range: self.range,
            details: self.details.clone(),
        }
    }
}

/// How many powers a psyker casts and denies each turn.
#[derive(Debug, Clone, Copy, PartialEq, Eq)]
pub struct PsykerProfile {
    pub num_casts: u8,
    pub num_deny: u8,
}

impl DeepView for PsykerProfile {
    type V = PsykerProfile;

    open spec fn deep_view(&self) -> PsykerProfile {
        *self
    }
}

/// One step of the psyker-profile fold: how one characteristic updates the
/// partial record.
pub open spec fn spec_psyker_step(st: PsykerProfile, c: Characteristic) -> Result<
    PsykerProfile,
    RosterErrorView,
> {
    let v = spec_value_or_empty(c.value);
    if c.name@ == "Cast"@ {
        match spec_parse_u8(v) {
            Some(n) => Ok(PsykerProfile { num_casts: n, ..st }),
            None => Err(RosterErrorView::MalformedStatValue { token: v }),
        }
    } else if c.name@ == "Deny"@ {
        match spec_parse_u8(v) {
            Some(n) => Ok(PsykerProfile { num_deny: n, ..st }),
            None => Err(RosterErrorView::MalformedStatValue { token: v }),
        }
    } else if c.name@ == "Powers Known"@ {
        Ok(st)
    } else if c.name@ == "Other"@ {
        if c.value is Some {
            Err(RosterErrorView::MalformedSelection { context: c.name@ })
        } else {
            Ok(st)
        }
    } else {
        Err(RosterErrorView::UnknownCharacteristic { name: c.name@ })
    }
}

/// What `PsykerProfile::from_profile` returns on a profile.
pub open spec fn spec_psyker_from_profile(p: Profile) -> Result<PsykerProfile, RosterErrorView> {
    spec_fold(
        |st: PsykerProfile, c: Characteristic| spec_psyker_step(st, c),
        PsykerProfile { num_casts: 0, num_deny: 0 },
        p.characteristics.characteristics@,
    )
}

impl PsykerProfile {
    /// Read the cast and deny counts from a `Psyker` profile.
    #[verifier::loop_isolation(false)]
    pub fn from_profile(profile: &Profile) -> (r: Result<PsykerProfile, RosterError>)
        ensures
            res_view(r) == spec_psyker_from_profile(*profile),
    {
        let ghost step = |st: PsykerProfile, c: Characteristic| spec_psyker_step(st, c);
        let ghost init = PsykerProfile { num_casts: 0, num_deny: 0 };
        let cs = &profile.characteristics.characteristics;
        let n = cs.len();
        let mut st = PsykerProfile { num_casts: 0, num_deny: 0 };
        let mut i: usize = 0;
        while i < n
            invariant
                0 <= i <= n,
                n == cs@.len(),
                cs == &profile.characteristics.characteristics,
                spec_fold(step, init, cs@.take(i as int)) == Ok::<_, RosterErrorView>(st),
            decreases n - i,
        {
            proof {
                assert(cs@.take(i + 1).drop_last() =~= cs@.take(i as int));
                assert(cs@.take(i + 1).last() == cs@[i as int]);
                assert(step(st, cs@[i as int]) == spec_psyker_step(st, cs@[i as int]));
                assert(spec_fold(step, init, cs@.take(i + 1)) == spec_psyker_step(
                    st,
                    cs@[i as int],
                ));
            }
            let c = &cs[i];
            let v = value_or_empty(&c.value);
            if str_eq(c.name.as_str(), "Cast") {
                match parse_plain_u8(v.as_str()) {
                    Some(nv) => {
                        st = PsykerProfile { num_casts: nv, ..st };
                    },
                    None => {
                        proof {
                            lemma_fold_prefix_err(step, init, cs@, i + 1);
                        }
                        return Err(RosterError::MalformedStatValue { token: v });
                    },
                }
            } else if str_eq(c.name.as_str(), "Deny") {
                match parse_plain_u8(v.as_str()) {
                    Some(nv) => {
                        st = PsykerProfile { num_deny: nv, ..st };
                    },
                    None => {
                        proof {
                            lemma_fold_prefix_err(step, init, cs@, i + 1);
                        }
                        return Err(RosterError::MalformedStatValue { token: v });
                    },
                }
            } else if str_eq(c.name.as_str(), "Powers Known") {
            } else if str_eq(c.name.as_str(), "Other") {
                if c.value.is_some() {
                    proof {
                        lemma_fold_prefix_err(step, init, cs@, i + 1);
                    }
                    return Err(RosterError::MalformedSelection { context: c.name.clone() });
                }
            } else {
                proof {
                    lemma_fold_prefix_err(step, init, cs@, i + 1);
                }
                return Err(RosterError::UnknownCharacteristic { name: c.name.clone() });
            }
            i = i + 1;
        }
        proof {
            assert(cs@.take(n as int) =~= cs@);
        }
        Ok(st)
    }
}

/// One step of the psychic-power fold.
pub open spec fn spec_power_step(st: PsychicPowerView, c: Characteristic) -> Result<
    PsychicPowerView,
    RosterErrorView,
> {
    let v = spec_value_or_empty(c.value);
    if c.name@ == "Range"@ {
        match spec_parse_leading_u8(v) {
            Some(n) => Ok(PsychicPowerView { range: n, ..st }),
            None => Ok(PsychicPowerView { range: 0, ..st }),
        }
    } else if c.name@ == "Warp Charge"@ {
        match spec_parse_u8(v) {
            Some(n) => Ok(PsychicPowerView { warp_charge: n, ..st }),
            None => Err(RosterErrorView::MalformedStatValue { token: v }),
        }
    } else if c.name@ == "Details"@ {
        Ok(PsychicPowerView { details: v, ..st })
    } else {
        Err(RosterErrorView::UnknownCharacteristic { name: c.name@ })
    }
}

/// What `PsychicPower::from_profile` returns on a profile.
pub open spec fn spec_power_from_profile(p: Profile) -> Result<PsychicPowerView, RosterErrorView> {
    spec_fold(
        |st: PsychicPowerView, c: Characteristic| spec_power_step(st, c),
        PsychicPowerView { name: p.name@, warp_charge: 0, range: 0, details: Seq::empty() },
        p.characteristics.characteristics@,
    )
}

impl PsychicPower {
    /// Read one psychic power from a `Psychic Power` profile.
    #[verifier::loop_isolation(false)]
    pub fn from_profile(profile: &Profile) -> (r: Result<PsychicPower, RosterError>)
        ensures
            res_view(r) == spec_power_from_profile(*profile),
    {
        let ghost step = |st: PsychicPowerView, c: Characteristic| spec_power_step(st, c);
        let ghost init = PsychicPowerView {
            name: profile.name@,
            warp_charge: 0,
            range: 0,
            details: Seq::empty(),
        };
        let cs = &profile.characteristics.characteristics;
        let n = cs.len();
        let mut st = PsychicPower {
            name: profile.name.clone(),
            warp_charge: 0,
            range: 0,
            details: String::new(),
        };
        let mut i: usize = 0;
        while i < n
            invariant
                0 <= i <= n,
                n == cs@.len(),
                cs == &profile.characteristics.characteristics,
                spec_fold(step, init, cs@.take(i as int)) == Ok::<_, RosterErrorView>(
                    st.deep_view(),
                ),
            decreases n - i,
        {
            proof {
                assert(cs@.take(i + 1).drop_last() =~= cs@.take(i as int));
                assert(cs@.take(i + 1).last() == cs@[i as int]);
                assert(step(st.deep_view(), cs@[i as int]) == spec_power_step(
                    st.deep_view(),
                    cs@[i as int],
                ));
                assert(spec_fold(step, init, cs@.take(i + 1)) == spec_power_step(
                    st.deep_view(),
                    cs@[i as int],
                ));
            }
            let c = &cs[i];
            let v = value_or_empty(&c.value);
            if str_eq(c.name.as_str(), "Range") {
                match parse_leading_u8(v.as_str()) {
                    Some(nv) => {
                        st.range = nv;
                    },
                    None => {
                        st.range = 0;
                    },
                }
            } else if str_eq(c.name.as_str(), "Warp Charge") {
                match parse_plain_u8(v.as_str()) {
                    Some(nv) => {
                        st.warp_charge = nv;
                    },
                    None => {
                        proof {
                            lemma_fold_prefix_err(step, init, cs@, i + 1);
                        }
                        return Err(RosterError::MalformedStatValue { token: v });
                    },
                }
            } else if str_eq(c.name.as_str(), "Details") {
                st.details = v;
            } else {
                proof {
                    lemma_fold_prefix_err(step, init, cs@, i + 1);
                }
                return Err(RosterError::UnknownCharacteristic { name: c.name.clone() });
            }
            i = i + 1;
        }
        proof {
            assert(cs@.take(n as int) =~= cs@);
        }
        Ok(st)
    }
}

} // verus!
