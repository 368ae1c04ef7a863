//! Units and models: the model stat-line parser with its movement, skill
//! and wounds notations, the stat-override tier merge, the model and unit
//! assemblers, and the recursive points total.

use vstd::prelude::*;

use crate::ability::{parse_abilities, spec_parse_abilities, spec_value_or_empty, value_or_empty,
    Ability, AbilityView};
use crate::error::{res_view, RosterError, RosterErrorView};
use crate::fold::{lemma_fold_prefix_err, spec_fold};
use crate::profile::{spec_parse_stat_value, ProfileValue};
use crate::psyker::{spec_power_from_profile, spec_psyker_from_profile, PsychicPower,
    PsychicPowerView, PsykerProfile};
use crate::ros_parser::{lemma_child_vec_decreases, Characteristic, Cost, Profile, Selection};
use crate::text::{add_i64_clamped, add_u8_clamped, clamp_i64, clamped_add_u8, digits_prefix_len,
    digits_val, lemma_digits_prefix_len_characterization, parse_digits_capped, parse_plain_u8,
    scan_digits, sort_dedup_strings, spec_parse_u8, str_eq};
use crate::weapon::{merge_weapons, spec_merge_weapons, spec_weapon_from_characteristics,
    spec_weapon_from_profile, spec_weapon_from_selection, weapon_names_unique, Weapon,
    WeaponProfile, WeaponView};
use vstd::string::StrSliceExecFns;
use vstd::string::StringExecFns;

verus! {

broadcast use vstd::std_specs::vec::group_vec_axioms;

/// What a movement token denotes: a plain distance, a minimum-maximum
/// range, or no distance at all (the value lives in a stat-override tier,
/// or the model cannot move).
#[derive(Debug, Clone, Copy, PartialEq, Eq)]
pub enum MovementToken {
    Plain(u8),
    Span(u8, u8),
    Absent,
}

/// What the movement token parses to: `6"` is a plain distance, `3-9"` a
/// minimum and maximum, anything else is absent.
pub open spec fn spec_parse_movement(s: Seq<char>) -> MovementToken {
    let k = digits_prefix_len(s) as int;
    if k >= 1 && k < s.len() && s[k] == '"' && digits_val(s.take(k)) <= 255 {
        MovementToken::Plain(digits_val(s.take(k)) as u8)
    } else if k >= 1 && k < s.len() && s[k] == '-' {
        let rest = s.skip(k + 1);
        let k2 = digits_prefix_len(rest) as int;
        if k2 >= 1 && k + 1 + k2 < s.len() && s[k + 1 + k2] == '"' && digits_val(s.take(k)) <= 255
            && digits_val(rest.take(k2)) <= 255 {
            MovementToken::Span(digits_val(s.take(k)) as u8, digits_val(rest.take(k2)) as u8)
        } else {
            MovementToken::Absent
        }
    } else {
        MovementToken::Absent
    }
}

/// Parse a movement token.
pub fn parse_movement(s: &str) -> (r: MovementToken)
    ensures
        r == spec_parse_movement(s@),
{
    let n = s.unicode_len();
    let k = scan_digits(s, 0);
    proof {
        lemma_digits_prefix_len_characterization(s@, k as int);
        assert(s@.subrange(0, k as int) =~= s@.take(k as int));
    }
    if k >= 1 && k < n && s.get_char(k) == '"' {
        match parse_digits_capped(s, 0, k, 255) {
            Some(v) => MovementToken::Plain(v as u8),
            None => MovementToken::Absent,
        }
    } else if k >= 1 && k < n && s.get_char(k) == '-' {
        let k2 = scan_digits(s, k + 1);
        proof {
            let rest = s@.skip(k + 1);
            assert forall|i: int| 0 <= i < k2 - (k + 1) implies crate::text::is_digit(
                #[trigger] rest[i],
            ) by {
                assert(rest[i] == s@[k + 1 + i]);
            }
            if k2 < n {
                assert(rest[k2 - (k + 1)] == s@[k2 as int]);
            }
            lemma_digits_prefix_len_characterization(rest, k2 - (k + 1));
            assert(s@.subrange(k + 1, k2 as int) =~= rest.take(k2 - (k + 1)));
        }
        if k2 - (k + 1) >= 1 && k2 < n && s.get_char(k2) == '"' {
            match parse_digits_capped(s, 0, k, 255) {
                Some(lo) => {
                    match parse_digits_capped(s, k + 1, k2, 255) {
                        Some(hi) => MovementToken::Span(lo as u8, hi as u8),
                        None => MovementToken::Absent,
                    }
                },
                None => MovementToken::Absent,
            }
        } else {
            MovementToken::Absent
        }
    } else {
        MovementToken::Absent
    }
}

/// What a `N+` skill or save token parses to: the number before the plus,
/// or zero when the token has any other shape ("resolved elsewhere or not
/// applicable").
pub open spec fn spec_parse_up(s: Seq<char>) -> u8 {
    let k = digits_prefix_len(s) as int;
    if k >= 1 && k + 1 == s.len() && s[k] == '+' && digits_val(s.take(k)) <= 255 {
        digits_val(s.take(k)) as u8
    } else {
        0
    }
}

/// Parse a `N+` token.
pub fn parse_up(s: &str) -> (r: u8)
    ensures
        r == spec_parse_up(s@),
{
    let n = s.unicode_len();
    let k = scan_digits(s, 0);
    proof {
        lemma_digits_prefix_len_characterization(s@, k as int);
        assert(s@.subrange(0, k as int) =~= s@.take(k as int));
    }
    if k >= 1 && k < n && k + 1 == n && s.get_char(k) == '+' {
        match parse_digits_capped(s, 0, k, 255) {
            Some(v) => v as u8,
            None => 0,
        }
    } else {
        0
    }
}

/// What a `lo-hi` wounds-remaining range parses to: the higher bound, or
/// nothing when the token is not a range.
pub open spec fn spec_parse_range_hi(s: Seq<char>) -> Option<u8> {
    let k = digits_prefix_len(s) as int;
    if k >= 1 && k < s.len() && s[k] == '-' {
        let rest = s.skip(k + 1);
        let k2 = digits_prefix_len(rest) as int;
        if k2 >= 1 && digits_val(rest.take(k2)) <= 255 {
            Some(digits_val(rest.take(k2)) as u8)
        } else {
            None
        }
    } else {
        None
    }
}

/// Parse a `lo-hi` range, keeping the higher bound.
pub fn parse_range_hi(s: &str) -> (r: Option<u8>)
    ensures
        r == spec_parse_range_hi(s@),
{
    let n = s.unicode_len();
    let k = scan_digits(s, 0);
    proof {
        lemma_digits_prefix_len_characterization(s@, k as int);
    }
    if k >= 1 && k < n && s.get_char(k) == '-' {
        let k2 = scan_digits(s, k + 1);
        proof {
            let rest = s@.skip(k + 1);
            assert forall|i: int| 0 <= i < k2 - (k + 1) implies crate::text::is_digit(
                #[trigger] rest[i],
            ) by {
                assert(rest[i] == s@[k + 1 + i]);
            }
            if k2 < n {
                assert(rest[k2 - (k + 1)] == s@[k2 as int]);
            }
            lemma_digits_prefix_len_characterization(rest, k2 - (k + 1));
            assert(s@.subrange(k + 1, k2 as int) =~= rest.take(k2 - (k + 1)));
        }
        if k2 - (k + 1) >= 1 {
            match parse_digits_capped(s, k + 1, k2, 255) {
                Some(v) => Some(v as u8),
                None => None,
            }
        } else {
            None
        }
    } else {
        None
    }
}

/// The literal tail of a wounds-remaining bracket in a profile name.
pub open spec fn wrem_suffix() -> Seq<char> {
    " Wounds Remaining)"@
}

/// The wound value encoded by a bracket pattern starting at `i` in a
/// profile name: `[k] (a+b Wounds Remaining)` or `[k] (a-b Wounds
/// Remaining)` yields `b` when present, else `a`.
pub open spec fn wrem_value_at(s: Seq<char>, i: int) -> Option<nat> {
    if !(0 <= i && i < s.len() && s[i] == '[') {
        None
    } else {
        let r1 = s.skip(i + 1);
        let k1 = digits_prefix_len(r1) as int;
        if k1 < 1 || i + 1 + k1 >= s.len() || s[i + 1 + k1] != ']' {
            None
        } else {
            let p = i + 2 + k1;
            if !(p < s.len() && s[p] == ' ' && p + 1 < s.len() && s[p + 1] == '(') {
                None
            } else {
                let r2 = s.skip(p + 2);
                let k2 = digits_prefix_len(r2) as int;
                if k2 < 1 || p + 2 + k2 >= s.len() || !(s[p + 2 + k2] == '+' || s[p + 2 + k2]
                    == '-') {
                    None
                } else {
                    let q = p + 3 + k2;
                    let r3 = s.skip(q);
                    let k3 = digits_prefix_len(r3) as int;
                    if q + k3 + wrem_suffix().len() <= s.len() && s.subrange(
                        q + k3,
                        q + k3 + wrem_suffix().len() as int,
                    ) == wrem_suffix() {
                        if k3 >= 1 {
                            Some(digits_val(r3.take(k3)))
                        } else {
                            Some(digits_val(r2.take(k2)))
                        }
                    } else {
                        None
                    }
                }
            }
        }
    }
}

/// The value of the first bracket pattern at or after `i`.
pub open spec fn wrem_first(s: Seq<char>, i: int) -> Option<nat>
    decreases s.len() - i,
{
    if i < 0 || i >= s.len() {
        None
    } else if wrem_value_at(s, i) is Some {
        wrem_value_at(s, i)
    } else {
        wrem_first(s, i + 1)
    }
}

/// Try the bracket pattern at one position. The outer option is whether
/// the pattern matched; the inner is whether the value fits in a byte.
#[verifier::rlimit(50)]
fn wrem_try_at(s: &str, i: usize) -> (r: Option<Option<u8>>)
    requires
        i < s@.len(),
    ensures
        match wrem_value_at(s@, i as int) {
            Some(v) => r == Some(
                if v <= 255 {
                    Some(v as u8)
                } else {
                    None
                },
            ),
            None => r is None,
        },
{
    let n = s.unicode_len();
    if s.get_char(i) != '[' {
        return None;
    }
    let k1e = scan_digits(s, i + 1);
    proof {
        let r1 = s@.skip(i + 1);
        assert forall|t: int| 0 <= t < k1e - (i + 1) implies crate::text::is_digit(
            #[trigger] r1[t],
        ) by {
            assert(r1[t] == s@[i + 1 + t]);
        }
        if k1e < n {
            assert(r1[k1e - (i + 1)] == s@[k1e as int]);
        }
        lemma_digits_prefix_len_characterization(r1, k1e - (i + 1));
    }
    if k1e == i + 1 || k1e >= n || s.get_char(k1e) != ']' {
        return None;
    }
    let p = k1e + 1;
    if p >= n || s.get_char(p) != ' ' {
        return None;
    }
    if p + 1 >= n || s.get_char(p + 1) != '(' {
        return None;
    }
    let k2e = scan_digits(s, p + 2);
    proof {
        let r2 = s@.skip(p + 2);
        assert forall|t: int| 0 <= t < k2e - (p + 2) implies crate::text::is_digit(
            #[trigger] r2[t],
        ) by {
            assert(r2[t] == s@[p + 2 + t]);
        }
        if k2e < n {
            assert(r2[k2e - (p + 2)] == s@[k2e as int]);
        }
        lemma_digits_prefix_len_characterization(r2, k2e - (p + 2));
    }
    if k2e == p + 2 || k2e >= n {
        return None;
    }
    let csign = s.get_char(k2e);
    if csign != '+' && csign != '-' {
        return None;
    }
    let q = k2e + 1;
    let k3e = scan_digits(s, q);
    proof {
        let r3 = s@.skip(q as int);
        assert forall|t: int| 0 <= t < k3e - q implies crate::text::is_digit(
            #[trigger] r3[t],
        ) by {
            assert(r3[t] == s@[q + t]);
        }
        if k3e < n {
            assert(r3[k3e - q] == s@[k3e as int]);
        }
        lemma_digits_prefix_len_characterization(r3, k3e - q);
    }
    let suffix = " Wounds Remaining)";
    let sl = suffix.unicode_len();
    if n - k3e < sl {
        return None;
    }
    let tail = s.substring_char(k3e, k3e + sl);
    proof {
        assert(tail@ =~= s@.subrange(k3e as int, k3e + sl));
    }
    if !str_eq(tail, suffix) {
        return None;
    }
    if k3e > q {
        proof {
            assert(s@.subrange(q as int, k3e as int) =~= s@.skip(q as int).take(k3e - q));
        }
        match parse_digits_capped(s, q, k3e, 255) {
            Some(v) => Some(Some(v as u8)),
            None => Some(None),
        }
    } else {
        proof {
            assert(s@.subrange(p + 2, k2e as int) =~= s@.skip(p + 2).take(k2e - (p + 2)));
        }
        match parse_digits_capped(s, p + 2, k2e, 255) {
            Some(v) => Some(Some(v as u8)),
            None => Some(None),
        }
    }
}

/// Scan a profile name for its first wounds-remaining bracket.
#[verifier::loop_isolation(false)]
pub fn wrem_scan(s: &str) -> (r: Option<Option<u8>>)
    ensures
        match wrem_first(s@, 0) {
            Some(v) => r == Some(
                if v <= 255 {
                    Some(v as u8)
                } else {
                    None
                },
            ),
            None => r is None,
        },
{
    let n = s.unicode_len();
    let mut i: usize = 0;
    while i < n
        invariant
            0 <= i <= n,
            wrem_first(s@, 0) == wrem_first(s@, i as int),
        decreases n - i,
    {
        match wrem_try_at(s, i) {
            Some(v) => {
                return Some(v);
            },
            None => {},
        }
        i = i + 1;
    }
    None
}

/// One stat line of a datasheet. A model may hold several: damage-tier
/// profiles of multi-wound models stand after the base line.
#[derive(Debug, Clone, Copy, PartialEq, Eq)]
pub struct ModelProfile {
    pub movement: u8,
    pub min_movement: u8,
    pub weapon_skill: u8,
    pub ballistic_skill: u8,
    pub strength: u8,
    pub toughness: u8,
    pub wounds: u8,
    pub attacks: ProfileValue,
    pub leadership: u8,
    pub save: u8,
}

impl DeepView for ModelProfile {
    type V = ModelProfile;

    open spec fn deep_view(&self) -> ModelProfile {
        *self
    }
}

/// The stat line before any characteristic is read: all zero, attacks
/// unresolved.
pub open spec fn spec_model_profile_init() -> ModelProfile {
    ModelProfile {
        movement: 0,
        min_movement: 0,
        weapon_skill: 0,
        ballistic_skill: 0,
        strength: 0,
        toughness: 0,
        wounds: 0,
        attacks: ProfileValue { dice_value: None, flat_value: None },
        leadership: 0,
        save: 0,
    }
}

/// The names a model stat line understands.
pub open spec fn model_lexicon(name: Seq<char>) -> bool {
    ||| name == "M"@
    ||| name == "Movement"@
    ||| name == "WS"@
    ||| name == "BS"@
    ||| name == "S"@
    ||| name == "T"@
    ||| name == "W"@
    ||| name == "A"@
    ||| name == "Attacks"@
    ||| name == "Ld"@
    ||| name == "Save"@
    ||| name == "Remaining W"@
}

/// One step of the model stat-line fold. `pname` is the enclosing
/// profile's name: a non-numeric wounds value falls back to the bracketed
/// wounds-remaining range in it.
pub open spec fn spec_model_step(pname: Seq<char>, st: ModelProfile, c: Characteristic) -> Result<
    ModelProfile,
    RosterErrorView,
> {
    let v = spec_value_or_empty(c.value);
    if c.name@ == "M"@ || c.name@ == "Movement"@ {
        match spec_parse_movement(v) {
            MovementToken::Plain(mv) => Ok(ModelProfile { movement: mv, ..st }),
            MovementToken::Span(lo, hi) => Ok(
                ModelProfile { min_movement: lo, movement: hi, ..st },
            ),
            MovementToken::Absent => Ok(ModelProfile { movement: 0, min_movement: 0, ..st }),
        }
    } else if c.name@ == "WS"@ {
        Ok(ModelProfile { weapon_skill: spec_parse_up(v), ..st })
    } else if c.name@ == "BS"@ {
        Ok(ModelProfile { ballistic_skill: spec_parse_up(v), ..st })
    } else if c.name@ == "S"@ {
        match spec_parse_u8(v) {
            Some(n) => Ok(ModelProfile { strength: n, ..st }),
            None => Err(RosterErrorView::MalformedStatValue { token: v }),
        }
    } else if c.name@ == "T"@ {
        match spec_parse_u8(v) {
            Some(n) => Ok(ModelProfile { toughness: n, ..st }),
            None => Err(RosterErrorView::MalformedStatValue { token: v }),
        }
    } else if c.name@ == "W"@ {
        match spec_parse_u8(v) {
            Some(n) => Ok(ModelProfile { wounds: n, ..st }),
            None => match wrem_first(pname, 0) {
                Some(w) => if w <= 255 {
                    Ok(ModelProfile { wounds: w as u8, ..st })
                } else {
                    Err(RosterErrorView::UnresolvableWounds { token: v })
                },
                None => Err(RosterErrorView::UnresolvableWounds { token: v }),
            },
        }
    } else if c.name@ == "A"@ || c.name@ == "Attacks"@ {
        match spec_parse_stat_value(v) {
            Ok(pv) => Ok(ModelProfile { attacks: pv, ..st }),
            Err(e) => Err(e),
        }
    } else if c.name@ == "Ld"@ {
        match spec_parse_u8(v) {
            Some(n) => Ok(ModelProfile { leadership: n, ..st }),
            None => Err(RosterErrorView::MalformedStatValue { token: v }),
        }
    } else if c.name@ == "Save"@ {
        Ok(ModelProfile { save: spec_parse_up(v), ..st })
    } else if c.name@ == "Remaining W"@ {
        match spec_parse_range_hi(v) {
            Some(hi) => Ok(ModelProfile { wounds: hi, ..st }),
            None => Err(RosterErrorView::UnresolvableWounds { token: v }),
        }
    } else {
        Err(RosterErrorView::UnknownCharacteristic { name: c.name@ })
    }
}

/// What `ModelProfile::from_profile` returns on a profile.
pub open spec fn spec_model_profile_from(p: Profile) -> Result<ModelProfile, RosterErrorView> {
    spec_fold(
        |st: ModelProfile, c: Characteristic| spec_model_step(p.name@, st, c),
        spec_model_profile_init(),
        p.characteristics.characteristics@,
    )
}

/// Apply one characteristic to a partial stat line.
#[verifier::rlimit(50)]
fn model_step(st: ModelProfile, pname: &str, c: &Characteristic) -> (r: Result<
    ModelProfile,
    RosterError,
>)
    ensures
        res_view(r) == spec_model_step(pname@, st, *c),
{
    let mut st = st;
    let v = value_or_empty(&c.value);
    if str_eq(c.name.as_str(), "M") || str_eq(c.name.as_str(), "Movement") {
        match parse_movement(v.as_str()) {
            MovementToken::Plain(mv) => {
                st.movement = mv;
            },
            MovementToken::Span(lo, hi) => {
                st.min_movement = lo;
                st.movement = hi;
            },
            MovementToken::Absent => {
                st.movement = 0;
                st.min_movement = 0;
            },
        }
        Ok(st)
    } else if str_eq(c.name.as_str(), "WS") {
        st.weapon_skill = parse_up(v.as_str());
        Ok(st)
    } else if str_eq(c.name.as_str(), "BS") {
        st.ballistic_skill = parse_up(v.as_str());
        Ok(st)
    } else if str_eq(c.name.as_str(), "S") {
        match parse_plain_u8(v.as_str()) {
            Some(n) => {
                st.strength = n;
                Ok(st)
            },
            None => Err(RosterError::MalformedStatValue { token: v }),
        }
    } else if str_eq(c.name.as_str(), "T") {
        match parse_plain_u8(v.as_str()) {
            Some(n) => {
                st.toughness = n;
                Ok(st)
            },
            None => Err(RosterError::MalformedStatValue { token: v }),
        }
    } else if str_eq(c.name.as_str(), "W") {
        match parse_plain_u8(v.as_str()) {
            Some(n) => {
                st.wounds = n;
                Ok(st)
            },
            None => {
                match wrem_scan(pname) {
                    Some(Some(w)) => {
                        st.wounds = w;
                        Ok(st)
                    },
                    Some(None) => Err(RosterError::UnresolvableWounds { token: v }),
                    None => Err(RosterError::UnresolvableWounds { token: v }),
                }
            },
        }
    } else if str_eq(c.name.as_str(), "A") || str_eq(c.name.as_str(), "Attacks") {
        match ProfileValue::from_str(v.as_str()) {
            Ok(pv) => {
                st.attacks = pv;
                Ok(st)
            },
            Err(e) => Err(e),
        }
    } else if str_eq(c.name.as_str(), "Ld") {
        match parse_plain_u8(v.as_str()) {
            Some(n) => {
                st.leadership = n;
                Ok(st)
            },
            None => Err(RosterError::MalformedStatValue { token: v }),
        }
    } else if str_eq(c.name.as_str(), "Save") {
        st.save = parse_up(v.as_str());
        Ok(st)
    } else if str_eq(c.name.as_str(), "Remaining W") {
        match parse_range_hi(v.as_str()) {
            Some(hi) => {
                st.wounds = hi;
                Ok(st)
            },
            None => Err(RosterError::UnresolvableWounds { token: v }),
        }
    } else {
        Err(RosterError::UnknownCharacteristic { name: c.name.clone() })
    }
}

impl ModelProfile {
    /// Read one stat line from a `Unit` profile.
    #[verifier::loop_isolation(false)]
    pub fn from_profile(profile: &Profile) -> (r: Result<ModelProfile, RosterError>)
        ensures
            res_view(r) == spec_model_profile_from(*profile),
    {
        let ghost step = |st: ModelProfile, c: Characteristic| spec_model_step(
            profile.name@,
            st,
            c,
        );
        let ghost init = spec_model_profile_init();
        let cs = &profile.characteristics.characteristics;
        let n = cs.len();
        let mut st = ModelProfile {
            movement: 0,
            min_movement: 0,
            weapon_skill: 0,
            ballistic_skill: 0,
            strength: 0,
            toughness: 0,
            wounds: 0,
            attacks: ProfileValue { dice_value: None, flat_value: None },
            leadership: 0,
            save: 0,
        };
        let mut i: usize = 0;
        while i < n
            invariant
                0 <= i <= n,
                n == cs@.len(),
                spec_fold(step, init, cs@.take(i as int)) == Ok::<_, RosterErrorView>(st),
            decreases n - i,
        {
            proof {
                assert(cs@.take(i + 1).drop_last() =~= cs@.take(i as int));
                assert(cs@.take(i + 1).last() == cs@[i as int]);
                assert(spec_fold(step, init, cs@.take(i + 1)) == spec_model_step(
                    profile.name@,
                    st,
                    cs@[i as int],
                ));
            }
            st = match model_step(st, profile.name.as_str(), &cs[i]) {
                Ok(s2) => s2,
                Err(e) => {
                    proof {
                        lemma_fold_prefix_err(step, init, cs@, i + 1);
                    }
                    return Err(e);
                },
            };
            i = i + 1;
        }
        proof {
            assert(cs@.take(n as int) =~= cs@);
        }
        Ok(st)
    }
}

/// How a stat-override tier combines with the stat line before it:
/// movement and skills add (clamped at the top of the byte range), wounds
/// come from the tier, attacks come from the tier only when the base had
/// none, and everything else carries over from the base.
pub open spec fn spec_merge_stat_tier(base: ModelProfile, tier: ModelProfile) -> ModelProfile {
    ModelProfile {
        movement: clamped_add_u8(base.movement, tier.movement),
        min_movement: clamped_add_u8(base.min_movement, tier.min_movement),
        weapon_skill: clamped_add_u8(base.weapon_skill, tier.weapon_skill),
        ballistic_skill: clamped_add_u8(base.ballistic_skill, tier.ballistic_skill),
        strength: base.strength,
        toughness: base.toughness,
        wounds: tier.wounds,
        attacks: if base.attacks.spec_is_empty() {
            tier.attacks
        } else {
            base.attacks
        },
        leadership: base.leadership,
        save: base.save,
    }
}

/// Merge a stat-override tier into the stat line before it.
pub fn merge_stat_tier(base: &ModelProfile, tier: &ModelProfile) -> (r: ModelProfile)
    ensures
        r == spec_merge_stat_tier(*base, *tier),
{
    ModelProfile {
        movement: add_u8_clamped(base.movement, tier.movement),
        min_movement: add_u8_clamped(base.min_movement, tier.min_movement),
        weapon_skill: add_u8_clamped(base.weapon_skill, tier.weapon_skill),
        ballistic_skill: add_u8_clamped(base.ballistic_skill, tier.ballistic_skill),
        strength: base.strength,
        toughness: base.toughness,
        wounds: tier.wounds,
        attacks: if base.attacks.dice_value.is_none() && base.attacks.flat_value.is_none() {
            tier.attacks
        } else {
            base.attacks
        },
        leadership: base.leadership,
        save: base.save,
    }
}

/// The stat-override merge law: when the base tier's attacks are empty the
/// merged line takes the override's attacks, movement and skills are the
/// sums of the two tiers (here within the byte range), wounds follow the
/// override, and strength, toughness, leadership and save follow the base.
pub proof fn lemma_stat_override_merge(base: ModelProfile, tier: ModelProfile)
    requires
        base.attacks.spec_is_empty(),
        base.movement + tier.movement <= 255,
        base.min_movement + tier.min_movement <= 255,
        base.weapon_skill + tier.weapon_skill <= 255,
        base.ballistic_skill + tier.ballistic_skill <= 255,
    ensures
        spec_merge_stat_tier(base, tier).attacks == tier.attacks,
        spec_merge_stat_tier(base, tier).movement == base.movement + tier.movement,
        spec_merge_stat_tier(base, tier).min_movement == base.min_movement + tier.min_movement,
        spec_merge_stat_tier(base, tier).weapon_skill == base.weapon_skill + tier.weapon_skill,
        spec_merge_stat_tier(base, tier).ballistic_skill == base.ballistic_skill
            + tier.ballistic_skill,
        spec_merge_stat_tier(base, tier).wounds == tier.wounds,
        spec_merge_stat_tier(base, tier).strength == base.strength,
        spec_merge_stat_tier(base, tier).toughness == base.toughness,
        spec_merge_stat_tier(base, tier).leadership == base.leadership,
        spec_merge_stat_tier(base, tier).save == base.save,
{
}

/// A model stat line parses only when every characteristic name lies in
/// the model lexicon: one stray name fails the whole profile.
pub proof fn lemma_model_profile_ok_names_known(p: Profile)
    requires
        spec_model_profile_from(p) is Ok,
    ensures
        forall|i: int|
            0 <= i < p.characteristics.characteristics@.len() ==> model_lexicon(
                (#[trigger] p.characteristics.characteristics@[i]).name@,
            ),
{
    let cs = p.characteristics.characteristics@;
    let step = |st: ModelProfile, c: Characteristic| spec_model_step(p.name@, st, c);
    assert forall|i: int| 0 <= i < cs.len() implies model_lexicon(
        (#[trigger] cs[i]).name@,
    ) by {
        if !model_lexicon(cs[i].name@) {
            lemma_model_fold_ok_prefix(p, i + 1);
            let st = spec_fold(step, spec_model_profile_init(), cs.take(i + 1));
            assert(cs.take(i + 1).drop_last() =~= cs.take(i));
            assert(cs.take(i + 1).last() == cs[i]);
            assert(st is Err);
        }
    }
}

/// If the whole model fold succeeds, so does the fold of every prefix.
proof fn lemma_model_fold_ok_prefix(p: Profile, i: int)
    requires
        0 <= i <= p.characteristics.characteristics@.len(),
        spec_model_profile_from(p) is Ok,
    ensures
        spec_fold(
            |st: ModelProfile, c: Characteristic| spec_model_step(p.name@, st, c),
            spec_model_profile_init(),
            p.characteristics.characteristics@.take(i),
        ) is Ok,
{
    crate::fold::lemma_fold_ok_prefix(
        |st: ModelProfile, c: Characteristic| spec_model_step(p.name@, st, c),
        spec_model_profile_init(),
        p.characteristics.characteristics@,
        i,
    );
}

/// A characteristic name outside the model lexicon, reached after a clean
/// prefix, fails the whole stat line with `UnknownCharacteristic` carrying
/// that name: no partial stat line survives.
pub proof fn lemma_unknown_characteristic_rejected(p: Profile, i: int)
    requires
        0 <= i < p.characteristics.characteristics@.len(),
        spec_fold(
            |st: ModelProfile, c: Characteristic| spec_model_step(p.name@, st, c),
            spec_model_profile_init(),
            p.characteristics.characteristics@.take(i),
        ) is Ok,
        !model_lexicon(p.characteristics.characteristics@[i].name@),
    ensures
        spec_model_profile_from(p) == Err::<ModelProfile, _>(
            RosterErrorView::UnknownCharacteristic {
                name: p.characteristics.characteristics@[i].name@,
            },
        ),
{
    let cs = p.characteristics.characteristics@;
    let step = |st: ModelProfile, c: Characteristic| spec_model_step(p.name@, st, c);
    assert(cs.take(i + 1).drop_last() =~= cs.take(i));
    assert(cs.take(i + 1).last() == cs[i]);
    lemma_fold_prefix_err(step, spec_model_profile_init(), cs, i + 1);
    assert(cs.take(cs.len() as int) =~= cs);
}

/// One model of a unit: its stat lines, merged weapon list, count, and
/// the psyker records and abilities attached to it.
#[derive(Debug, PartialEq, Eq)]
pub struct Model {
    pub name: String,
    pub profiles: Vec<ModelProfile>,
    pub weapons: Vec<Weapon>,
    pub number: u8,
    pub keywords: Vec<String>,
    pub psyker_profile: Option<PsykerProfile>,
    pub psyker_powers: Vec<PsychicPower>,
    pub abilities: Vec<Ability>,
}

/// The mathematical shadow of a [`Model`].
pub ghost struct ModelView {
    pub name: Seq<char>,
    pub profiles: Seq<ModelProfile>,
    pub weapons: Seq<WeaponView>,
    pub number: u8,
    pub keywords: Seq<Seq<char>>,
    pub psyker_profile: Option<PsykerProfile>,
    pub psyker_powers: Seq<PsychicPowerView>,
    pub abilities: Seq<AbilityView>,
}

impl DeepView for Model {
    type V = ModelView;

    open spec fn deep_view(&self) -> ModelView {
        ModelView {
            name: self.name@,
            profiles: self.profiles.deep_view(),
            weapons: self.weapons.deep_view(),
            number: self.number,
            keywords: self.keywords.deep_view(),
            psyker_profile: self.psyker_profile,
            psyker_powers: self.psyker_powers.deep_view(),
            abilities: self.abilities.deep_view(),
        }
    }
}

impl Model {
    /// Append one more weapon entry to this model's list.
    pub fn append_weapon(&mut self, weapon: &Weapon)
        ensures
            final(self).deep_view() == (ModelView {
                weapons: old(self).deep_view().weapons.push(weapon.deep_view()),
                ..old(self).deep_view()
            }),
    {
        let ghost old_dv = self.weapons.deep_view();
        self.weapons.push(weapon.clone());
        proof {
            assert(self.weapons.deep_view() =~= old_dv.push(weapon.deep_view()));
        }
    }
}

/// The names of a category list, in order.
pub open spec fn spec_cat_names(cs: Seq<crate::ros_parser::Category>) -> Seq<Seq<char>>
    decreases cs.len(),
{
    if cs.len() == 0 {
        Seq::empty()
    } else {
        spec_cat_names(cs.drop_last()).push(cs.last().name@)
    }
}

/// The names of a rule list, in order.
pub open spec fn spec_rule_names(rs: Seq<crate::ros_parser::Rule>) -> Seq<Seq<char>>
    decreases rs.len(),
{
    if rs.len() == 0 {
        Seq::empty()
    } else {
        spec_rule_names(rs.drop_last()).push(rs.last().name@)
    }
}

/// The abilities a rule list contributes to a model: one per rule, named
/// after it, with no effect text of its own.
pub open spec fn spec_rule_abilities(rs: Seq<crate::ros_parser::Rule>) -> Seq<AbilityView>
    decreases rs.len(),
{
    if rs.len() == 0 {
        Seq::empty()
    } else {
        spec_rule_abilities(rs.drop_last()).push(
            AbilityView { value: Seq::empty(), name: rs.last().name@ },
        )
    }
}

/// The text of a profile's first characteristic, empty when the profile
/// carries none.
pub open spec fn spec_first_char_value(p: Profile) -> Seq<char> {
    if p.characteristics.characteristics@.len() >= 1 {
        spec_value_or_empty(p.characteristics.characteristics@[0].value)
    } else {
        Seq::empty()
    }
}

/// One step of the fold over a model's own profiles: a `Unit` profile adds
/// a stat line, a `Psyker` profile sets the psyker record, an `Abilities`
/// profile adds an ability, anything else fails.
pub open spec fn spec_model_own_step(st: ModelView, p: Profile) -> Result<
    ModelView,
    RosterErrorView,
> {
    if p.profile_type@ == "Unit"@ {
        match spec_model_profile_from(p) {
            Ok(mp) => Ok(ModelView { profiles: st.profiles.push(mp), ..st }),
            Err(e) => Err(e),
        }
    } else if p.profile_type@ == "Psyker"@ {
        match spec_psyker_from_profile(p) {
            Ok(pp) => Ok(ModelView { psyker_profile: Some(pp), ..st }),
            Err(e) => Err(e),
        }
    } else if p.profile_type@ == "Abilities"@ {
        Ok(
            ModelView {
                abilities: st.abilities.push(
                    AbilityView { value: spec_first_char_value(p), name: p.name@ },
                ),
                ..st
            },
        )
    } else {
        Err(RosterErrorView::UnhandledProfileType { profile_type: p.profile_type@ })
    }
}

/// One step of the fold over the grandchildren of a model: a nested
/// selection carrying a `Weapon` profile adds a weapon, one carrying
/// `Abilities` is passed over, anything else fails.
pub open spec fn spec_model_grandchild_step(st: ModelView, g: Selection) -> Result<
    ModelView,
    RosterErrorView,
> {
    let ps = g.spec_profiles();
    if ps.len() == 0 {
        Err(RosterErrorView::MalformedSelection { context: g.name@ })
    } else if ps[0].profile_type@ == "Abilities"@ {
        Ok(st)
    } else if ps[0].profile_type@ == "Weapon"@ {
        match spec_weapon_from_selection(g) {
            Ok(w) => Ok(ModelView { weapons: st.weapons.push(w), ..st }),
            Err(e) => Err(e),
        }
    } else {
        Err(RosterErrorView::UnhandledProfileType { profile_type: ps[0].profile_type@ })
    }
}

/// One step of the fold over an upgrade child's profiles: weapons carry
/// the child's count, psychic powers and abilities are collected, anything
/// else fails.
pub open spec fn spec_model_child_profile_step(cnum: u8, st: ModelView, p: Profile) -> Result<
    ModelView,
    RosterErrorView,
> {
    if p.profile_type@ == "Weapon"@ {
        match spec_weapon_from_characteristics(p.characteristics.characteristics@) {
            Ok(wp) => Ok(
                ModelView {
                    weapons: st.weapons.push(
                        WeaponView { name: p.name@, profile: wp, number: cnum },
                    ),
                    ..st
                },
            ),
            Err(e) => Err(e),
        }
    } else if p.profile_type@ == "Psychic Power"@ {
        match spec_power_from_profile(p) {
            Ok(pw) => Ok(ModelView { psyker_powers: st.psyker_powers.push(pw), ..st }),
            Err(e) => Err(e),
        }
    } else if p.profile_type@ == "Abilities"@ {
        Ok(
            ModelView {
                abilities: st.abilities.push(
                    AbilityView { value: spec_first_char_value(p), name: p.name@ },
                ),
                ..st
            },
        )
    } else {
        Err(RosterErrorView::UnhandledProfileType { profile_type: p.profile_type@ })
    }
}

/// The stat lines produced by a stat-override child: each of its profiles
/// is parsed as a tier and merged against the base line.
pub open spec fn spec_tier_fold(
    base: ModelProfile,
    acc: Seq<ModelProfile>,
    ps: Seq<Profile>,
) -> Result<Seq<ModelProfile>, RosterErrorView>
    decreases ps.len(),
{
    if ps.len() == 0 {
        Ok(acc)
    } else {
        match spec_tier_fold(base, acc, ps.drop_last()) {
            Ok(a2) => match spec_model_profile_from(ps.last()) {
                Ok(t) => Ok(a2.push(spec_merge_stat_tier(base, t))),
                Err(e) => Err(e),
            },
            Err(e) => Err(e),
        }
    }
}

/// One step of the fold over a model's child selections. Only upgrades
/// are understood. A child with nested selections first contributes their
/// weapons; a child without profiles contributes its categories as
/// keywords; a stat-override child rewrites the last stat line into tiers;
/// any other child contributes weapons, powers and abilities from its
/// profile list.
pub open spec fn spec_model_child_step(st: ModelView, c: Selection) -> Result<
    ModelView,
    RosterErrorView,
> {
    if c.selection_type@ != "upgrade"@ {
        Err(RosterErrorView::UnknownSelectionType { selection_type: c.selection_type@ })
    } else {
        let after_grand = (match c.selections {
            Some(gs) => spec_fold(
                |st2: ModelView, g: Selection| spec_model_grandchild_step(st2, g),
                st,
                gs.selections@,
            ),
            None => Ok(st),
        });
        match after_grand {
            Err(e) => Err(e),
            Ok(st1) => {
                if c.profiles is None {
                    Ok(
                        ModelView {
                            keywords: st1.keywords + spec_cat_names(c.spec_categories()),
                            ..st1
                        },
                    )
                } else {
                    let ps = c.profiles->0.profiles@;
                    if ps.len() > 0 && ps[0].profile_type@ == "Stat Damage - M/BS/A"@ {
                        if st1.profiles.len() == 0 {
                            Err(RosterErrorView::MalformedSelection { context: c.name@ })
                        } else {
                            match spec_tier_fold(
                                st1.profiles.last(),
                                st1.profiles.drop_last(),
                                ps,
                            ) {
                                Ok(newp) => Ok(ModelView { profiles: newp, ..st1 }),
                                Err(e) => Err(e),
                            }
                        }
                    } else {
                        spec_fold(
                            |st2: ModelView, p: Profile| spec_model_child_profile_step(
                                c.number,
                                st2,
                                p,
                            ),
                            st1,
                            ps,
                        )
                    }
                }
            },
        }
    }
}

/// What `Model::from_selection` returns: the model read from a `model`
/// selection. Its categories become keywords and its rules abilities; its
/// own profiles give stat lines, the psyker record and abilities; its
/// child upgrades give weapons, powers, abilities, more keywords and
/// stat-override tiers. Finally duplicate weapons merge and keywords are
/// sorted without duplicates.
pub open spec fn spec_model_from_selection(s: Selection) -> Result<ModelView, RosterErrorView> {
    if s.categories is None {
        Err(RosterErrorView::MalformedSelection { context: s.name@ })
    } else if s.profiles is None {
        Err(RosterErrorView::MalformedSelection { context: s.name@ })
    } else {
        let st0 = ModelView {
            name: s.name@,
            profiles: Seq::empty(),
            weapons: Seq::empty(),
            number: s.number,
            keywords: spec_cat_names(s.spec_categories()),
            psyker_profile: None,
            psyker_powers: Seq::empty(),
            abilities: spec_rule_abilities(s.spec_rules()),
        };
        match spec_fold(
            |st: ModelView, p: Profile| spec_model_own_step(st, p),
            st0,
            s.profiles->0.profiles@,
        ) {
            Err(e) => Err(e),
            Ok(st1) => match spec_fold(
                |st: ModelView, c: Selection| spec_model_child_step(st, c),
                st1,
                s.spec_children(),
            ) {
                Err(e) => Err(e),
                Ok(st2) => Ok(
                    ModelView {
                        weapons: spec_merge_weapons(st2.weapons),
                        keywords: crate::text::spec_sort_dedup(st2.keywords),
                        ..st2
                    },
                ),
            },
        }
    }
}

/// Apply one of the model's own profiles.
#[verifier::rlimit(30)]
fn model_own_step(st: Model, p: &Profile) -> (r: Result<Model, RosterError>)
    ensures
        res_view(r) == spec_model_own_step(st.deep_view(), *p),
{
    let mut st = st;
    if str_eq(p.profile_type.as_str(), "Unit") {
        match ModelProfile::from_profile(p) {
            Ok(mp) => {
                let ghost old_dv = st.profiles.deep_view();
                st.profiles.push(mp);
                proof {
                    assert(st.profiles.deep_view() =~= old_dv.push(mp));
                }
                Ok(st)
            },
            Err(e) => Err(e),
        }
    } else if str_eq(p.profile_type.as_str(), "Psyker") {
        match PsykerProfile::from_profile(p) {
            Ok(pp) => {
                st.psyker_profile = Some(pp);
                Ok(st)
            },
            Err(e) => Err(e),
        }
    } else if str_eq(p.profile_type.as_str(), "Abilities") {
        let ghost old_dv = st.abilities.deep_view();
        let value = if p.characteristics.characteristics.len() >= 1 {
            value_or_empty(&p.characteristics.characteristics[0].value)
        } else {
            String::new()
        };
        st.abilities.push(Ability { value, name: p.name.clone() });
        proof {
            assert(st.abilities.deep_view() =~= old_dv.push(
                AbilityView { value: spec_first_char_value(*p), name: p.name@ },
            ));
        }
        Ok(st)
    } else {
        Err(RosterError::UnhandledProfileType { profile_type: p.profile_type.clone() })
    }
}

/// Apply one nested selection below an upgrade child.
#[verifier::rlimit(30)]
fn model_grandchild_step(st: Model, g: &Selection) -> (r: Result<Model, RosterError>)
    ensures
        res_view(r) == spec_model_grandchild_step(st.deep_view(), *g),
{
    let mut st = st;
    match &g.profiles {
        Some(ps) => {
            if ps.profiles.len() == 0 {
                return Err(RosterError::MalformedSelection { context: g.name.clone() });
            }
            let p0 = &ps.profiles[0];
            if str_eq(p0.profile_type.as_str(), "Abilities") {
                Ok(st)
            } else if str_eq(p0.profile_type.as_str(), "Weapon") {
                match Weapon::from_selection(g) {
                    Ok(w) => {
                        let ghost old_dv = st.weapons.deep_view();
                        let ghost wv = w.deep_view();
                        st.weapons.push(w);
                        proof {
                            assert(st.weapons.deep_view() =~= old_dv.push(wv));
                        }
                        Ok(st)
                    },
                    Err(e) => Err(e),
                }
            } else {
                Err(RosterError::UnhandledProfileType { profile_type: p0.profile_type.clone() })
            }
        },
        None => Err(RosterError::MalformedSelection { context: g.name.clone() }),
    }
}

/// Apply one profile of an upgrade child.
#[verifier::rlimit(30)]
fn model_child_profile_step(cnum: u8, st: Model, p: &Profile) -> (r: Result<Model, RosterError>)
    ensures
        res_view(r) == spec_model_child_profile_step(cnum, st.deep_view(), *p),
{
    let mut st = st;
    if str_eq(p.profile_type.as_str(), "Weapon") {
        match WeaponProfile::from_characterics(&p.characteristics) {
            Ok(wp) => {
                let w = Weapon { name: p.name.clone(), profile: wp, number: cnum };
                let ghost old_dv = st.weapons.deep_view();
                let ghost wv = w.deep_view();
                st.weapons.push(w);
                proof {
                    assert(st.weapons.deep_view() =~= old_dv.push(wv));
                }
                Ok(st)
            },
            Err(e) => Err(e),
        }
    } else if str_eq(p.profile_type.as_str(), "Psychic Power") {
        match PsychicPower::from_profile(p) {
            Ok(pw) => {
                let ghost old_dv = st.psyker_powers.deep_view();
                let ghost pv = pw.deep_view();
                st.psyker_powers.push(pw);
                proof {
                    assert(st.psyker_powers.deep_view() =~= old_dv.push(pv));
                }
                Ok(st)
            },
            Err(e) => Err(e),
        }
    } else if str_eq(p.profile_type.as_str(), "Abilities") {
        let ghost old_dv = st.abilities.deep_view();
        let value = if p.characteristics.characteristics.len() >= 1 {
            value_or_empty(&p.characteristics.characteristics[0].value)
        } else {
            String::new()
        };
        st.abilities.push(Ability { value, name: p.name.clone() });
        proof {
            assert(st.abilities.deep_view() =~= old_dv.push(
                AbilityView { value: spec_first_char_value(*p), name: p.name@ },
            ));
        }
        Ok(st)
    } else {
        Err(RosterError::UnhandledProfileType { profile_type: p.profile_type.clone() })
    }
}

/// Fold the grandchildren of an upgrade child into the partial model.
#[verifier::loop_isolation(false)]
fn model_grandchildren_fold(st: Model, gs: &crate::ros_parser::Selections) -> (r: Result<
    Model,
    RosterError,
>)
    ensures
        res_view(r) == spec_fold(
            |st2: ModelView, g: Selection| spec_model_grandchild_step(st2, g),
            st.deep_view(),
            gs.selections@,
        ),
{
    let ghost st_in = st.deep_view();
    let ghost gstep = |st2: ModelView, g: Selection| spec_model_grandchild_step(st2, g);
    let mut st = st;
    let n = gs.selections.len();
    let mut i: usize = 0;
    while i < n
        invariant
            0 <= i <= n,
            n == gs.selections@.len(),
            spec_fold(gstep, st_in, gs.selections@.take(i as int)) == Ok::<_, RosterErrorView>(
                st.deep_view(),
            ),
        decreases n - i,
    {
        proof {
            assert(gs.selections@.take(i + 1).drop_last() =~= gs.selections@.take(i as int));
            assert(gs.selections@.take(i + 1).last() == gs.selections@[i as int]);
            assert(spec_fold(gstep, st_in, gs.selections@.take(i + 1))
                == spec_model_grandchild_step(st.deep_view(), gs.selections@[i as int]));
        }
        st = match model_grandchild_step(st, &gs.selections[i]) {
            Ok(s2) => s2,
            Err(e) => {
                proof {
                    lemma_fold_prefix_err(gstep, st_in, gs.selections@, i + 1);
                }
                return Err(e);
            },
        };
        i = i + 1;
    }
    proof {
        assert(gs.selections@.take(n as int) =~= gs.selections@);
    }
    Ok(st)
}

/// Append the categories of a profile-less child to the keywords.
#[verifier::loop_isolation(false)]
fn model_keyword_child(st: Model, c: &Selection) -> (r: Model)
    ensures
        r.deep_view() == (ModelView {
            keywords: st.deep_view().keywords + spec_cat_names(c.spec_categories()),
            ..st.deep_view()
        }),
{
    let ghost st1 = st.deep_view();
    let mut st = st;
    match &c.categories {
        Some(cats) => {
            let m = cats.categories.len();
            let mut k: usize = 0;
            while k < m
                invariant
                    0 <= k <= m,
                    m == cats.categories@.len(),
                    c.categories == Some(*cats),
                    st.deep_view() == (ModelView {
                        keywords: st1.keywords + spec_cat_names(cats.categories@.take(k as int)),
                        ..st1
                    }),
                decreases m - k,
            {
                proof {
                    assert(cats.categories@.take(k + 1).drop_last() =~= cats.categories@.take(
                        k as int,
                    ));
                    assert(cats.categories@.take(k + 1).last() == cats.categories@[k as int]);
                }
                let ghost old_dv = st.keywords.deep_view();
                st.keywords.push(cats.categories[k].name.clone());
                proof {
                    assert(st.keywords.deep_view() =~= old_dv.push(
                        cats.categories@[k as int].name@,
                    ));
                    assert(st1.keywords + spec_cat_names(cats.categories@.take(k + 1)) =~= old_dv
                        .push(cats.categories@[k as int].name@));
                }
                k = k + 1;
            }
            proof {
                assert(cats.categories@.take(m as int) =~= cats.categories@);
            }
        },
        None => {
            proof {
                assert(st1.keywords + spec_cat_names(c.spec_categories()) =~= st1.keywords);
            }
        },
    }
    st
}

/// Rewrite the last stat line into the tiers of a stat-override child.
#[verifier::loop_isolation(false)]
fn model_tier_child(st: Model, c: &Selection, ps: &crate::ros_parser::Profiles) -> (r: Result<
    Model,
    RosterError,
>)
    requires
        c.profiles == Some(*ps),
    ensures
        res_view(r) == ({
            let st1 = st.deep_view();
            if st1.profiles.len() == 0 {
                Err(RosterErrorView::MalformedSelection { context: c.name@ })
            } else {
                match spec_tier_fold(st1.profiles.last(), st1.profiles.drop_last(), ps.profiles@) {
                    Ok(newp) => Ok(ModelView { profiles: newp, ..st1 }),
                    Err(e) => Err(e),
                }
            }
        }),
{
    let ghost st1 = st.deep_view();
    let mut st = st;
    let pn = ps.profiles.len();
    if st.profiles.len() == 0 {
        return Err(RosterError::MalformedSelection { context: c.name.clone() });
    }
    let base = match st.profiles.pop() {
        Some(b) => b,
        None => {
            return Err(RosterError::MalformedSelection { context: c.name.clone() });
        },
    };
    proof {
        assert(base == st1.profiles.last());
        assert(st.profiles.deep_view() =~= st1.profiles.drop_last());
    }
    let ghost acc0 = st1.profiles.drop_last();
    let mut k: usize = 0;
    while k < pn
        invariant
            0 <= k <= pn,
            pn == ps.profiles@.len(),
            base == st1.profiles.last(),
            st1.profiles.len() > 0,
            spec_tier_fold(base, acc0, ps.profiles@.take(k as int)) == Ok::<_, RosterErrorView>(
                st.profiles.deep_view(),
            ),
            st.deep_view() == (ModelView { profiles: st.profiles.deep_view(), ..st1 }),
        decreases pn - k,
    {
        proof {
            assert(ps.profiles@.take(k + 1).drop_last() =~= ps.profiles@.take(k as int));
            assert(ps.profiles@.take(k + 1).last() == ps.profiles@[k as int]);
        }
        let tier = match ModelProfile::from_profile(&ps.profiles[k]) {
            Ok(t) => t,
            Err(e) => {
                proof {
                    lemma_tier_fold_prefix_err(base, acc0, ps.profiles@, k + 1);
                }
                return Err(e);
            },
        };
        let merged = merge_stat_tier(&base, &tier);
        let ghost old_dv = st.profiles.deep_view();
        st.profiles.push(merged);
        proof {
            assert(st.profiles.deep_view() =~= old_dv.push(merged));
        }
        k = k + 1;
    }
    proof {
        assert(ps.profiles@.take(pn as int) =~= ps.profiles@);
    }
    Ok(st)
}

/// Fold the profiles of an ordinary upgrade child into the partial model.
#[verifier::loop_isolation(false)]
fn model_child_profiles_fold(cnum: u8, st: Model, ps: &crate::ros_parser::Profiles) -> (r: Result<
    Model,
    RosterError,
>)
    ensures
        res_view(r) == spec_fold(
            |st2: ModelView, p: Profile| spec_model_child_profile_step(cnum, st2, p),
            st.deep_view(),
            ps.profiles@,
        ),
{
    let ghost st1 = st.deep_view();
    let ghost pstep = |st2: ModelView, p: Profile| spec_model_child_profile_step(cnum, st2, p);
    let mut st = st;
    let pn = ps.profiles.len();
    let mut k: usize = 0;
    while k < pn
        invariant
            0 <= k <= pn,
            pn == ps.profiles@.len(),
            spec_fold(pstep, st1, ps.profiles@.take(k as int)) == Ok::<_, RosterErrorView>(
                st.deep_view(),
            ),
        decreases pn - k,
    {
        proof {
            assert(ps.profiles@.take(k + 1).drop_last() =~= ps.profiles@.take(k as int));
            assert(ps.profiles@.take(k + 1).last() == ps.profiles@[k as int]);
            assert(spec_fold(pstep, st1, ps.profiles@.take(k + 1))
                == spec_model_child_profile_step(cnum, st.deep_view(), ps.profiles@[k as int]));
        }
        st = match model_child_profile_step(cnum, st, &ps.profiles[k]) {
            Ok(s2) => s2,
            Err(e) => {
                proof {
                    lemma_fold_prefix_err(pstep, st1, ps.profiles@, k + 1);
                }
                return Err(e);
            },
        };
        k = k + 1;
    }
    proof {
        assert(ps.profiles@.take(pn as int) =~= ps.profiles@);
    }
    Ok(st)
}

/// Apply one child selection of a model.
#[verifier::rlimit(50)]
fn model_child_step(st: Model, c: &Selection) -> (r: Result<Model, RosterError>)
    ensures
        res_view(r) == spec_model_child_step(st.deep_view(), *c),
{
    if !str_eq(c.selection_type.as_str(), "upgrade") {
        return Err(RosterError::UnknownSelectionType {
            selection_type: c.selection_type.clone(),
        });
    }
    // Weapons nested one level further down.
    let st = match &c.selections {
        Some(gs) => {
            match model_grandchildren_fold(st, gs) {
                Ok(s2) => s2,
                Err(e) => {
                    return Err(e);
                },
            }
        },
        None => st,
    };
    match &c.profiles {
        None => Ok(model_keyword_child(st, c)),
        Some(ps) => {
            let pn = ps.profiles.len();
            let is_tier = pn > 0 && str_eq(
                ps.profiles[0].profile_type.as_str(),
                "Stat Damage - M/BS/A",
            );
            if is_tier {
                model_tier_child(st, c, ps)
            } else {
                model_child_profiles_fold(c.number, st, ps)
            }
        },
    }
}

/// Once a prefix of the tier fold has failed, the whole fold fails the
/// same way.
proof fn lemma_tier_fold_prefix_err(
    base: ModelProfile,
    acc: Seq<ModelProfile>,
    ps: Seq<Profile>,
    i: int,
)
    requires
        0 <= i <= ps.len(),
        spec_tier_fold(base, acc, ps.take(i)) is Err,
    ensures
        spec_tier_fold(base, acc, ps) == spec_tier_fold(base, acc, ps.take(i)),
    decreases ps.len() - i,
{
    if i < ps.len() {
        assert(ps.take(i + 1).drop_last() =~= ps.take(i));
        lemma_tier_fold_prefix_err(base, acc, ps, i + 1);
    } else {
        assert(ps.take(i) =~= ps);
    }
}

/// The keyword list read from a category list.
pub fn collect_cat_names(cats: &crate::ros_parser::Categories) -> (r: Vec<String>)
    ensures
        r.deep_view() == spec_cat_names(cats.categories@),
{
    let mut keywords: Vec<String> = Vec::new();
    let cm = cats.categories.len();
    let mut k: usize = 0;
    while k < cm
        invariant
            0 <= k <= cm,
            cm == cats.categories@.len(),
            keywords.deep_view() == spec_cat_names(cats.categories@.take(k as int)),
        decreases cm - k,
    {
        proof {
            assert(cats.categories@.take(k + 1).drop_last() =~= cats.categories@.take(k as int));
            assert(cats.categories@.take(k + 1).last() == cats.categories@[k as int]);
        }
        let ghost old_dv = keywords.deep_view();
        keywords.push(cats.categories[k].name.clone());
        proof {
            assert(keywords.deep_view() =~= old_dv.push(cats.categories@[k as int].name@));
        }
        k = k + 1;
    }
    proof {
        assert(cats.categories@.take(cm as int) =~= cats.categories@);
    }
    keywords
}

/// The abilities read from a rule list: one per rule, with no text.
fn collect_rule_abilities(rs: &crate::ros_parser::Rules) -> (r: Vec<Ability>)
    ensures
        r.deep_view() == spec_rule_abilities(rs.rules@),
{
    let mut abilities: Vec<Ability> = Vec::new();
    let rm = rs.rules.len();
    let mut k2: usize = 0;
    while k2 < rm
        invariant
            0 <= k2 <= rm,
            rm == rs.rules@.len(),
            abilities.deep_view() == spec_rule_abilities(rs.rules@.take(k2 as int)),
        decreases rm - k2,
    {
        proof {
            assert(rs.rules@.take(k2 + 1).drop_last() =~= rs.rules@.take(k2 as int));
            assert(rs.rules@.take(k2 + 1).last() == rs.rules@[k2 as int]);
        }
        let ghost old_dv = abilities.deep_view();
        abilities.push(Ability { value: String::new(), name: rs.rules[k2].name.clone() });
        proof {
            assert(abilities.deep_view() =~= old_dv.push(
                AbilityView { value: Seq::empty(), name: rs.rules@[k2 as int].name@ },
            ));
        }
        k2 = k2 + 1;
    }
    proof {
        assert(rs.rules@.take(rm as int) =~= rs.rules@);
    }
    abilities
}

/// Fold every profile of the model's own list into the partial model.
#[verifier::loop_isolation(false)]
fn model_own_fold(st: Model, profs: &crate::ros_parser::Profiles) -> (r: Result<
    Model,
    RosterError,
>)
    ensures
        res_view(r) == spec_fold(
            |st2: ModelView, p: Profile| spec_model_own_step(st2, p),
            st.deep_view(),
            profs.profiles@,
        ),
{
    let ghost st0 = st.deep_view();
    let ghost ostep = |st2: ModelView, p: Profile| spec_model_own_step(st2, p);
    let mut st = st;
    let pn = profs.profiles.len();
    let mut i: usize = 0;
    while i < pn
        invariant
            0 <= i <= pn,
            pn == profs.profiles@.len(),
            spec_fold(ostep, st0, profs.profiles@.take(i as int)) == Ok::<_, RosterErrorView>(
                st.deep_view(),
            ),
        decreases pn - i,
    {
        proof {
            assert(profs.profiles@.take(i + 1).drop_last() =~= profs.profiles@.take(i as int));
            assert(profs.profiles@.take(i + 1).last() == profs.profiles@[i as int]);
            assert(spec_fold(ostep, st0, profs.profiles@.take(i + 1)) == spec_model_own_step(
                st.deep_view(),
                profs.profiles@[i as int],
            ));
        }
        st = match model_own_step(st, &profs.profiles[i]) {
            Ok(s2) => s2,
            Err(e) => {
                proof {
                    lemma_fold_prefix_err(ostep, st0, profs.profiles@, i + 1);
                }
                return Err(e);
            },
        };
        i = i + 1;
    }
    proof {
        assert(profs.profiles@.take(pn as int) =~= profs.profiles@);
    }
    Ok(st)
}

/// Fold every child selection into the partial model.
#[verifier::loop_isolation(false)]
fn model_children_fold(st: Model, ss: &crate::ros_parser::Selections) -> (r: Result<
    Model,
    RosterError,
>)
    ensures
        res_view(r) == spec_fold(
            |st2: ModelView, c: Selection| spec_model_child_step(st2, c),
            st.deep_view(),
            ss.selections@,
        ),
{
    let ghost st1 = st.deep_view();
    let ghost cstep = |st2: ModelView, c: Selection| spec_model_child_step(st2, c);
    let mut st = st;
    let cn = ss.selections.len();
    let mut j: usize = 0;
    while j < cn
        invariant
            0 <= j <= cn,
            cn == ss.selections@.len(),
            spec_fold(cstep, st1, ss.selections@.take(j as int)) == Ok::<_, RosterErrorView>(
                st.deep_view(),
            ),
        decreases cn - j,
    {
        proof {
            assert(ss.selections@.take(j + 1).drop_last() =~= ss.selections@.take(j as int));
            assert(ss.selections@.take(j + 1).last() == ss.selections@[j as int]);
            assert(spec_fold(cstep, st1, ss.selections@.take(j + 1)) == spec_model_child_step(
                st.deep_view(),
                ss.selections@[j as int],
            ));
        }
        st = match model_child_step(st, &ss.selections[j]) {
            Ok(s2) => s2,
            Err(e) => {
                proof {
                    lemma_fold_prefix_err(cstep, st1, ss.selections@, j + 1);
                }
                return Err(e);
            },
        };
        j = j + 1;
    }
    proof {
        assert(ss.selections@.take(cn as int) =~= ss.selections@);
    }
    Ok(st)
}

impl Model {
    /// Assemble one model from a `model` selection.
    #[verifier::rlimit(50)]
    pub fn from_selection(model_selection: &Selection) -> (r: Result<Model, RosterError>)
        ensures
            res_view(r) == spec_model_from_selection(*model_selection),
    {
        let s = model_selection;
        let cats = match &s.categories {
            Some(cats) => cats,
            None => {
                return Err(RosterError::MalformedSelection { context: s.name.clone() });
            },
        };
        let profs = match &s.profiles {
            Some(ps) => ps,
            None => {
                return Err(RosterError::MalformedSelection { context: s.name.clone() });
            },
        };
        let keywords = collect_cat_names(cats);
        let abilities = match &s.rules {
            Some(rs) => collect_rule_abilities(rs),
            None => {
                let empty_abilities: Vec<Ability> = Vec::new();
                proof {
                    assert(empty_abilities.deep_view() =~= spec_rule_abilities(s.spec_rules()));
                }
                empty_abilities
            },
        };
        let st = Model {
            name: s.name.clone(),
            profiles: Vec::new(),
            weapons: Vec::new(),
            number: s.number,
            keywords,
            psyker_profile: None,
            psyker_powers: Vec::new(),
            abilities,
        };
        proof {
            assert(st.profiles.deep_view() =~= Seq::<ModelProfile>::empty());
            assert(st.weapons.deep_view() =~= Seq::<WeaponView>::empty());
            assert(st.psyker_powers.deep_view() =~= Seq::<PsychicPowerView>::empty());
        }
        let st = match model_own_fold(st, profs) {
            Ok(s2) => s2,
            Err(e) => {
                return Err(e);
            },
        };
        let st = match &s.selections {
            Some(ss) => {
                match model_children_fold(st, ss) {
                    Ok(s2) => s2,
                    Err(e) => {
                        return Err(e);
                    },
                }
            },
            None => {
                proof {
                    assert(s.spec_children() =~= Seq::<Selection>::empty());
                }
                st
            },
        };
        // Merge duplicate weapons and sort the keywords.
        let Model {
            name,
            profiles,
            weapons,
            number,
            keywords,
            psyker_profile,
            psyker_powers,
            abilities,
        } = st;
        let merged = merge_weapons(weapons);
        let sorted = sort_dedup_strings(&keywords);
        Ok(
            Model {
                name,
                profiles,
                weapons: merged,
                number,
                keywords: sorted,
                psyker_profile,
                psyker_powers,
                abilities,
            },
        )
    }
}

/// The points contributed by one cost list: the sum of its `pts` entries.
pub open spec fn spec_pts_of_costs(cs: Seq<Cost>) -> int
    decreases cs.len(),
{
    if cs.len() == 0 {
        0
    } else {
        spec_pts_of_costs(cs.drop_last()) + if cs.last().name@ == "pts"@ {
            cs.last().value as int
        } else {
            0
        }
    }
}

/// The recursive points total of a selection, as a mathematical integer:
/// the totals of its children plus its own `pts` costs.
pub open spec fn spec_total_points(s: Selection) -> int
    decreases s,
    via spec_total_points_decreases
{
    (match s.selections {
        Some(ss) => spec_total_points_children(ss.selections@),
        None => 0,
    }) + spec_pts_of_costs(s.spec_costs())
}

#[via_fn]
proof fn spec_total_points_decreases(s: Selection) {
    match s.selections {
        Some(ss) => {
            lemma_child_vec_decreases(s, ss);
        },
        None => {},
    }
}

/// The summed points totals of a list of sibling selections.
pub open spec fn spec_total_points_children(q: Seq<Selection>) -> int
    decreases q,
{
    if q.len() == 0 {
        0
    } else {
        spec_total_points_children(q.drop_last()) + spec_total_points(q.last())
    }
}

/// The machine points total of a cost list folded onto `acc`, clamping
/// each addition at the ends of the `i64` range.
pub open spec fn sat_fold_costs(acc: i64, cs: Seq<Cost>) -> i64
    decreases cs.len(),
{
    if cs.len() == 0 {
        acc
    } else {
        let a2 = sat_fold_costs(acc, cs.drop_last());
        if cs.last().name@ == "pts"@ {
            clamp_i64(a2 + cs.last().value)
        } else {
            a2
        }
    }
}

/// The machine points totals of sibling selections folded onto `acc`,
/// clamping each addition.
pub open spec fn sat_fold_children(acc: i64, q: Seq<Selection>) -> i64
    decreases q,
{
    if q.len() == 0 {
        acc
    } else {
        clamp_i64(sat_fold_children(acc, q.drop_last()) + sat_total_points(q.last()))
    }
}

/// What `Unit::get_total_points` returns: the recursive points total with
/// every addition clamped into the `i64` range.
pub open spec fn sat_total_points(s: Selection) -> i64
    decreases s,
    via sat_total_points_decreases
{
    sat_fold_costs(
        match s.selections {
            Some(ss) => sat_fold_children(0, ss.selections@),
            None => 0,
        },
        s.spec_costs(),
    )
}

#[via_fn]
proof fn sat_total_points_decreases(s: Selection) {
    match s.selections {
        Some(ss) => {
            lemma_child_vec_decreases(s, ss);
        },
        None => {},
    }
}

/// Removing one selection from a sibling list removes exactly its total.
pub proof fn lemma_total_points_remove(q: Seq<Selection>, j: int)
    requires
        0 <= j < q.len(),
    ensures
        spec_total_points_children(q) == spec_total_points_children(q.remove(j))
            + spec_total_points(q[j]),
    decreases q.len(),
{
    if j == q.len() - 1 {
        assert(q.remove(j) =~= q.drop_last());
    } else {
        assert(q.remove(j).drop_last() =~= q.drop_last().remove(j));
        assert(q.remove(j).last() == q.last());
        lemma_total_points_remove(q.drop_last(), j);
    }
}

/// The points total is order-independent: sibling lists holding the same
/// selections in any order have the same summed total.
pub proof fn lemma_total_points_children_reorder(q1: Seq<Selection>, q2: Seq<Selection>)
    requires
        q1.to_multiset() == q2.to_multiset(),
    ensures
        spec_total_points_children(q1) == spec_total_points_children(q2),
    decreases q1.len(),
{
    broadcast use vstd::seq_lib::group_to_multiset_ensures;

    assert(q1.len() == q1.to_multiset().len());
    assert(q2.len() == q2.to_multiset().len());
    if q1.len() > 0 {
        let x = q1.last();
        assert(q1.contains(x));
        assert(q1.to_multiset().count(x) > 0);
        assert(q2.to_multiset().count(x) > 0);
        assert(q2.contains(x));
        let j = choose|j: int| 0 <= j < q2.len() && q2[j] == x;
        assert(q1.drop_last() =~= q1.remove(q1.len() - 1));
        assert(q1.remove(q1.len() - 1).to_multiset() =~= q1.to_multiset().remove(x));
        assert(q2.remove(j).to_multiset() =~= q2.to_multiset().remove(x));
        lemma_total_points_children_reorder(q1.drop_last(), q2.remove(j));
        lemma_total_points_remove(q2, j);
    } else {
        assert(q2.len() == 0);
    }
}

/// Reordering a selection's children does not change its points total.
pub proof fn lemma_total_points_reorder(s1: Selection, s2: Selection)
    requires
        s1.spec_costs() == s2.spec_costs(),
        s1.spec_children().to_multiset() == s2.spec_children().to_multiset(),
    ensures
        spec_total_points(s1) == spec_total_points(s2),
{
    broadcast use vstd::seq_lib::group_to_multiset_ensures;

    lemma_total_points_children_reorder(s1.spec_children(), s2.spec_children());
    match s1.selections {
        Some(ss1) => {
            assert(s1.spec_children() == ss1.selections@);
        },
        None => {
            assert(s1.spec_children() =~= Seq::<Selection>::empty());
        },
    }
    match s2.selections {
        Some(ss2) => {},
        None => {
            assert(s2.spec_children() =~= Seq::<Selection>::empty());
        },
    }
}

/// Whether every `pts` entry of a cost list is non-negative.
pub open spec fn costs_pts_nonneg(cs: Seq<Cost>) -> bool {
    forall|i: int|
        0 <= i < cs.len() && (#[trigger] cs[i]).name@ == "pts"@ ==> cs[i].value >= 0
}

/// Whether every `pts` cost in the whole subtree is non-negative.
pub open spec fn pts_nonneg(s: Selection) -> bool
    decreases s,
    via pts_nonneg_decreases
{
    costs_pts_nonneg(s.spec_costs()) && (match s.selections {
        Some(ss) => children_pts_nonneg(ss.selections@),
        None => true,
    })
}

#[via_fn]
proof fn pts_nonneg_decreases(s: Selection) {
    match s.selections {
        Some(ss) => {
            lemma_child_vec_decreases(s, ss);
        },
        None => {},
    }
}

/// Whether every `pts` cost below each of these siblings is non-negative.
pub open spec fn children_pts_nonneg(q: Seq<Selection>) -> bool
    decreases q,
{
    if q.len() == 0 {
        true
    } else {
        children_pts_nonneg(q.drop_last()) && pts_nonneg(q.last())
    }
}

/// With non-negative `pts` costs the mathematical total of a cost list is
/// non-negative and grows along the list.
proof fn lemma_pts_of_costs_nonneg(cs: Seq<Cost>)
    requires
        costs_pts_nonneg(cs),
    ensures
        spec_pts_of_costs(cs) >= 0,
    decreases cs.len(),
{
    if cs.len() > 0 {
        assert(forall|i: int|
            0 <= i < cs.len() - 1 ==> cs.drop_last()[i] == (#[trigger] cs[i]));
        lemma_pts_of_costs_nonneg(cs.drop_last());
    }
}

/// With non-negative `pts` costs the mathematical total of a selection is
/// non-negative.
proof fn lemma_total_points_nonneg(s: Selection)
    requires
        pts_nonneg(s),
    ensures
        spec_total_points(s) >= 0,
    decreases s,
{
    match s.selections {
        Some(ss) => {
            lemma_child_vec_decreases(s, ss);
            lemma_total_points_children_nonneg(ss.selections@);
        },
        None => {},
    }
    lemma_pts_of_costs_nonneg(s.spec_costs());
}

/// With non-negative `pts` costs the summed totals of siblings are
/// non-negative.
proof fn lemma_total_points_children_nonneg(q: Seq<Selection>)
    requires
        children_pts_nonneg(q),
    ensures
        spec_total_points_children(q) >= 0,
    decreases q,
{
    if q.len() > 0 {
        lemma_total_points_children_nonneg(q.drop_last());
        lemma_total_points_nonneg(q.last());
    }
}

/// As long as every `pts` cost is non-negative and the mathematical total
/// fits in `i64`, the clamped cost fold computes it exactly.
proof fn lemma_sat_costs_exact(acc: i64, cs: Seq<Cost>)
    requires
        0 <= acc,
        costs_pts_nonneg(cs),
        acc + spec_pts_of_costs(cs) <= i64::MAX,
    ensures
        sat_fold_costs(acc, cs) == acc + spec_pts_of_costs(cs),
    decreases cs.len(),
{
    if cs.len() > 0 {
        assert(forall|i: int|
            0 <= i < cs.len() - 1 ==> cs.drop_last()[i] == (#[trigger] cs[i]));
        lemma_pts_of_costs_nonneg(cs.drop_last());
        lemma_sat_costs_exact(acc, cs.drop_last());
    }
}

/// As long as every `pts` cost below is non-negative and the accumulated
/// mathematical total fits in `i64`, the clamped child fold computes it
/// exactly.
proof fn lemma_sat_children_exact(acc: i64, q: Seq<Selection>)
    requires
        0 <= acc,
        children_pts_nonneg(q),
        acc + spec_total_points_children(q) <= i64::MAX,
    ensures
        sat_fold_children(acc, q) == acc + spec_total_points_children(q),
    decreases q,
{
    if q.len() > 0 {
        lemma_total_points_nonneg(q.last());
        lemma_total_points_children_nonneg(q.drop_last());
        lemma_sat_children_exact(acc, q.drop_last());
        lemma_sat_total_exact(q.last());
    }
}

/// The clamped machine total equals the mathematical total whenever the
/// `pts` costs are non-negative and the total fits in `i64`.
pub proof fn lemma_sat_total_exact(s: Selection)
    requires
        pts_nonneg(s),
        spec_total_points(s) <= i64::MAX,
    ensures
        sat_total_points(s) == spec_total_points(s),
    decreases s,
{
    lemma_pts_of_costs_nonneg(s.spec_costs());
    match s.selections {
        Some(ss) => {
            lemma_child_vec_decreases(s, ss);
            lemma_total_points_children_nonneg(ss.selections@);
            lemma_sat_children_exact(0, ss.selections@);
            lemma_sat_costs_exact(sat_fold_children(0, ss.selections@), s.spec_costs());
        },
        None => {
            lemma_sat_costs_exact(0, s.spec_costs());
        },
    }
}

/// One unit: its models, keywords, rules, abilities and points total.
#[derive(Debug, PartialEq, Eq)]
pub struct Unit {
    pub name: String,
    pub keywords: Vec<String>,
    pub abilities: Vec<Ability>,
    pub invulnable_save: Option<u8>,
    pub models: Vec<Model>,
    pub rules: Vec<String>,
    pub points: i64,
}

/// The mathematical shadow of a [`Unit`].
pub ghost struct UnitView {
    pub name: Seq<char>,
    pub keywords: Seq<Seq<char>>,
    pub abilities: Seq<AbilityView>,
    pub invulnable_save: Option<u8>,
    pub models: Seq<ModelView>,
    pub rules: Seq<Seq<char>>,
    pub points: i64,
}

impl DeepView for Unit {
    type V = UnitView;

    open spec fn deep_view(&self) -> UnitView {
        UnitView {
            name: self.name@,
            keywords: self.keywords.deep_view(),
            abilities: self.abilities.deep_view(),
            invulnable_save: self.invulnable_save,
            models: self.models.deep_view(),
            rules: self.rules.deep_view(),
            points: self.points,
        }
    }
}

/// One step of the fold over a unit's own profiles: a `Weapon` profile is
/// a unit-level weapon handed to every model, `Unit` and `Abilities`
/// profiles are read elsewhere, anything else fails.
pub open spec fn spec_unit_profile_step(ws: Seq<WeaponView>, p: Profile) -> Result<
    Seq<WeaponView>,
    RosterErrorView,
> {
    if p.profile_type@ == "Weapon"@ {
        match spec_weapon_from_profile(p) {
            Ok(w) => Ok(ws.push(w)),
            Err(e) => Err(e),
        }
    } else if p.profile_type@ == "Unit"@ || p.profile_type@ == "Abilities"@ {
        Ok(ws)
    } else {
        Err(RosterErrorView::UnhandledProfileType { profile_type: p.profile_type@ })
    }
}

/// The models, keywords and rules gathered while walking a unit's
/// children.
pub ghost struct UnitAccView {
    pub models: Seq<ModelView>,
    pub keywords: Seq<Seq<char>>,
    pub rules: Seq<Seq<char>>,
}

/// One step of the fold over a unit's children: a child with profiles
/// becomes a model carrying the unit-level weapons after its own, the
/// joined list merged again so that no two entries share a name, and
/// every child contributes its categories as keywords and its rules.
pub open spec fn spec_unit_child_step(
    uw: Seq<WeaponView>,
    acc: UnitAccView,
    c: Selection,
) -> Result<UnitAccView, RosterErrorView> {
    let models2 = (if c.profiles is Some {
        match spec_model_from_selection(c) {
            Ok(m) => Ok(
                acc.models.push(
                    ModelView { weapons: spec_merge_weapons(m.weapons + uw), ..m },
                ),
            ),
            Err(e) => Err(e),
        }
    } else {
        Ok(acc.models)
    });
    match models2 {
        Ok(ms) => Ok(
            UnitAccView {
                models: ms,
                keywords: acc.keywords + spec_cat_names(c.spec_categories()),
                rules: acc.rules + spec_rule_names(c.spec_rules()),
            },
        ),
        Err(e) => Err(e),
    }
}

/// What `Unit::from_selection` returns: the unit read from a `model` or
/// `unit` selection. Unit-level weapon profiles are appended to every
/// model's weapon list and the joined list is merged again, so no model
/// ever holds two weapons of one name; keywords and rules are gathered
/// from the children and the selection itself, then sorted without
/// duplicates; abilities are all ability profiles below the selection;
/// the points total is the recursive sum of `pts` costs.
pub open spec fn spec_unit_from_selection(s: Selection) -> Result<UnitView, RosterErrorView> {
    match spec_fold(
        |ws: Seq<WeaponView>, p: Profile| spec_unit_profile_step(ws, p),
        Seq::empty(),
        s.spec_profiles(),
    ) {
        Err(e) => Err(e),
        Ok(uw) => {
            let acc0 = UnitAccView { models: Seq::empty(), keywords: Seq::empty(), rules: Seq::empty() };
            let acc = (if s.selection_type@ == "model"@ {
                match spec_model_from_selection(s) {
                    Ok(m) => Ok(UnitAccView { models: seq![m], ..acc0 }),
                    Err(e) => Err(e),
                }
            } else if s.selection_type@ == "unit"@ {
                spec_fold(
                    |a: UnitAccView, c: Selection| spec_unit_child_step(uw, a, c),
                    acc0,
                    s.spec_children(),
                )
            } else {
                Err(RosterErrorView::UnknownSelectionType { selection_type: s.selection_type@ })
            });
            match acc {
                Err(e) => Err(e),
                Ok(a) => Ok(
                    UnitView {
                        name: s.name@,
                        keywords: crate::text::spec_sort_dedup(
                            a.keywords + spec_cat_names(s.spec_categories()),
                        ),
                        abilities: spec_parse_abilities(s),
                        invulnable_save: None,
                        models: a.models,
                        rules: crate::text::spec_sort_dedup(a.rules),
                        points: sat_total_points(s),
                    },
                ),
            }
        },
    }
}

/// The gathered unit parts while walking children.
struct UnitParts {
    pub models: Vec<Model>,
    pub keywords: Vec<String>,
    pub rules: Vec<String>,
}

impl DeepView for UnitParts {
    type V = UnitAccView;

    closed spec fn deep_view(&self) -> UnitAccView {
        UnitAccView {
            models: self.models.deep_view(),
            keywords: self.keywords.deep_view(),
            rules: self.rules.deep_view(),
        }
    }
}

/// Apply one child selection of a unit.
#[verifier::loop_isolation(false)]
#[verifier::rlimit(50)]
fn unit_child_step(uw: &Vec<Weapon>, acc: UnitParts, c: &Selection) -> (r: Result<
    UnitParts,
    RosterError,
>)
    ensures
        res_view(r) == spec_unit_child_step(uw.deep_view(), acc.deep_view(), *c),
{
    let ghost acc0 = acc.deep_view();
    let mut acc = acc;
    if c.profiles.is_some() {
        let mut m = match Model::from_selection(c) {
            Ok(m) => m,
            Err(e) => {
                return Err(e);
            },
        };
        let ghost m0 = m.deep_view();
        let un = uw.len();
        let mut k: usize = 0;
        while k < un
            invariant
                0 <= k <= un,
                un == uw.deep_view().len(),
                m.deep_view() == (ModelView {
                    weapons: m0.weapons + uw.deep_view().take(k as int),
                    ..m0
                }),
            decreases un - k,
        {
            m.append_weapon(&uw[k]);
            proof {
                assert(m0.weapons + uw.deep_view().take(k + 1) =~= (m0.weapons + uw.deep_view()
                    .take(k as int)).push(uw.deep_view()[k as int]));
            }
            k = k + 1;
        }
        proof {
            assert(uw.deep_view().take(un as int) =~= uw.deep_view());
        }
        // Merge again: a unit-level weapon may share a name with one the
        // model already carries.
        let Model {
            name,
            profiles,
            weapons,
            number,
            keywords,
            psyker_profile,
            psyker_powers,
            abilities,
        } = m;
        let weapons = merge_weapons(weapons);
        let m = Model {
            name,
            profiles,
            weapons,
            number,
            keywords,
            psyker_profile,
            psyker_powers,
            abilities,
        };
        proof {
            assert(m.deep_view() =~= (ModelView {
                weapons: spec_merge_weapons(m0.weapons + uw.deep_view()),
                ..m0
            }));
        }
        let ghost old_models = acc.models.deep_view();
        acc.models.push(m);
        proof {
            assert(acc.models.deep_view() =~= old_models.push(
                ModelView { weapons: spec_merge_weapons(m0.weapons + uw.deep_view()), ..m0 },
            ));
        }
    }
    match &c.categories {
        Some(cats) => {
            let mut names = collect_cat_names(cats);
            let ghost old_kw = acc.keywords.deep_view();
            let ghost names_dv = names.deep_view();
            acc.keywords.append(&mut names);
            proof {
                assert(acc.keywords.deep_view() =~= old_kw + names_dv);
            }
        },
        None => {
            proof {
                assert(acc.keywords.deep_view() + spec_cat_names(c.spec_categories())
                    =~= acc.keywords.deep_view());
            }
        },
    }
    match &c.rules {
        Some(rs) => {
            let mut names = collect_rule_names(rs);
            let ghost old_ru = acc.rules.deep_view();
            let ghost names_dv = names.deep_view();
            acc.rules.append(&mut names);
            proof {
                assert(acc.rules.deep_view() =~= old_ru + names_dv);
            }
        },
        None => {
            proof {
                assert(acc.rules.deep_view() + spec_rule_names(c.spec_rules()) =~= acc.rules
                    .deep_view());
            }
        },
    }
    Ok(acc)
}

/// The names of a rule list.
fn collect_rule_names(rs: &crate::ros_parser::Rules) -> (r: Vec<String>)
    ensures
        r.deep_view() == spec_rule_names(rs.rules@),
{
    let mut names: Vec<String> = Vec::new();
    let rm = rs.rules.len();
    let mut k: usize = 0;
    while k < rm
        invariant
            0 <= k <= rm,
            rm == rs.rules@.len(),
            names.deep_view() == spec_rule_names(rs.rules@.take(k as int)),
        decreases rm - k,
    {
        proof {
            assert(rs.rules@.take(k + 1).drop_last() =~= rs.rules@.take(k as int));
            assert(rs.rules@.take(k + 1).last() == rs.rules@[k as int]);
        }
        let ghost old_dv = names.deep_view();
        names.push(rs.rules[k].name.clone());
        proof {
            assert(names.deep_view() =~= old_dv.push(rs.rules@[k as int].name@));
        }
        k = k + 1;
    }
    proof {
        assert(rs.rules@.take(rm as int) =~= rs.rules@);
    }
    names
}

impl Unit {
    /// The recursive points total of a selection: every `pts` cost of the
    /// selection and its descendants, each addition clamped into the `i64`
    /// range.
    #[verifier::loop_isolation(false)]
    pub fn get_total_points(unit_selection: &Selection) -> (r: i64)
        ensures
            r == sat_total_points(*unit_selection),
        decreases *unit_selection,
    {
        let mut points: i64 = 0;
        match &unit_selection.selections {
            Some(ss) => {
                let n = ss.selections.len();
                let mut i: usize = 0;
                while i < n
                    invariant
                        0 <= i <= n,
                        n == ss.selections@.len(),
                        unit_selection.selections == Some(*ss),
                        points == sat_fold_children(0, ss.selections@.take(i as int)),
                    decreases n - i,
                {
                    proof {
                        assert(ss.selections@.take(i + 1).drop_last() =~= ss.selections@.take(
                            i as int,
                        ));
                        assert(ss.selections@.take(i + 1).last() == ss.selections@[i as int]);
                        lemma_child_vec_decreases(*unit_selection, *ss);
                        assert(decreases_to!(ss.selections@ => ss.selections@[i as int]));
                    }
                    let c = Unit::get_total_points(&ss.selections[i]);
                    points = add_i64_clamped(points, c);
                    i = i + 1;
                }
                proof {
                    assert(ss.selections@.take(n as int) =~= ss.selections@);
                }
            },
            None => {},
        }
        match &unit_selection.costs {
            Some(cs) => {
                let ghost acc = points;
                let m = cs.costs.len();
                let mut j: usize = 0;
                while j < m
                    invariant
                        0 <= j <= m,
                        m == cs.costs@.len(),
                        unit_selection.costs == Some(*cs),
                        points == sat_fold_costs(acc, cs.costs@.take(j as int)),
                    decreases m - j,
                {
                    proof {
                        assert(cs.costs@.take(j + 1).drop_last() =~= cs.costs@.take(j as int));
                        assert(cs.costs@.take(j + 1).last() == cs.costs@[j as int]);
                    }
                    if str_eq(cs.costs[j].name.as_str(), "pts") {
                        points = add_i64_clamped(points, cs.costs[j].value);
                    }
                    j = j + 1;
                }
                proof {
                    assert(cs.costs@.take(m as int) =~= cs.costs@);
                }
            },
            None => {
                proof {
                    assert(unit_selection.spec_costs() =~= Seq::<Cost>::empty());
                }
            },
        }
        points
    }

    /// Assemble one unit from a `model` or `unit` selection.
    #[verifier::loop_isolation(false)]
    #[verifier::rlimit(50)]
    pub fn from_selection(unit_selection: &Selection) -> (r: Result<Unit, RosterError>)
        ensures
            res_view(r) == spec_unit_from_selection(*unit_selection),
            r matches Ok(u) ==> forall|i: int|
                0 <= i < u.deep_view().models.len() ==> weapon_names_unique(
                    (#[trigger] u.deep_view().models[i]).weapons,
                ),
    {
        let s = unit_selection;
        // Unit-level weapon profiles.
        let ghost wstep = |ws: Seq<WeaponView>, p: Profile| spec_unit_profile_step(ws, p);
        let mut unit_weapons: Vec<Weapon> = Vec::new();
        proof {
            assert(unit_weapons.deep_view() =~= Seq::<WeaponView>::empty());
        }
        match &s.profiles {
            Some(ps) => {
                let pn = ps.profiles.len();
                let mut i: usize = 0;
                while i < pn
                    invariant
                        0 <= i <= pn,
                        pn == ps.profiles@.len(),
                        s.profiles == Some(*ps),
                        spec_fold(wstep, Seq::empty(), ps.profiles@.take(i as int)) == Ok::<
                            _,
                            RosterErrorView,
                        >(unit_weapons.deep_view()),
                    decreases pn - i,
                {
                    proof {
                        assert(ps.profiles@.take(i + 1).drop_last() =~= ps.profiles@.take(
                            i as int,
                        ));
                        assert(ps.profiles@.take(i + 1).last() == ps.profiles@[i as int]);
                        assert(spec_fold(wstep, Seq::empty(), ps.profiles@.take(i + 1))
                            == spec_unit_profile_step(
                            unit_weapons.deep_view(),
                            ps.profiles@[i as int],
                        ));
                    }
                    let p = &ps.profiles[i];
                    if str_eq(p.profile_type.as_str(), "Weapon") {
                        match Weapon::from_profile(p) {
                            Ok(w) => {
                                let ghost old_dv = unit_weapons.deep_view();
                                let ghost wv = w.deep_view();
                                unit_weapons.push(w);
                                proof {
                                    assert(unit_weapons.deep_view() =~= old_dv.push(wv));
                                }
                            },
                            Err(e) => {
                                proof {
                                    lemma_fold_prefix_err(
                                        wstep,
                                        Seq::empty(),
                                        ps.profiles@,
                                        i + 1,
                                    );
                                }
                                return Err(e);
                            },
                        }
                    } else if str_eq(p.profile_type.as_str(), "Unit") || str_eq(
                        p.profile_type.as_str(),
                        "Abilities",
                    ) {
                    } else {
                        proof {
                            lemma_fold_prefix_err(wstep, Seq::empty(), ps.profiles@, i + 1);
                        }
                        return Err(RosterError::UnhandledProfileType {
                            profile_type: p.profile_type.clone(),
                        });
                    }
                    i = i + 1;
                }
                proof {
                    assert(ps.profiles@.take(pn as int) =~= ps.profiles@);
                }
            },
            None => {
                proof {
                    assert(s.spec_profiles() =~= Seq::<Profile>::empty());
                }
            },
        }
        // The models, keywords and rules, by selection type.
        let ghost uwv = unit_weapons.deep_view();
        let ghost cstep = |a: UnitAccView, c: Selection| spec_unit_child_step(uwv, a, c);
        let mut acc = UnitParts { models: Vec::new(), keywords: Vec::new(), rules: Vec::new() };
        proof {
            assert(acc.models.deep_view() =~= Seq::<ModelView>::empty());
            assert(acc.keywords.deep_view() =~= Seq::<Seq<char>>::empty());
            assert(acc.rules.deep_view() =~= Seq::<Seq<char>>::empty());
        }
        let ghost acc0 = acc.deep_view();
        if str_eq(s.selection_type.as_str(), "model") {
            match Model::from_selection(s) {
                Ok(m) => {
                    let ghost mv = m.deep_view();
                    acc.models.push(m);
                    proof {
                        assert(acc.models.deep_view() =~= seq![mv]);
                    }
                },
                Err(e) => {
                    return Err(e);
                },
            }
        } else if str_eq(s.selection_type.as_str(), "unit") {
            match &s.selections {
                Some(ss) => {
                    let cn = ss.selections.len();
                    let mut j: usize = 0;
                    while j < cn
                        invariant
                            0 <= j <= cn,
                            cn == ss.selections@.len(),
                            s.selections == Some(*ss),
                            spec_fold(cstep, acc0, ss.selections@.take(j as int)) == Ok::<
                                _,
                                RosterErrorView,
                            >(acc.deep_view()),
                        decreases cn - j,
                    {
                        proof {
                            assert(ss.selections@.take(j + 1).drop_last() =~= ss.selections@.take(
                                j as int,
                            ));
                            assert(ss.selections@.take(j + 1).last() == ss.selections@[j as int]);
                            assert(spec_fold(cstep, acc0, ss.selections@.take(j + 1))
                                == spec_unit_child_step(
                                uwv,
                                acc.deep_view(),
                                ss.selections@[j as int],
                            ));
                        }
                        acc = match unit_child_step(&unit_weapons, acc, &ss.selections[j]) {
                            Ok(a2) => a2,
                            Err(e) => {
                                proof {
                                    lemma_fold_prefix_err(cstep, acc0, ss.selections@, j + 1);
                                }
                                return Err(e);
                            },
                        };
                        j = j + 1;
                    }
                    proof {
                        assert(ss.selections@.take(cn as int) =~= ss.selections@);
                    }
                },
                None => {
                    proof {
                        assert(s.spec_children() =~= Seq::<Selection>::empty());
                    }
                },
            }
        } else {
            return Err(RosterError::UnknownSelectionType {
                selection_type: s.selection_type.clone(),
            });
        }
        // Keywords from the selection's own categories.
        match &s.categories {
            Some(cats) => {
                let mut names = collect_cat_names(cats);
                let ghost old_kw = acc.keywords.deep_view();
                let ghost names_dv = names.deep_view();
                acc.keywords.append(&mut names);
                proof {
                    assert(acc.keywords.deep_view() =~= old_kw + names_dv);
                }
            },
            None => {
                proof {
                    assert(acc.keywords.deep_view() + spec_cat_names(s.spec_categories())
                        =~= acc.keywords.deep_view());
                }
            },
        }
        let abilities = parse_abilities(s);
        let points = Unit::get_total_points(s);
        let keywords = sort_dedup_strings(&acc.keywords);
        let rules = sort_dedup_strings(&acc.rules);
        let u = Unit {
            name: s.name.clone(),
            keywords,
            abilities,
            invulnable_save: None,
            models: acc.models,
            rules,
            points,
        };
        proof {
            lemma_unit_models_weapons_unique(*s);
        }
        Ok(u)
    }
}

/// A model builds only when each of its own `Unit` profiles parses, so a
/// characteristic name outside the model lexicon anywhere in them aborts
/// the whole model: no partial model survives such a name.
pub proof fn lemma_model_ok_unit_profiles_parse(s: Selection)
    requires
        spec_model_from_selection(s) is Ok,
    ensures
        s.profiles is Some,
        forall|i: int|
            0 <= i < s.profiles->0.profiles@.len() && (#[trigger] s.profiles->0.profiles@[i])
                .profile_type@ == "Unit"@ ==> spec_model_profile_from(
                s.profiles->0.profiles@[i],
            ) is Ok,
{
    let ps = s.profiles->0.profiles@;
    let st0 = ModelView {
        name: s.name@,
        profiles: Seq::empty(),
        weapons: Seq::empty(),
        number: s.number,
        keywords: spec_cat_names(s.spec_categories()),
        psyker_profile: None,
        psyker_powers: Seq::empty(),
        abilities: spec_rule_abilities(s.spec_rules()),
    };
    let ostep = |st: ModelView, p: Profile| spec_model_own_step(st, p);
    assert forall|i: int|
        0 <= i < ps.len() && (#[trigger] ps[i]).profile_type@ == "Unit"@ implies
        spec_model_profile_from(ps[i]) is Ok by {
        crate::fold::lemma_fold_ok_prefix(ostep, st0, ps, i + 1);
        crate::fold::lemma_fold_ok_prefix(ostep, st0, ps, i);
        assert(ps.take(i + 1).drop_last() =~= ps.take(i));
        assert(ps.take(i + 1).last() == ps[i]);
        let before = spec_fold(ostep, st0, ps.take(i));
        assert(spec_fold(ostep, st0, ps.take(i + 1)) == spec_model_own_step(
            before->Ok_0,
            ps[i],
        ));
    }
}

/// The data-model invariant on a built model: no two weapons in its list
/// share a name, because duplicate entries were merged.
pub proof fn lemma_model_weapons_unique(s: Selection)
    requires
        spec_model_from_selection(s) is Ok,
    ensures
        crate::weapon::weapon_names_unique(spec_model_from_selection(s)->Ok_0.weapons),
{
    let st0 = ModelView {
        name: s.name@,
        profiles: Seq::empty(),
        weapons: Seq::empty(),
        number: s.number,
        keywords: spec_cat_names(s.spec_categories()),
        psyker_profile: None,
        psyker_powers: Seq::empty(),
        abilities: spec_rule_abilities(s.spec_rules()),
    };
    let own = spec_fold(
        |st: ModelView, p: Profile| spec_model_own_step(st, p),
        st0,
        s.profiles->0.profiles@,
    );
    let after = spec_fold(
        |st: ModelView, c: Selection| spec_model_child_step(st, c),
        own->Ok_0,
        s.spec_children(),
    );
    crate::weapon::lemma_merge_names_unique(after->Ok_0.weapons);
}

/// The machine points total is order-independent as well, whenever the
/// `pts` costs are non-negative and the mathematical total fits in `i64`.
pub proof fn lemma_sat_total_reorder(s1: Selection, s2: Selection)
    requires
        s1.spec_costs() == s2.spec_costs(),
        s1.spec_children().to_multiset() == s2.spec_children().to_multiset(),
        pts_nonneg(s1),
        pts_nonneg(s2),
        spec_total_points(s1) <= i64::MAX,
    ensures
        sat_total_points(s1) == sat_total_points(s2),
{
    lemma_total_points_reorder(s1, s2);
    lemma_sat_total_exact(s1);
    lemma_sat_total_exact(s2);
}

/// A `model`-typed selection builds a unit only when the model itself
/// builds.
pub proof fn lemma_unit_ok_model_parses(s: Selection)
    requires
        spec_unit_from_selection(s) is Ok,
        s.selection_type@ == "model"@,
    ensures
        spec_model_from_selection(s) is Ok,
{
}

/// A `unit`-typed selection builds only when every child carrying a
/// profile list builds as a model: one failing model aborts the unit.
pub proof fn lemma_unit_ok_child_models_parse(s: Selection, i: int)
    requires
        spec_unit_from_selection(s) is Ok,
        s.selection_type@ == "unit"@,
        0 <= i < s.spec_children().len(),
        s.spec_children()[i].profiles is Some,
    ensures
        spec_model_from_selection(s.spec_children()[i]) is Ok,
{
    proof_helper_unit_model_differ();
    assert(s.selection_type@ != "model"@);
    let q = s.spec_children();
    let uw = spec_fold(
        |ws: Seq<WeaponView>, p: Profile| spec_unit_profile_step(ws, p),
        Seq::empty(),
        s.spec_profiles(),
    );
    let acc0 = UnitAccView { models: Seq::empty(), keywords: Seq::empty(), rules: Seq::empty() };
    let cstep = |a: UnitAccView, c: Selection| spec_unit_child_step(uw->Ok_0, a, c);
    crate::fold::lemma_fold_ok_prefix(cstep, acc0, q, i + 1);
    crate::fold::lemma_fold_ok_prefix(cstep, acc0, q, i);
    assert(q.take(i + 1).drop_last() =~= q.take(i));
    assert(q.take(i + 1).last() == q[i]);
    let before = spec_fold(cstep, acc0, q.take(i));
    assert(spec_fold(cstep, acc0, q.take(i + 1)) == spec_unit_child_step(
        uw->Ok_0,
        before->Ok_0,
        q[i],
    ));
}

/// The `unit` and `model` type tags differ.
proof fn proof_helper_unit_model_differ()
    ensures
        "unit"@ != "model"@,
{
    reveal_strlit("model");
    reveal_strlit("unit");
    assert("unit"@.len() == 4);
    assert("model"@.len() == 5);
}

/// Every model an Ok children fold has gathered carries a name-unique
/// weapon list, because each push merges the joined list.
proof fn lemma_unit_children_fold_unique(uw: Seq<WeaponView>, acc0: UnitAccView, q: Seq<Selection>)
    requires
        spec_fold(
            |a: UnitAccView, c: Selection| spec_unit_child_step(uw, a, c),
            acc0,
            q,
        ) is Ok,
        forall|j: int|
            0 <= j < acc0.models.len() ==> weapon_names_unique(
                (#[trigger] acc0.models[j]).weapons,
            ),
    ensures
        ({
            let ms = spec_fold(
                |a: UnitAccView, c: Selection| spec_unit_child_step(uw, a, c),
                acc0,
                q,
            )->Ok_0.models;
            forall|j: int|
                0 <= j < ms.len() ==> weapon_names_unique((#[trigger] ms[j]).weapons)
        }),
    decreases q.len(),
{
    let cstep = |a: UnitAccView, c: Selection| spec_unit_child_step(uw, a, c);
    if q.len() > 0 {
        lemma_unit_children_fold_unique(uw, acc0, q.drop_last());
        let prev = spec_fold(cstep, acc0, q.drop_last())->Ok_0;
        let c = q.last();
        let ms = spec_fold(cstep, acc0, q)->Ok_0.models;
        if c.profiles is Some {
            let m = spec_model_from_selection(c)->Ok_0;
            crate::weapon::lemma_merge_names_unique(m.weapons + uw);
            assert forall|j: int| 0 <= j < ms.len() implies weapon_names_unique(
                (#[trigger] ms[j]).weapons,
            ) by {
                if j < prev.models.len() {
                    assert(ms[j] == prev.models[j]);
                }
            }
        } else {
            assert(ms == prev.models);
        }
    }
}

/// The data-model invariant holds of every model of a built unit: no two
/// weapons in one model's list share a name, also after the unit-level
/// weapons have joined it.
pub proof fn lemma_unit_models_weapons_unique(s: Selection)
    requires
        spec_unit_from_selection(s) is Ok,
    ensures
        ({
            let ms = spec_unit_from_selection(s)->Ok_0.models;
            forall|i: int|
                0 <= i < ms.len() ==> weapon_names_unique((#[trigger] ms[i]).weapons)
        }),
{
    let uwr = spec_fold(
        |ws: Seq<WeaponView>, p: Profile| spec_unit_profile_step(ws, p),
        Seq::empty(),
        s.spec_profiles(),
    );
    let ms = spec_unit_from_selection(s)->Ok_0.models;
    if s.selection_type@ == "model"@ {
        lemma_model_weapons_unique(s);
        let m = spec_model_from_selection(s)->Ok_0;
        assert forall|i: int| 0 <= i < ms.len() implies weapon_names_unique(
            (#[trigger] ms[i]).weapons,
        ) by {
            assert(ms[i] == m);
        }
    } else {
        let acc0 = UnitAccView {
            models: Seq::empty(),
            keywords: Seq::empty(),
            rules: Seq::empty(),
        };
        lemma_unit_children_fold_unique(uwr->Ok_0, acc0, s.spec_children());
    }
}

} // verus!
