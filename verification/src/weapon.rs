//! Weapons: the weapon class and strength notations, the weapon profile
//! parser, and the merging of duplicate weapon entries.

use vstd::prelude::*;

use crate::ability::{spec_value_or_empty, value_or_empty, Ability, AbilityView};
use crate::error::{res_view, RosterError, RosterErrorView};
use crate::fold::{lemma_fold_prefix_err, spec_fold};
use crate::profile::{spec_parse_stat_value, ProfileValue};
use crate::ros_parser::{Characteristic, Profile, Selection};
use crate::text::{add_u8_clamped, all_digits, clamped_add_u8, digits_val, nonspace_prefix_len,
    lemma_nonspace_prefix_len_characterization, parse_digits_capped, parse_leading_u8,
    parse_plain_i8, parse_plain_u8, scan_digits, scan_nonspace, spec_parse_i8,
    spec_parse_leading_u8, spec_parse_u8, str_eq};
use vstd::string::StrSliceExecFns;
use vstd::string::StringExecFns;

verus! {

/// The weapon classes of the game.
#[derive(Debug, Clone, Copy, PartialEq, Eq)]
pub enum WeaponType {
    Pistol,
    Assault,
    Heavy,
    RapidFire,
    Grenade,
    Melee,
}

/// How a weapon's strength interacts with the wielder's: added to it,
/// multiplied with it, or a flat value of its own.
#[derive(Debug, Clone, Copy, PartialEq, Eq)]
pub enum WeaponStrengthType {
    Addition,
    Multiply,
    Flat,
}

/// A weapon's strength: a value and how it applies.
#[derive(Debug, Clone, Copy, PartialEq, Eq)]
pub struct WeaponStrength {
    pub value: u8,
    pub strength_type: WeaponStrengthType,
}

impl DeepView for WeaponType {
    type V = WeaponType;

    open spec fn deep_view(&self) -> WeaponType {
        *self
    }
}

impl DeepView for WeaponStrength {
    type V = WeaponStrength;

    open spec fn deep_view(&self) -> WeaponStrength {
        *self
    }
}

/// One weapon stat line. A melee weapon has no range and no attack count of
/// its own (it inherits the wielder's attacks).
#[derive(Debug, PartialEq, Eq)]
pub struct WeaponProfile {
    pub abilities: Vec<Ability>,
    pub range: Option<u8>,
    pub weapon_type: WeaponType,
    pub attacks: Option<ProfileValue>,
    pub strength: WeaponStrength,
    pub armour_penetration: i8,
    pub damage: ProfileValue,
}

/// The mathematical shadow of a [`WeaponProfile`].
pub ghost struct WeaponProfileView {
    pub abilities: Seq<AbilityView>,
    pub range: Option<u8>,
    pub weapon_type: WeaponType,
    pub attacks: Option<ProfileValue>,
    pub strength: WeaponStrength,
    pub armour_penetration: i8,
    pub damage: ProfileValue,
}

impl DeepView for WeaponProfile {
    type V = WeaponProfileView;

    open spec fn deep_view(&self) -> WeaponProfileView {
        WeaponProfileView {
            abilities: self.abilities.deep_view(),
            range: self.range,
            weapon_type: self.weapon_type,
            attacks: self.attacks,
            strength: self.strength,
            armour_penetration: self.armour_penetration,
            damage: self.damage,
        }
    }
}

impl Clone for WeaponProfile {
    fn clone(&self) -> (r: Self)
        ensures
            r.deep_view() == self.deep_view(),
    {
        let mut abilities: Vec<Ability> = Vec::new();
        let mut i: usize = 0;
        while i < self.abilities.len()
            invariant
                0 <= i <= self.abilities.len(),
                abilities.deep_view() =~= self.abilities.deep_view().take(i as int),
            decreases self.abilities.len() - i,
        {
            let ghost old_dv = abilities.deep_view();
            abilities.push(self.abilities[i].clone());
            proof {
                assert(abilities.deep_view() =~= old_dv.push(
                    self.abilities@[i as int].deep_view(),
                ));
                assert(abilities.deep_view() =~= self.abilities.deep_view().take(i + 1));
            }
            i = i + 1;
        }
        proof {
            assert(self.abilities.deep_view().take(i as int) =~= self.abilities.deep_view());
        }
        let r = WeaponProfile {
            abilities,
            range: self.range,
            weapon_type: self.weapon_type,
            attacks: self.attacks,
            strength: self.strength,
            armour_penetration: self.armour_penetration,
            damage: self.damage,
        };
        r
    }
}

/// One weapon entry of a model: a name, a stat line, and how many copies
/// the model carries.
#[derive(Debug, PartialEq, Eq)]
pub struct Weapon {
    pub name: String,
    pub profile: WeaponProfile,
    pub number: u8,
}

/// The mathematical shadow of a [`Weapon`].
pub ghost struct WeaponView {
    pub name: Seq<char>,
    pub profile: WeaponProfileView,
    pub number: u8,
}

impl DeepView for Weapon {
    type V = WeaponView;

    open spec fn deep_view(&self) -> WeaponView {
        WeaponView { name: self.name@, profile: self.profile.deep_view(), number: self.number }
    }
}

impl Clone for Weapon {
    fn clone(&self) -> (r: Self)
        ensures
            r.deep_view() == self.deep_view(),
    {
        Weapon { name: self.name.clone(), profile: self.profile.clone(), number: self.number }
    }
}

/// What the weapon strength token parses to: `*` is a flat zero resolved
/// elsewhere, a leading `+` or `x` is a modifier of the wielder's strength,
/// and a bare integer is a flat strength.
pub open spec fn spec_parse_strength(s: Seq<char>) -> Result<WeaponStrength, RosterErrorView> {
    if s.len() == 1 && s[0] == '*' {
        Ok(WeaponStrength { value: 0, strength_type: WeaponStrengthType::Flat })
    } else if s.len() >= 2 && (s[0] == '+' || s[0] == 'x') && all_digits(s.skip(1)) && digits_val(
        s.skip(1),
    ) <= 255 {
        Ok(
            WeaponStrength {
                value: digits_val(s.skip(1)) as u8,
                strength_type: if s[0] == '+' {
                    WeaponStrengthType::Addition
                } else {
                    WeaponStrengthType::Multiply
                },
            },
        )
    } else {
        match spec_parse_u8(s) {
            Some(v) => Ok(WeaponStrength { value: v, strength_type: WeaponStrengthType::Flat }),
            None => Err(RosterErrorView::MalformedStatValue { token: s }),
        }
    }
}

/// Parse the weapon strength token.
pub fn parse_strength(s: &str) -> (r: Result<WeaponStrength, RosterError>)
    ensures
        res_view(r) == spec_parse_strength(s@),
{
    let n = s.unicode_len();
    if n == 1 && s.get_char(0) == '*' {
        return Ok(WeaponStrength { value: 0, strength_type: WeaponStrengthType::Flat });
    }
    if n >= 2 {
        let c0 = s.get_char(0);
        if c0 == '+' || c0 == 'x' {
            let e = scan_digits(s, 1);
            proof {
                assert(s@.skip(1) =~= s@.subrange(1, n as int));
            }
            if e == n {
                match parse_digits_capped(s, 1, n, 255) {
                    Some(v) => {
                        return Ok(
                            WeaponStrength {
                                value: v as u8,
                                strength_type: if c0 == '+' {
                                    WeaponStrengthType::Addition
                                } else {
                                    WeaponStrengthType::Multiply
                                },
                            },
                        );
                    },
                    None => {
                        assert(spec_parse_u8(s@) is None) by {
                            assert(!is_digit_at_zero(s@));
                        }
                        return Err(RosterError::MalformedStatValue {
                            token: String::from_str(s),
                        });
                    },
                }
            } else {
                assert(!all_digits(s@.skip(1))) by {
                    assert(!crate::text::is_digit(s@.skip(1)[e - 1]));
                }
                assert(spec_parse_u8(s@) is None) by {
                    assert(!is_digit_at_zero(s@));
                }
                return Err(RosterError::MalformedStatValue { token: String::from_str(s) });
            }
        }
    }
    match parse_plain_u8(s) {
        Some(v) => Ok(WeaponStrength { value: v, strength_type: WeaponStrengthType::Flat }),
        None => Err(RosterError::MalformedStatValue { token: String::from_str(s) }),
    }
}

/// Whether the first character of `s` is a digit: a `+`- or `x`-prefixed
/// token can never be a bare integer.
pub open spec fn is_digit_at_zero(s: Seq<char>) -> bool {
    s.len() >= 1 && crate::text::is_digit(s[0])
}

/// What the weapon type string parses to: the class named by the first
/// space-separated token, and the attack count read from the token that
/// follows it (the third token for `Rapid Fire N`; none for `Melee`).
///
/// A first token outside the six known classes is `UnsupportedWeaponType`;
/// a missing attack token is `MalformedStatValue` on the whole string.
pub open spec fn spec_parse_weapon_type(s: Seq<char>) -> Result<
    (WeaponType, Option<ProfileValue>),
    RosterErrorView,
> {
    let e0 = nonspace_prefix_len(s) as int;
    let t0 = s.take(e0);
    if t0 == "Melee"@ {
        Ok((WeaponType::Melee, None))
    } else if t0 == "Assault"@ || t0 == "Heavy"@ || t0 == "Grenade"@ || t0 == "Pistol"@ {
        let wt = if t0 == "Assault"@ {
            WeaponType::Assault
        } else if t0 == "Heavy"@ {
            WeaponType::Heavy
        } else if t0 == "Grenade"@ {
            WeaponType::Grenade
        } else {
            WeaponType::Pistol
        };
        if e0 >= s.len() {
            Err(RosterErrorView::MalformedStatValue { token: s })
        } else {
            let rest = s.skip(e0 + 1);
            let t1 = rest.take(nonspace_prefix_len(rest) as int);
            match spec_parse_stat_value(t1) {
                Ok(pv) => Ok((wt, Some(pv))),
                Err(e) => Err(e),
            }
        }
    } else if t0 == "Rapid"@ {
        if e0 >= s.len() {
            Err(RosterErrorView::MalformedStatValue { token: s })
        } else {
            let rest1 = s.skip(e0 + 1);
            let e1 = nonspace_prefix_len(rest1) as int;
            if e0 + 1 + e1 >= s.len() {
                Err(RosterErrorView::MalformedStatValue { token: s })
            } else {
                let rest2 = rest1.skip(e1 + 1);
                let t2 = rest2.take(nonspace_prefix_len(rest2) as int);
                match spec_parse_stat_value(t2) {
                    Ok(pv) => Ok((WeaponType::RapidFire, Some(pv))),
                    Err(e) => Err(e),
                }
            }
        }
    } else {
        Err(RosterErrorView::UnsupportedWeaponType { token: t0 })
    }
}

/// Any weapon type string whose first token names no known class fails
/// with `UnsupportedWeaponType` carrying that token: no weapon record is
/// built from it.
pub proof fn lemma_unknown_weapon_class_rejected(s: Seq<char>)
    requires
        ({
            let t0 = s.take(nonspace_prefix_len(s) as int);
            t0 != "Melee"@ && t0 != "Assault"@ && t0 != "Heavy"@ && t0 != "Grenade"@ && t0
                != "Pistol"@ && t0 != "Rapid"@
        }),
    ensures
        spec_parse_weapon_type(s) == Err::<(WeaponType, Option<ProfileValue>), _>(
            RosterErrorView::UnsupportedWeaponType {
                token: s.take(nonspace_prefix_len(s) as int),
            },
        ),
{
}

/// Parse the weapon type string.
pub fn parse_weapon_type(s: &str) -> (r: Result<(WeaponType, Option<ProfileValue>), RosterError>)
    ensures
        res_view_pair(r) == spec_parse_weapon_type(s@),
{
    let n = s.unicode_len();
    let e0 = scan_nonspace(s, 0);
    proof {
        lemma_nonspace_prefix_len_characterization(s@, e0 as int);
    }
    let t0 = s.substring_char(0, e0);
    proof {
        assert(t0@ =~= s@.take(e0 as int));
    }
    if str_eq(t0, "Melee") {
        return Ok((WeaponType::Melee, None));
    }
    let is_assault = str_eq(t0, "Assault");
    let is_heavy = str_eq(t0, "Heavy");
    let is_grenade = str_eq(t0, "Grenade");
    let is_pistol = str_eq(t0, "Pistol");
    if is_assault || is_heavy || is_grenade || is_pistol {
        let wt = if is_assault {
            WeaponType::Assault
        } else if is_heavy {
            WeaponType::Heavy
        } else if is_grenade {
            WeaponType::Grenade
        } else {
            WeaponType::Pistol
        };
        if e0 >= n {
            return Err(RosterError::MalformedStatValue { token: String::from_str(s) });
        }
        let e1 = scan_nonspace(s, e0 + 1);
        proof {
            let rest = s@.skip(e0 + 1);
            assert forall|i: int| 0 <= i < e1 - (e0 + 1) implies #[trigger] rest[i] != ' ' by {
                assert(rest[i] == s@[e0 + 1 + i]);
            }
            if e1 < n {
                assert(rest[e1 - (e0 + 1)] == s@[e1 as int]);
            }
            lemma_nonspace_prefix_len_characterization(rest, e1 - (e0 + 1));
        }
        let t1 = s.substring_char(e0 + 1, e1);
        proof {
            assert(t1@ =~= s@.skip(e0 + 1).take(e1 - (e0 + 1)));
        }
        match ProfileValue::from_str(t1) {
            Ok(pv) => Ok((wt, Some(pv))),
            Err(e) => Err(e),
        }
    } else if str_eq(t0, "Rapid") {
        if e0 >= n {
            return Err(RosterError::MalformedStatValue { token: String::from_str(s) });
        }
        let p1 = scan_nonspace(s, e0 + 1);
        proof {
            let rest1 = s@.skip(e0 + 1);
            assert forall|i: int| 0 <= i < p1 - (e0 + 1) implies #[trigger] rest1[i] != ' ' by {
                assert(rest1[i] == s@[e0 + 1 + i]);
            }
            if p1 < n {
                assert(rest1[p1 - (e0 + 1)] == s@[p1 as int]);
            }
            lemma_nonspace_prefix_len_characterization(rest1, p1 - (e0 + 1));
        }
        if p1 >= n {
            return Err(RosterError::MalformedStatValue { token: String::from_str(s) });
        }
        let e2 = scan_nonspace(s, p1 + 1);
        proof {
            let rest2 = s@.skip(p1 + 1);
            assert forall|i: int| 0 <= i < e2 - (p1 + 1) implies #[trigger] rest2[i] != ' ' by {
                assert(rest2[i] == s@[p1 + 1 + i]);
            }
            if e2 < n {
                assert(rest2[e2 - (p1 + 1)] == s@[e2 as int]);
            }
            lemma_nonspace_prefix_len_characterization(rest2, e2 - (p1 + 1));
            assert(s@.skip(e0 + 1).skip((p1 - (e0 + 1)) + 1) =~= s@.skip(p1 + 1));
        }
        let t2 = s.substring_char(p1 + 1, e2);
        proof {
            assert(t2@ =~= s@.skip(p1 + 1).take(e2 - (p1 + 1)));
        }
        match ProfileValue::from_str(t2) {
            Ok(pv) => Ok((WeaponType::RapidFire, Some(pv))),
            Err(e) => Err(e),
        }
    } else {
        Err(RosterError::UnsupportedWeaponType { token: String::from_str(t0) })
    }
}

/// The deep view of a weapon-type parse result.
pub open spec fn res_view_pair(r: Result<(WeaponType, Option<ProfileValue>), RosterError>) -> Result<
    (WeaponType, Option<ProfileValue>),
    RosterErrorView,
> {
    match r {
        Ok(p) => Ok(p),
        Err(e) => Err(e.deep_view()),
    }
}

/// The weapon profile before any characteristic is read: a melee weapon
/// with everything unresolved.
pub open spec fn spec_weapon_profile_init() -> WeaponProfileView {
    WeaponProfileView {
        abilities: Seq::empty(),
        range: None,
        weapon_type: WeaponType::Melee,
        attacks: None,
        strength: WeaponStrength { value: 0, strength_type: WeaponStrengthType::Addition },
        armour_penetration: 0,
        damage: ProfileValue { dice_value: None, flat_value: None },
    }
}

/// One step of the weapon-profile fold: how one characteristic updates the
/// partial stat line. The wildcard `*` means "resolved elsewhere": strength
/// keeps it through `spec_parse_strength`, armour penetration reads it as
/// zero, damage as a flat zero.
pub open spec fn spec_weapon_step(st: WeaponProfileView, c: Characteristic) -> Result<
    WeaponProfileView,
    RosterErrorView,
> {
    let v = spec_value_or_empty(c.value);
    if c.name@ == "Range"@ {
        Ok(WeaponProfileView { range: spec_parse_leading_u8(v), ..st })
    } else if c.name@ == "Type"@ {
        match spec_parse_weapon_type(v) {
            Ok(p) => Ok(WeaponProfileView { weapon_type: p.0, attacks: p.1, ..st }),
            Err(e) => Err(e),
        }
    } else if c.name@ == "S"@ {
        match spec_parse_strength(v) {
            Ok(ws) => Ok(WeaponProfileView { strength: ws, ..st }),
            Err(e) => Err(e),
        }
    } else if c.name@ == "AP"@ {
        if v.len() == 1 && v[0] == '*' {
            Ok(WeaponProfileView { armour_penetration: 0, ..st })
        } else {
            match spec_parse_i8(v) {
                Some(a) => Ok(WeaponProfileView { armour_penetration: a, ..st }),
                None => Err(RosterErrorView::MalformedStatValue { token: v }),
            }
        }
    } else if c.name@ == "D"@ {
        if v.len() == 1 && v[0] == '*' {
            Ok(
                WeaponProfileView {
                    damage: ProfileValue { dice_value: None, flat_value: Some(0) },
                    ..st
                },
            )
        } else {
            match spec_parse_stat_value(v) {
                Ok(d) => Ok(WeaponProfileView { damage: d, ..st }),
                Err(e) => Err(e),
            }
        }
    } else if c.name@ == "Abilities"@ {
        if v == "-"@ {
            Ok(st)
        } else {
            Ok(
                WeaponProfileView {
                    abilities: st.abilities.push(AbilityView { value: v, name: Seq::empty() }),
                    ..st
                },
            )
        }
    } else {
        Err(RosterErrorView::UnknownCharacteristic { name: c.name@ })
    }
}

/// What `WeaponProfile::from_characterics` returns on a characteristic
/// list.
pub open spec fn spec_weapon_from_characteristics(cs: Seq<Characteristic>) -> Result<
    WeaponProfileView,
    RosterErrorView,
> {
    spec_fold(
        |st: WeaponProfileView, c: Characteristic| spec_weapon_step(st, c),
        spec_weapon_profile_init(),
        cs,
    )
}

/// Apply one characteristic to a partial weapon stat line.
#[verifier::rlimit(30)]
fn weapon_step(st: WeaponProfile, c: &Characteristic) -> (r: Result<WeaponProfile, RosterError>)
    ensures
        res_view(r) == spec_weapon_step(st.deep_view(), *c),
{
    let mut st = st;
    let v = value_or_empty(&c.value);
    if str_eq(c.name.as_str(), "Range") {
        st.range = parse_leading_u8(v.as_str());
        Ok(st)
    } else if str_eq(c.name.as_str(), "Type") {
        match parse_weapon_type(v.as_str()) {
            Ok(p) => {
                st.weapon_type = p.0;
                st.attacks = p.1;
                Ok(st)
            },
            Err(e) => Err(e),
        }
    } else if str_eq(c.name.as_str(), "S") {
        match parse_strength(v.as_str()) {
            Ok(ws) => {
                st.strength = ws;
                Ok(st)
            },
            Err(e) => Err(e),
        }
    } else if str_eq(c.name.as_str(), "AP") {
        if str_eq(v.as_str(), "*") {
            proof {
                reveal_strlit("*");
            }
            st.armour_penetration = 0;
            Ok(st)
        } else {
            proof {
                reveal_strlit("*");
                if v@.len() == 1 && v@[0] == '*' {
                    assert(v@ =~= "*"@);
                }
            }
            match parse_plain_i8(v.as_str()) {
                Some(a) => {
                    st.armour_penetration = a;
                    Ok(st)
                },
                None => Err(RosterError::MalformedStatValue { token: v }),
            }
        }
    } else if str_eq(c.name.as_str(), "D") {
        if str_eq(v.as_str(), "*") {
            proof {
                reveal_strlit("*");
            }
            st.damage = ProfileValue { dice_value: None, flat_value: Some(0) };
            Ok(st)
        } else {
            proof {
                reveal_strlit("*");
                if v@.len() == 1 && v@[0] == '*' {
                    assert(v@ =~= "*"@);
                }
            }
            match ProfileValue::from_str(v.as_str()) {
                Ok(d) => {
                    st.damage = d;
                    Ok(st)
                },
                Err(e) => Err(e),
            }
        }
    } else if str_eq(c.name.as_str(), "Abilities") {
        if str_eq(v.as_str(), "-") {
            Ok(st)
        } else {
            let ghost old_dv = st.abilities.deep_view();
            st.abilities.push(Ability { value: v, name: String::new() });
            proof {
                assert(st.abilities.deep_view() =~= old_dv.push(
                    AbilityView { value: spec_value_or_empty(c.value), name: Seq::empty() },
                ));
            }
            Ok(st)
        }
    } else {
        Err(RosterError::UnknownCharacteristic { name: c.name.clone() })
    }
}

impl WeaponProfile {
    /// Read one weapon stat line from a characteristic list.
    #[verifier::loop_isolation(false)]
    pub fn from_characterics(weapon_characteristics: &crate::ros_parser::Characteristics) -> (r:
        Result<WeaponProfile, RosterError>)
        ensures
            res_view(r) == spec_weapon_from_characteristics(
                weapon_characteristics.characteristics@,
            ),
    {
        let ghost step = |st: WeaponProfileView, c: Characteristic| spec_weapon_step(st, c);
        let ghost init = spec_weapon_profile_init();
        let cs = &weapon_characteristics.characteristics;
        let n = cs.len();
        let mut st = WeaponProfile {
            abilities: Vec::new(),
            range: None,
            weapon_type: WeaponType::Melee,
            attacks: None,
            strength: WeaponStrength { value: 0, strength_type: WeaponStrengthType::Addition },
            armour_penetration: 0,
            damage: ProfileValue { dice_value: None, flat_value: None },
        };
        proof {
            assert(st.abilities.deep_view() =~= Seq::<AbilityView>::empty());
            assert(st.deep_view() =~= init);
        }
        let mut i: usize = 0;
        while i < n
            invariant
                0 <= i <= n,
                n == cs@.len(),
                spec_fold(step, init, cs@.take(i as int)) == Ok::<_, RosterErrorView>(
                    st.deep_view(),
                ),
            decreases n - i,
        {
            proof {
                assert(cs@.take(i + 1).drop_last() =~= cs@.take(i as int));
                assert(cs@.take(i + 1).last() == cs@[i as int]);
                assert(spec_fold(step, init, cs@.take(i + 1)) == spec_weapon_step(
                    st.deep_view(),
                    cs@[i as int],
                ));
            }
            st = match weapon_step(st, &cs[i]) {
                Ok(s2) => s2,
                Err(e) => {
                    proof {
                        lemma_fold_prefix_err(step, init, cs@, i + 1);
                    }
                    return Err(e);
                },
            };
            i = i + 1;
        }
        proof {
            assert(cs@.take(n as int) =~= cs@);
        }
        Ok(st)
    }
}

/// What `Weapon::from_selection` returns: the weapon described by the
/// first profile of a weapon selection, counted `selection.number` times.
pub open spec fn spec_weapon_from_selection(s: Selection) -> Result<WeaponView, RosterErrorView> {
    let ps = s.spec_profiles();
    if ps.len() == 0 {
        Err(RosterErrorView::MalformedSelection { context: s.name@ })
    } else {
        match spec_weapon_from_characteristics(ps[0].characteristics.characteristics@) {
            Ok(wp) => Ok(WeaponView { name: ps[0].name@, profile: wp, number: s.number }),
            Err(e) => Err(e),
        }
    }
}

/// What `Weapon::from_profile` returns: one copy of the weapon described
/// by a `Weapon` profile.
pub open spec fn spec_weapon_from_profile(p: Profile) -> Result<WeaponView, RosterErrorView> {
    match spec_weapon_from_characteristics(p.characteristics.characteristics@) {
        Ok(wp) => Ok(WeaponView { name: p.name@, profile: wp, number: 1 }),
        Err(e) => Err(e),
    }
}

impl Weapon {
    /// Read a weapon from a weapon selection: the first profile carries the
    /// stat line, the selection's number is the count carried.
    pub fn from_selection(weapon_selection: &Selection) -> (r: Result<Weapon, RosterError>)
        ensures
            res_view(r) == spec_weapon_from_selection(*weapon_selection),
    {
        match &weapon_selection.profiles {
            Some(ps) => {
                if ps.profiles.len() == 0 {
                    return Err(RosterError::MalformedSelection {
                        context: weapon_selection.name.clone(),
                    });
                }
                let p = &ps.profiles[0];
                match WeaponProfile::from_characterics(&p.characteristics) {
                    Ok(wp) => Ok(
                        Weapon {
                            name: p.name.clone(),
                            profile: wp,
                            number: weapon_selection.number,
                        },
                    ),
                    Err(e) => Err(e),
                }
            },
            None => Err(RosterError::MalformedSelection {
                context: weapon_selection.name.clone(),
            }),
        }
    }

    /// Read one copy of a weapon from a `Weapon` profile.
    pub fn from_profile(weapon_profile: &Profile) -> (r: Result<Weapon, RosterError>)
        ensures
            res_view(r) == spec_weapon_from_profile(*weapon_profile),
    {
        match WeaponProfile::from_characterics(&weapon_profile.characteristics) {
            Ok(wp) => Ok(Weapon { name: weapon_profile.name.clone(), profile: wp, number: 1 }),
            Err(e) => Err(e),
        }
    }
}

/// The first index in `acc` holding a weapon of the given name, or -1.
pub open spec fn find_name(acc: Seq<WeaponView>, name: Seq<char>) -> int
    decreases acc.len(),
{
    if acc.len() == 0 {
        -1
    } else if acc[0].name == name {
        0
    } else {
        let r = find_name(acc.skip(1), name);
        if r == -1 {
            -1
        } else {
            r + 1
        }
    }
}

/// `find_name` finds the first occurrence: absent means no entry has the
/// name, found means the entry has it and no earlier one does.
pub proof fn lemma_find_name_props(acc: Seq<WeaponView>, name: Seq<char>)
    ensures
        find_name(acc, name) == -1 ==> forall|i: int|
            0 <= i < acc.len() ==> (#[trigger] acc[i]).name != name,
        find_name(acc, name) != -1 ==> 0 <= find_name(acc, name) < acc.len() && acc[find_name(
            acc,
            name,
        )].name == name && forall|i: int|
            0 <= i < find_name(acc, name) ==> (#[trigger] acc[i]).name != name,
    decreases acc.len(),
{
    if acc.len() > 0 && acc[0].name != name {
        lemma_find_name_props(acc.skip(1), name);
        let r = find_name(acc.skip(1), name);
        if r == -1 {
            assert forall|i: int| 0 <= i < acc.len() implies (#[trigger] acc[i]).name
                != name by {
                if i > 0 {
                    assert(acc[i] == acc.skip(1)[i - 1]);
                }
            }
        } else {
            assert(acc[r + 1] == acc.skip(1)[r]);
            assert forall|i: int| 0 <= i < r + 1 implies (#[trigger] acc[i]).name != name by {
                if i > 0 {
                    assert(acc[i] == acc.skip(1)[i - 1]);
                }
            }
        }
    }
}

/// `find_name` is determined by the cut `j`: entries before differ, the
/// entry at `j` (if any) matches.
pub proof fn lemma_find_name_characterization(acc: Seq<WeaponView>, name: Seq<char>, j: int)
    requires
        0 <= j <= acc.len(),
        forall|i: int| 0 <= i < j ==> (#[trigger] acc[i]).name != name,
        j < acc.len() ==> acc[j].name == name,
    ensures
        find_name(acc, name) == if j == acc.len() {
            -1int
        } else {
            j
        },
    decreases acc.len(),
{
    if acc.len() == 0 {
    } else if acc[0].name == name {
        assert(j == 0);
    } else {
        assert(forall|i: int| 0 <= i < j - 1 ==> (#[trigger] acc.skip(1)[i]).name != name);
        lemma_find_name_characterization(acc.skip(1), name, j - 1);
    }
}

/// Fold one weapon into a merged list: a new name is appended, a repeated
/// name adds its count to the first entry carrying it (clamped at the top
/// of the byte range); that entry's stat line is kept.
pub open spec fn spec_merge_insert(acc: Seq<WeaponView>, w: WeaponView) -> Seq<WeaponView> {
    let j = find_name(acc, w.name);
    if j == -1 {
        acc.push(w)
    } else {
        acc.update(
            j,
            WeaponView { number: clamped_add_u8(acc[j].number, w.number), ..acc[j] },
        )
    }
}

/// What merging a weapon list yields: entries folded in first-seen order.
pub open spec fn spec_merge_weapons(ws: Seq<WeaponView>) -> Seq<WeaponView>
    decreases ws.len(),
{
    if ws.len() == 0 {
        Seq::empty()
    } else {
        spec_merge_insert(spec_merge_weapons(ws.drop_last()), ws.last())
    }
}

/// Whether no two entries of a weapon list share a name.
pub open spec fn weapon_names_unique(ws: Seq<WeaponView>) -> bool {
    forall|i: int, j: int|
        0 <= i < j < ws.len() ==> (#[trigger] ws[i]).name != (#[trigger] ws[j]).name
}

/// Merging keeps names unique.
pub proof fn lemma_merge_insert_unique(acc: Seq<WeaponView>, w: WeaponView)
    requires
        weapon_names_unique(acc),
    ensures
        weapon_names_unique(spec_merge_insert(acc, w)),
{
    lemma_find_name_props(acc, w.name);
}

/// The result of a merge has no two entries sharing a name.
pub proof fn lemma_merge_names_unique(ws: Seq<WeaponView>)
    ensures
        weapon_names_unique(spec_merge_weapons(ws)),
    decreases ws.len(),
{
    if ws.len() > 0 {
        lemma_merge_names_unique(ws.drop_last());
        lemma_merge_insert_unique(spec_merge_weapons(ws.drop_last()), ws.last());
    }
}

/// Merging a list whose names are already unique changes nothing.
pub proof fn lemma_merge_of_unique(ws: Seq<WeaponView>)
    requires
        weapon_names_unique(ws),
    ensures
        spec_merge_weapons(ws) == ws,
    decreases ws.len(),
{
    if ws.len() > 0 {
        let dl = ws.drop_last();
        assert(forall|i: int| 0 <= i < dl.len() ==> dl[i] == (#[trigger] ws[i]));
        lemma_merge_of_unique(dl);
        assert(forall|i: int| 0 <= i < dl.len() ==> (#[trigger] dl[i]).name != ws.last().name);
        lemma_find_name_characterization(dl, ws.last().name, dl.len() as int);
        assert(spec_merge_weapons(ws) =~= ws);
    } else {
        assert(spec_merge_weapons(ws) =~= ws);
    }
}

/// Merging is idempotent: merging a model's weapon list twice yields the
/// same result as merging it once.
pub proof fn lemma_merge_idempotent(ws: Seq<WeaponView>)
    ensures
        spec_merge_weapons(spec_merge_weapons(ws)) == spec_merge_weapons(ws),
{
    lemma_merge_names_unique(ws);
    lemma_merge_of_unique(spec_merge_weapons(ws));
}

/// The total count carried by entries of a given name.
pub open spec fn sum_counts(ws: Seq<WeaponView>, name: Seq<char>) -> int
    decreases ws.len(),
{
    if ws.len() == 0 {
        0
    } else {
        sum_counts(ws.drop_last(), name) + if ws.last().name == name {
            ws.last().number as int
        } else {
            0
        }
    }
}

/// Counts are never negative.
pub proof fn lemma_sum_counts_nonneg(ws: Seq<WeaponView>, name: Seq<char>)
    ensures
        0 <= sum_counts(ws, name),
    decreases ws.len(),
{
    if ws.len() > 0 {
        lemma_sum_counts_nonneg(ws.drop_last(), name);
    }
}

/// How replacing one entry changes the total count of a name.
pub proof fn lemma_sum_counts_update(ws: Seq<WeaponView>, j: int, e: WeaponView, name: Seq<char>)
    requires
        0 <= j < ws.len(),
    ensures
        sum_counts(ws.update(j, e), name) == sum_counts(ws, name) - (if ws[j].name == name {
            ws[j].number as int
        } else {
            0
        }) + (if e.name == name {
            e.number as int
        } else {
            0
        }),
    decreases ws.len(),
{
    if j == ws.len() - 1 {
        assert(ws.update(j, e).drop_last() =~= ws.drop_last());
        assert(ws.update(j, e).last() == e);
    } else {
        assert(ws.update(j, e).drop_last() =~= ws.drop_last().update(j, e));
        assert(ws.update(j, e).last() == ws.last());
        lemma_sum_counts_update(ws.drop_last(), j, e, name);
    }
}

/// One entry of a name contributes no more than the name's total.
pub proof fn lemma_sum_counts_entry_le(ws: Seq<WeaponView>, j: int, name: Seq<char>)
    requires
        0 <= j < ws.len(),
        ws[j].name == name,
    ensures
        ws[j].number as int <= sum_counts(ws, name),
    decreases ws.len(),
{
    if j == ws.len() - 1 {
        lemma_sum_counts_nonneg(ws.drop_last(), name);
    } else {
        assert(ws.drop_last()[j] == ws[j]);
        lemma_sum_counts_entry_le(ws.drop_last(), j, name);
    }
}

/// Folding one weapon in adds its count to its name's total, as long as
/// that total stays within the byte range.
pub proof fn lemma_merge_insert_counts(acc: Seq<WeaponView>, w: WeaponView, name: Seq<char>)
    requires
        w.name == name ==> sum_counts(acc, name) + w.number <= 255,
    ensures
        sum_counts(spec_merge_insert(acc, w), name) == sum_counts(acc, name) + (if w.name == name {
            w.number as int
        } else {
            0
        }),
{
    let j = find_name(acc, w.name);
    lemma_find_name_props(acc, w.name);
    if j == -1 {
        assert(acc.push(w).drop_last() =~= acc);
        assert(acc.push(w).last() == w);
    } else {
        let e = WeaponView { number: clamped_add_u8(acc[j].number, w.number), ..acc[j] };
        if w.name == name {
            lemma_sum_counts_entry_le(acc, j, name);
        }
        lemma_sum_counts_update(acc, j, e, name);
    }
}

/// The total count of every name survives the merge, as long as it fits in
/// the byte range.
pub proof fn lemma_merge_preserves_counts(ws: Seq<WeaponView>, name: Seq<char>)
    requires
        sum_counts(ws, name) <= 255,
    ensures
        sum_counts(spec_merge_weapons(ws), name) == sum_counts(ws, name),
    decreases ws.len(),
{
    if ws.len() > 0 {
        let dl = ws.drop_last();
        if ws.last().name == name {
            lemma_merge_preserves_counts(dl, name);
            lemma_merge_insert_counts(spec_merge_weapons(dl), ws.last(), name);
        } else {
            lemma_merge_preserves_counts(dl, name);
            lemma_merge_insert_counts(spec_merge_weapons(dl), ws.last(), name);
        }
    }
}

/// Merge a weapon list: entries sharing a name collapse into the first of
/// them, counts summed (clamped at the top of the byte range), first-seen
/// order kept.
#[verifier::loop_isolation(false)]
pub fn merge_weapons(ws: Vec<Weapon>) -> (r: Vec<Weapon>)
    ensures
        r.deep_view() == spec_merge_weapons(ws.deep_view()),
{
    let mut out: Vec<Weapon> = Vec::new();
    proof {
        assert(ws.deep_view().take(0) =~= Seq::<WeaponView>::empty());
    }
    let mut i: usize = 0;
    while i < ws.len()
        invariant
            0 <= i <= ws.len(),
            out.deep_view() == spec_merge_weapons(ws.deep_view().take(i as int)),
        decreases ws.len() - i,
    {
        proof {
            assert(ws.deep_view().take(i + 1).drop_last() =~= ws.deep_view().take(i as int));
            assert(ws.deep_view().take(i + 1).last() == ws.deep_view()[i as int]);
        }
        let x = ws[i].clone();
        assert(x.deep_view() == ws.deep_view()[i as int]);
        let ghost old_dv = out.deep_view();
        let mut j: usize = 0;
        let mut stop = false;
        while !stop
            invariant
                0 <= j <= out.len(),
                out.deep_view() == old_dv,
                forall|k: int| 0 <= k < j ==> (#[trigger] old_dv[k]).name != x.deep_view().name,
                stop ==> j == out.len() || old_dv[j as int].name == x.deep_view().name,
            decreases out.len() - j + (if stop { 0int } else { 1int }),
        {
            if j == out.len() {
                stop = true;
            } else if str_eq(out[j].name.as_str(), x.name.as_str()) {
                stop = true;
            } else {
                j = j + 1;
            }
        }
        proof {
            lemma_find_name_characterization(old_dv, x.deep_view().name, j as int);
        }
        if j < out.len() {
            let mut e = out.remove(j);
            e.number = add_u8_clamped(e.number, x.number);
            let ghost ev = e.deep_view();
            out.insert(j, e);
            proof {
                assert(out.deep_view() =~= old_dv.update(j as int, ev));
                assert(ev == WeaponView {
                    number: clamped_add_u8(old_dv[j as int].number, x.deep_view().number),
                    ..old_dv[j as int]
                });
            }
        } else {
            out.push(x);
            proof {
                assert(out.deep_view() =~= old_dv.push(ws.deep_view()[i as int]));
            }
        }
        i = i + 1;
    }
    proof {
        assert(ws.deep_view().take(i as int) =~= ws.deep_view());
    }
    out
}

/// The names a weapon stat line understands.
pub open spec fn weapon_lexicon(name: Seq<char>) -> bool {
    ||| name == "Range"@
    ||| name == "Type"@
    ||| name == "S"@
    ||| name == "AP"@
    ||| name == "D"@
    ||| name == "Abilities"@
}

/// If the whole weapon fold succeeds, so does the fold of every prefix.
proof fn lemma_weapon_fold_ok_prefix(cs: Seq<Characteristic>, i: int)
    requires
        0 <= i <= cs.len(),
        spec_weapon_from_characteristics(cs) is Ok,
    ensures
        spec_fold(
            |st: WeaponProfileView, c: Characteristic| spec_weapon_step(st, c),
            spec_weapon_profile_init(),
            cs.take(i),
        ) is Ok,
{
    crate::fold::lemma_fold_ok_prefix(
        |st: WeaponProfileView, c: Characteristic| spec_weapon_step(st, c),
        spec_weapon_profile_init(),
        cs,
        i,
    );
}

/// A weapon stat line parses only when every characteristic name lies in
/// the weapon lexicon: one stray name fails the whole profile.
pub proof fn lemma_weapon_profile_ok_names_known(cs: Seq<Characteristic>)
    requires
        spec_weapon_from_characteristics(cs) is Ok,
    ensures
        forall|i: int| 0 <= i < cs.len() ==> weapon_lexicon((#[trigger] cs[i]).name@),
{
    let step = |st: WeaponProfileView, c: Characteristic| spec_weapon_step(st, c);
    assert forall|i: int| 0 <= i < cs.len() implies weapon_lexicon((#[trigger] cs[i]).name@) by {
        if !weapon_lexicon(cs[i].name@) {
            lemma_weapon_fold_ok_prefix(cs, i + 1);
            assert(cs.take(i + 1).drop_last() =~= cs.take(i));
            assert(cs.take(i + 1).last() == cs[i]);
            lemma_weapon_fold_ok_prefix(cs, i);
            assert(spec_fold(step, spec_weapon_profile_init(), cs.take(i + 1)) is Err);
        }
    }
}

} // verus!
