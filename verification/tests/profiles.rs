use warhammer_data::ability::Ability;
use warhammer_data::error::RosterError;
use warhammer_data::profile::{DiceRoll, DiceType, ProfileValue};
use warhammer_data::psyker::{PsychicPower, PsykerProfile};
use warhammer_data::ros_parser::{Characteristic, Characteristics, Profile};
use warhammer_data::unit::ModelProfile;
use warhammer_data::weapon::{Weapon, WeaponProfile, WeaponStrength, WeaponStrengthType,
    WeaponType};

fn chr(name: &str, value: Option<&str>) -> Characteristic {
    Characteristic {
        name: name.to_string(),
        type_id: "tid".to_string(),
        value: value.map(|v| v.to_string()),
    }
}

fn profile(name: &str, profile_type: &str, chars: Vec<Characteristic>) -> Profile {
    Profile {
        id: "id".to_string(),
        name: name.to_string(),
        hidden: false,
        type_id: "tid".to_string(),
        profile_type: profile_type.to_string(),
        characteristics: Characteristics { characteristics: chars },
    }
}

#[test]
fn model_profile_reads_every_field() {
    let p = profile(
        "Sister",
        "Unit",
        vec![
            chr("M", Some("6\"")),
            chr("WS", Some("3+")),
            chr("BS", Some("4+")),
            chr("S", Some("4")),
            chr("T", Some("5")),
            chr("W", Some("2")),
            chr("A", Some("2")),
            chr("Ld", Some("8")),
            chr("Save", Some("3+")),
        ],
    );
    let r = ModelProfile::from_profile(&p).unwrap();
    assert_eq!(r.movement, 6);
    assert_eq!(r.min_movement, 0);
    assert_eq!(r.weapon_skill, 3);
    assert_eq!(r.ballistic_skill, 4);
    assert_eq!(r.strength, 4);
    assert_eq!(r.toughness, 5);
    assert_eq!(r.wounds, 2);
    assert_eq!(
        r.attacks,
        ProfileValue { dice_value: None, flat_value: Some(2) }
    );
    assert_eq!(r.leadership, 8);
    assert_eq!(r.save, 3);
}

#[test]
fn movement_range_sets_min_and_max() {
    let p = profile("Engine", "Unit", vec![chr("M", Some("3-9\""))]);
    let r = ModelProfile::from_profile(&p).unwrap();
    assert_eq!(r.min_movement, 3);
    assert_eq!(r.movement, 9);
}

#[test]
fn movement_dash_is_zero() {
    let p = profile("Immobile", "Unit", vec![chr("M", Some("-"))]);
    let r = ModelProfile::from_profile(&p).unwrap();
    assert_eq!(r.movement, 0);
    assert_eq!(r.min_movement, 0);
}

#[test]
fn skill_without_plus_is_zero() {
    let p = profile("Drone", "Unit", vec![chr("WS", Some("*")), chr("Save", Some("-"))]);
    let r = ModelProfile::from_profile(&p).unwrap();
    assert_eq!(r.weapon_skill, 0);
    assert_eq!(r.save, 0);
}

#[test]
fn wounds_fall_back_to_bracketed_name() {
    let p = profile(
        "Rhino [2] (3-5 Wounds Remaining)",
        "Unit",
        vec![chr("W", Some("N/A"))],
    );
    let r = ModelProfile::from_profile(&p).unwrap();
    assert_eq!(r.wounds, 5);
}

#[test]
fn wounds_bracket_without_upper_takes_lower() {
    let p = profile(
        "Rhino [1] (6+ Wounds Remaining)",
        "Unit",
        vec![chr("W", Some("N/A"))],
    );
    let r = ModelProfile::from_profile(&p).unwrap();
    assert_eq!(r.wounds, 6);
}

#[test]
fn unresolvable_wounds_fail() {
    let p = profile("Rhino", "Unit", vec![chr("W", Some("N/A"))]);
    let r = ModelProfile::from_profile(&p);
    assert_eq!(r, Err(RosterError::UnresolvableWounds { token: "N/A".to_string() }));
}

#[test]
fn remaining_w_takes_higher_bound() {
    let p = profile("Tier", "Unit", vec![chr("Remaining W", Some("4-6"))]);
    let r = ModelProfile::from_profile(&p).unwrap();
    assert_eq!(r.wounds, 6);
}

#[test]
fn unknown_model_characteristic_fails() {
    let p = profile("Sister", "Unit", vec![chr("M", Some("6\"")), chr("Sv", Some("3+"))]);
    let r = ModelProfile::from_profile(&p);
    assert_eq!(r, Err(RosterError::UnknownCharacteristic { name: "Sv".to_string() }));
}

#[test]
fn weapon_profile_reads_every_field() {
    let cs = Characteristics {
        characteristics: vec![
            chr("Range", Some("12\"")),
            chr("Type", Some("Rapid Fire 2")),
            chr("S", Some("4")),
            chr("AP", Some("-3")),
            chr("D", Some("D3")),
            chr("Abilities", Some("Rerolls ones")),
        ],
    };
    let r = WeaponProfile::from_characterics(&cs).unwrap();
    assert_eq!(r.range, Some(12));
    assert_eq!(r.weapon_type, WeaponType::RapidFire);
    assert_eq!(
        r.attacks,
        Some(ProfileValue { dice_value: None, flat_value: Some(2) })
    );
    assert_eq!(
        r.strength,
        WeaponStrength { value: 4, strength_type: WeaponStrengthType::Flat }
    );
    assert_eq!(r.armour_penetration, -3);
    assert_eq!(
        r.damage,
        ProfileValue {
            dice_value: Some(DiceRoll { number: 1, dice_type: DiceType::D3 }),
            flat_value: None,
        }
    );
    assert_eq!(r.abilities.len(), 1);
    assert_eq!(r.abilities[0].value, "Rerolls ones".to_string());
}

#[test]
fn melee_type_has_no_attacks() {
    let cs = Characteristics {
        characteristics: vec![chr("Type", Some("Melee")), chr("S", Some("x2"))],
    };
    let r = WeaponProfile::from_characterics(&cs).unwrap();
    assert_eq!(r.weapon_type, WeaponType::Melee);
    assert_eq!(r.attacks, None);
    assert_eq!(
        r.strength,
        WeaponStrength { value: 2, strength_type: WeaponStrengthType::Multiply }
    );
}

#[test]
fn unknown_weapon_class_fails() {
    let cs = Characteristics { characteristics: vec![chr("Type", Some("Blast 3"))] };
    let r = WeaponProfile::from_characterics(&cs);
    assert_eq!(r, Err(RosterError::UnsupportedWeaponType { token: "Blast".to_string() }));
}

#[test]
fn weapon_wildcards_resolve_to_zero() {
    let cs = Characteristics {
        characteristics: vec![
            chr("S", Some("*")),
            chr("AP", Some("*")),
            chr("D", Some("*")),
            chr("Abilities", Some("-")),
        ],
    };
    let r = WeaponProfile::from_characterics(&cs).unwrap();
    assert_eq!(
        r.strength,
        WeaponStrength { value: 0, strength_type: WeaponStrengthType::Flat }
    );
    assert_eq!(r.armour_penetration, 0);
    assert_eq!(r.damage, ProfileValue { dice_value: None, flat_value: Some(0) });
    assert_eq!(r.abilities.len(), 0);
}

#[test]
fn weapon_additive_strength() {
    let cs = Characteristics { characteristics: vec![chr("S", Some("+2"))] };
    let r = WeaponProfile::from_characterics(&cs).unwrap();
    assert_eq!(
        r.strength,
        WeaponStrength { value: 2, strength_type: WeaponStrengthType::Addition }
    );
}

#[test]
fn unknown_weapon_characteristic_fails() {
    let cs = Characteristics { characteristics: vec![chr("Reach", Some("1"))] };
    let r = WeaponProfile::from_characterics(&cs);
    assert_eq!(r, Err(RosterError::UnknownCharacteristic { name: "Reach".to_string() }));
}

#[test]
fn weapon_from_profile_counts_one() {
    let p = profile("Boltgun", "Weapon", vec![chr("Type", Some("Rapid Fire 1"))]);
    let r = Weapon::from_profile(&p).unwrap();
    assert_eq!(r.name, "Boltgun".to_string());
    assert_eq!(r.number, 1);
}

#[test]
fn psyker_profile_reads_casts_and_denies() {
    let p = profile(
        "Psyker",
        "Psyker",
        vec![
            chr("Cast", Some("2")),
            chr("Deny", Some("1")),
            chr("Powers Known", Some("3")),
            chr("Other", None),
        ],
    );
    let r = PsykerProfile::from_profile(&p).unwrap();
    assert_eq!(r, PsykerProfile { num_casts: 2, num_deny: 1 });
}

#[test]
fn psyker_unknown_characteristic_fails() {
    let p = profile("Psyker", "Psyker", vec![chr("Focus", Some("2"))]);
    let r = PsykerProfile::from_profile(&p);
    assert_eq!(r, Err(RosterError::UnknownCharacteristic { name: "Focus".to_string() }));
}

#[test]
fn psychic_power_reads_fields() {
    let p = profile(
        "Smite",
        "Psychic Power",
        vec![
            chr("Range", Some("18\"")),
            chr("Warp Charge", Some("5")),
            chr("Details", Some("Deals mortal wounds")),
        ],
    );
    let r = PsychicPower::from_profile(&p).unwrap();
    assert_eq!(
        r,
        PsychicPower {
            name: "Smite".to_string(),
            warp_charge: 5,
            range: 18,
            details: "Deals mortal wounds".to_string(),
        }
    );
}

#[test]
fn ability_from_profile_reads_description() {
    let p = profile(
        "Shield of Faith",
        "Abilities",
        vec![chr("Description", Some("A 6+ invulnerable save"))],
    );
    let r = Ability::from_profile(&p).unwrap();
    assert_eq!(r.value, "A 6+ invulnerable save".to_string());
    assert_eq!(r.name, "Description".to_string());
}

#[test]
fn ability_from_wrong_profile_type_fails() {
    let p = profile("Boltgun", "Weapon", vec![chr("Description", Some("text"))]);
    let r = Ability::from_profile(&p);
    assert_eq!(
        r,
        Err(RosterError::UnhandledProfileType { profile_type: "Weapon".to_string() })
    );
}

#[test]
fn ability_with_wrong_characteristic_fails() {
    let p = profile("Oddity", "Abilities", vec![chr("Effect", Some("text"))]);
    let r = Ability::from_profile(&p);
    assert_eq!(r, Err(RosterError::UnknownCharacteristic { name: "Effect".to_string() }));
}

fn plain_weapon(name: &str, number: u8) -> Weapon {
    Weapon {
        name: name.to_string(),
        profile: WeaponProfile {
            abilities: vec![],
            range: Some(12),
            weapon_type: WeaponType::Pistol,
            attacks: Some(ProfileValue { dice_value: None, flat_value: Some(1) }),
            strength: WeaponStrength { value: 4, strength_type: WeaponStrengthType::Flat },
            armour_penetration: 0,
            damage: ProfileValue { dice_value: None, flat_value: Some(1) },
        },
        number,
    }
}

#[test]
fn weapon_merge_sums_counts_per_name() {
    let ws = vec![
        plain_weapon("Bolt pistol", 1),
        plain_weapon("Inferno pistol", 2),
        plain_weapon("Bolt pistol", 3),
    ];
    let merged = warhammer_data::weapon::merge_weapons(ws);
    assert_eq!(merged.len(), 2);
    assert_eq!(merged[0].name, "Bolt pistol".to_string());
    assert_eq!(merged[0].number, 4);
    assert_eq!(merged[1].name, "Inferno pistol".to_string());
    assert_eq!(merged[1].number, 2);
}

#[test]
fn weapon_merge_is_idempotent() {
    let ws = vec![
        plain_weapon("Bolt pistol", 1),
        plain_weapon("Inferno pistol", 2),
        plain_weapon("Bolt pistol", 3),
    ];
    let once = warhammer_data::weapon::merge_weapons(ws);
    let copy: Vec<Weapon> = once.clone();
    let twice = warhammer_data::weapon::merge_weapons(copy);
    assert_eq!(once, twice);
}
