use warhammer_data::army::{army_from_roster, detachment_from_force};
use warhammer_data::error::RosterError;
use warhammer_data::profile::ProfileValue;
use warhammer_data::ros_parser::{Categories, Category, Characteristic, Characteristics, Cost,
    Costs, Force, Forces, Profile, Profiles, Publications, Roster, Rule, Rules, Selection,
    Selections};
use warhammer_data::unit::{Model, Unit};
use warhammer_data::weapon::Weapon;

fn chr(name: &str, value: Option<&str>) -> Characteristic {
    Characteristic {
        name: name.to_string(),
        type_id: "tid".to_string(),
        value: value.map(|v| v.to_string()),
    }
}

fn profile(name: &str, profile_type: &str, chars: Vec<Characteristic>) -> Profile {
    Profile {
        id: "id".to_string(),
        name: name.to_string(),
        hidden: false,
        type_id: "tid".to_string(),
        profile_type: profile_type.to_string(),
        characteristics: Characteristics { characteristics: chars },
    }
}

fn category(name: &str) -> Category {
    Category {
        id: "cid".to_string(),
        name: name.to_string(),
        entry_id: "eid".to_string(),
        primary: false,
    }
}

fn rule(name: &str) -> Rule {
    Rule {
        id: "rid".to_string(),
        name: name.to_string(),
        hidden: false,
        publication_id: None,
        page: None,
    }
}

fn base_sel(name: &str, selection_type: &str, number: u8) -> Selection {
    Selection {
        id: "sid".to_string(),
        name: name.to_string(),
        entry_id: "eid".to_string(),
        number,
        selection_type: selection_type.to_string(),
        entry_group_id: None,
        publication_id: None,
        selections: None,
        costs: None,
        profiles: None,
        categories: None,
        rules: None,
    }
}

fn stat_profile() -> Profile {
    profile(
        "Sister",
        "Unit",
        vec![
            chr("M", Some("6\"")),
            chr("WS", Some("3+")),
            chr("BS", Some("3+")),
            chr("S", Some("3")),
            chr("T", Some("3")),
            chr("W", Some("1")),
            chr("A", Some("1")),
            chr("Ld", Some("7")),
            chr("Save", Some("3+")),
        ],
    )
}

fn weapon_child(sel_name: &str, weapon_name: &str, number: u8) -> Selection {
    let mut c = base_sel(sel_name, "upgrade", number);
    c.profiles = Some(Profiles {
        profiles: vec![profile(
            weapon_name,
            "Weapon",
            vec![
                chr("Range", Some("24\"")),
                chr("Type", Some("Rapid Fire 1")),
                chr("S", Some("4")),
                chr("AP", Some("0")),
                chr("D", Some("1")),
                chr("Abilities", Some("-")),
            ],
        )],
    });
    c
}

fn model_sel(name: &str) -> Selection {
    let mut s = base_sel(name, "model", 1);
    s.categories = Some(Categories {
        categories: vec![category("Infantry"), category("Character"), category("Infantry")],
    });
    s.profiles = Some(Profiles { profiles: vec![stat_profile()] });
    s
}

fn pts(value: i64) -> Cost {
    Cost { name: "pts".to_string(), type_id: "points".to_string(), value }
}

#[test]
fn model_merges_duplicate_weapons() {
    let mut s = model_sel("Sister Superior");
    s.selections = Some(Selections {
        selections: vec![
            weapon_child("Boltgun", "Boltgun", 1),
            weapon_child("Boltgun", "Boltgun", 2),
            weapon_child("Chainsword", "Chainsword", 1),
        ],
    });
    let m = Model::from_selection(&s).unwrap();
    assert_eq!(m.weapons.len(), 2);
    assert_eq!(m.weapons[0].name, "Boltgun".to_string());
    assert_eq!(m.weapons[0].number, 3);
    assert_eq!(m.weapons[1].name, "Chainsword".to_string());
    assert_eq!(m.weapons[1].number, 1);
}

#[test]
fn model_keywords_are_sorted_and_unique() {
    let s = model_sel("Sister Superior");
    let m = Model::from_selection(&s).unwrap();
    assert_eq!(m.keywords, vec!["Character".to_string(), "Infantry".to_string()]);
}

#[test]
fn model_rules_become_abilities() {
    let mut s = model_sel("Sister Superior");
    s.rules = Some(Rules { rules: vec![rule("Acts of Faith")] });
    let m = Model::from_selection(&s).unwrap();
    assert_eq!(m.abilities.len(), 1);
    assert_eq!(m.abilities[0].name, "Acts of Faith".to_string());
    assert_eq!(m.abilities[0].value, "".to_string());
}

#[test]
fn model_without_categories_fails() {
    let mut s = base_sel("Nameless", "model", 1);
    s.profiles = Some(Profiles { profiles: vec![stat_profile()] });
    let r = Model::from_selection(&s);
    assert_eq!(r, Err(RosterError::MalformedSelection { context: "Nameless".to_string() }));
}

#[test]
fn stat_override_tier_merges_additively() {
    // A base line with empty attacks; the override carries attacks 3,
    // movement 6 and weapon skill 2 on top of the base values.
    let mut s = base_sel("Rhino", "model", 1);
    s.categories = Some(Categories { categories: vec![category("Vehicle")] });
    s.profiles = Some(Profiles {
        profiles: vec![profile(
            "Rhino",
            "Unit",
            vec![
                chr("M", Some("-")),
                chr("WS", Some("-")),
                chr("S", Some("6")),
                chr("T", Some("7")),
                chr("W", Some("10")),
                chr("A", Some("*")),
                chr("Ld", Some("8")),
                chr("Save", Some("3+")),
            ],
        )],
    });
    let mut tier_child = base_sel("Damage Tiers", "upgrade", 1);
    tier_child.profiles = Some(Profiles {
        profiles: vec![profile(
            "Rhino [1] (6+ Wounds Remaining)",
            "Stat Damage - M/BS/A",
            vec![
                chr("M", Some("6\"")),
                chr("WS", Some("2+")),
                chr("W", Some("N/A")),
                chr("A", Some("3")),
            ],
        )],
    });
    s.selections = Some(Selections { selections: vec![tier_child] });
    let m = Model::from_selection(&s).unwrap();
    assert_eq!(m.profiles.len(), 1);
    let merged = &m.profiles[0];
    // movement and weapon skill are base + override
    assert_eq!(merged.movement, 0 + 6);
    assert_eq!(merged.weapon_skill, 0 + 2);
    // attacks come from the override because the base had none
    assert_eq!(
        merged.attacks,
        ProfileValue { dice_value: None, flat_value: Some(3) }
    );
    // wounds follow the override tier; the rest carries over from the base
    assert_eq!(merged.wounds, 6);
    assert_eq!(merged.strength, 6);
    assert_eq!(merged.toughness, 7);
    assert_eq!(merged.leadership, 8);
    assert_eq!(merged.save, 3);
}

#[test]
fn unit_appends_unit_level_weapons_to_every_model() {
    let mut s = base_sel("Battle Sisters", "unit", 5);
    s.categories = Some(Categories { categories: vec![category("Troops")] });
    s.profiles = Some(Profiles {
        profiles: vec![profile(
            "Frag grenade",
            "Weapon",
            vec![chr("Type", Some("Grenade D6")), chr("S", Some("3"))],
        )],
    });
    s.selections = Some(Selections {
        selections: vec![model_sel("Sister"), model_sel("Sister Superior")],
    });
    let u = Unit::from_selection(&s).unwrap();
    assert_eq!(u.models.len(), 2);
    for m in &u.models {
        assert_eq!(m.weapons.len(), 1);
        assert_eq!(m.weapons[0].name, "Frag grenade".to_string());
        assert_eq!(m.weapons[0].number, 1);
    }
}

#[test]
fn unit_gathers_keywords_and_rules_from_children() {
    let mut s = base_sel("Battle Sisters", "unit", 5);
    s.categories = Some(Categories {
        categories: vec![category("Troops"), category("Infantry")],
    });
    let mut child = model_sel("Sister");
    child.rules = Some(Rules { rules: vec![rule("Shield of Faith"), rule("Acts of Faith")] });
    let mut child2 = model_sel("Sister Superior");
    child2.rules = Some(Rules { rules: vec![rule("Acts of Faith")] });
    s.selections = Some(Selections { selections: vec![child, child2] });
    let u = Unit::from_selection(&s).unwrap();
    assert_eq!(
        u.keywords,
        vec!["Character".to_string(), "Infantry".to_string(), "Troops".to_string()]
    );
    assert_eq!(
        u.rules,
        vec!["Acts of Faith".to_string(), "Shield of Faith".to_string()]
    );
}

#[test]
fn total_points_sum_recursively() {
    let mut s = base_sel("Battle Sisters", "unit", 5);
    s.costs = Some(Costs { costs: vec![pts(10)] });
    let mut child = base_sel("Sister", "model", 1);
    child.costs = Some(Costs { costs: vec![pts(5)] });
    let mut grandchild = base_sel("Boltgun", "upgrade", 1);
    grandchild.costs = Some(Costs { costs: vec![pts(2)] });
    child.selections = Some(Selections { selections: vec![grandchild] });
    s.selections = Some(Selections { selections: vec![child] });
    assert_eq!(Unit::get_total_points(&s), 17);
}

#[test]
fn total_points_ignore_other_cost_names() {
    let mut s = base_sel("Battle Sisters", "unit", 5);
    s.costs = Some(Costs {
        costs: vec![
            pts(9),
            Cost { name: " PL".to_string(), type_id: "plid".to_string(), value: 4 },
        ],
    });
    assert_eq!(Unit::get_total_points(&s), 9);
}

#[test]
fn total_points_are_order_independent() {
    let mk = |values: Vec<i64>| {
        let mut s = base_sel("Unit", "unit", 1);
        let children: Vec<Selection> = values
            .into_iter()
            .enumerate()
            .map(|(i, v)| {
                let mut c = base_sel(&format!("child{}", i), "model", 1);
                c.costs = Some(Costs { costs: vec![pts(v)] });
                c
            })
            .collect();
        s.selections = Some(Selections { selections: children });
        s
    };
    let a = mk(vec![3, 7, 11]);
    let b = mk(vec![11, 3, 7]);
    assert_eq!(Unit::get_total_points(&a), Unit::get_total_points(&b));
    assert_eq!(Unit::get_total_points(&a), 21);
}

fn force_with(selections: Vec<Selection>) -> Force {
    Force {
        id: "fid".to_string(),
        name: "Battalion".to_string(),
        entry_id: "eid".to_string(),
        catalogue_id: "cid".to_string(),
        catalogue_revision: "1".to_string(),
        catalogue_name: "cat".to_string(),
        selections: Selections { selections },
        publications: Publications { publications: vec![] },
        rules: None,
    }
}

fn roster_with(costs: Vec<Cost>, forces: Vec<Force>) -> Roster {
    Roster {
        id: "rid".to_string(),
        name: "My Army".to_string(),
        battle_scribe_version: "2.0".to_string(),
        game_system_id: "gsid".to_string(),
        game_system_name: "gs".to_string(),
        game_system_revision: "1".to_string(),
        costs: Costs { costs },
        forces: Forces { forces },
    }
}

fn root_costs() -> Vec<Cost> {
    vec![
        Cost { name: " PL".to_string(), type_id: "e356-c769-5920-6e14".to_string(), value: 6 },
        Cost { name: "CP".to_string(), type_id: "2d3b-b544-ad49-fb75".to_string(), value: 3 },
        Cost { name: "pts".to_string(), type_id: "points".to_string(), value: 2000 },
    ]
}

#[test]
fn army_reads_costs_by_type_id() {
    let r = roster_with(root_costs(), vec![force_with(vec![])]);
    let a = army_from_roster(&r).unwrap();
    assert_eq!(a.name, "My Army".to_string());
    assert_eq!(a.pl, 6);
    assert_eq!(a.cp, 3);
    assert_eq!(a.pts, 2000);
    assert_eq!(a.detachments.len(), 1);
    assert_eq!(a.detachments[0].name, "Battalion".to_string());
}

#[test]
fn unknown_cost_type_fails() {
    let mut costs = root_costs();
    costs.push(Cost { name: "CaBs".to_string(), type_id: "weird".to_string(), value: 1 });
    let r = roster_with(costs, vec![]);
    let a = army_from_roster(&r);
    assert_eq!(a, Err(RosterError::UnknownCostType { type_id: "weird".to_string() }));
}

#[test]
fn detachment_harvests_configuration_abilities() {
    let mut config = base_sel("Order Convictions", "upgrade", 1);
    config.categories = Some(Categories { categories: vec![category("Configuration")] });
    let mut inner = base_sel("Order: Valorous Heart", "upgrade", 1);
    inner.profiles = Some(Profiles {
        profiles: vec![profile(
            "Valorous Heart",
            "Abilities",
            vec![chr("Description", Some("Reduce damage taken"))],
        )],
    });
    config.selections = Some(Selections { selections: vec![inner] });
    let f = force_with(vec![config]);
    let d = detachment_from_force(&f).unwrap();
    assert_eq!(d.abilities.len(), 1);
    assert_eq!(d.abilities[0].value, "Reduce damage taken".to_string());
}

#[test]
fn detachment_harvests_stratagem_abilities() {
    let mut strat = base_sel("Open the Reliquaries", "upgrade", 1);
    strat.categories = Some(Categories { categories: vec![category("Stratagems")] });
    strat.profiles = Some(Profiles {
        profiles: vec![profile(
            "Relic",
            "Allegiance Oath",
            vec![chr("Description", Some("Take one relic"))],
        )],
    });
    let f = force_with(vec![strat]);
    let d = detachment_from_force(&f).unwrap();
    assert_eq!(d.abilities.len(), 1);
    assert_eq!(d.abilities[0].value, "Take one relic".to_string());
}

#[test]
fn detachment_builds_units_from_models() {
    let mut m = model_sel("Canoness");
    m.costs = Some(Costs { costs: vec![pts(45)] });
    let f = force_with(vec![m]);
    let d = detachment_from_force(&f).unwrap();
    assert_eq!(d.units.len(), 1);
    assert_eq!(d.units[0].name, "Canoness".to_string());
    assert_eq!(d.units[0].points, 45);
    assert_eq!(d.units[0].models.len(), 1);
}

#[test]
fn unknown_selection_type_fails_the_force() {
    let f = force_with(vec![base_sel("???", "squadron", 1)]);
    let d = detachment_from_force(&f);
    assert_eq!(
        d,
        Err(RosterError::UnknownSelectionType { selection_type: "squadron".to_string() })
    );
}

#[test]
fn unknown_characteristic_aborts_the_whole_army() {
    // One stray characteristic name deep inside a model: no partial army
    // comes back, only the error.
    let mut m = model_sel("Canoness");
    m.profiles = Some(Profiles {
        profiles: vec![profile("Canoness", "Unit", vec![chr("Zeal", Some("11"))])],
    });
    let r = roster_with(root_costs(), vec![force_with(vec![m])]);
    let a = army_from_roster(&r);
    assert_eq!(a, Err(RosterError::UnknownCharacteristic { name: "Zeal".to_string() }));
}

#[test]
fn upgrade_without_categories_fails() {
    let f = force_with(vec![base_sel("Mystery", "upgrade", 1)]);
    let d = detachment_from_force(&f);
    assert_eq!(d, Err(RosterError::MalformedSelection { context: "Mystery".to_string() }));
}

#[test]
fn model_collects_psyker_records_from_children() {
    let mut s = model_sel("Canoness");
    if let Some(ps) = &mut s.profiles {
        ps.profiles.push(profile(
            "Psyker",
            "Psyker",
            vec![chr("Cast", Some("2")), chr("Deny", Some("1"))],
        ));
    }
    let mut power_child = base_sel("Smite", "upgrade", 1);
    power_child.profiles = Some(Profiles {
        profiles: vec![profile(
            "Smite",
            "Psychic Power",
            vec![
                chr("Range", Some("18\"")),
                chr("Warp Charge", Some("5")),
                chr("Details", Some("Mortal wounds")),
            ],
        )],
    });
    s.selections = Some(Selections { selections: vec![power_child] });
    let m = Model::from_selection(&s).unwrap();
    let psyker = m.psyker_profile.unwrap();
    assert_eq!(psyker.num_casts, 2);
    assert_eq!(psyker.num_deny, 1);
    assert_eq!(m.psyker_powers.len(), 1);
    assert_eq!(m.psyker_powers[0].name, "Smite".to_string());
    assert_eq!(m.psyker_powers[0].warp_charge, 5);
}

#[test]
fn model_collects_weapons_nested_two_levels_down() {
    let mut s = model_sel("Sister Superior");
    let mut wrapper = base_sel("Armoury", "upgrade", 1);
    wrapper.selections = Some(Selections {
        selections: vec![weapon_child("Plasma pistol", "Plasma pistol", 1)],
    });
    // The wrapper itself carries no profiles, only a nested weapon and a
    // category that becomes a keyword.
    wrapper.categories = Some(Categories { categories: vec![category("Armoury")] });
    s.selections = Some(Selections { selections: vec![wrapper] });
    let m = Model::from_selection(&s).unwrap();
    assert_eq!(m.weapons.len(), 1);
    assert_eq!(m.weapons[0].name, "Plasma pistol".to_string());
    assert!(m.keywords.contains(&"Armoury".to_string()));
}

#[test]
fn unit_collects_nested_abilities() {
    let mut s = base_sel("Battle Sisters", "unit", 5);
    s.categories = Some(Categories { categories: vec![category("Troops")] });
    let mut child = model_sel("Sister");
    if let Some(ps) = &mut child.profiles {
        ps.profiles.push(profile(
            "Shield of Faith",
            "Abilities",
            vec![chr("Description", Some("A 6+ invulnerable save"))],
        ));
    }
    s.selections = Some(Selections { selections: vec![child] });
    let u = Unit::from_selection(&s).unwrap();
    assert_eq!(u.abilities.len(), 1);
    assert_eq!(u.abilities[0].name, "Shield of Faith".to_string());
    assert_eq!(u.abilities[0].value, "A 6+ invulnerable save".to_string());
    assert_eq!(u.invulnable_save, None);
}

#[test]
fn weapon_from_selection_carries_the_count() {
    let g = weapon_child("Boltguns", "Boltgun", 4);
    let w = Weapon::from_selection(&g).unwrap();
    assert_eq!(w.name, "Boltgun".to_string());
    assert_eq!(w.number, 4);
}

#[test]
fn model_number_follows_the_selection() {
    let mut s = model_sel("Sister");
    s.number = 5;
    let m = Model::from_selection(&s).unwrap();
    assert_eq!(m.number, 5);
}

#[test]
fn unit_weapon_merges_with_a_model_weapon_of_the_same_name() {
    // The model already carries two boltguns; the unit hands out one
    // more. The model's final list holds a single entry counting all
    // three: no two weapons of one model share a name.
    let mut s = base_sel("Battle Sisters", "unit", 5);
    s.categories = Some(Categories { categories: vec![category("Troops")] });
    s.profiles = Some(Profiles {
        profiles: vec![profile(
            "Boltgun",
            "Weapon",
            vec![chr("Type", Some("Rapid Fire 1")), chr("S", Some("4"))],
        )],
    });
    let mut child = model_sel("Sister");
    child.selections = Some(Selections {
        selections: vec![weapon_child("Boltgun", "Boltgun", 2)],
    });
    s.selections = Some(Selections { selections: vec![child] });
    let u = Unit::from_selection(&s).unwrap();
    assert_eq!(u.models.len(), 1);
    assert_eq!(u.models[0].weapons.len(), 1);
    assert_eq!(u.models[0].weapons[0].name, "Boltgun".to_string());
    assert_eq!(u.models[0].weapons[0].number, 3);
}

#[test]
fn duplicate_unit_weapons_merge_in_every_model() {
    // Two unit-level profiles of one name collapse into a single entry
    // on each model.
    let mut s = base_sel("Battle Sisters", "unit", 5);
    s.categories = Some(Categories { categories: vec![category("Troops")] });
    s.profiles = Some(Profiles {
        profiles: vec![
            profile(
                "Frag grenade",
                "Weapon",
                vec![chr("Type", Some("Grenade D6")), chr("S", Some("3"))],
            ),
            profile(
                "Frag grenade",
                "Weapon",
                vec![chr("Type", Some("Grenade D6")), chr("S", Some("3"))],
            ),
        ],
    });
    s.selections = Some(Selections {
        selections: vec![model_sel("Sister"), model_sel("Sister Superior")],
    });
    let u = Unit::from_selection(&s).unwrap();
    assert_eq!(u.models.len(), 2);
    for m in &u.models {
        assert_eq!(m.weapons.len(), 1);
        assert_eq!(m.weapons[0].name, "Frag grenade".to_string());
        assert_eq!(m.weapons[0].number, 2);
    }
}
