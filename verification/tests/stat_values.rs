use warhammer_data::error::RosterError;
use warhammer_data::profile::{DiceRoll, DiceType, ProfileValue};

#[test]
fn dice_with_count_and_flat() {
    let r = ProfileValue::from_str("2D3+1").unwrap();
    assert_eq!(
        r,
        ProfileValue {
            dice_value: Some(DiceRoll { number: 2, dice_type: DiceType::D3 }),
            flat_value: Some(1),
        }
    );
}

#[test]
fn dice_without_count_defaults_to_one() {
    let r = ProfileValue::from_str("D6").unwrap();
    assert_eq!(
        r,
        ProfileValue {
            dice_value: Some(DiceRoll { number: 1, dice_type: DiceType::D6 }),
            flat_value: None,
        }
    );
}

#[test]
fn bare_integer_is_flat() {
    let r = ProfileValue::from_str("4").unwrap();
    assert_eq!(r, ProfileValue { dice_value: None, flat_value: Some(4) });
}

#[test]
fn wildcard_is_empty() {
    let r = ProfileValue::from_str("*").unwrap();
    assert_eq!(r, ProfileValue { dice_value: None, flat_value: None });
}

#[test]
fn dice_with_larger_flat() {
    let r = ProfileValue::from_str("3D6+12").unwrap();
    assert_eq!(
        r,
        ProfileValue {
            dice_value: Some(DiceRoll { number: 3, dice_type: DiceType::D6 }),
            flat_value: Some(12),
        }
    );
}

#[test]
fn empty_token_is_malformed() {
    let r = ProfileValue::from_str("");
    assert_eq!(r, Err(RosterError::MalformedStatValue { token: "".to_string() }));
}

#[test]
fn unsupported_die_face_is_rejected() {
    let r = ProfileValue::from_str("2D4");
    assert_eq!(r, Err(RosterError::UnsupportedDieFace { token: "2D4".to_string() }));
}

#[test]
fn bare_die_marker_is_rejected() {
    let r = ProfileValue::from_str("D");
    assert_eq!(r, Err(RosterError::UnsupportedDieFace { token: "D".to_string() }));
}

#[test]
fn zero_dice_count_is_malformed() {
    let r = ProfileValue::from_str("0D6");
    assert_eq!(r, Err(RosterError::MalformedStatValue { token: "0D6".to_string() }));
}

#[test]
fn oversized_flat_is_malformed() {
    let r = ProfileValue::from_str("300");
    assert_eq!(r, Err(RosterError::MalformedStatValue { token: "300".to_string() }));
}

#[test]
fn trailing_garbage_is_malformed() {
    let r = ProfileValue::from_str("2D6x");
    assert_eq!(r, Err(RosterError::MalformedStatValue { token: "2D6x".to_string() }));
    let r2 = ProfileValue::from_str("2D6+");
    assert_eq!(r2, Err(RosterError::MalformedStatValue { token: "2D6+".to_string() }));
}

#[test]
fn sort_dedup_orders_and_uniques() {
    let v = vec![
        "Infantry".to_string(),
        "Character".to_string(),
        "Infantry".to_string(),
        "Adepta Sororitas".to_string(),
    ];
    let r = warhammer_data::text::sort_dedup_strings(&v);
    assert_eq!(
        r,
        vec![
            "Adepta Sororitas".to_string(),
            "Character".to_string(),
            "Infantry".to_string(),
        ]
    );
}
