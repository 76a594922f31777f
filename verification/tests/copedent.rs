use pedal_steel::copedent::{
    copedent_change, pedal_and_levers, position_name, position_string, possible_positions,
    Position, NUMBER_OF_STRINGS,
};

#[test]
fn test_copedent_change() {
    let result = copedent_change(Position::A);
    assert_eq!(result.copedent_change.len(), 2);
    assert_eq!(result.copedent_change[0].string, 10);
    assert_eq!(result.copedent_change[0].semitone_change, 2);
    assert_eq!(result.copedent_change[1].string, 5);
    assert_eq!(result.copedent_change[1].semitone_change, 2);
}

#[test]
fn test_pedal_and_levers_open() {
    let result = pedal_and_levers(&[Position::Open]);
    assert_eq!(result.copedent_change, vec![0; NUMBER_OF_STRINGS]);
}

#[test]
fn test_pedal_and_levers_a() {
    let result = pedal_and_levers(&[Position::A]);
    assert_eq!(result.copedent_change, vec![0, 0, 0, 0, 2, 0, 0, 0, 0, 2]);
}

#[test]
fn test_pedal_and_levers_a_b() {
    let result = pedal_and_levers(&[Position::A, Position::B]);
    assert_eq!(result.copedent_change, vec![0, 0, 1, 0, 2, 1, 0, 0, 0, 2]);
}

#[test]
fn test_position_name() {
    let name = position_name(&[Position::A, Position::B, Position::Lkr]);
    assert_eq!(name, "A & B & LKR");
}

#[test]
fn test_pedal_and_levers_is_commutative() {
    let ab = pedal_and_levers(&[Position::A, Position::B]);
    let ba = pedal_and_levers(&[Position::B, Position::A]);
    assert_eq!(ab.copedent_change, ba.copedent_change);

    let lkv_rkl = pedal_and_levers(&[Position::Lkv, Position::Rkl]);
    let rkl_lkv = pedal_and_levers(&[Position::Rkl, Position::Lkv]);
    assert_eq!(lkv_rkl.copedent_change, rkl_lkv.copedent_change);
}

#[test]
fn test_pedal_and_levers_lowers_wrap_mod_twelve() {
    let result = pedal_and_levers(&[Position::Lkv]);
    assert_eq!(result.copedent_change, vec![0, 0, 0, 0, 11, 0, 0, 0, 0, 0]);
}

#[test]
fn test_possible_positions_catalog() {
    let combos = possible_positions();
    assert_eq!(combos.len(), 16);
    assert_eq!(combos[0], vec![Position::Open]);
    assert_eq!(combos[9], vec![Position::A, Position::B]);
    assert_eq!(combos[12], vec![Position::B, Position::Lkr]);
}

#[test]
fn test_position_string_names() {
    assert_eq!(position_string(&Position::Open), "Open");
    assert_eq!(position_string(&Position::A), "A");
    assert_eq!(position_string(&Position::Lkv), "LKV");
    assert_eq!(position_string(&Position::Rkr), "RKR");
}

#[test]
fn test_position_name_empty_and_single() {
    assert_eq!(position_name(&[]), "");
    assert_eq!(position_name(&[Position::Open]), "Open");
}
