use pedal_steel::tunings::tuning;

#[test]
fn we_can_get_correct_tuning_from_different_input_formats() {
    let tuning = tuning("A, a, A#, a#, Ab, AB, ab, aB");

    assert_eq!(tuning.len(), 8);
    assert_eq!(tuning[0].name(), "A");
    assert_eq!(tuning[1].name(), "A");
    assert_eq!(tuning[2].name(), "A#");
    assert_eq!(tuning[3].name(), "A#");
    assert_eq!(tuning[4].name(), "Ab");
    assert_eq!(tuning[5].name(), "Ab");
    assert_eq!(tuning[6].name(), "Ab");
    assert_eq!(tuning[7].name(), "Ab");
}

#[test]
fn we_can_get_correct_tuning() {
    let tuning = tuning("F#, B, G, E, Db");

    assert_eq!(tuning.len(), 5);
    assert_eq!(tuning[0].name(), "F#");
    assert_eq!(tuning[1].name(), "B");
    assert_eq!(tuning[2].name(), "G");
    assert_eq!(tuning[3].name(), "E");
    assert_eq!(tuning[4].name(), "Db");
}

#[test]
fn we_can_avoid_incorrect_turning_input() {
    let tuning = tuning("Xb, BD, P Don Helms,");
    assert_eq!(tuning.len(), 0);
}

#[test]
fn an_empty_tuning_string_gives_no_pitches() {
    assert_eq!(tuning("").len(), 0);
    assert_eq!(tuning("   ").len(), 0);
}

#[test]
fn recognized_tokens_survive_among_unrecognized_ones() {
    let tuning = tuning("Xb, E, ,G#,");
    assert_eq!(tuning.len(), 2);
    assert_eq!(tuning[0].name(), "E");
    assert_eq!(tuning[1].name(), "G#");
}
