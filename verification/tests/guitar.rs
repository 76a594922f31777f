use pedal_steel::copedent::Position;
use pedal_steel::guitar::{
    display_as_flats_or_sharps, frets_with_all_chord_tones, generate_neck,
    identify_notes_on_neck, locate, populate_neck_pitches, Guitar, NeckPositions,
};
use pedal_steel::pitch::{Direction, NoteLetter, PitchClass};
use pedal_steel::tunings::tuning;
use rust_music_theory::chord::Chord;
use rust_music_theory::note::{Note, NoteLetter as TheoryLetter, Notes};

/// Converts a note of the music-theory crate into the library's pitch class.
fn convert_note(note: &Note) -> PitchClass {
    let letter = match note.pitch.letter {
        TheoryLetter::C => NoteLetter::C,
        TheoryLetter::D => NoteLetter::D,
        TheoryLetter::E => NoteLetter::E,
        TheoryLetter::F => NoteLetter::F,
        TheoryLetter::G => NoteLetter::G,
        TheoryLetter::A => NoteLetter::A,
        TheoryLetter::B => NoteLetter::B,
    };
    PitchClass { letter, accidental: note.pitch.accidental }
}

fn convert_notes(notes: &[Note]) -> Vec<PitchClass> {
    notes.iter().map(convert_note).collect()
}

#[test]
fn test_guitar_creation() {
    let notes = "E, C#, A, F#, E, C#, A, F#";
    let guitar = Guitar::new("A6th lap steel", notes);
    assert_eq!(guitar.name, "A6th lap steel");
    assert_eq!(guitar.tuning, tuning(notes));
    assert_eq!(guitar.tuning.len(), 8);
}

#[test]
fn test_identify_notes_on_neck() {
    let guitar = Guitar::new("Test Guitar", "E");
    let position = vec![Position::Open];
    let chord = Chord::from_regex("E major").unwrap();
    let target = convert_notes(&chord.notes());

    let neck_positions = identify_notes_on_neck(&guitar, &position, &target);

    assert_eq!(neck_positions.len(), 3);
    assert_eq!(neck_positions[0].string, 0);
    assert_eq!(neck_positions[0].fret, 0);
    assert_eq!(neck_positions[0].note_name, "E");
    assert_eq!(neck_positions[1].string, 0);
    assert_eq!(neck_positions[1].fret, 4);
    assert_eq!(neck_positions[1].note_name, "G#");
    assert_eq!(neck_positions[2].string, 0);
    assert_eq!(neck_positions[2].fret, 7);
    assert_eq!(neck_positions[2].note_name, "B");
}

#[test]
fn test_frets_with_all_chord_tones() {
    let guitar = Guitar::new("Test Guitar", "E, G#, B");
    let position = vec![Position::Open];
    let chord = Chord::from_regex("E major").unwrap();
    let target = convert_notes(&chord.notes());

    let neck_positions = identify_notes_on_neck(&guitar, &position, &target);
    let frets = frets_with_all_chord_tones(&neck_positions, &target);

    assert_eq!(frets.len(), 3);
    assert_eq!(frets[0].string, 0);
    assert_eq!(frets[0].fret, 0);
    assert_eq!(frets[0].note_name, "E");
    assert_eq!(frets[1].string, 1);
    assert_eq!(frets[1].fret, 0);
    assert_eq!(frets[1].note_name, "G#");
    assert_eq!(frets[2].string, 2);
    assert_eq!(frets[2].fret, 0);
    assert_eq!(frets[2].note_name, "B");
}

#[test]
fn an_extra_tone_on_a_fret_does_not_disqualify_it() {
    // At fret 0 all three chord tones sound, plus one non-chord tone that
    // a wider scan picked up: the whole fret group is kept.
    let matches = vec![
        NeckPositions {
            pitch: PitchClass { letter: NoteLetter::E, accidental: 0 },
            note_name: "E".to_string(),
            string: 0,
            fret: 0,
        },
        NeckPositions {
            pitch: PitchClass { letter: NoteLetter::G, accidental: 1 },
            note_name: "G#".to_string(),
            string: 1,
            fret: 0,
        },
        NeckPositions {
            pitch: PitchClass { letter: NoteLetter::B, accidental: 0 },
            note_name: "B".to_string(),
            string: 2,
            fret: 0,
        },
        NeckPositions {
            pitch: PitchClass { letter: NoteLetter::C, accidental: 0 },
            note_name: "C".to_string(),
            string: 3,
            fret: 0,
        },
    ];
    let chord = vec![
        PitchClass { letter: NoteLetter::E, accidental: 0 },
        PitchClass { letter: NoteLetter::G, accidental: 1 },
        PitchClass { letter: NoteLetter::B, accidental: 0 },
    ];
    let kept = frets_with_all_chord_tones(&matches, &chord);
    assert_eq!(kept.len(), 4);
    assert!(kept.iter().all(|p| p.fret == 0));
    assert_eq!(kept[3].note_name, "C");
}

#[test]
fn a_fret_missing_a_chord_tone_is_excluded() {
    // Fret 2 sounds only two of the three chord tones: nothing of it is kept.
    let matches = vec![
        NeckPositions {
            pitch: PitchClass { letter: NoteLetter::E, accidental: 0 },
            note_name: "E".to_string(),
            string: 0,
            fret: 2,
        },
        NeckPositions {
            pitch: PitchClass { letter: NoteLetter::G, accidental: 1 },
            note_name: "G#".to_string(),
            string: 1,
            fret: 2,
        },
    ];
    let chord = vec![
        PitchClass { letter: NoteLetter::E, accidental: 0 },
        PitchClass { letter: NoteLetter::G, accidental: 1 },
        PitchClass { letter: NoteLetter::B, accidental: 0 },
    ];
    let kept = frets_with_all_chord_tones(&matches, &chord);
    assert_eq!(kept.len(), 0);
}

#[test]
fn a_doubled_tone_counts_once_and_keeps_the_fret() {
    // The same tone on two strings at one fret, with the rest present,
    // still completes the chord.
    let matches = vec![
        NeckPositions {
            pitch: PitchClass { letter: NoteLetter::E, accidental: 0 },
            note_name: "E".to_string(),
            string: 0,
            fret: 5,
        },
        NeckPositions {
            pitch: PitchClass { letter: NoteLetter::E, accidental: 0 },
            note_name: "E".to_string(),
            string: 1,
            fret: 5,
        },
        NeckPositions {
            pitch: PitchClass { letter: NoteLetter::G, accidental: 1 },
            note_name: "G#".to_string(),
            string: 2,
            fret: 5,
        },
        NeckPositions {
            pitch: PitchClass { letter: NoteLetter::B, accidental: 0 },
            note_name: "B".to_string(),
            string: 3,
            fret: 5,
        },
    ];
    let chord = vec![
        PitchClass { letter: NoteLetter::E, accidental: 0 },
        PitchClass { letter: NoteLetter::G, accidental: 1 },
        PitchClass { letter: NoteLetter::B, accidental: 0 },
    ];
    let kept = frets_with_all_chord_tones(&matches, &chord);
    assert_eq!(kept.len(), 4);
    assert!(kept.iter().all(|p| p.fret == 5));
}

#[test]
fn matching_ignores_spelling_differences() {
    // The neck spells the pitch Ab while the target spells it G#: the cell
    // still matches, since both have the same mod-12 identity.
    let guitar = Guitar::new("one string", "Ab");
    let target = vec![PitchClass { letter: NoteLetter::G, accidental: 1 }];
    let found = identify_notes_on_neck(&guitar, &[Position::Open], &target);
    assert_eq!(found.len(), 1);
    assert_eq!(found[0].fret, 0);
    assert_eq!(found[0].string, 0);
}

#[test]
fn open_position_round_trips_through_a_zero_offset_vector() {
    let guitar = Guitar::new("E9", "F#, D#, G#, E, B, G#, F#, E, D, B");
    let composed = populate_neck_pitches(&guitar, &[Position::Open], Direction::Ascending);
    let direct = generate_neck(&guitar.tuning, &vec![0; 10], Direction::Ascending);
    assert_eq!(composed, direct);
}

#[test]
fn neck_pitches_repeat_after_twelve_frets() {
    // One octave up the neck the same pitch class sounds again: fret j and
    // fret j + 12 have equal mod-12 identities.
    for v in 0..24u8 {
        let low = PitchClass::pitch_at(v, Direction::Ascending);
        let high = PitchClass::pitch_at(v + 12, Direction::Ascending);
        assert_eq!(low.value(), high.value());
        let low_flat = PitchClass::pitch_at(v, Direction::Descending);
        let high_flat = PitchClass::pitch_at(v + 12, Direction::Descending);
        assert_eq!(low_flat.value(), high_flat.value());
    }
}

#[test]
fn a_short_tuning_generates_only_its_own_strings() {
    // The offset vector always covers ten strings; a two-string tuning
    // yields a two-row grid, and an eleven-string tuning only ten rows.
    let short = Guitar::new("two strings", "E, B");
    let neck = populate_neck_pitches(&short, &[Position::Open], Direction::Ascending);
    assert_eq!(neck.len(), 2);
    assert_eq!(neck[0].len(), 12);

    let long = Guitar::new("eleven strings", "E, E, E, E, E, E, E, E, E, E, E");
    assert_eq!(long.tuning.len(), 11);
    let neck = populate_neck_pitches(&long, &[Position::Open], Direction::Ascending);
    assert_eq!(neck.len(), 10);
}

#[test]
fn an_empty_target_set_matches_nothing() {
    let guitar = Guitar::new("E9", "F#, D#, G#, E, B, G#, F#, E, D, B");
    let neck = populate_neck_pitches(&guitar, &[Position::Open], Direction::Ascending);
    let found = locate(&neck, &[]);
    assert_eq!(found.len(), 0);
}

#[test]
fn a_flat_in_the_target_set_selects_flat_spellings() {
    let flats = vec![PitchClass { letter: NoteLetter::E, accidental: -1 }];
    assert_eq!(display_as_flats_or_sharps(&flats), Direction::Descending);
    let sharps = vec![PitchClass { letter: NoteLetter::F, accidental: 1 }];
    assert_eq!(display_as_flats_or_sharps(&sharps), Direction::Ascending);
    assert_eq!(display_as_flats_or_sharps(&[]), Direction::Ascending);

    let guitar = Guitar::new("one string", "C");
    let found = identify_notes_on_neck(&guitar, &[Position::Open], &flats);
    assert_eq!(found.len(), 1);
    assert_eq!(found[0].note_name, "Eb");
    assert_eq!(found[0].fret, 3);
}

#[test]
fn engaged_pedals_shift_the_generated_pitches() {
    // Pedal A raises string 5 by two semitones: on a ten-string tuning of
    // all C, string 5 (index 4) sounds D at fret 0 while string 1 stays C.
    let guitar = Guitar::new("all C", "C, C, C, C, C, C, C, C, C, C");
    let neck = populate_neck_pitches(&guitar, &[Position::A], Direction::Ascending);
    assert_eq!(neck[0][0].value(), 0);
    assert_eq!(neck[4][0].value(), 2);
    assert_eq!(neck[9][0].value(), 2);
}
