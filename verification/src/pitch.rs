//! Pitch classes: a note letter with an accidental, and the mod-12 pitch
//! identity used for all matching.
//!
//! A pitch class carries two orthogonal properties: its mod-12 identity,
//! used for every equality test, and its spelling (sharp or flat), used only
//! when a name is rendered. `G#` and `Ab` are the same note spelled two ways.

use vstd::prelude::*;

verus! {

/// A note letter without an accidental.
#[derive(Debug, Clone, Copy, PartialEq, Eq, Structural)]
pub enum NoteLetter {
    C,
    D,
    E,
    F,
    G,
    A,
    B,
}

/// Whether rendered note names prefer sharp or flat spellings.
#[derive(Debug, Clone, Copy, PartialEq, Eq, Structural)]
pub enum Direction {
    Ascending,
    Descending,
}

/// A note letter together with an accidental: `-1` for flat, `0` for
/// natural, `1` for sharp.
#[derive(Debug, Clone, Copy, PartialEq, Eq, Structural)]
pub struct PitchClass {
    pub letter: NoteLetter,
    pub accidental: i8,
}

/// The semitone index of a bare letter: C = 0, D = 2, E = 4, F = 5,
/// G = 7, A = 9, B = 11.
pub open spec fn letter_value(letter: NoteLetter) -> int {
    match letter {
        NoteLetter::C => 0,
        NoteLetter::D => 2,
        NoteLetter::E => 4,
        NoteLetter::F => 5,
        NoteLetter::G => 7,
        NoteLetter::A => 9,
        NoteLetter::B => 11,
    }
}

/// The mod-12 identity of a pitch class. Two pitch classes are the same
/// note exactly when their values agree, whatever their spelling.
pub open spec fn pc_value(p: PitchClass) -> int {
    (letter_value(p.letter) + p.accidental as int) % 12
}

/// A pitch class as this library constructs them: the accidental is a
/// single flat, natural, or a single sharp.
pub open spec fn pc_wf(p: PitchClass) -> bool {
    -1 <= p.accidental <= 1
}

/// The rendered name of a pitch class: the letter, then `b` for a flat
/// or `#` for a sharp.
pub open spec fn pc_name(p: PitchClass) -> Seq<char> {
    let letter = match p.letter {
        NoteLetter::C => "C"@,
        NoteLetter::D => "D"@,
        NoteLetter::E => "E"@,
        NoteLetter::F => "F"@,
        NoteLetter::G => "G"@,
        NoteLetter::A => "A"@,
        NoteLetter::B => "B"@,
    };
    if p.accidental < 0 {
        letter + "b"@
    } else if p.accidental > 0 {
        letter + "#"@
    } else {
        letter
    }
}

/// The pitch class spelled for a semitone index: index `v % 12`, rendered
/// with flats when `direction` is descending and with sharps otherwise.
pub open spec fn spec_pitch_at(v: int, direction: Direction) -> PitchClass {
    let n = v % 12;
    if n == 0 {
        PitchClass { letter: NoteLetter::C, accidental: 0 }
    } else if n == 1 {
        if direction is Descending {
            PitchClass { letter: NoteLetter::D, accidental: -1i8 }
        } else {
            PitchClass { letter: NoteLetter::C, accidental: 1 }
        }
    } else if n == 2 {
        PitchClass { letter: NoteLetter::D, accidental: 0 }
    } else if n == 3 {
        if direction is Descending {
            PitchClass { letter: NoteLetter::E, accidental: -1i8 }
        } else {
            PitchClass { letter: NoteLetter::D, accidental: 1 }
        }
    } else if n == 4 {
        PitchClass { letter: NoteLetter::E, accidental: 0 }
    } else if n == 5 {
        PitchClass { letter: NoteLetter::F, accidental: 0 }
    } else if n == 6 {
        if direction is Descending {
            PitchClass { letter: NoteLetter::G, accidental: -1i8 }
        } else {
            PitchClass { letter: NoteLetter::F, accidental: 1 }
        }
    } else if n == 7 {
        PitchClass { letter: NoteLetter::G, accidental: 0 }
    } else if n == 8 {
        if direction is Descending {
            PitchClass { letter: NoteLetter::A, accidental: -1i8 }
        } else {
            PitchClass { letter: NoteLetter::G, accidental: 1 }
        }
    } else if n == 9 {
        PitchClass { letter: NoteLetter::A, accidental: 0 }
    } else if n == 10 {
        if direction is Descending {
            PitchClass { letter: NoteLetter::B, accidental: -1i8 }
        } else {
            PitchClass { letter: NoteLetter::A, accidental: 1 }
        }
    } else {
        PitchClass { letter: NoteLetter::B, accidental: 0 }
    }
}

/// Spelling never changes identity: the pitch class rendered for a
/// semitone index has exactly that index, mod 12, as its value.
pub proof fn lemma_pitch_at_value(v: int, direction: Direction)
    ensures
        pc_value(spec_pitch_at(v, direction)) == v % 12,
        pc_wf(spec_pitch_at(v, direction)),
{
    vstd::arithmetic::div_mod::lemma_mod_division_less_than_divisor(v, 12);
    vstd::arithmetic::div_mod::lemma_mod_is_mod_recursive(v % 12, 12);
    assert(pc_value(spec_pitch_at(v, direction)) == (v % 12) % 12);
    vstd::arithmetic::div_mod::lemma_small_mod((v % 12) as nat, 12);
}

impl PitchClass {
    /// Build a pitch class from a letter and an accidental.
    pub fn new(letter: NoteLetter, accidental: i8) -> (r: PitchClass)
        ensures
            r == (PitchClass { letter, accidental }),
    {
        PitchClass { letter, accidental }
    }

    /// The mod-12 identity of this pitch class.
    pub fn value(&self) -> (r: u8)
        requires
            pc_wf(*self),
        ensures
            r as int == pc_value(*self),
            r < 12,
    {
        let base: u8 = match self.letter {
            NoteLetter::C => 0,
            NoteLetter::D => 2,
            NoteLetter::E => 4,
            NoteLetter::F => 5,
            NoteLetter::G => 7,
            NoteLetter::A => 9,
            NoteLetter::B => 11,
        };
        let shifted: u8 = if self.accidental < 0 {
            base + 11
        } else {
            base + (self.accidental as u8)
        };
        proof {
            let raw = letter_value(self.letter) + self.accidental as int;
            assert(shifted as int == raw || shifted as int == raw + 12);
            vstd::arithmetic::div_mod::lemma_mod_multiples_vanish(1, raw, 12);
        }
        shifted % 12
    }

    /// The rendered name, such as `E`, `G#` or `Ab`.
    pub fn name(&self) -> (r: String)
        ensures
            r@ == pc_name(*self),
    {
        let letter: &str = match self.letter {
            NoteLetter::C => "C",
            NoteLetter::D => "D",
            NoteLetter::E => "E",
            NoteLetter::F => "F",
            NoteLetter::G => "G",
            NoteLetter::A => "A",
            NoteLetter::B => "B",
        };
        let mut out = letter.to_owned();
        if self.accidental < 0 {
            out.append("b");
        } else if self.accidental > 0 {
            out.append("#");
        }
        out
    }

    /// The pitch class sounding `v` semitones above C, spelled for the
    /// given direction.
    pub fn pitch_at(v: u8, direction: Direction) -> (r: PitchClass)
        ensures
            r == spec_pitch_at(v as int, direction),
            pc_wf(r),
            pc_value(r) == v as int % 12,
    {
        proof {
            lemma_pitch_at_value(v as int, direction);
        }
        let n = v % 12;
        let descending = match direction {
            Direction::Descending => true,
            Direction::Ascending => false,
        };
        if n == 0 {
            PitchClass { letter: NoteLetter::C, accidental: 0 }
        } else if n == 1 {
            if descending {
                PitchClass { letter: NoteLetter::D, accidental: -1 }
            } else {
                PitchClass { letter: NoteLetter::C, accidental: 1 }
            }
        } else if n == 2 {
            PitchClass { letter: NoteLetter::D, accidental: 0 }
        } else if n == 3 {
            if descending {
                PitchClass { letter: NoteLetter::E, accidental: -1 }
            } else {
                PitchClass { letter: NoteLetter::D, accidental: 1 }
            }
        } else if n == 4 {
            PitchClass { letter: NoteLetter::E, accidental: 0 }
        } else if n == 5 {
            PitchClass { letter: NoteLetter::F, accidental: 0 }
        } else if n == 6 {
            if descending {
                PitchClass { letter: NoteLetter::G, accidental: -1 }
            } else {
                PitchClass { letter: NoteLetter::F, accidental: 1 }
            }
        } else if n == 7 {
            PitchClass { letter: NoteLetter::G, accidental: 0 }
        } else if n == 8 {
            if descending {
                PitchClass { letter: NoteLetter::A, accidental: -1 }
            } else {
                PitchClass { letter: NoteLetter::G, accidental: 1 }
            }
        } else if n == 9 {
            PitchClass { letter: NoteLetter::A, accidental: 0 }
        } else if n == 10 {
            if descending {
                PitchClass { letter: NoteLetter::B, accidental: -1 }
            } else {
                PitchClass { letter: NoteLetter::A, accidental: 1 }
            }
        } else {
            PitchClass { letter: NoteLetter::B, accidental: 0 }
        }
    }
}

} // verus!
