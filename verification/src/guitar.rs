//! The instrument, its neck grid, and the note searches over it.
//!
//! A guitar is a tuning: one pitch class per string. For a set of engaged
//! positions the neck grid holds the pitch sounding at every string and
//! fret. The locator returns every cell whose pitch belongs to a target
//! note set; the full-chord finder keeps only the cells of frets on which
//! every tone of a chord sounds at once.

use crate::copedent::{
    lemma_compose_open, lemma_offset_at_bound, pedal_and_levers, spec_offsets, zero_offsets,
    Position,
};
use crate::pitch::{
    letter_value, lemma_pitch_at_value, pc_name, pc_value, pc_wf, spec_pitch_at, Direction,
    PitchClass,
};
use crate::tunings::{spec_tuning, tuning};
use vstd::prelude::*;

verus! {

/// A guitar or pedal-steel instrument: a name and a tuning, one pitch
/// class per string.
pub struct Guitar {
    pub name: String,
    pub tuning: Vec<PitchClass>,
}

/// Every pitch class of the tuning is well formed.
pub open spec fn guitar_wf(g: Guitar) -> bool {
    forall|i: int| 0 <= i < g.tuning@.len() ==> pc_wf(#[trigger] g.tuning@[i])
}

impl Guitar {
    /// Builds a guitar from a name and a comma-separated tuning string.
    pub fn new(name: &str, notes: &str) -> (g: Guitar)
        ensures
            g.name@ == name@,
            g.tuning@ == spec_tuning(notes@),
            guitar_wf(g),
    {
        Guitar { name: name.to_owned(), tuning: tuning(notes) }
    }
}

/// A matched cell of the neck: the pitch sounding at a string and fret,
/// with its rendered name.
#[derive(Debug, Clone)]
pub struct NeckPositions {
    pub pitch: PitchClass,
    pub note_name: String,
    pub string: usize,
    pub fret: usize,
}

/// The mathematical content of a matched cell.
pub ghost struct NeckCell {
    pub pitch: PitchClass,
    pub note_name: Seq<char>,
    pub string: int,
    pub fret: int,
}

impl View for NeckPositions {
    type V = NeckCell;

    open spec fn view(&self) -> NeckCell {
        NeckCell {
            pitch: self.pitch,
            note_name: self.note_name@,
            string: self.string as int,
            fret: self.fret as int,
        }
    }
}

/// The views of a list of matched cells.
pub open spec fn views_of(s: Seq<NeckPositions>) -> Seq<NeckCell> {
    s.map_values(|np: NeckPositions| np@)
}

/// The views of the rows of a neck grid.
pub open spec fn rows_of(s: Seq<Vec<PitchClass>>) -> Seq<Seq<PitchClass>> {
    s.map_values(|row: Vec<PitchClass>| row@)
}

/// The number of frets of the modelled neck.
pub const FRET_COUNT: usize = 12;

/// The pitch sounding on a string tuned to `base`, shifted by `offset`,
/// stopped at `fret`, spelled for `direction`.
pub open spec fn spec_cell(base: PitchClass, offset: int, fret: int, direction: Direction) -> PitchClass {
    spec_pitch_at(pc_value(base) + offset + fret, direction)
}

/// The whole neck grid for a tuning and an offset vector: one row per
/// string, one cell per fret. When the tuning and the offset vector have
/// different lengths, only the strings present in both are generated.
pub open spec fn spec_neck(
    tuning: Seq<PitchClass>,
    offsets: Seq<int>,
    direction: Direction,
) -> Seq<Seq<PitchClass>> {
    let strings: nat = if tuning.len() <= offsets.len() {
        tuning.len()
    } else {
        offsets.len()
    };
    Seq::new(
        strings,
        |i: int|
            Seq::new(
                FRET_COUNT as nat,
                |j: int| spec_cell(tuning[i], offsets[i], j, direction),
            ),
    )
}

/// The pitch of a cell is periodic in the fret with period twelve: one
/// octave up the fret board, the same pitch class sounds again.
pub proof fn lemma_generate_periodic(base: PitchClass, offset: int, fret: int, direction: Direction)
    ensures
        pc_value(spec_cell(base, offset, fret, direction)) == pc_value(
            spec_cell(base, offset, fret + 12, direction),
        ),
{
    lemma_pitch_at_value(pc_value(base) + offset + fret, direction);
    lemma_pitch_at_value(pc_value(base) + offset + fret + 12, direction);
    vstd::arithmetic::div_mod::lemma_mod_multiples_vanish(
        1,
        pc_value(base) + offset + fret,
        12,
    );
}

/// Composing the neutral open position alone generates the very same neck
/// as a zero offset vector handed over directly.
pub proof fn lemma_open_round_trip(tuning: Seq<PitchClass>, direction: Direction)
    ensures
        spec_neck(tuning, spec_offsets(seq![Position::Open]), direction) == spec_neck(
            tuning,
            zero_offsets(),
            direction,
        ),
{
    lemma_compose_open();
}

/// Whether the target set prefers flat spellings: it does as soon as any
/// target note is spelled with a flat.
pub open spec fn spec_direction(notes: Seq<PitchClass>) -> Direction {
    if exists|k: int| 0 <= k < notes.len() && (#[trigger] notes[k]).accidental < 0 {
        Direction::Descending
    } else {
        Direction::Ascending
    }
}

/// Chooses flat spellings when any target note is spelled with a flat,
/// sharp spellings otherwise.
pub fn display_as_flats_or_sharps(notes: &[PitchClass]) -> (d: Direction)
    ensures
        d == spec_direction(notes@),
{
    let mut k: usize = 0;
    while k < notes.len()
        invariant
            k <= notes@.len(),
            forall|m: int| 0 <= m < k ==> (#[trigger] notes@[m]).accidental >= 0,
        decreases notes@.len() - k,
    {
        if notes[k].accidental < 0 {
            return Direction::Descending;
        }
        k += 1;
    }
    Direction::Ascending
}

/// Generates the neck grid for a tuning and an offset vector: the cell of
/// string `i` and fret `j` sounds `offsets[i] + j` semitones above the
/// string's tuned pitch. Only the strings present in both the tuning and
/// the offset vector are generated.
pub fn generate_neck(
    tuning: &Vec<PitchClass>,
    offsets: &Vec<u8>,
    direction: Direction,
) -> (neck: Vec<Vec<PitchClass>>)
    requires
        forall|i: int| 0 <= i < tuning@.len() ==> pc_wf(#[trigger] tuning@[i]),
        forall|i: int| 0 <= i < offsets@.len() ==> #[trigger] offsets@[i] <= 233,
    ensures
        rows_of(neck@) == spec_neck(
            tuning@,
            offsets@.map_values(|o: u8| o as int),
            direction,
        ),
        forall|i: int|
            0 <= i < neck@.len() ==> forall|j: int|
                0 <= j < (#[trigger] neck@[i])@.len() ==> pc_wf(#[trigger] neck@[i]@[j]),
{
    let ghost goal = spec_neck(tuning@, offsets@.map_values(|o: u8| o as int), direction);
    let strings = if tuning.len() <= offsets.len() {
        tuning.len()
    } else {
        offsets.len()
    };
    let mut neck: Vec<Vec<PitchClass>> = Vec::new();
    let mut i: usize = 0;
    while i < strings
        invariant
            strings == if tuning@.len() <= offsets@.len() {
                tuning@.len()
            } else {
                offsets@.len()
            },
            i <= strings,
            goal == spec_neck(tuning@, offsets@.map_values(|o: u8| o as int), direction),
            forall|k: int| 0 <= k < tuning@.len() ==> pc_wf(#[trigger] tuning@[k]),
            forall|k: int| 0 <= k < offsets@.len() ==> #[trigger] offsets@[k] <= 233,
            neck@.len() == i,
            forall|k: int| 0 <= k < i ==> (#[trigger] neck@[k])@ == goal[k],
            forall|k: int|
                0 <= k < i ==> forall|j: int|
                    0 <= j < (#[trigger] neck@[k])@.len() ==> pc_wf(#[trigger] neck@[k]@[j]),
        decreases strings - i,
    {
        let base = tuning[i].value();
        let offset = offsets[i];
        let mut row: Vec<PitchClass> = Vec::new();
        let mut j: usize = 0;
        while j < FRET_COUNT
            invariant
                j <= FRET_COUNT,
                base as int == pc_value(tuning@[i as int]),
                base < 12,
                offset == offsets@[i as int],
                offset <= 233,
                0 <= i < tuning@.len(),
                0 <= i < offsets@.len(),
                row@.len() == j,
                forall|m: int|
                    0 <= m < j ==> #[trigger] row@[m] == spec_cell(
                        tuning@[i as int],
                        offsets@[i as int] as int,
                        m,
                        direction,
                    ),
                forall|m: int| 0 <= m < j ==> pc_wf(#[trigger] row@[m]),
            decreases FRET_COUNT - j,
        {
            let v = base + offset + (j as u8);
            let cell = PitchClass::pitch_at(v, direction);
            row.push(cell);
            j += 1;
        }
        proof {
            assert(row@ =~= goal[i as int]);
        }
        neck.push(row);
        i += 1;
    }
    proof {
        assert(rows_of(neck@) =~= goal);
    }
    neck
}

/// Generates the neck grid for a guitar under a set of engaged positions:
/// the positions are composed into an offset vector and the grid is
/// generated from it.
pub fn populate_neck_pitches(
    guitar: &Guitar,
    position: &[Position],
    direction: Direction,
) -> (neck: Vec<Vec<PitchClass>>)
    requires
        guitar_wf(*guitar),
        position@.no_duplicates(),
    ensures
        rows_of(neck@) == spec_neck(guitar.tuning@, spec_offsets(position@), direction),
        forall|i: int|
            0 <= i < neck@.len() ==> forall|j: int|
                0 <= j < (#[trigger] neck@[i])@.len() ==> pc_wf(#[trigger] neck@[i]@[j]),
{
    let pl = pedal_and_levers(position);
    proof {
        assert forall|s: int| 0 <= s < pl.copedent_change@.len() implies #[trigger] pl
            .copedent_change@[s] <= 233 by {
            lemma_offset_at_bound(position@, s);
        }
        assert(pl.copedent_change@.map_values(|o: u8| o as int) =~= spec_offsets(position@));
    }
    generate_neck(&guitar.tuning, &pl.copedent_change, direction)
}

/// Whether a pitch belongs to a target note set: some note of the set has
/// the same mod-12 identity, whatever its spelling.
pub open spec fn matches_any(p: PitchClass, notes: Seq<PitchClass>) -> bool {
    exists|k: int| 0 <= k < notes.len() && pc_value(#[trigger] notes[k]) == pc_value(p)
}

/// The matched cell recorded for a hit at string `i`, fret `j`.
pub open spec fn spec_cell_match(pitch: PitchClass, i: int, j: int) -> NeckCell {
    NeckCell { pitch, note_name: pc_name(pitch), string: i, fret: j }
}

/// The matches of a target note set within one row of the grid, in fret
/// order.
pub open spec fn row_matches(row: Seq<PitchClass>, notes: Seq<PitchClass>, i: int) -> Seq<NeckCell>
    decreases row.len(),
{
    if row.len() == 0 {
        Seq::empty()
    } else {
        row_matches(row.drop_last(), notes, i) + (if matches_any(row.last(), notes) {
            seq![spec_cell_match(row.last(), i, row.len() - 1)]
        } else {
            Seq::empty()
        })
    }
}

/// The matches of a target note set within a neck grid, in string-major,
/// fret-minor order.
pub open spec fn spec_locate(neck: Seq<Seq<PitchClass>>, notes: Seq<PitchClass>) -> Seq<NeckCell>
    decreases neck.len(),
{
    if neck.len() == 0 {
        Seq::empty()
    } else {
        spec_locate(neck.drop_last(), notes) + row_matches(neck.last(), notes, neck.len() - 1)
    }
}

/// Every matching cell of a row appears among the row's matches.
proof fn lemma_row_matches_contains(row: Seq<PitchClass>, notes: Seq<PitchClass>, i: int, j: int)
    requires
        0 <= j < row.len(),
        matches_any(row[j], notes),
    ensures
        row_matches(row, notes, i).contains(spec_cell_match(row[j], i, j)),
    decreases row.len(),
{
    if j == row.len() - 1 {
        let left = row_matches(row.drop_last(), notes, i);
        assert(row_matches(row, notes, i)[left.len() as int] == spec_cell_match(row[j], i, j));
    } else {
        assert(row.drop_last()[j] == row[j]);
        lemma_row_matches_contains(row.drop_last(), notes, i, j);
        let sub = row_matches(row.drop_last(), notes, i);
        let x = spec_cell_match(row[j], i, j);
        let i0 = choose|i0: int| 0 <= i0 < sub.len() && sub[i0] == x;
        assert(row_matches(row, notes, i)[i0] == x);
    }
}

/// Every cell of the grid whose pitch belongs to the target set appears
/// in the locator's output.
pub proof fn lemma_locate_contains(
    neck: Seq<Seq<PitchClass>>,
    notes: Seq<PitchClass>,
    i: int,
    j: int,
)
    requires
        0 <= i < neck.len(),
        0 <= j < neck[i].len(),
        matches_any(neck[i][j], notes),
    ensures
        spec_locate(neck, notes).contains(spec_cell_match(neck[i][j], i, j)),
    decreases neck.len(),
{
    let x = spec_cell_match(neck[i][j], i, j);
    if i == neck.len() - 1 {
        lemma_row_matches_contains(neck.last(), notes, i, j);
        let left = spec_locate(neck.drop_last(), notes);
        let right = row_matches(neck.last(), notes, i);
        let i0 = choose|i0: int| 0 <= i0 < right.len() && right[i0] == x;
        assert(spec_locate(neck, notes)[left.len() + i0] == x);
    } else {
        assert(neck.drop_last()[i] == neck[i]);
        lemma_locate_contains(neck.drop_last(), notes, i, j);
        let sub = spec_locate(neck.drop_last(), notes);
        let i0 = choose|i0: int| 0 <= i0 < sub.len() && sub[i0] == x;
        assert(spec_locate(neck, notes)[i0] == x);
    }
}

/// Whether a pitch belongs to a target note set.
fn matches_any_note(p: &PitchClass, notes: &[PitchClass]) -> (b: bool)
    requires
        pc_wf(*p),
        forall|k: int| 0 <= k < notes@.len() ==> pc_wf(#[trigger] notes@[k]),
    ensures
        b == matches_any(*p, notes@),
{
    let v = p.value();
    let mut k: usize = 0;
    while k < notes.len()
        invariant
            k <= notes@.len(),
            v as int == pc_value(*p),
            forall|m: int| 0 <= m < notes@.len() ==> pc_wf(#[trigger] notes@[m]),
            forall|m: int| 0 <= m < k ==> pc_value(#[trigger] notes@[m]) != pc_value(*p),
        decreases notes@.len() - k,
    {
        if notes[k].value() == v {
            return true;
        }
        k += 1;
    }
    false
}

/// Scans a neck grid for the cells whose pitch belongs to a target note
/// set, in string-major, fret-minor order, recording each hit with its
/// rendered name, string and fret.
pub fn locate(neck: &Vec<Vec<PitchClass>>, notes: &[PitchClass]) -> (r: Vec<NeckPositions>)
    requires
        forall|i: int|
            0 <= i < neck@.len() ==> forall|j: int|
                0 <= j < (#[trigger] neck@[i])@.len() ==> pc_wf(#[trigger] neck@[i]@[j]),
        forall|k: int| 0 <= k < notes@.len() ==> pc_wf(#[trigger] notes@[k]),
    ensures
        views_of(r@) == spec_locate(rows_of(neck@), notes@),
        forall|k: int| 0 <= k < r@.len() ==> pc_wf((#[trigger] r@[k]).pitch),
{
    let ghost grid = rows_of(neck@);
    let mut r: Vec<NeckPositions> = Vec::new();
    let mut i: usize = 0;
    proof {
        assert(views_of(r@) =~= spec_locate(grid.take(0), notes@));
    }
    while i < neck.len()
        invariant
            grid == rows_of(neck@),
            i <= grid.len(),
            forall|a: int|
                0 <= a < neck@.len() ==> forall|b: int|
                    0 <= b < (#[trigger] neck@[a])@.len() ==> pc_wf(#[trigger] neck@[a]@[b]),
            forall|k: int| 0 <= k < notes@.len() ==> pc_wf(#[trigger] notes@[k]),
            views_of(r@) == spec_locate(grid.take(i as int), notes@),
            forall|k: int| 0 <= k < r@.len() ==> pc_wf((#[trigger] r@[k]).pitch),
        decreases grid.len() - i,
    {
        let row = &neck[i];
        let ghost row_view = grid[i as int];
        let mut j: usize = 0;
        proof {
            assert(row_matches(row_view.take(0), notes@, i as int) =~= Seq::<NeckCell>::empty());
            assert(views_of(r@) =~= spec_locate(grid.take(i as int), notes@) + row_matches(
                row_view.take(0),
                notes@,
                i as int,
            ));
        }
        while j < row.len()
            invariant
                grid == rows_of(neck@),
                0 <= i < grid.len(),
                row@ == row_view,
                row_view == grid[i as int],
                j <= row_view.len(),
                forall|a: int|
                    0 <= a < neck@.len() ==> forall|b: int|
                        0 <= b < (#[trigger] neck@[a])@.len() ==> pc_wf(#[trigger] neck@[a]@[b]),
                forall|k: int| 0 <= k < notes@.len() ==> pc_wf(#[trigger] notes@[k]),
                views_of(r@) == spec_locate(grid.take(i as int), notes@) + row_matches(
                    row_view.take(j as int),
                    notes@,
                    i as int,
                ),
                forall|k: int| 0 <= k < r@.len() ==> pc_wf((#[trigger] r@[k]).pitch),
            decreases row_view.len() - j,
        {
            let pitch = row[j];
            proof {
                assert(pc_wf(pitch));
                assert(row_view.take(j as int + 1).drop_last() =~= row_view.take(j as int));
                assert(row_view.take(j as int + 1).last() == row_view[j as int]);
                assert(row_view.take(j as int + 1).len() - 1 == j as int);
            }
            let ghost r_before = r@;
            if matches_any_note(&pitch, notes) {
                let hit = NeckPositions {
                    pitch,
                    note_name: pitch.name(),
                    string: i,
                    fret: j,
                };
                proof {
                    assert(hit@ == spec_cell_match(pitch, i as int, j as int));
                }
                r.push(hit);
                proof {
                    assert(views_of(r@) =~= views_of(r_before) + seq![
                        spec_cell_match(pitch, i as int, j as int),
                    ]);
                    assert(row_matches(row_view.take(j as int + 1), notes@, i as int)
                        == row_matches(row_view.take(j as int), notes@, i as int) + seq![
                        spec_cell_match(pitch, i as int, j as int),
                    ]);
                }
            } else {
                proof {
                    assert(row_matches(row_view.take(j as int + 1), notes@, i as int)
                        == row_matches(row_view.take(j as int), notes@, i as int)
                        + Seq::<NeckCell>::empty());
                }
            }
            proof {
                assert(views_of(r@) =~= spec_locate(grid.take(i as int), notes@) + row_matches(
                    row_view.take(j as int + 1),
                    notes@,
                    i as int,
                ));
            }
            j += 1;
        }
        proof {
            assert(row_view.take(row_view.len() as int) =~= row_view);
            assert(grid.take(i as int + 1).drop_last() =~= grid.take(i as int));
            assert(grid.take(i as int + 1).last() == grid[i as int]);
            assert(views_of(r@) =~= spec_locate(grid.take(i as int + 1), notes@));
        }
        i += 1;
    }
    proof {
        assert(grid.take(grid.len() as int) =~= grid);
    }
    r
}

/// Finds every cell of the neck whose pitch belongs to a target note set,
/// for a guitar under a set of engaged positions. The grid is spelled with
/// flats when any target note carries a flat, with sharps otherwise.
pub fn identify_notes_on_neck(
    guitar: &Guitar,
    position: &[Position],
    notes: &[PitchClass],
) -> (r: Vec<NeckPositions>)
    requires
        guitar_wf(*guitar),
        position@.no_duplicates(),
        forall|k: int| 0 <= k < notes@.len() ==> pc_wf(#[trigger] notes@[k]),
    ensures
        views_of(r@) == spec_locate(
            spec_neck(guitar.tuning@, spec_offsets(position@), spec_direction(notes@)),
            notes@,
        ),
        forall|k: int| 0 <= k < r@.len() ==> pc_wf((#[trigger] r@[k]).pitch),
{
    let direction = display_as_flats_or_sharps(notes);
    let neck = populate_neck_pitches(guitar, position, direction);
    locate(&neck, notes)
}

/// Whether some match at fret `j` sounds the mod-12 identity `v`.
pub open spec fn fret_has_value(ms: Seq<NeckCell>, j: int, v: int) -> bool {
    exists|k: int| 0 <= k < ms.len() && (#[trigger] ms[k]).fret == j && pc_value(ms[k].pitch) == v
}

/// Whether every tone of the chord sounds somewhere at fret `j`: the set
/// of identities present there is a superset of the chord's. Extra
/// non-chord tones at the fret never disqualify it, and one tone sounding
/// on several strings counts once.
pub open spec fn fret_complete(ms: Seq<NeckCell>, chord: Seq<PitchClass>, j: int) -> bool {
    forall|t: int| 0 <= t < chord.len() ==> fret_has_value(ms, j, pc_value(#[trigger] chord[t]))
}

/// The matches at fret `j`, in their original order.
pub open spec fn at_fret(ms: Seq<NeckCell>, j: int) -> Seq<NeckCell>
    decreases ms.len(),
{
    if ms.len() == 0 {
        Seq::empty()
    } else {
        at_fret(ms.drop_last(), j) + (if ms.last().fret == j {
            seq![ms.last()]
        } else {
            Seq::empty()
        })
    }
}

/// The matches of every complete fret below `hi`, grouped fret by fret in
/// ascending fret order.
pub open spec fn complete_frets_upto(
    ms: Seq<NeckCell>,
    chord: Seq<PitchClass>,
    hi: int,
) -> Seq<NeckCell>
    decreases hi,
{
    if hi <= 0 {
        Seq::empty()
    } else {
        complete_frets_upto(ms, chord, hi - 1) + (if fret_complete(ms, chord, hi - 1) {
            at_fret(ms, hi - 1)
        } else {
            Seq::empty()
        })
    }
}

/// The matches of every fret on which all chord tones sound at once.
pub open spec fn spec_complete_frets(ms: Seq<NeckCell>, chord: Seq<PitchClass>) -> Seq<NeckCell> {
    complete_frets_upto(ms, chord, FRET_COUNT as int)
}

/// Every element selected for fret `j` really lies at fret `j`.
proof fn lemma_at_fret_elements(ms: Seq<NeckCell>, j: int)
    ensures
        forall|k: int| 0 <= k < at_fret(ms, j).len() ==> (#[trigger] at_fret(ms, j)[k]).fret == j,
    decreases ms.len(),
{
    if ms.len() > 0 {
        lemma_at_fret_elements(ms.drop_last(), j);
    }
}

/// A match at fret `j` is among the matches selected for fret `j`.
proof fn lemma_at_fret_contains(ms: Seq<NeckCell>, j: int, k: int)
    requires
        0 <= k < ms.len(),
        ms[k].fret == j,
    ensures
        at_fret(ms, j).contains(ms[k]),
    decreases ms.len(),
{
    if k == ms.len() - 1 {
        let left = at_fret(ms.drop_last(), j);
        assert(at_fret(ms, j)[left.len() as int] == ms[k]);
    } else {
        lemma_at_fret_contains(ms.drop_last(), j, k);
        assert(ms.drop_last()[k] == ms[k]);
        let i0 = choose|i0: int|
            0 <= i0 < at_fret(ms.drop_last(), j).len() && at_fret(ms.drop_last(), j)[i0] == ms[k];
        assert(at_fret(ms, j)[i0] == ms[k]);
    }
}

/// What was selected for a complete fret below `hi` stays in the grouped
/// result up to `hi`.
proof fn lemma_upto_contains(
    ms: Seq<NeckCell>,
    chord: Seq<PitchClass>,
    j: int,
    hi: int,
    x: NeckCell,
)
    requires
        0 <= j < hi,
        fret_complete(ms, chord, j),
        at_fret(ms, j).contains(x),
    ensures
        complete_frets_upto(ms, chord, hi).contains(x),
    decreases hi,
{
    if hi == j + 1 {
        let left = complete_frets_upto(ms, chord, j);
        let i0 = choose|i0: int| 0 <= i0 < at_fret(ms, j).len() && at_fret(ms, j)[i0] == x;
        assert(complete_frets_upto(ms, chord, hi)[left.len() + i0] == x);
    } else {
        lemma_upto_contains(ms, chord, j, hi - 1, x);
        let prev = complete_frets_upto(ms, chord, hi - 1);
        let i0 = choose|i0: int| 0 <= i0 < prev.len() && prev[i0] == x;
        assert(complete_frets_upto(ms, chord, hi)[i0] == x);
    }
}

/// Every match kept by the grouped result comes from a complete fret.
proof fn lemma_upto_elements(ms: Seq<NeckCell>, chord: Seq<PitchClass>, hi: int)
    ensures
        forall|k: int|
            0 <= k < complete_frets_upto(ms, chord, hi).len() ==> fret_complete(
                ms,
                chord,
                (#[trigger] complete_frets_upto(ms, chord, hi)[k]).fret,
            ),
    decreases hi,
{
    if hi > 0 {
        lemma_upto_elements(ms, chord, hi - 1);
        if fret_complete(ms, chord, hi - 1) {
            lemma_at_fret_elements(ms, hi - 1);
        }
    }
}

/// The superset rule, kept half: a fret on which every chord tone sounds
/// keeps each of its matches, whatever extra non-chord tones sound there.
pub proof fn lemma_complete_fret_included(ms: Seq<NeckCell>, chord: Seq<PitchClass>, k: int)
    requires
        0 <= k < ms.len(),
        0 <= ms[k].fret < FRET_COUNT,
        fret_complete(ms, chord, ms[k].fret),
    ensures
        spec_complete_frets(ms, chord).contains(ms[k]),
{
    lemma_at_fret_contains(ms, ms[k].fret, k);
    lemma_upto_contains(ms, chord, ms[k].fret, FRET_COUNT as int, ms[k]);
}

/// The superset rule, dropped half: a fret missing any chord tone
/// contributes no match at all.
pub proof fn lemma_incomplete_fret_excluded(ms: Seq<NeckCell>, chord: Seq<PitchClass>, j: int)
    requires
        !fret_complete(ms, chord, j),
    ensures
        forall|k: int|
            0 <= k < spec_complete_frets(ms, chord).len() ==> (#[trigger] spec_complete_frets(
                ms,
                chord,
            )[k]).fret != j,
{
    lemma_upto_elements(ms, chord, FRET_COUNT as int);
}

/// A tuning built exactly from the target notes, played open: at fret 0
/// every string sounds its own tuned note, so every string matches there,
/// fret 0 carries every target tone at once, and the full-chord finder
/// keeps each of its matches. Other frets may or may not qualify: a
/// target set closed under some transposition also completes the fret
/// that transposition names.
pub proof fn lemma_open_tuning_complete_at_fret_zero(
    tuning: Seq<PitchClass>,
    direction: Direction,
)
    requires
        1 <= tuning.len() <= 10,
    ensures
        ({
            let ms = spec_locate(spec_neck(tuning, zero_offsets(), direction), tuning);
            &&& forall|i: int|
                0 <= i < tuning.len() ==> ms.contains(
                    #[trigger] spec_cell_match(spec_cell(tuning[i], 0, 0, direction), i, 0),
                )
            &&& fret_complete(ms, tuning, 0)
            &&& forall|k: int|
                0 <= k < ms.len() && (#[trigger] ms[k]).fret == 0 ==> spec_complete_frets(
                    ms,
                    tuning,
                ).contains(ms[k])
        }),
{
    let neck = spec_neck(tuning, zero_offsets(), direction);
    let ms = spec_locate(neck, tuning);
    assert(neck.len() == tuning.len());
    assert forall|i: int| 0 <= i < tuning.len() implies ms.contains(
        #[trigger] spec_cell_match(spec_cell(tuning[i], 0, 0, direction), i, 0),
    ) by {
        let base = pc_value(tuning[i]);
        vstd::arithmetic::div_mod::lemma_mod_division_less_than_divisor(
            letter_value(tuning[i].letter) + tuning[i].accidental as int,
            12,
        );
        lemma_pitch_at_value(base + 0 + 0, direction);
        vstd::arithmetic::div_mod::lemma_small_mod(base as nat, 12);
        assert(pc_value(spec_cell(tuning[i], 0, 0, direction)) == base);
        assert(matches_any(neck[i][0], tuning));
        lemma_locate_contains(neck, tuning, i, 0);
    }
    assert forall|t: int| 0 <= t < tuning.len() implies fret_has_value(
        ms,
        0,
        pc_value(#[trigger] tuning[t]),
    ) by {
        let x = spec_cell_match(spec_cell(tuning[t], 0, 0, direction), t, 0);
        assert(ms.contains(x));
        let k = choose|k: int| 0 <= k < ms.len() && ms[k] == x;
        let base = pc_value(tuning[t]);
        vstd::arithmetic::div_mod::lemma_mod_division_less_than_divisor(
            letter_value(tuning[t].letter) + tuning[t].accidental as int,
            12,
        );
        lemma_pitch_at_value(base + 0 + 0, direction);
        vstd::arithmetic::div_mod::lemma_small_mod(base as nat, 12);
        assert(ms[k].fret == 0 && pc_value(ms[k].pitch) == base);
    }
    assert forall|k: int|
        0 <= k < ms.len() && (#[trigger] ms[k]).fret == 0 implies spec_complete_frets(
        ms,
        tuning,
    ).contains(ms[k]) by {
        lemma_complete_fret_included(ms, tuning, k);
    }
}

/// Copies a matched cell.
fn copy_position(p: &NeckPositions) -> (r: NeckPositions)
    ensures
        r@ == p@,
{
    NeckPositions {
        pitch: p.pitch,
        note_name: p.note_name.clone(),
        string: p.string,
        fret: p.fret,
    }
}

/// Whether some match at fret `j` sounds the identity `v`.
fn fret_has_tone(neck_positions: &[NeckPositions], j: usize, v: u8) -> (b: bool)
    requires
        forall|k: int|
            0 <= k < neck_positions@.len() ==> pc_wf((#[trigger] neck_positions@[k]).pitch),
    ensures
        b == fret_has_value(views_of(neck_positions@), j as int, v as int),
{
    let ghost ms = views_of(neck_positions@);
    let mut k: usize = 0;
    while k < neck_positions.len()
        invariant
            ms == views_of(neck_positions@),
            k <= ms.len(),
            forall|m: int|
                0 <= m < neck_positions@.len() ==> pc_wf((#[trigger] neck_positions@[m]).pitch),
            forall|m: int|
                0 <= m < k ==> !((#[trigger] ms[m]).fret == j as int && pc_value(ms[m].pitch)
                    == v as int),
        decreases ms.len() - k,
    {
        let p = &neck_positions[k];
        if p.fret == j && p.pitch.value() == v {
            proof {
                assert(ms[k as int].fret == j as int && pc_value(ms[k as int].pitch) == v as int);
            }
            return true;
        }
        k += 1;
    }
    false
}

/// Whether every tone of the chord sounds somewhere at fret `j`.
fn fret_is_complete(
    neck_positions: &[NeckPositions],
    chord_tones: &[PitchClass],
    j: usize,
) -> (b: bool)
    requires
        forall|k: int|
            0 <= k < neck_positions@.len() ==> pc_wf((#[trigger] neck_positions@[k]).pitch),
        forall|k: int| 0 <= k < chord_tones@.len() ==> pc_wf(#[trigger] chord_tones@[k]),
    ensures
        b == fret_complete(views_of(neck_positions@), chord_tones@, j as int),
{
    let ghost ms = views_of(neck_positions@);
    let mut t: usize = 0;
    while t < chord_tones.len()
        invariant
            ms == views_of(neck_positions@),
            t <= chord_tones@.len(),
            forall|m: int|
                0 <= m < neck_positions@.len() ==> pc_wf((#[trigger] neck_positions@[m]).pitch),
            forall|m: int| 0 <= m < chord_tones@.len() ==> pc_wf(#[trigger] chord_tones@[m]),
            forall|m: int|
                0 <= m < t ==> fret_has_value(ms, j as int, pc_value(#[trigger] chord_tones@[m])),
        decreases chord_tones@.len() - t,
    {
        let v = chord_tones[t].value();
        if !fret_has_tone(neck_positions, j, v) {
            return false;
        }
        t += 1;
    }
    true
}

/// Keeps the matches of every fret on which all chord tones sound at
/// once: a fret qualifies when the set of identities present there is a
/// superset of the chord's, so extra non-chord tones never disqualify it,
/// and a tone doubled on two strings counts once. Qualifying frets come
/// out in ascending fret order, each group in its original order.
pub fn frets_with_all_chord_tones(
    neck_positions: &[NeckPositions],
    chord_tones: &[PitchClass],
) -> (r: Vec<NeckPositions>)
    requires
        forall|k: int|
            0 <= k < neck_positions@.len() ==> pc_wf((#[trigger] neck_positions@[k]).pitch),
        forall|k: int|
            0 <= k < neck_positions@.len() ==> (#[trigger] neck_positions@[k]).fret < FRET_COUNT,
        forall|k: int| 0 <= k < chord_tones@.len() ==> pc_wf(#[trigger] chord_tones@[k]),
    ensures
        views_of(r@) == spec_complete_frets(views_of(neck_positions@), chord_tones@),
{
    let ghost ms = views_of(neck_positions@);
    let mut r: Vec<NeckPositions> = Vec::new();
    let mut j: usize = 0;
    proof {
        assert(views_of(r@) =~= complete_frets_upto(ms, chord_tones@, 0));
    }
    while j < FRET_COUNT
        invariant
            ms == views_of(neck_positions@),
            j <= FRET_COUNT,
            forall|m: int|
                0 <= m < neck_positions@.len() ==> pc_wf((#[trigger] neck_positions@[m]).pitch),
            forall|m: int| 0 <= m < chord_tones@.len() ==> pc_wf(#[trigger] chord_tones@[m]),
            views_of(r@) == complete_frets_upto(ms, chord_tones@, j as int),
        decreases FRET_COUNT - j,
    {
        if fret_is_complete(neck_positions, chord_tones, j) {
            let ghost upto = views_of(r@);
            let mut k: usize = 0;
            proof {
                assert(at_fret(ms.take(0), j as int) =~= Seq::<NeckCell>::empty());
                assert(views_of(r@) =~= upto + at_fret(ms.take(0), j as int));
            }
            while k < neck_positions.len()
                invariant
                    ms == views_of(neck_positions@),
                    k <= ms.len(),
                    views_of(r@) == upto + at_fret(ms.take(k as int), j as int),
                decreases ms.len() - k,
            {
                proof {
                    assert(ms.take(k as int + 1).drop_last() =~= ms.take(k as int));
                    assert(ms.take(k as int + 1).last() == ms[k as int]);
                }
                let ghost r_before = r@;
                if neck_positions[k].fret == j {
                    let hit = copy_position(&neck_positions[k]);
                    r.push(hit);
                    proof {
                        assert(views_of(r@) =~= views_of(r_before) + seq![ms[k as int]]);
                    }
                }
                proof {
                    assert(views_of(r@) =~= upto + at_fret(ms.take(k as int + 1), j as int));
                }
                k += 1;
            }
            proof {
                assert(ms.take(ms.len() as int) =~= ms);
            }
        }
        proof {
            assert(views_of(r@) =~= complete_frets_upto(ms, chord_tones@, j as int + 1));
        }
        j += 1;
    }
    r
}

} // verus!
