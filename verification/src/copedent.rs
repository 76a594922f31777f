//! Copedent: pedal and knee-lever definitions for a ten-string pedal steel.
//!
//! Each named position raises or lowers a fixed set of strings by a fixed
//! number of semitones. Engaging several positions at once sums their
//! per-string changes, each change first reduced into `[0, 12)` but the sum
//! itself left unreduced: co-engaged raises of one string accumulate, and
//! the wrap around the octave happens only later, when a pitch is computed.

use vstd::prelude::*;

verus! {

/// The number of strings on the modelled instrument.
pub const NUMBER_OF_STRINGS: usize = 10;

/// A change in the copedent for a specific string.
#[derive(Debug, Clone, Copy, PartialEq, Eq, Structural)]
pub struct CopedentChange {
    /// The string number, 1-indexed from the highest string.
    pub string: u8,
    /// The semitone change, positive for a raise and negative for a lower.
    pub semitone_change: i8,
}

/// The list of copedent changes one position makes.
#[derive(Debug)]
pub struct Copedent {
    /// The copedent changes for the position.
    pub copedent_change: Vec<CopedentChange>,
}

/// The net per-string offsets of a set of simultaneously engaged positions.
pub struct PedalAndLevers {
    /// One offset per string, each the unreduced sum of mod-12 changes.
    pub copedent_change: Vec<u8>,
}

/// A pedal or knee-lever position on a pedal steel guitar, or the neutral
/// open state.
#[derive(Debug, Clone, Copy, PartialEq, Eq, Structural)]
pub enum Position {
    Open,
    A,
    B,
    C,
    D,
    Lkl,
    Lkv,
    Lkr,
    Rkl,
    Rkr,
}

/// The copedent entries of one position, in their documented order.
pub open spec fn spec_copedent_entries(position: Position) -> Seq<CopedentChange> {
    match position {
        Position::Open => seq![],
        Position::A => seq![
            CopedentChange { string: 10, semitone_change: 2 },
            CopedentChange { string: 5, semitone_change: 2 },
        ],
        Position::B => seq![
            CopedentChange { string: 6, semitone_change: 1 },
            CopedentChange { string: 3, semitone_change: 1 },
        ],
        Position::C => seq![
            CopedentChange { string: 5, semitone_change: 2 },
            CopedentChange { string: 4, semitone_change: 2 },
        ],
        Position::D => seq![CopedentChange { string: 1, semitone_change: 2 }],
        Position::Lkl => seq![
            CopedentChange { string: 8, semitone_change: 1 },
            CopedentChange { string: 4, semitone_change: 1 },
        ],
        Position::Lkv => seq![CopedentChange { string: 5, semitone_change: -1i8 }],
        Position::Lkr => seq![
            CopedentChange { string: 8, semitone_change: -1i8 },
            CopedentChange { string: 4, semitone_change: -1i8 },
        ],
        Position::Rkl => seq![
            CopedentChange { string: 1, semitone_change: -1i8 },
            CopedentChange { string: 6, semitone_change: -2i8 },
        ],
        Position::Rkr => seq![
            CopedentChange { string: 9, semitone_change: -1i8 },
            CopedentChange { string: 2, semitone_change: -1i8 },
        ],
    }
}

/// What one entry contributes to the offset of the string with 0-indexed
/// number `s`: its semitone change reduced into `[0, 12)`, or nothing when
/// the entry is for another string.
pub open spec fn entry_term(c: CopedentChange, s: int) -> int {
    if c.string as int - 1 == s {
        (c.semitone_change as int) % 12
    } else {
        0
    }
}

/// The summed contribution of a list of entries to string `s` (0-indexed).
pub open spec fn entries_delta(entries: Seq<CopedentChange>, s: int) -> int
    decreases entries.len(),
{
    if entries.len() == 0 {
        0
    } else {
        entries_delta(entries.drop_last(), s) + entry_term(entries.last(), s)
    }
}

/// The net offset of string `s` (0-indexed) under a list of engaged
/// positions: each position's per-string change is reduced mod 12, and the
/// reduced changes are summed without further reduction.
pub open spec fn offset_at(positions: Seq<Position>, s: int) -> int
    decreases positions.len(),
{
    if positions.len() == 0 {
        0
    } else {
        offset_at(positions.drop_last(), s) + entries_delta(
            spec_copedent_entries(positions.last()),
            s,
        )
    }
}

/// The whole offset vector of a list of engaged positions, one entry per
/// string.
pub open spec fn spec_offsets(positions: Seq<Position>) -> Seq<int> {
    Seq::new(NUMBER_OF_STRINGS as nat, |s: int| offset_at(positions, s))
}

/// Every copedent entry names a real string, between 1 and 10.
proof fn lemma_entries_strings(position: Position)
    ensures
        forall|i: int|
            0 <= i < spec_copedent_entries(position).len() ==> 1 <= (
            #[trigger] spec_copedent_entries(position)[i]).string <= 10,
{
}

/// An entry's contribution to any one string lies in `[0, 12)`.
proof fn lemma_entry_term_bounds(c: CopedentChange, s: int)
    ensures
        0 <= entry_term(c, s) < 12,
{
}

/// Summed contributions are never negative.
proof fn lemma_entries_delta_nonneg(entries: Seq<CopedentChange>, s: int)
    ensures
        entries_delta(entries, s) >= 0,
    decreases entries.len(),
{
    if entries.len() > 0 {
        lemma_entries_delta_nonneg(entries.drop_last(), s);
        lemma_entry_term_bounds(entries.last(), s);
    }
}

/// Extending a prefix of an entry list by one entry adds that entry's term.
proof fn lemma_entries_delta_take_succ(entries: Seq<CopedentChange>, m: int, s: int)
    requires
        0 <= m < entries.len(),
    ensures
        entries_delta(entries.take(m + 1), s) == entries_delta(entries.take(m), s) + entry_term(
            entries[m],
            s,
        ),
{
    assert(entries.take(m + 1).drop_last() =~= entries.take(m));
    assert(entries.take(m + 1).last() == entries[m]);
}

/// A prefix of an entry list contributes no more than the whole list.
proof fn lemma_entries_delta_take_le(entries: Seq<CopedentChange>, m: int, s: int)
    requires
        0 <= m <= entries.len(),
    ensures
        entries_delta(entries.take(m), s) <= entries_delta(entries, s),
    decreases entries.len() - m,
{
    if m == entries.len() {
        assert(entries.take(m) =~= entries);
    } else {
        lemma_entries_delta_take_succ(entries, m, s);
        lemma_entry_term_bounds(entries[m], s);
        lemma_entries_delta_take_le(entries, m + 1, s);
    }
}

/// No single position shifts any one string by more than 11 after the
/// mod-12 reduction of its change.
proof fn lemma_position_delta_le_11(position: Position, s: int)
    ensures
        0 <= entries_delta(spec_copedent_entries(position), s) <= 11,
{
    lemma_entries_delta_nonneg(spec_copedent_entries(position), s);
    reveal_with_fuel(entries_delta, 4);
    match position {
        Position::Open => {
        },
        Position::A => {
            assert(spec_copedent_entries(position).drop_last() =~= seq![
                CopedentChange { string: 10, semitone_change: 2 },
            ]);
        },
        Position::B => {
            assert(spec_copedent_entries(position).drop_last() =~= seq![
                CopedentChange { string: 6, semitone_change: 1 },
            ]);
        },
        Position::C => {
            assert(spec_copedent_entries(position).drop_last() =~= seq![
                CopedentChange { string: 5, semitone_change: 2 },
            ]);
        },
        Position::D => {
        },
        Position::Lkl => {
            assert(spec_copedent_entries(position).drop_last() =~= seq![
                CopedentChange { string: 8, semitone_change: 1 },
            ]);
        },
        Position::Lkv => {
        },
        Position::Lkr => {
            assert(spec_copedent_entries(position).drop_last() =~= seq![
                CopedentChange { string: 8, semitone_change: -1i8 },
            ]);
        },
        Position::Rkl => {
            assert(spec_copedent_entries(position).drop_last() =~= seq![
                CopedentChange { string: 1, semitone_change: -1i8 },
            ]);
        },
        Position::Rkr => {
            assert(spec_copedent_entries(position).drop_last() =~= seq![
                CopedentChange { string: 9, semitone_change: -1i8 },
            ]);
        },
    }
}

/// Net offsets are never negative.
pub proof fn lemma_offset_at_nonneg(positions: Seq<Position>, s: int)
    ensures
        offset_at(positions, s) >= 0,
    decreases positions.len(),
{
    if positions.len() > 0 {
        lemma_offset_at_nonneg(positions.drop_last(), s);
        lemma_entries_delta_nonneg(spec_copedent_entries(positions.last()), s);
    }
}

/// Extending a prefix of a position list by one position adds that
/// position's contribution.
proof fn lemma_offset_at_take_succ(positions: Seq<Position>, k: int, s: int)
    requires
        0 <= k < positions.len(),
    ensures
        offset_at(positions.take(k + 1), s) == offset_at(positions.take(k), s) + entries_delta(
            spec_copedent_entries(positions[k]),
            s,
        ),
{
    assert(positions.take(k + 1).drop_last() =~= positions.take(k));
    assert(positions.take(k + 1).last() == positions[k]);
}

/// A prefix of a position list contributes no more than the whole list.
proof fn lemma_offset_at_take_le(positions: Seq<Position>, k: int, s: int)
    requires
        0 <= k <= positions.len(),
    ensures
        offset_at(positions.take(k), s) <= offset_at(positions, s),
    decreases positions.len() - k,
{
    if k == positions.len() {
        assert(positions.take(k) =~= positions);
    } else {
        lemma_offset_at_take_succ(positions, k, s);
        lemma_position_delta_le_11(positions[k], s);
        lemma_offset_at_take_le(positions, k + 1, s);
    }
}

/// The net offset of a string grows by at most 11 per engaged position.
proof fn lemma_offset_at_le_mul(positions: Seq<Position>, s: int)
    ensures
        offset_at(positions, s) <= 11 * positions.len(),
    decreases positions.len(),
{
    if positions.len() > 0 {
        lemma_offset_at_le_mul(positions.drop_last(), s);
        lemma_position_delta_le_11(positions.last(), s);
    }
}

/// The numeric rank of a position within the closed catalog.
spec fn position_rank(position: Position) -> int {
    match position {
        Position::Open => 0,
        Position::A => 1,
        Position::B => 2,
        Position::C => 3,
        Position::D => 4,
        Position::Lkl => 5,
        Position::Lkv => 6,
        Position::Lkr => 7,
        Position::Rkl => 8,
        Position::Rkr => 9,
    }
}

/// There are only ten positions, so a list of distinct positions has at
/// most ten elements.
pub proof fn lemma_distinct_positions_len(positions: Seq<Position>)
    requires
        positions.no_duplicates(),
    ensures
        positions.len() <= 10,
{
    let ranks = positions.map_values(|p: Position| position_rank(p));
    assert forall|i: int, j: int|
        0 <= i < ranks.len() && 0 <= j < ranks.len() && i != j implies ranks[i]
        != ranks[j] by {
        assert(positions[i] != positions[j]);
    }
    assert(ranks.no_duplicates());
    ranks.unique_seq_to_set();
    let range = vstd::set_lib::set_int_range(0, 10);
    vstd::set_lib::lemma_int_range(0, 10);
    assert(ranks.to_set().subset_of(range)) by {
        assert forall|r: int| ranks.to_set().contains(r) implies range.contains(r) by {
            let i = choose|i: int| 0 <= i < ranks.len() && ranks[i] == r;
            assert(0 <= position_rank(positions[i]) < 10);
        }
    }
    vstd::set_lib::lemma_len_subset(ranks.to_set(), range);
}

/// A set of distinct engaged positions never shifts a string by more than
/// 110 semitones before the final wrap around the octave.
pub proof fn lemma_offset_at_bound(positions: Seq<Position>, s: int)
    requires
        positions.no_duplicates(),
    ensures
        0 <= offset_at(positions, s) <= 110,
{
    lemma_offset_at_nonneg(positions, s);
    lemma_offset_at_le_mul(positions, s);
    lemma_distinct_positions_len(positions);
}

/// An offset vector that shifts no string at all.
pub open spec fn zero_offsets() -> Seq<int> {
    Seq::new(NUMBER_OF_STRINGS as nat, |s: int| 0)
}

/// Engaging only the neutral open position leaves every string's offset
/// at zero.
pub proof fn lemma_compose_open()
    ensures
        spec_offsets(seq![Position::Open]) == zero_offsets(),
{
    let open_alone = seq![Position::Open];
    assert forall|s: int| #[trigger] offset_at(open_alone, s) == 0 by {
        assert(open_alone.drop_last() =~= Seq::<Position>::empty());
        assert(offset_at(Seq::<Position>::empty(), s) == 0);
        assert(open_alone.last() == Position::Open);
        assert(spec_copedent_entries(Position::Open) =~= Seq::<CopedentChange>::empty());
        assert(entries_delta(Seq::<CopedentChange>::empty(), s) == 0);
        assert(offset_at(open_alone, s) == offset_at(open_alone.drop_last(), s) + entries_delta(
            spec_copedent_entries(open_alone.last()),
            s,
        ));
    }
    assert(spec_offsets(open_alone) =~= zero_offsets());
}

/// The offset of a string under two engaged positions is the sum of the
/// two positions' contributions to it.
proof fn lemma_offset_at_pair(a: Position, b: Position, s: int)
    ensures
        offset_at(seq![a, b], s) == entries_delta(spec_copedent_entries(a), s) + entries_delta(
            spec_copedent_entries(b),
            s,
        ),
{
    let ab = seq![a, b];
    assert(ab.last() == b);
    assert(ab.drop_last() =~= seq![a]);
    assert(seq![a].last() == a);
    assert(seq![a].drop_last() =~= Seq::<Position>::empty());
    assert(offset_at(Seq::<Position>::empty(), s) == 0);
    assert(offset_at(seq![a], s) == entries_delta(spec_copedent_entries(a), s));
    assert(offset_at(ab, s) == offset_at(seq![a], s) + entries_delta(
        spec_copedent_entries(b),
        s,
    ));
}

/// Composition is commutative: two positions engaged together produce the
/// same offset vector in either order.
pub proof fn lemma_compose_commutative(a: Position, b: Position)
    ensures
        spec_offsets(seq![a, b]) == spec_offsets(seq![b, a]),
{
    let ab = seq![a, b];
    let ba = seq![b, a];
    assert forall|s: int| #[trigger] offset_at(ab, s) == offset_at(ba, s) by {
        lemma_offset_at_pair(a, b, s);
        lemma_offset_at_pair(b, a, s);
    }
    assert(spec_offsets(ab) =~= spec_offsets(ba));
}

/// The fixed catalog of pedal and lever combinations worth searching: the
/// open state, every position alone, and the documented co-engaged pairs.
pub open spec fn spec_combinations() -> Seq<Seq<Position>> {
    seq![
        seq![Position::Open],
        seq![Position::A],
        seq![Position::B],
        seq![Position::C],
        seq![Position::Lkl],
        seq![Position::Lkv],
        seq![Position::Lkr],
        seq![Position::Rkl],
        seq![Position::Rkr],
        seq![Position::A, Position::B],
        seq![Position::B, Position::C],
        seq![Position::A, Position::Lkl],
        seq![Position::B, Position::Lkr],
        seq![Position::Lkv],
        seq![Position::Rkl],
        seq![Position::Rkr],
    ]
}

/// Builds a combination of one position.
fn combo_1(p: Position) -> (v: Vec<Position>)
    ensures
        v@ =~= seq![p],
{
    let mut v: Vec<Position> = Vec::new();
    v.push(p);
    v
}

/// Builds a combination of two positions.
fn combo_2(p: Position, q: Position) -> (v: Vec<Position>)
    ensures
        v@ =~= seq![p, q],
{
    let mut v: Vec<Position> = Vec::new();
    v.push(p);
    v.push(q);
    v
}

/// The catalog of pedal and lever combinations worth searching, each a
/// list of distinct positions.
pub fn possible_positions() -> (r: Vec<Vec<Position>>)
    ensures
        r@.len() == spec_combinations().len(),
        forall|i: int|
            0 <= i < r@.len() ==> (#[trigger] r@[i])@ == spec_combinations()[i],
        forall|i: int| 0 <= i < r@.len() ==> (#[trigger] r@[i])@.no_duplicates(),
{
    let mut r: Vec<Vec<Position>> = Vec::new();
    r.push(combo_1(Position::Open));
    r.push(combo_1(Position::A));
    r.push(combo_1(Position::B));
    r.push(combo_1(Position::C));
    r.push(combo_1(Position::Lkl));
    r.push(combo_1(Position::Lkv));
    r.push(combo_1(Position::Lkr));
    r.push(combo_1(Position::Rkl));
    r.push(combo_1(Position::Rkr));
    r.push(combo_2(Position::A, Position::B));
    r.push(combo_2(Position::B, Position::C));
    r.push(combo_2(Position::A, Position::Lkl));
    r.push(combo_2(Position::B, Position::Lkr));
    r.push(combo_1(Position::Lkv));
    r.push(combo_1(Position::Rkl));
    r.push(combo_1(Position::Rkr));
    r
}

/// The display name of a position.
pub open spec fn spec_position_string(position: Position) -> Seq<char> {
    match position {
        Position::Open => "Open"@,
        Position::A => "A"@,
        Position::B => "B"@,
        Position::C => "C"@,
        Position::D => "D"@,
        Position::Lkl => "LKL"@,
        Position::Lkv => "LKV"@,
        Position::Lkr => "LKR"@,
        Position::Rkl => "RKL"@,
        Position::Rkr => "RKR"@,
    }
}

/// Every position's display name has at least one character.
proof fn lemma_position_string_nonempty(position: Position)
    ensures
        spec_position_string(position).len() > 0,
{
    reveal_strlit("Open");
    reveal_strlit("A");
    reveal_strlit("B");
    reveal_strlit("C");
    reveal_strlit("D");
    reveal_strlit("LKL");
    reveal_strlit("LKV");
    reveal_strlit("LKR");
    reveal_strlit("RKL");
    reveal_strlit("RKR");
}

/// The display name of a position.
pub fn position_string(position: &Position) -> (r: &'static str)
    ensures
        r@ == spec_position_string(*position),
{
    match position {
        Position::Open => "Open",
        Position::A => "A",
        Position::B => "B",
        Position::C => "C",
        Position::D => "D",
        Position::Lkl => "LKL",
        Position::Lkv => "LKV",
        Position::Lkr => "LKR",
        Position::Rkl => "RKL",
        Position::Rkr => "RKR",
    }
}

/// The display name of a set of engaged positions: the names of the
/// positions in order, joined with ampersands.
pub open spec fn spec_position_name(positions: Seq<Position>) -> Seq<char>
    decreases positions.len(),
{
    if positions.len() == 0 {
        Seq::empty()
    } else if positions.len() == 1 {
        spec_position_string(positions[0])
    } else {
        spec_position_name(positions.drop_last()) + " & "@ + spec_position_string(
            positions.last(),
        )
    }
}

/// Generates the display name of a set of engaged positions.
pub fn position_name(positions: &[Position]) -> (r: String)
    ensures
        r@ == spec_position_name(positions@),
{
    let mut name = String::new();
    let mut k: usize = 0;
    while k < positions.len()
        invariant
            k <= positions@.len(),
            name@ == spec_position_name(positions@.take(k as int)),
            name@.len() == 0 <==> k == 0,
        decreases positions@.len() - k,
    {
        proof {
            lemma_position_string_nonempty(positions@[k as int]);
            if k > 0 {
                assert(positions@.take(k as int + 1).drop_last() =~= positions@.take(k as int));
            } else {
                assert(positions@.take(1)[0] == positions@[0]);
            }
        }
        if !name.as_str().is_empty() {
            name.append(" & ");
        }
        name.append(position_string(&positions[k]));
        k += 1;
    }
    proof {
        assert(positions@.take(positions@.len() as int) =~= positions@);
    }
    name
}

/// Builds the one-entry change list of a position.
fn entries_1(s1: u8, d1: i8) -> (v: Vec<CopedentChange>)
    ensures
        v@ =~= seq![CopedentChange { string: s1, semitone_change: d1 }],
{
    let mut v: Vec<CopedentChange> = Vec::new();
    v.push(CopedentChange { string: s1, semitone_change: d1 });
    v
}

/// Builds the two-entry change list of a position.
fn entries_2(s1: u8, d1: i8, s2: u8, d2: i8) -> (v: Vec<CopedentChange>)
    ensures
        v@ =~= seq![
            CopedentChange { string: s1, semitone_change: d1 },
            CopedentChange { string: s2, semitone_change: d2 },
        ],
{
    let mut v: Vec<CopedentChange> = Vec::new();
    v.push(CopedentChange { string: s1, semitone_change: d1 });
    v.push(CopedentChange { string: s2, semitone_change: d2 });
    v
}

/// The copedent changes a position makes, in their documented order.
pub fn copedent_change(position: Position) -> (r: Copedent)
    ensures
        r.copedent_change@ == spec_copedent_entries(position),
{
    match position {
        Position::Open => {
            let v: Vec<CopedentChange> = Vec::new();
            proof {
                assert(v@ =~= spec_copedent_entries(position));
            }
            Copedent { copedent_change: v }
        },
        Position::A => Copedent { copedent_change: entries_2(10, 2, 5, 2) },
        Position::B => Copedent { copedent_change: entries_2(6, 1, 3, 1) },
        Position::C => Copedent { copedent_change: entries_2(5, 2, 4, 2) },
        Position::D => Copedent { copedent_change: entries_1(1, 2) },
        Position::Lkl => Copedent { copedent_change: entries_2(8, 1, 4, 1) },
        Position::Lkv => Copedent { copedent_change: entries_1(5, -1) },
        Position::Lkr => Copedent { copedent_change: entries_2(8, -1, 4, -1) },
        Position::Rkl => Copedent { copedent_change: entries_2(1, -1, 6, -2) },
        Position::Rkr => Copedent { copedent_change: entries_2(9, -1, 2, -1) },
    }
}

/// A semitone change reduced into `[0, 12)`: a lower of one semitone
/// becomes a raise of eleven.
fn reduce_change(d: i8) -> (r: u8)
    ensures
        r as int == (d as int) % 12,
        r < 12,
{
    let widened: i16 = d as i16 + 348;
    proof {
        vstd::arithmetic::div_mod::lemma_mod_multiples_vanish(29, d as int, 12);
    }
    let shifted: u16 = widened as u16;
    (shifted % 12) as u8
}

/// The overall per-string offsets of a set of simultaneously engaged
/// positions: each engaged position's change to a string is reduced
/// mod 12, and the reduced changes are summed without further reduction.
pub fn pedal_and_levers(positions: &[Position]) -> (r: PedalAndLevers)
    requires
        positions@.no_duplicates(),
    ensures
        r.copedent_change@.len() == NUMBER_OF_STRINGS,
        forall|s: int|
            0 <= s < NUMBER_OF_STRINGS ==> #[trigger] r.copedent_change@[s] as int == offset_at(
                positions@,
                s,
            ),
{
    let mut copedent_offset: Vec<u8> = Vec::new();
    while copedent_offset.len() < NUMBER_OF_STRINGS
        invariant
            copedent_offset.len() <= NUMBER_OF_STRINGS,
            forall|s: int| 0 <= s < copedent_offset.len() ==> copedent_offset@[s] == 0,
        decreases NUMBER_OF_STRINGS - copedent_offset.len(),
    {
        copedent_offset.push(0);
    }
    proof {
        assert forall|s: int| 0 <= s < NUMBER_OF_STRINGS implies copedent_offset@[s] as int
            == offset_at(positions@.take(0), s) by {
            assert(positions@.take(0) =~= Seq::<Position>::empty());
        }
    }

    let ghost all = positions@;
    let mut k: usize = 0;
    while k < positions.len()
        invariant
            all == positions@,
            all.no_duplicates(),
            k <= all.len(),
            copedent_offset.len() == NUMBER_OF_STRINGS,
            forall|s: int|
                0 <= s < NUMBER_OF_STRINGS ==> #[trigger] copedent_offset@[s] as int == offset_at(
                    all.take(k as int),
                    s,
                ),
        decreases all.len() - k,
    {
        let copedent = copedent_change(positions[k]);
        let ghost entries = spec_copedent_entries(all[k as int]);
        let ghost base = all.take(k as int);

        let mut m: usize = 0;
        while m < copedent.copedent_change.len()
            invariant
                copedent.copedent_change@ == entries,
                entries == spec_copedent_entries(all[k as int]),
                all.no_duplicates(),
                0 <= k < all.len(),
                base == all.take(k as int),
                m <= entries.len(),
                copedent_offset.len() == NUMBER_OF_STRINGS,
                forall|s: int|
                    0 <= s < NUMBER_OF_STRINGS ==> #[trigger] copedent_offset@[s] as int
                        == offset_at(base, s) + entries_delta(entries.take(m as int), s),
            decreases entries.len() - m,
        {
            let change = copedent.copedent_change[m];
            proof {
                lemma_entries_strings(all[k as int]);
                assert(1 <= change.string <= 10);
            }
            let idx = (change.string - 1) as usize;
            let add = reduce_change(change.semitone_change);
            proof {
                lemma_entries_delta_take_succ(entries, m as int, idx as int);
                lemma_entries_delta_take_le(entries, m as int + 1, idx as int);
                lemma_offset_at_take_succ(all, k as int, idx as int);
                lemma_offset_at_take_le(all, k as int + 1, idx as int);
                lemma_offset_at_bound(all, idx as int);
                lemma_offset_at_nonneg(base, idx as int);
                lemma_entries_delta_nonneg(entries.take(m as int), idx as int);
            }
            let updated = copedent_offset[idx] + add;
            copedent_offset.set(idx, updated);
            proof {
                assert forall|s: int|
                    0 <= s < NUMBER_OF_STRINGS implies #[trigger] copedent_offset@[s] as int
                    == offset_at(base, s) + entries_delta(entries.take(m as int + 1), s) by {
                    lemma_entries_delta_take_succ(entries, m as int, s);
                }
            }
            m += 1;
        }
        proof {
            assert(entries.take(m as int) =~= entries);
            assert forall|s: int|
                0 <= s < NUMBER_OF_STRINGS implies #[trigger] copedent_offset@[s] as int
                == offset_at(all.take(k as int + 1), s) by {
                lemma_offset_at_take_succ(all, k as int, s);
            }
        }
        k += 1;
    }
    proof {
        assert(all.take(all.len() as int) =~= all);
    }
    PedalAndLevers { copedent_change: copedent_offset }
}

} // verus!
