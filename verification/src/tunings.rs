//! Parsing of comma-separated note names into pitch classes.
//!
//! A tuning string such as `"F#, B, G, E, Db"` is split on commas; each
//! token is trimmed, upper-cased (ASCII letters only), and looked up among
//! the recognized note names. Unrecognized tokens are silently dropped, so
//! the result may be shorter than the number of tokens.

use crate::pitch::{pc_wf, NoteLetter, PitchClass};
use vstd::prelude::*;

verus! {

/// The whitespace characters stripped from the ends of a token.
pub open spec fn is_space(c: char) -> bool {
    c == ' ' || c == '\t' || c == '\n' || c == '\r'
}

/// An ASCII lowercase letter mapped to its uppercase form; anything else
/// unchanged.
pub open spec fn upper_char(c: char) -> char {
    if 97 <= c as u32 <= 122 {
        (((c as u32) - 32) as u8) as char
    } else {
        c
    }
}

/// A token with its leading whitespace stripped.
pub open spec fn trim_front(t: Seq<char>) -> Seq<char>
    decreases t.len(),
{
    if t.len() == 0 {
        t
    } else if is_space(t[0]) {
        trim_front(t.drop_first())
    } else {
        t
    }
}

/// A token with its trailing whitespace stripped.
pub open spec fn trim_back(t: Seq<char>) -> Seq<char>
    decreases t.len(),
{
    if t.len() == 0 {
        t
    } else if is_space(t.last()) {
        trim_back(t.drop_last())
    } else {
        t
    }
}

/// A token with whitespace stripped from both ends.
pub open spec fn spec_trim(t: Seq<char>) -> Seq<char> {
    trim_back(trim_front(t))
}

/// The pitch class a cleaned-up token names, if any. The token must
/// already be trimmed and upper-cased.
pub open spec fn match_note(u: Seq<char>) -> Option<PitchClass> {
    if u == seq!['A', 'B'] {
        Some(PitchClass { letter: NoteLetter::A, accidental: -1i8 })
    } else if u == seq!['A'] {
        Some(PitchClass { letter: NoteLetter::A, accidental: 0 })
    } else if u == seq!['A', '#'] {
        Some(PitchClass { letter: NoteLetter::A, accidental: 1 })
    } else if u == seq!['B', 'B'] {
        Some(PitchClass { letter: NoteLetter::B, accidental: -1i8 })
    } else if u == seq!['B'] {
        Some(PitchClass { letter: NoteLetter::B, accidental: 0 })
    } else if u == seq!['C'] {
        Some(PitchClass { letter: NoteLetter::C, accidental: 0 })
    } else if u == seq!['C', '#'] {
        Some(PitchClass { letter: NoteLetter::C, accidental: 1 })
    } else if u == seq!['D', 'B'] {
        Some(PitchClass { letter: NoteLetter::D, accidental: -1i8 })
    } else if u == seq!['D'] {
        Some(PitchClass { letter: NoteLetter::D, accidental: 0 })
    } else if u == seq!['D', '#'] {
        Some(PitchClass { letter: NoteLetter::D, accidental: 1 })
    } else if u == seq!['E', 'B'] {
        Some(PitchClass { letter: NoteLetter::E, accidental: -1i8 })
    } else if u == seq!['E'] {
        Some(PitchClass { letter: NoteLetter::E, accidental: 0 })
    } else if u == seq!['F'] {
        Some(PitchClass { letter: NoteLetter::F, accidental: 0 })
    } else if u == seq!['F', '#'] {
        Some(PitchClass { letter: NoteLetter::F, accidental: 1 })
    } else if u == seq!['G', 'B'] {
        Some(PitchClass { letter: NoteLetter::G, accidental: -1i8 })
    } else if u == seq!['G'] {
        Some(PitchClass { letter: NoteLetter::G, accidental: 0 })
    } else if u == seq!['G', '#'] {
        Some(PitchClass { letter: NoteLetter::G, accidental: 1 })
    } else {
        None
    }
}

/// The pitch class a raw token names: the token is trimmed, upper-cased,
/// and looked up.
pub open spec fn token_pitch(t: Seq<char>) -> Option<PitchClass> {
    match_note(spec_trim(t).map_values(|c: char| upper_char(c)))
}

/// A recognized token as a one-element list; an unrecognized one as none.
pub open spec fn opt_to_seq(o: Option<PitchClass>) -> Seq<PitchClass> {
    match o {
        Some(p) => seq![p],
        None => Seq::empty(),
    }
}

/// The pitch classes named in the rest of a tuning string, given the
/// partial token read so far: characters accumulate into the token until a
/// comma or the end of the string closes it.
pub open spec fn parse_rec(s: Seq<char>, tok: Seq<char>) -> Seq<PitchClass>
    decreases s.len(),
{
    if s.len() == 0 {
        opt_to_seq(token_pitch(tok))
    } else if s[0] == ',' {
        opt_to_seq(token_pitch(tok)) + parse_rec(s.drop_first(), Seq::empty())
    } else {
        parse_rec(s.drop_first(), tok.push(s[0]))
    }
}

/// The pitch classes named in a tuning string, in order, unrecognized
/// tokens dropped.
pub open spec fn spec_tuning(s: Seq<char>) -> Seq<PitchClass> {
    parse_rec(s, Seq::empty())
}

/// Any pitch class a token can name is well formed.
proof fn lemma_token_pitch_wf(t: Seq<char>)
    ensures
        token_pitch(t) matches Some(p) ==> pc_wf(p),
{
}

/// Whether a character counts as whitespace at a token's ends.
fn is_space_char(c: char) -> (r: bool)
    ensures
        r == is_space(c),
{
    c == ' ' || c == '\t' || c == '\n' || c == '\r'
}

/// Strips whitespace from both ends of a token.
fn trim_token(t: &Vec<char>) -> (r: Vec<char>)
    ensures
        r@ == spec_trim(t@),
{
    let mut start: usize = 0;
    proof {
        assert(t@.skip(0) =~= t@);
    }
    while start < t.len() && is_space_char(t[start])
        invariant
            start <= t@.len(),
            trim_front(t@) == trim_front(t@.skip(start as int)),
        decreases t@.len() - start,
    {
        proof {
            assert(t@.skip(start as int)[0] == t@[start as int]);
            assert(t@.skip(start as int).drop_first() =~= t@.skip(start as int + 1));
        }
        start += 1;
    }
    proof {
        if start == t@.len() {
            assert(t@.skip(start as int) =~= Seq::<char>::empty());
        }
        assert(trim_front(t@) == t@.skip(start as int));
        assert(t@.subrange(start as int, t@.len() as int) =~= t@.skip(start as int));
    }

    let mut end: usize = t.len();
    while end > start && is_space_char(t[end - 1])
        invariant
            start <= end <= t@.len(),
            trim_back(t@.skip(start as int)) == trim_back(t@.subrange(start as int, end as int)),
        decreases end,
    {
        proof {
            let cur = t@.subrange(start as int, end as int);
            assert(cur.last() == t@[end - 1]);
            assert(cur.drop_last() =~= t@.subrange(start as int, end as int - 1));
        }
        end -= 1;
    }
    proof {
        assert(spec_trim(t@) == t@.subrange(start as int, end as int));
    }

    let mut r: Vec<char> = Vec::new();
    let mut k: usize = start;
    while k < end
        invariant
            start <= k <= end <= t@.len(),
            r@ =~= t@.subrange(start as int, k as int),
        decreases end - k,
    {
        r.push(t[k]);
        k += 1;
    }
    proof {
        assert(r@ =~= t@.subrange(start as int, end as int));
    }
    r
}

/// Upper-cases the ASCII letters of a token.
fn upper_token(t: &Vec<char>) -> (r: Vec<char>)
    ensures
        r@ == t@.map_values(|c: char| upper_char(c)),
{
    let mut r: Vec<char> = Vec::new();
    let mut k: usize = 0;
    while k < t.len()
        invariant
            k <= t@.len(),
            r@ =~= t@.take(k as int).map_values(|c: char| upper_char(c)),
        decreases t@.len() - k,
    {
        let c = t[k];
        let v = c as u32;
        let up: char = if v >= 97 && v <= 122 {
            ((v - 32) as u8) as char
        } else {
            c
        };
        proof {
            assert(up == upper_char(c));
        }
        r.push(up);
        proof {
            assert(r@ =~= t@.take(k as int + 1).map_values(|c: char| upper_char(c)));
        }
        k += 1;
    }
    proof {
        assert(t@.take(t@.len() as int) =~= t@);
    }
    r
}

/// Whether a token is exactly one given character.
fn tok_is_1(u: &Vec<char>, a: char) -> (r: bool)
    ensures
        r == (u@ == seq![a]),
{
    let hit = u.len() == 1 && u[0] == a;
    proof {
        if hit {
            assert(u@ =~= seq![a]);
        } else {
            assert(u@ != seq![a]);
        }
    }
    hit
}

/// Whether a token is exactly two given characters.
fn tok_is_2(u: &Vec<char>, a: char, b: char) -> (r: bool)
    ensures
        r == (u@ == seq![a, b]),
{
    let hit = u.len() == 2 && u[0] == a && u[1] == b;
    proof {
        if hit {
            assert(u@ =~= seq![a, b]);
        } else {
            assert(u@ != seq![a, b]);
        }
    }
    hit
}

/// Looks a cleaned-up token up among the recognized note names.
fn match_token(u: &Vec<char>) -> (r: Option<PitchClass>)
    ensures
        r == match_note(u@),
{
    if tok_is_2(u, 'A', 'B') {
        Some(PitchClass { letter: NoteLetter::A, accidental: -1 })
    } else if tok_is_1(u, 'A') {
        Some(PitchClass { letter: NoteLetter::A, accidental: 0 })
    } else if tok_is_2(u, 'A', '#') {
        Some(PitchClass { letter: NoteLetter::A, accidental: 1 })
    } else if tok_is_2(u, 'B', 'B') {
        Some(PitchClass { letter: NoteLetter::B, accidental: -1 })
    } else if tok_is_1(u, 'B') {
        Some(PitchClass { letter: NoteLetter::B, accidental: 0 })
    } else if tok_is_1(u, 'C') {
        Some(PitchClass { letter: NoteLetter::C, accidental: 0 })
    } else if tok_is_2(u, 'C', '#') {
        Some(PitchClass { letter: NoteLetter::C, accidental: 1 })
    } else if tok_is_2(u, 'D', 'B') {
        Some(PitchClass { letter: NoteLetter::D, accidental: -1 })
    } else if tok_is_1(u, 'D') {
        Some(PitchClass { letter: NoteLetter::D, accidental: 0 })
    } else if tok_is_2(u, 'D', '#') {
        Some(PitchClass { letter: NoteLetter::D, accidental: 1 })
    } else if tok_is_2(u, 'E', 'B') {
        Some(PitchClass { letter: NoteLetter::E, accidental: -1 })
    } else if tok_is_1(u, 'E') {
        Some(PitchClass { letter: NoteLetter::E, accidental: 0 })
    } else if tok_is_1(u, 'F') {
        Some(PitchClass { letter: NoteLetter::F, accidental: 0 })
    } else if tok_is_2(u, 'F', '#') {
        Some(PitchClass { letter: NoteLetter::F, accidental: 1 })
    } else if tok_is_2(u, 'G', 'B') {
        Some(PitchClass { letter: NoteLetter::G, accidental: -1 })
    } else if tok_is_1(u, 'G') {
        Some(PitchClass { letter: NoteLetter::G, accidental: 0 })
    } else if tok_is_2(u, 'G', '#') {
        Some(PitchClass { letter: NoteLetter::G, accidental: 1 })
    } else {
        None
    }
}

/// Cleans one raw token and looks it up.
fn process_token(t: &Vec<char>) -> (r: Option<PitchClass>)
    ensures
        r == token_pitch(t@),
{
    let trimmed = trim_token(t);
    let upped = upper_token(&trimmed);
    match_token(&upped)
}

/// Parses a comma-separated string of note names into pitch classes.
/// Unrecognized tokens are silently dropped.
pub fn tuning(notes: &str) -> (r: Vec<PitchClass>)
    ensures
        r@ == spec_tuning(notes@),
        forall|i: int| 0 <= i < r@.len() ==> pc_wf(#[trigger] r@[i]),
{
    let mut pitches: Vec<PitchClass> = Vec::new();
    let mut tok: Vec<char> = Vec::new();
    let n = notes.unicode_len();
    let mut i: usize = 0;
    proof {
        assert(notes@.skip(0) =~= notes@);
        assert(pitches@ + parse_rec(notes@, tok@) =~= parse_rec(notes@, Seq::empty()));
    }
    while i < n
        invariant
            n == notes@.len(),
            i <= n,
            pitches@ + parse_rec(notes@.skip(i as int), tok@) == spec_tuning(notes@),
            forall|j: int| 0 <= j < pitches@.len() ==> pc_wf(#[trigger] pitches@[j]),
        decreases n - i,
    {
        let c = notes.get_char(i);
        proof {
            assert(notes@.skip(i as int)[0] == notes@[i as int]);
            assert(notes@.skip(i as int).drop_first() =~= notes@.skip(i as int + 1));
        }
        if c == ',' {
            let ghost old_pitches = pitches@;
            let ghost old_tok = tok@;
            match process_token(&tok) {
                Some(p) => {
                    proof {
                        lemma_token_pitch_wf(old_tok);
                    }
                    pitches.push(p);
                },
                None => {},
            }
            tok = Vec::new();
            proof {
                assert(pitches@ =~= old_pitches + opt_to_seq(token_pitch(old_tok)));
                assert(pitches@ + parse_rec(notes@.skip(i as int + 1), tok@) =~= spec_tuning(
                    notes@,
                ));
            }
        } else {
            tok.push(c);
        }
        i += 1;
    }
    proof {
        assert(notes@.skip(n as int) =~= Seq::<char>::empty());
    }
    let ghost old_pitches = pitches@;
    let ghost old_tok = tok@;
    match process_token(&tok) {
        Some(p) => {
            proof {
                lemma_token_pitch_wf(old_tok);
            }
            pitches.push(p);
        },
        None => {},
    }
    proof {
        assert(pitches@ =~= old_pitches + opt_to_seq(token_pitch(old_tok)));
    }
    pitches
}

} // verus!
