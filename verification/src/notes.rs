//! The pitch model: pitch classes, octave-labelled notes, parsing, and
//! scales, with the integer semitone arithmetic that frequency conversion
//! rests on.
//!
//! Two distinct semitone index spaces live here and must stay separate:
//! the C-relative pitch-class index (0 = C .. 11 = B) used by scale
//! generation, and the A-relative distance from the reference pitch A4 used
//! by frequency conversion.

use vstd::prelude::*;

verus! {

/// The twelve equal-tempered pitch classes. Sharps are the canonical
/// spellings; flat names are accepted by the parser only as aliases that
/// resolve to the equivalent sharp variant.
#[derive(Clone, Copy, Debug, PartialEq, Eq, Structural)]
pub enum Note {
    C,
    CSharp,
    D,
    DSharp,
    E,
    F,
    FSharp,
    G,
    GSharp,
    A,
    ASharp,
    B,
}

/// A pitch class together with its octave label in scientific pitch
/// notation: the octave boundary falls between B and the following C, and
/// A4 is the fixed 440 Hz reference pitch.
#[derive(Clone, Copy, Debug, PartialEq, Eq, Structural)]
pub struct NoteWithOctave {
    pub note: Note,
    pub octave: u8,
}

/// Everything that can go wrong when parsing notes or scale types, or when
/// mapping a frequency back to the nearest note.
#[derive(Clone, Copy, Debug, PartialEq, Eq, Structural)]
pub enum NoteError {
    /// The note token matches none of the recognized spellings.
    InvalidNote,
    /// The octave part is not a non-negative integer that fits the octave type.
    InvalidOctave,
    /// A frequency at or below zero was handed to the inverse conversion.
    InvalidFrequency,
    /// The inverse conversion derived an octave outside 0..=10.
    OutOfRange,
    /// The scale-type token is not one of the recognized names.
    InvalidScaleType,
}

/// C-relative pitch-class index, 0 = C through 11 = B: the table scale
/// generation works in.
pub open spec fn note_semitone(n: Note) -> int {
    match n {
        Note::C => 0,
        Note::CSharp => 1,
        Note::D => 2,
        Note::DSharp => 3,
        Note::E => 4,
        Note::F => 5,
        Note::FSharp => 6,
        Note::G => 7,
        Note::GSharp => 8,
        Note::A => 9,
        Note::ASharp => 10,
        Note::B => 11,
    }
}

/// Signed distance in semitones from A within the same labelled octave:
/// C through G# sit below A (negative), A# and B above it. This is the
/// A-relative table frequency conversion works in.
pub open spec fn note_a_offset(n: Note) -> int {
    match n {
        Note::C => -9,
        Note::CSharp => -8,
        Note::D => -7,
        Note::DSharp => -6,
        Note::E => -5,
        Note::F => -4,
        Note::FSharp => -3,
        Note::G => -2,
        Note::GSharp => -1,
        Note::A => 0,
        Note::ASharp => 1,
        Note::B => 2,
    }
}

/// Pitch class at a C-relative index, inverse of [`note_semitone`] on 0..=11.
pub open spec fn note_of_semitone(i: int) -> Note {
    if i == 0 {
        Note::C
    } else if i == 1 {
        Note::CSharp
    } else if i == 2 {
        Note::D
    } else if i == 3 {
        Note::DSharp
    } else if i == 4 {
        Note::E
    } else if i == 5 {
        Note::F
    } else if i == 6 {
        Note::FSharp
    } else if i == 7 {
        Note::G
    } else if i == 8 {
        Note::GSharp
    } else if i == 9 {
        Note::A
    } else if i == 10 {
        Note::ASharp
    } else {
        Note::B
    }
}

/// Pitch class at an A-relative index 0 = A through 11 = G#: the table the
/// inverse frequency conversion reads its result from. Distinct from the
/// C-relative table of [`note_of_semitone`].
pub open spec fn note_of_a_index(i: int) -> Note {
    if i == 0 {
        Note::A
    } else if i == 1 {
        Note::ASharp
    } else if i == 2 {
        Note::B
    } else if i == 3 {
        Note::C
    } else if i == 4 {
        Note::CSharp
    } else if i == 5 {
        Note::D
    } else if i == 6 {
        Note::DSharp
    } else if i == 7 {
        Note::E
    } else if i == 8 {
        Note::F
    } else if i == 9 {
        Note::FSharp
    } else if i == 10 {
        Note::G
    } else {
        Note::GSharp
    }
}

/// Whole semitones between a note in a given octave and the reference pitch
/// A4; the frequency of the note is 440 Hz scaled by 2 to the power of this
/// distance over 12.
pub open spec fn a4_distance(n: Note, octave: int) -> int {
    (octave - 4) * 12 + note_a_offset(n)
}

/// Division by twelve that rounds toward zero, the semantics Rust's `/` has
/// on signed integers (the spec-level `/` on `int` rounds toward negative
/// infinity instead).
pub open spec fn div12_trunc(s: int) -> int {
    if s >= 0 {
        s / 12
    } else {
        -((-s) / 12)
    }
}

/// Octave label the inverse frequency conversion derives from a rounded
/// semitone distance from A4.
pub open spec fn inverse_octave(s: int) -> int {
    4 + div12_trunc(s)
}

/// What the inverse frequency conversion returns once the measured distance
/// from A4 has been rounded to a whole number of semitones: the octave must
/// land in 0..=10, and the pitch class comes from the A-relative table at
/// the distance taken modulo twelve, forced non-negative. The spec-level
/// `%` on a positive divisor is already non-negative, so it says exactly
/// that.
pub open spec fn inverse_result(s: int) -> Result<NoteWithOctave, NoteError> {
    let octave = inverse_octave(s);
    if octave < 0 || octave > 10 {
        Err(NoteError::OutOfRange)
    } else {
        Ok(NoteWithOctave { note: note_of_a_index(s % 12), octave: octave as u8 })
    }
}

impl Note {
    /// C-relative pitch-class index of this note, 0 = C through 11 = B.
    pub fn to_semitone(&self) -> (r: i32)
        ensures
            r == note_semitone(*self),
    {
        match self {
            Note::C => 0,
            Note::CSharp => 1,
            Note::D => 2,
            Note::DSharp => 3,
            Note::E => 4,
            Note::F => 5,
            Note::FSharp => 6,
            Note::G => 7,
            Note::GSharp => 8,
            Note::A => 9,
            Note::ASharp => 10,
            Note::B => 11,
        }
    }

    /// Pitch class at a C-relative index, taken modulo twelve first, so
    /// every input maps to a note and the result is never `None`.
    pub fn from_semitone(semitone: u8) -> (r: Option<Note>)
        ensures
            r == Some(note_of_semitone(semitone as int % 12)),
    {
        let m = semitone % 12;
        if m == 0 {
            Some(Note::C)
        } else if m == 1 {
            Some(Note::CSharp)
        } else if m == 2 {
            Some(Note::D)
        } else if m == 3 {
            Some(Note::DSharp)
        } else if m == 4 {
            Some(Note::E)
        } else if m == 5 {
            Some(Note::F)
        } else if m == 6 {
            Some(Note::FSharp)
        } else if m == 7 {
            Some(Note::G)
        } else if m == 8 {
            Some(Note::GSharp)
        } else if m == 9 {
            Some(Note::A)
        } else if m == 10 {
            Some(Note::ASharp)
        } else {
            Some(Note::B)
        }
    }

    /// Whole semitones from the 440 Hz reference pitch A4 for this note in
    /// the given octave; A4 itself returns 0. C, D, E, F and G come before
    /// A within the same labelled octave, so their distances sit below the
    /// octave's A.
    pub fn semitones_from_a4(&self, octave: u8) -> (r: i32)
        ensures
            r == a4_distance(*self, octave as int),
    {
        let note_offset: i32 = match self {
            Note::C => -9,
            Note::CSharp => -8,
            Note::D => -7,
            Note::DSharp => -6,
            Note::E => -5,
            Note::F => -4,
            Note::FSharp => -3,
            Note::G => -2,
            Note::GSharp => -1,
            Note::A => 0,
            Note::ASharp => 1,
            Note::B => 2,
        };
        let octave_offset: i32 = (octave as i32 - 4) * 12;
        octave_offset + note_offset
    }

    /// Integer tail of the inverse frequency conversion: given the distance
    /// from A4 already rounded to a whole number of semitones, derive the
    /// octave with truncating division, reject octaves outside 0..=10, and
    /// read the pitch class from the A-relative table.
    pub fn from_a4_semitones(rounded_semitones: i32) -> (r: Result<NoteWithOctave, NoteError>)
        ensures
            r == inverse_result(rounded_semitones as int),
    {
        let ghost s: int = rounded_semitones as int;
        if rounded_semitones >= 0 {
            let up = rounded_semitones as u32;
            let q = up / 12;
            let m = (up % 12) as u8;
            proof {
                assert(div12_trunc(s) == q as int);
                assert(s % 12 == m as int);
            }
            if q > 6 {
                Err(NoteError::OutOfRange)
            } else {
                Ok(NoteWithOctave { note: note_at_a_index(m), octave: (4 + q) as u8 })
            }
        } else {
            let magnitude = (-(rounded_semitones as i64)) as u64;
            let q = magnitude / 12;
            let m = magnitude % 12;
            proof {
                assert(magnitude as int == -s);
                assert(-s == 12 * (q as int) + m as int);
                assert(div12_trunc(s) == -(q as int));
                assert(s == 12 * (-(q as int) - 1) + (12 - m as int)) by {
                    assert(s == -(12 * (q as int) + m as int));
                }
                assert(m != 0 ==> s % 12 == 12 - m as int);
                assert(m == 0 ==> s % 12 == 0);
            }
            if q > 4 {
                Err(NoteError::OutOfRange)
            } else {
                let index: u8 = if m == 0 {
                    0
                } else {
                    (12 - m) as u8
                };
                Ok(NoteWithOctave { note: note_at_a_index(index), octave: (4 - q as i64) as u8 })
            }
        }
    }
}

/// Exec mirror of the A-relative lookup table [`note_of_a_index`].
fn note_at_a_index(i: u8) -> (n: Note)
    requires
        i < 12,
    ensures
        n == note_of_a_index(i as int),
{
    if i == 0 {
        Note::A
    } else if i == 1 {
        Note::ASharp
    } else if i == 2 {
        Note::B
    } else if i == 3 {
        Note::C
    } else if i == 4 {
        Note::CSharp
    } else if i == 5 {
        Note::D
    } else if i == 6 {
        Note::DSharp
    } else if i == 7 {
        Note::E
    } else if i == 8 {
        Note::F
    } else if i == 9 {
        Note::FSharp
    } else if i == 10 {
        Note::G
    } else {
        Note::GSharp
    }
}

/// The note a single natural letter names, or `None`.
pub open spec fn natural_note(c: char) -> Option<Note> {
    if c == 'C' {
        Some(Note::C)
    } else if c == 'D' {
        Some(Note::D)
    } else if c == 'E' {
        Some(Note::E)
    } else if c == 'F' {
        Some(Note::F)
    } else if c == 'G' {
        Some(Note::G)
    } else if c == 'A' {
        Some(Note::A)
    } else if c == 'B' {
        Some(Note::B)
    } else {
        None
    }
}

/// The note a letter followed by `#` names. Only the five letters whose
/// sharp is not itself a natural have one; `B#` and `E#` are rejected.
pub open spec fn sharp_note(c: char) -> Option<Note> {
    if c == 'C' {
        Some(Note::CSharp)
    } else if c == 'D' {
        Some(Note::DSharp)
    } else if c == 'F' {
        Some(Note::FSharp)
    } else if c == 'G' {
        Some(Note::GSharp)
    } else if c == 'A' {
        Some(Note::ASharp)
    } else {
        None
    }
}

/// The note a letter followed by `b` names: each flat spelling is an alias
/// for the sharp a semitone below the letter. `Cb` and `Fb` are rejected.
pub open spec fn flat_note(c: char) -> Option<Note> {
    if c == 'D' {
        Some(Note::CSharp)
    } else if c == 'E' {
        Some(Note::DSharp)
    } else if c == 'G' {
        Some(Note::FSharp)
    } else if c == 'A' {
        Some(Note::GSharp)
    } else if c == 'B' {
        Some(Note::ASharp)
    } else {
        None
    }
}

/// The grammar of a note token: a letter, optionally followed by `#` or
/// `b`, matched case-sensitively against the seventeen recognized
/// spellings.
pub open spec fn parse_note(s: Seq<char>) -> Option<Note> {
    if s.len() == 1 {
        natural_note(s[0])
    } else if s.len() == 2 && s[1] == '#' {
        sharp_note(s[0])
    } else if s.len() == 2 && s[1] == 'b' {
        flat_note(s[0])
    } else {
        None
    }
}

/// [`parse_note`] with the unrecognized case named.
pub open spec fn note_parse_result(s: Seq<char>) -> Result<Note, NoteError> {
    match parse_note(s) {
        Some(n) => Ok(n),
        None => Err(NoteError::InvalidNote),
    }
}

/// True of the ASCII digits `'0'` through `'9'` (code points 48 to 57).
pub open spec fn is_digit_char(c: char) -> bool {
    48 <= c as u32 && c as u32 <= 57
}

/// Numeric value of an ASCII digit.
pub open spec fn digit_val(c: char) -> int {
    c as u32 - 48
}

pub open spec fn all_digits(s: Seq<char>) -> bool {
    forall|i: int| 0 <= i < s.len() ==> is_digit_char(s[i])
}

/// The number a digit string denotes in decimal, leading zeros allowed.
pub open spec fn digits_value(s: Seq<char>) -> int
    decreases s.len(),
{
    if s.len() == 0 {
        0
    } else {
        digits_value(s.drop_last()) * 10 + digit_val(s.last())
    }
}

/// The octave part must be a non-empty run of digits whose value fits the
/// octave type; anything else is `InvalidOctave`.
pub open spec fn octave_parse_result(s: Seq<char>) -> Result<u8, NoteError> {
    if s.len() > 0 && all_digits(s) && digits_value(s) <= u8::MAX {
        Ok(digits_value(s) as u8)
    } else {
        Err(NoteError::InvalidOctave)
    }
}

/// Index of the first ASCII digit in `s`, or `s.len()` if there is none:
/// the point at which a note-with-octave token splits into its note part
/// and its octave part.
pub open spec fn digit_split(s: Seq<char>) -> int
    decreases s.len(),
{
    if s.len() == 0 {
        0
    } else if is_digit_char(s[0]) {
        0
    } else {
        1 + digit_split(s.drop_first())
    }
}

/// Parsing a note-with-octave token: split at the first digit; the part
/// before must name a note, the part from the digit on is the octave, and
/// an absent octave part defaults to octave 4. A bad note part wins over a
/// bad octave part, as the note is parsed first.
pub open spec fn nwo_parse_result(s: Seq<char>) -> Result<NoteWithOctave, NoteError> {
    let split = digit_split(s);
    match parse_note(s.subrange(0, split)) {
        None => Err(NoteError::InvalidNote),
        Some(n) => {
            if split == s.len() {
                Ok(NoteWithOctave { note: n, octave: 4 })
            } else {
                match octave_parse_result(s.subrange(split, s.len() as int)) {
                    Ok(o) => Ok(NoteWithOctave { note: n, octave: o }),
                    Err(e) => Err(e),
                }
            }
        },
    }
}

/// `digit_split` is the first index that carries a digit.
proof fn lemma_digit_split_at(s: Seq<char>, i: int)
    requires
        0 <= i <= s.len(),
        forall|j: int| 0 <= j < i ==> !is_digit_char(s[j]),
        i < s.len() ==> is_digit_char(s[i]),
    ensures
        digit_split(s) == i,
    decreases i,
{
    if i == 0 {
    } else {
        assert(!is_digit_char(s[0]));
        lemma_digit_split_at(s.drop_first(), i - 1);
    }
}

impl Note {
    /// Parse one of the seventeen recognized note spellings: the seven
    /// naturals, five sharps and five flat aliases, case-sensitively.
    pub fn from_str(s: &str) -> (r: Result<Note, NoteError>)
        ensures
            r == note_parse_result(s@),
    {
        let n = s.unicode_len();
        if n == 1 {
            let c = s.get_char(0);
            if c == 'C' {
                Ok(Note::C)
            } else if c == 'D' {
                Ok(Note::D)
            } else if c == 'E' {
                Ok(Note::E)
            } else if c == 'F' {
                Ok(Note::F)
            } else if c == 'G' {
                Ok(Note::G)
            } else if c == 'A' {
                Ok(Note::A)
            } else if c == 'B' {
                Ok(Note::B)
            } else {
                Err(NoteError::InvalidNote)
            }
        } else if n == 2 {
            let c0 = s.get_char(0);
            let c1 = s.get_char(1);
            if c1 == '#' {
                if c0 == 'C' {
                    Ok(Note::CSharp)
                } else if c0 == 'D' {
                    Ok(Note::DSharp)
                } else if c0 == 'F' {
                    Ok(Note::FSharp)
                } else if c0 == 'G' {
                    Ok(Note::GSharp)
                } else if c0 == 'A' {
                    Ok(Note::ASharp)
                } else {
                    Err(NoteError::InvalidNote)
                }
            } else if c1 == 'b' {
                if c0 == 'D' {
                    Ok(Note::CSharp)
                } else if c0 == 'E' {
                    Ok(Note::DSharp)
                } else if c0 == 'G' {
                    Ok(Note::FSharp)
                } else if c0 == 'A' {
                    Ok(Note::GSharp)
                } else if c0 == 'B' {
                    Ok(Note::ASharp)
                } else {
                    Err(NoteError::InvalidNote)
                }
            } else {
                Err(NoteError::InvalidNote)
            }
        } else {
            Err(NoteError::InvalidNote)
        }
    }
}

/// Index of the first ASCII digit, or the length if there is none; the
/// exec side of [`digit_split`].
fn first_digit_index(s: &str) -> (i: usize)
    ensures
        i as int == digit_split(s@),
        i <= s@.len(),
{
    let n = s.unicode_len();
    let mut k: usize = 0;
    while k < n
        invariant
            k <= n,
            n == s@.len(),
            forall|j: int| 0 <= j < k ==> !is_digit_char(s@[j]),
        decreases n - k,
    {
        let c = s.get_char(k);
        let u = c as u32;
        if 48 <= u && u <= 57 {
            proof {
                lemma_digit_split_at(s@, k as int);
            }
            return k;
        }
        k += 1;
    }
    proof {
        lemma_digit_split_at(s@, n as int);
    }
    n
}

/// Parse the octave part, the digits from `start` to the end of `s`, as a
/// decimal number that must fit the octave type; the exec side of
/// [`octave_parse_result`].
fn parse_octave_digits(s: &str, start: usize) -> (r: Result<u8, NoteError>)
    requires
        start < s@.len(),
    ensures
        r == octave_parse_result(s@.subrange(start as int, s@.len() as int)),
{
    let ghost tail = s@.subrange(start as int, s@.len() as int);
    let n = s.unicode_len();
    let mut k = start;
    let mut value: u32 = 0;
    let mut too_big = false;
    while k < n
        invariant
            start <= k <= n,
            n == s@.len(),
            start < s@.len(),
            tail == s@.subrange(start as int, s@.len() as int),
            forall|j: int| start <= j < k ==> is_digit_char(s@[j]),
            !too_big ==> value as int == digits_value(s@.subrange(start as int, k as int))
                && value <= 255,
            too_big ==> digits_value(s@.subrange(start as int, k as int)) > 255,
        decreases n - k,
    {
        let c = s.get_char(k);
        let u = c as u32;
        if !(48 <= u && u <= 57) {
            proof {
                assert(tail[k - start] == s@[k as int]);
                assert(!all_digits(tail));
            }
            return Err(NoteError::InvalidOctave);
        }
        let d = u - 48;
        proof {
            let prefix = s@.subrange(start as int, k as int);
            let grown = s@.subrange(start as int, (k + 1) as int);
            assert(grown.drop_last() =~= prefix);
            assert(grown.last() == s@[k as int]);
        }
        if !too_big {
            let next = value * 10 + d;
            if next > 255 {
                too_big = true;
            } else {
                value = next;
            }
        }
        k += 1;
    }
    proof {
        assert(tail =~= s@.subrange(start as int, n as int));
        assert(forall|i: int| 0 <= i < tail.len() ==> tail[i] == s@[start + i]);
    }
    if too_big {
        Err(NoteError::InvalidOctave)
    } else {
        Ok(value as u8)
    }
}

impl NoteWithOctave {
    /// Parse a note name with an optional octave, such as `C4`, `A#3`,
    /// `Bb2` or bare `C`: the input splits at its first ASCII digit, the
    /// part before must name a note, and the rest, if any, is the octave;
    /// with no digit at all the octave defaults to 4.
    pub fn from_str(s: &str) -> (r: Result<NoteWithOctave, NoteError>)
        ensures
            r == nwo_parse_result(s@),
    {
        let n = s.unicode_len();
        let split = first_digit_index(s);
        let note_token = s.substring_char(0, split);
        let note = match Note::from_str(note_token) {
            Ok(note) => note,
            Err(e) => {
                return Err(e);
            },
        };
        if split == n {
            Ok(NoteWithOctave { note, octave: 4 })
        } else {
            match parse_octave_digits(s, split) {
                Ok(o) => Ok(NoteWithOctave { note, octave: o }),
                Err(e) => Err(e),
            }
        }
    }
}

/// The two supported interval patterns.
#[derive(Clone, Copy, Debug, PartialEq, Eq, Structural)]
pub enum ScaleType {
    Major,
    Minor,
}

/// A root note and an interval pattern; the note sequence is derived on
/// demand, never stored.
#[derive(Clone, Copy, Debug, PartialEq, Eq, Structural)]
pub struct Scale {
    pub root: NoteWithOctave,
    pub scale_type: ScaleType,
}

/// The seven semitone offsets from the root that make up each scale type:
/// 0-based, strictly ascending, at most 11.
pub open spec fn scale_intervals(st: ScaleType) -> Seq<u8> {
    match st {
        ScaleType::Major => seq![0u8, 2u8, 4u8, 5u8, 7u8, 9u8, 11u8],
        ScaleType::Minor => seq![0u8, 2u8, 3u8, 5u8, 7u8, 8u8, 10u8],
    }
}

/// The scale-type tokens accepted, case-sensitively and nothing else:
/// `major`, `maj`, `minor`, `min`.
pub open spec fn scale_type_parse_result(s: Seq<char>) -> Result<ScaleType, NoteError> {
    if s == "major"@ || s == "maj"@ {
        Ok(ScaleType::Major)
    } else if s == "minor"@ || s == "min"@ {
        Ok(ScaleType::Minor)
    } else {
        Err(NoteError::InvalidScaleType)
    }
}

/// The scale degree a given semitone offset from the root lands on: the
/// pitch class wraps modulo twelve while the octave label moves up by the
/// number of full octaves the offset crosses, counted from C.
pub open spec fn scale_degree(root: NoteWithOctave, interval: int) -> NoteWithOctave {
    let total = note_semitone(root.note) + interval;
    NoteWithOctave {
        note: note_of_semitone(total % 12),
        octave: (root.octave + total / 12) as u8,
    }
}

impl ScaleType {
    /// Parse a scale-type token.
    pub fn from_str(s: &str) -> (r: Result<ScaleType, NoteError>)
        ensures
            r == scale_type_parse_result(s@),
    {
        proof {
            reveal_strlit("major");
            reveal_strlit("maj");
            reveal_strlit("minor");
            reveal_strlit("min");
        }
        let n = s.unicode_len();
        if n == 3 {
            let c0 = s.get_char(0);
            let c1 = s.get_char(1);
            let c2 = s.get_char(2);
            if c0 == 'm' && c1 == 'a' && c2 == 'j' {
                proof {
                    assert(s@ =~= "maj"@);
                }
                Ok(ScaleType::Major)
            } else if c0 == 'm' && c1 == 'i' && c2 == 'n' {
                proof {
                    assert(s@ =~= "min"@);
                }
                Ok(ScaleType::Minor)
            } else {
                Err(NoteError::InvalidScaleType)
            }
        } else if n == 5 {
            let c0 = s.get_char(0);
            let c1 = s.get_char(1);
            let c2 = s.get_char(2);
            let c3 = s.get_char(3);
            let c4 = s.get_char(4);
            if c0 == 'm' && c1 == 'a' && c2 == 'j' && c3 == 'o' && c4 == 'r' {
                proof {
                    assert(s@ =~= "major"@);
                }
                Ok(ScaleType::Major)
            } else if c0 == 'm' && c1 == 'i' && c2 == 'n' && c3 == 'o' && c4 == 'r' {
                proof {
                    assert(s@ =~= "minor"@);
                }
                Ok(ScaleType::Minor)
            } else {
                Err(NoteError::InvalidScaleType)
            }
        } else {
            Err(NoteError::InvalidScaleType)
        }
    }

    /// The interval pattern of this scale type.
    pub fn intervals(&self) -> (r: Vec<u8>)
        ensures
            r@ == scale_intervals(*self),
    {
        match self {
            ScaleType::Major => {
                let r = vec![0u8, 2u8, 4u8, 5u8, 7u8, 9u8, 11u8];
                proof {
                    assert(r@ =~= scale_intervals(ScaleType::Major));
                }
                r
            },
            ScaleType::Minor => {
                let r = vec![0u8, 2u8, 3u8, 5u8, 7u8, 8u8, 10u8];
                proof {
                    assert(r@ =~= scale_intervals(ScaleType::Minor));
                }
                r
            },
        }
    }
}

impl Scale {
    /// A scale is just its root and its type.
    pub fn new(root: NoteWithOctave, scale_type: ScaleType) -> (r: Self)
        ensures
            r.root == root,
            r.scale_type == scale_type,
    {
        Scale { root, scale_type }
    }

    /// The ordered scale degrees, one per interval of the pattern, root
    /// first. The precondition is the machine limit on the octave label:
    /// even the widest interval must not push it past the largest octave
    /// the type can hold.
    pub fn notes(&self) -> (r: Vec<NoteWithOctave>)
        requires
            self.root.octave as int + (note_semitone(self.root.note) + scale_intervals(
                self.scale_type,
            ).last() as int) / 12 <= u8::MAX as int,
        ensures
            r@.len() == scale_intervals(self.scale_type).len(),
            forall|k: int|
                0 <= k < r@.len() ==> r@[k] == scale_degree(
                    self.root,
                    scale_intervals(self.scale_type)[k] as int,
                ),
    {
        let intervals = self.scale_type.intervals();
        let mut scale_notes: Vec<NoteWithOctave> = Vec::new();
        let mut idx: usize = 0;
        while idx < intervals.len()
            invariant
                idx <= intervals.len(),
                intervals@ == scale_intervals(self.scale_type),
                self.root.octave as int + (note_semitone(self.root.note) + scale_intervals(
                    self.scale_type,
                ).last() as int) / 12 <= u8::MAX as int,
                scale_notes@.len() == idx,
                forall|k: int|
                    0 <= k < idx ==> scale_notes@[k] == scale_degree(
                        self.root,
                        scale_intervals(self.scale_type)[k] as int,
                    ),
            decreases intervals.len() - idx,
        {
            let interval = intervals[idx];
            proof {
                assert(interval <= scale_intervals(self.scale_type).last());
                vstd::arithmetic::div_mod::lemma_div_is_ordered(
                    note_semitone(self.root.note) + interval as int,
                    note_semitone(self.root.note) + scale_intervals(
                        self.scale_type,
                    ).last() as int,
                    12,
                );
            }
            let note = self.note_at_interval(interval).unwrap();
            scale_notes.push(note);
            idx += 1;
        }
        scale_notes
    }

    /// The scale degree at the given semitone offset from the root. Always
    /// some note; the precondition is the same machine limit on the octave
    /// label as in [`Scale::notes`].
    pub fn note_at_interval(&self, semitones: u8) -> (r: Option<NoteWithOctave>)
        requires
            self.root.octave as int + (note_semitone(self.root.note) + semitones as int) / 12
                <= u8::MAX as int,
        ensures
            r == Some(scale_degree(self.root, semitones as int)),
    {
        let root_semitone = self.root.note.to_semitone();
        let total = (root_semitone as u32) + (semitones as u32);
        let target_semitone = total % 12;
        let octave_increase = total / 12;
        let target_note = Note::from_semitone(target_semitone as u8).unwrap();
        let target_octave: u32 = (self.root.octave as u32) + octave_increase;
        Some(NoteWithOctave { note: target_note, octave: target_octave as u8 })
    }
}

/// Canonical display spelling of each pitch class: sharps with `#`, never
/// flats.
pub open spec fn note_name(n: Note) -> Seq<char> {
    match n {
        Note::C => "C"@,
        Note::CSharp => "C#"@,
        Note::D => "D"@,
        Note::DSharp => "D#"@,
        Note::E => "E"@,
        Note::F => "F"@,
        Note::FSharp => "F#"@,
        Note::G => "G"@,
        Note::GSharp => "G#"@,
        Note::A => "A"@,
        Note::ASharp => "A#"@,
        Note::B => "B"@,
    }
}

/// The ASCII digit character for a value 0 through 9.
pub open spec fn digit_char(d: int) -> char {
    if d == 0 {
        '0'
    } else if d == 1 {
        '1'
    } else if d == 2 {
        '2'
    } else if d == 3 {
        '3'
    } else if d == 4 {
        '4'
    } else if d == 5 {
        '5'
    } else if d == 6 {
        '6'
    } else if d == 7 {
        '7'
    } else if d == 8 {
        '8'
    } else {
        '9'
    }
}

/// Decimal digits of a non-negative number, most significant first, no
/// leading zeros.
pub open spec fn decimal_digits(v: int) -> Seq<char>
    decreases v,
{
    if v <= 9 {
        seq![digit_char(v)]
    } else {
        decimal_digits(v / 10) + seq![digit_char(v % 10)]
    }
}

/// Display name of a note with its octave, e.g. `A#4`.
pub open spec fn nwo_name(v: NoteWithOctave) -> Seq<char> {
    note_name(v.note) + decimal_digits(v.octave as int)
}

pub open spec fn scale_type_name(st: ScaleType) -> Seq<char> {
    match st {
        ScaleType::Major => "Major"@,
        ScaleType::Minor => "Minor"@,
    }
}

/// Display name of a scale: its root, a space, its type, e.g. `A4 Minor`.
pub open spec fn scale_name(s: Scale) -> Seq<char> {
    nwo_name(s.root) + " "@ + scale_type_name(s.scale_type)
}

impl Note {
    /// Canonical display spelling of this pitch class.
    pub fn name(&self) -> (r: String)
        ensures
            r@ == note_name(*self),
    {
        let s: &str = match self {
            Note::C => "C",
            Note::CSharp => "C#",
            Note::D => "D",
            Note::DSharp => "D#",
            Note::E => "E",
            Note::F => "F",
            Note::FSharp => "F#",
            Note::G => "G",
            Note::GSharp => "G#",
            Note::A => "A",
            Note::ASharp => "A#",
            Note::B => "B",
        };
        s.to_owned()
    }
}

/// The one-character string for an ASCII digit value.
fn digit_str(d: u8) -> (r: &'static str)
    requires
        d < 10,
    ensures
        r@ == seq![digit_char(d as int)],
{
    proof {
        reveal_strlit("0");
        reveal_strlit("1");
        reveal_strlit("2");
        reveal_strlit("3");
        reveal_strlit("4");
        reveal_strlit("5");
        reveal_strlit("6");
        reveal_strlit("7");
        reveal_strlit("8");
        reveal_strlit("9");
    }
    let r: &'static str = if d == 0 {
        "0"
    } else if d == 1 {
        "1"
    } else if d == 2 {
        "2"
    } else if d == 3 {
        "3"
    } else if d == 4 {
        "4"
    } else if d == 5 {
        "5"
    } else if d == 6 {
        "6"
    } else if d == 7 {
        "7"
    } else if d == 8 {
        "8"
    } else {
        "9"
    };
    proof {
        assert(r@ =~= seq![digit_char(d as int)]);
    }
    r
}

/// The decimal digit string of an octave label.
fn octave_string(o: u8) -> (r: String)
    ensures
        r@ == decimal_digits(o as int),
{
    if o <= 9 {
        String::from_str(digit_str(o))
    } else if o <= 99 {
        let mut s = String::from_str(digit_str(o / 10));
        s.append(digit_str(o % 10));
        proof {
            assert(decimal_digits(o as int / 10) =~= seq![digit_char(o as int / 10)]);
            assert(s@ =~= decimal_digits(o as int));
        }
        s
    } else {
        let mut s = String::from_str(digit_str(o / 100));
        s.append(digit_str((o / 10) % 10));
        s.append(digit_str(o % 10));
        proof {
            vstd::arithmetic::div_mod::lemma_div_denominator(o as int, 10, 10);
            assert((o as int / 10) / 10 == o as int / 100);
            assert(decimal_digits(o as int / 100) =~= seq![digit_char(o as int / 100)]);
            assert(decimal_digits(o as int / 10) =~= decimal_digits(o as int / 100) + seq![
                digit_char((o as int / 10) % 10),
            ]);
            assert(s@ =~= decimal_digits(o as int));
        }
        s
    }
}

impl NoteWithOctave {
    /// Display name: the note's canonical spelling followed by the octave,
    /// e.g. `A#4`, regardless of whether the value was parsed from a flat
    /// spelling.
    pub fn name(&self) -> (r: String)
        ensures
            r@ == nwo_name(*self),
    {
        let mut s = self.note.name();
        let o = octave_string(self.octave);
        s.append(o.as_str());
        s
    }
}

impl ScaleType {
    /// Display name of the scale type.
    pub fn name(&self) -> (r: String)
        ensures
            r@ == scale_type_name(*self),
    {
        let s: &str = match self {
            ScaleType::Major => "Major",
            ScaleType::Minor => "Minor",
        };
        s.to_owned()
    }
}

impl Scale {
    /// Display name: root, space, scale type, e.g. `A4 Minor`.
    pub fn name(&self) -> (r: String)
        ensures
            r@ == scale_name(*self),
    {
        let mut s = self.root.name();
        s.append(" ");
        let t = self.scale_type.name();
        s.append(t.as_str());
        s
    }
}

} // verus!
