//! Laws of the pitch model, stated over the spec-level tables and proved
//! once for every value, rather than sampled at a few points.

use crate::notes::a4_distance;
use crate::notes::div12_trunc;
use crate::notes::inverse_result;
use crate::notes::note_a_offset;
use crate::notes::note_of_a_index;
use crate::notes::note_of_semitone;
use crate::notes::note_semitone;
use crate::notes::scale_degree;
use crate::notes::scale_intervals;
use crate::notes::Note;
use crate::notes::ScaleType;
use crate::notes::NoteError;
use crate::notes::NoteWithOctave;
use vstd::arithmetic::div_mod::lemma_fundamental_div_mod_converse;
use vstd::prelude::*;

verus! {

/// Raising the octave by one raises every note by exactly twelve
/// semitones. Since a semitone multiplies frequency by the twelfth root of
/// two, this is why the frequency of a note doubles from one octave to the
/// next.
pub proof fn lemma_octave_step_doubles(n: Note, octave: int)
    ensures
        a4_distance(n, octave + 1) == a4_distance(n, octave) + 12,
{
}

/// Consecutive pitch classes in C-relative order sit exactly one semitone
/// apart at any fixed octave. A single semitone step therefore always
/// scales frequency by the same ratio, the twelfth root of two.
pub proof fn lemma_semitone_step(k: int, octave: int)
    requires
        0 <= k < 11,
    ensures
        a4_distance(note_of_semitone(k + 1), octave) == a4_distance(note_of_semitone(k), octave)
            + 1,
{
}

/// The two semitone tables are consistent: a note's A-relative offset is
/// its C-relative pitch-class index shifted down by the nine semitones
/// between C and A.
pub proof fn lemma_pitch_class_tables_agree(n: Note)
    ensures
        note_a_offset(n) == note_semitone(n) - 9,
{
}

/// The C-relative table round-trips: every note is recovered from its own
/// pitch-class index.
pub proof fn lemma_semitone_round_trip(n: Note)
    ensures
        note_of_semitone(note_semitone(n)) == n,
{
}

/// The A-relative table round-trips: every note is recovered from its
/// offset from A taken modulo twelve.
pub proof fn lemma_a_index_round_trip(n: Note)
    ensures
        note_of_a_index(note_a_offset(n) % 12) == n,
{
}

/// Every interval pattern is well formed: seven offsets, starting at the
/// root itself, strictly ascending, and never reaching a full octave.
pub proof fn lemma_interval_pattern_well_formed(st: ScaleType)
    ensures
        scale_intervals(st).len() == 7,
        scale_intervals(st)[0] == 0,
        forall|i: int, j: int|
            0 <= i < j < scale_intervals(st).len() ==> scale_intervals(st)[i] < scale_intervals(
                st,
            )[j],
        forall|i: int| 0 <= i < scale_intervals(st).len() ==> scale_intervals(st)[i] <= 11,
{
}

/// A scale always begins with its own root: the degree at offset zero is
/// the root note in the root's octave.
pub proof fn lemma_scale_starts_at_root(root: NoteWithOctave)
    ensures
        scale_degree(root, 0) == root,
{
    lemma_semitone_round_trip(root.note);
}

/// Converting a note in an octave to its whole-semitone distance from A4
/// and handing that distance back to the inverse conversion returns the
/// note and octave exactly — wherever the inverse's truncating octave
/// arithmetic agrees with the forward path. That is everywhere in octave
/// 4; above octave 4 for A, A# and B; and below octave 4, down to octave
/// 0, for C through A. On the remaining notes the two paths genuinely
/// disagree: the distance of C5, for example, maps back to C4.
pub proof fn lemma_frequency_round_trip(n: Note, octave: int)
    requires
        0 <= octave <= 10,
        octave < 4 ==> note_a_offset(n) <= 0,
        octave > 4 ==> note_a_offset(n) >= 0,
    ensures
        inverse_result(a4_distance(n, octave)) == Ok::<NoteWithOctave, NoteError>(
            NoteWithOctave { note: n, octave: octave as u8 },
        ),
{
    let s = a4_distance(n, octave);
    let f = note_a_offset(n);
    assert(-9 <= f <= 2);
    if octave == 4 {
        assert(s == f);
        assert(div12_trunc(s) == 0);
        if f < 0 {
            lemma_fundamental_div_mod_converse(s, 12, -1, f + 12);
        } else {
            lemma_fundamental_div_mod_converse(s, 12, 0, f);
        }
    } else if octave > 4 {
        assert(s == (octave - 4) * 12 + f);
        assert(s >= 0);
        lemma_fundamental_div_mod_converse(s, 12, octave - 4, f);
        assert(div12_trunc(s) == octave - 4);
    } else {
        let m = 4 - octave;
        assert(-s == m * 12 + (-f));
        lemma_fundamental_div_mod_converse(-s, 12, m, -f);
        assert(div12_trunc(s) == -m);
        if f == 0 {
            lemma_fundamental_div_mod_converse(s, 12, octave - 4, 0);
        } else {
            lemma_fundamental_div_mod_converse(s, 12, octave - 5, f + 12);
        }
    }
    assert(s % 12 == (if f >= 0 {
        f
    } else {
        f + 12
    }));
    lemma_a_index_round_trip(n);
    assert(note_a_offset(n) % 12 == (if f >= 0 {
        f
    } else {
        f + 12
    })) by {
        if f < 0 {
            lemma_fundamental_div_mod_converse(f, 12, -1, f + 12);
        } else {
            lemma_fundamental_div_mod_converse(f, 12, 0, f);
        }
    }
}

/// On the notes the round trip misses, the slip is exactly one octave
/// toward 4 and the pitch class survives: above octave 4 a note below A
/// comes back labelled one octave low (C5 as C4), and below octave 4 a
/// note above A comes back one octave high (B3 as B4).
pub proof fn lemma_round_trip_octave_slip(n: Note, octave: int)
    requires
        0 <= octave <= 10,
        octave > 4 ==> note_a_offset(n) < 0,
        octave < 4 ==> note_a_offset(n) > 0,
        octave != 4,
    ensures
        inverse_result(a4_distance(n, octave)) == Ok::<NoteWithOctave, NoteError>(
            NoteWithOctave {
                note: n,
                octave: (if octave > 4 {
                    octave - 1
                } else {
                    octave + 1
                }) as u8,
            },
        ),
{
    let s = a4_distance(n, octave);
    let f = note_a_offset(n);
    assert(-9 <= f <= 2);
    if octave > 4 {
        assert(s == (octave - 5) * 12 + (f + 12));
        assert(s >= 0);
        lemma_fundamental_div_mod_converse(s, 12, octave - 5, f + 12);
        assert(div12_trunc(s) == octave - 5);
    } else {
        let m = 4 - octave;
        assert(-s == (m - 1) * 12 + (12 - f));
        lemma_fundamental_div_mod_converse(-s, 12, m - 1, 12 - f);
        assert(div12_trunc(s) == -(m - 1));
        lemma_fundamental_div_mod_converse(s, 12, octave - 4, f);
    }
    assert(s % 12 == (if f >= 0 {
        f
    } else {
        f + 12
    }));
    lemma_a_index_round_trip(n);
    assert(note_a_offset(n) % 12 == (if f >= 0 {
        f
    } else {
        f + 12
    })) by {
        if f < 0 {
            lemma_fundamental_div_mod_converse(f, 12, -1, f + 12);
        } else {
            lemma_fundamental_div_mod_converse(f, 12, 0, f);
        }
    }
}

} // verus!
