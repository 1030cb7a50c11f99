use ear_trainer::Note;
use ear_trainer::NoteError;
use ear_trainer::NoteWithOctave;
use ear_trainer::Scale;
use ear_trainer::ScaleType;

#[test]
fn lib_test_display_formatting() {
    assert_eq!(Note::C.name(), "C");
    assert_eq!(Note::CSharp.name(), "C#");
    assert_eq!(Note::FSharp.name(), "F#");

    let note_with_octave = NoteWithOctave {
        note: Note::A,
        octave: 4,
    };
    assert_eq!(note_with_octave.name(), "A4");
}

#[test]
fn notes_test_display_formatting() {
    assert_eq!(Note::C.name(), "C");
    assert_eq!(Note::CSharp.name(), "C#");
    assert_eq!(Note::FSharp.name(), "F#");

    let note_with_octave = NoteWithOctave {
        note: Note::A,
        octave: 4,
    };
    assert_eq!(note_with_octave.name(), "A4");
}

#[test]
fn test_note_with_octave_from_str() {
    let note = NoteWithOctave::from_str("A5").unwrap();
    assert_eq!(note.note, Note::A);
    assert_eq!(note.octave, 5);
}

#[test]
fn test_note_with_octave_from_str_with_sharp() {
    let note = NoteWithOctave::from_str("A#2").unwrap();
    assert_eq!(note.note, Note::ASharp);
    assert_eq!(note.octave, 2);
}

#[test]
fn test_note_with_octave_from_str_with_flat() {
    let note = NoteWithOctave::from_str("Bb3").unwrap();
    assert_eq!(note.note, Note::ASharp);
    assert_eq!(note.octave, 3);
}

#[test]
fn test_note_with_octave_from_str_no_octave() {
    let note = NoteWithOctave::from_str("C").unwrap();
    assert_eq!(note.note, Note::C);
    assert_eq!(note.octave, 4);
}

#[test]
fn test_note_with_octave_from_str_no_octave_with_sharp() {
    let note = NoteWithOctave::from_str("C#").unwrap();
    assert_eq!(note.note, Note::CSharp);
    assert_eq!(note.octave, 4);
}

#[test]
fn test_note_with_octave_from_str_no_octave_with_flat() {
    let note = NoteWithOctave::from_str("Db").unwrap();
    assert_eq!(note.note, Note::CSharp);
    assert_eq!(note.octave, 4);
}

#[test]
fn test_note_with_octave_from_str_invalid() {
    assert!(NoteWithOctave::from_str("Cb").is_err());
    assert!(NoteWithOctave::from_str("B#").is_err());
    assert!(NoteWithOctave::from_str("foo").is_err());
    assert!(NoteWithOctave::from_str("Dl").is_err());
    assert!(NoteWithOctave::from_str("Gfoobar2").is_err());
    assert!(NoteWithOctave::from_str("2").is_err());
}

#[test]
fn test_scale_type_parsing() {
    assert_eq!(ScaleType::from_str("major").unwrap(), ScaleType::Major);
    assert_eq!(ScaleType::from_str("min").unwrap(), ScaleType::Minor);
    assert!(ScaleType::from_str("invalid").is_err());
}

#[test]
fn test_scale_intervals() {
    let major_intervals = ScaleType::Major.intervals();
    assert_eq!(major_intervals, vec![0, 2, 4, 5, 7, 9, 11]);

    let minor_intervals = ScaleType::Minor.intervals();
    assert_eq!(minor_intervals, vec![0, 2, 3, 5, 7, 8, 10]);
}

#[test]
fn test_c_major_scale() {
    let scale = Scale::new(
        NoteWithOctave {
            note: Note::C,
            octave: 4,
        },
        ScaleType::Major,
    );
    let notes = scale.notes();

    assert_eq!(notes.len(), 7);
    assert_eq!(notes[0].note, Note::C);
    assert_eq!(notes[1].note, Note::D);
    assert_eq!(notes[2].note, Note::E);
    assert_eq!(notes[3].note, Note::F);
    assert_eq!(notes[4].note, Note::G);
    assert_eq!(notes[5].note, Note::A);
    assert_eq!(notes[6].note, Note::B);
}

#[test]
fn test_scale_display() {
    let scale = Scale::new(
        NoteWithOctave {
            note: Note::A,
            octave: 4,
        },
        ScaleType::Minor,
    );
    assert_eq!(scale.name(), "A4 Minor");
}

#[test]
fn test_note_semitone_conversion() {
    assert_eq!(Note::C.to_semitone(), 0);
    assert_eq!(Note::CSharp.to_semitone(), 1);
    assert_eq!(Note::B.to_semitone(), 11);

    assert_eq!(Note::from_semitone(0).unwrap(), Note::C);
    assert_eq!(Note::from_semitone(1).unwrap(), Note::CSharp);
    assert_eq!(Note::from_semitone(11).unwrap(), Note::B);
    assert_eq!(Note::from_semitone(12).unwrap(), Note::C); // Wraps around
}

#[test]
fn test_semitone_class_wraparound() {
    assert_eq!(Note::from_semitone(12), Note::from_semitone(0));
    assert_eq!(Note::from_semitone(25), Note::from_semitone(1));
}

#[test]
fn test_enharmonic_parse_equivalence() {
    assert_eq!(
        NoteWithOctave::from_str("Db4").unwrap(),
        NoteWithOctave::from_str("C#4").unwrap()
    );
    assert_eq!(NoteWithOctave::from_str("Cb"), Err(NoteError::InvalidNote));
    assert_eq!(NoteWithOctave::from_str("B#"), Err(NoteError::InvalidNote));
}

#[test]
fn test_parse_error_kinds() {
    assert_eq!(NoteWithOctave::from_str("H4"), Err(NoteError::InvalidNote));
    assert_eq!(NoteWithOctave::from_str("C4x"), Err(NoteError::InvalidOctave));
    assert_eq!(NoteWithOctave::from_str("C300"), Err(NoteError::InvalidOctave));
    assert_eq!(ScaleType::from_str("Major"), Err(NoteError::InvalidScaleType));
    assert_eq!(ScaleType::from_str("MAJ"), Err(NoteError::InvalidScaleType));
}

#[test]
fn test_parse_octave_leading_zeros() {
    let note = NoteWithOctave::from_str("C04").unwrap();
    assert_eq!(note.note, Note::C);
    assert_eq!(note.octave, 4);
}

#[test]
fn test_minor_scale_octave_rollover() {
    let scale = Scale::new(
        NoteWithOctave {
            note: Note::A,
            octave: 4,
        },
        ScaleType::Minor,
    );
    let notes = scale.notes();

    let expected = [
        (Note::A, 4),
        (Note::B, 4),
        (Note::C, 5),
        (Note::D, 5),
        (Note::E, 5),
        (Note::F, 5),
        (Note::G, 5),
    ];
    assert_eq!(notes.len(), expected.len());
    for (got, (note, octave)) in notes.iter().zip(expected.iter()) {
        assert_eq!(got.note, *note);
        assert_eq!(got.octave, *octave);
    }
}

#[test]
fn test_major_scale_root_on_b() {
    let scale = Scale::new(
        NoteWithOctave {
            note: Note::B,
            octave: 4,
        },
        ScaleType::Major,
    );
    let notes = scale.notes();

    let expected = [
        (Note::B, 4),
        (Note::CSharp, 5),
        (Note::DSharp, 5),
        (Note::E, 5),
        (Note::FSharp, 5),
        (Note::GSharp, 5),
        (Note::ASharp, 5),
    ];
    assert_eq!(notes.len(), expected.len());
    for (got, (note, octave)) in notes.iter().zip(expected.iter()) {
        assert_eq!(got.note, *note);
        assert_eq!(got.octave, *octave);
    }
}

#[test]
fn test_two_digit_octave_name() {
    let note = NoteWithOctave {
        note: Note::A,
        octave: 10,
    };
    assert_eq!(note.name(), "A10");
    let parsed = NoteWithOctave::from_str("A10").unwrap();
    assert_eq!(parsed, note);
}
