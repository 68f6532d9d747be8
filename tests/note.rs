use plunder::note::{Key, MidiPlayer, Note, PianoNoteParser};

fn spanned(s: &str) -> Vec<(usize, char)> {
    s.chars().enumerate().collect()
}

#[test]
fn test_piano_note_parser() {
    let midi_player = MidiPlayer::new("dummyvalue.sf2").unwrap();
    let parser = PianoNoteParser(midi_player.clone());

    assert_eq!(
        parser.parse_notes(
            &"C5 Eb5 G5 Bb5 d6 Bb5 G5 Eb5 C5 B4"
                .chars()
                .collect::<Vec<_>>()
        ),
        Ok(Vec::from([
            Note(Key::C, 5),
            Note(Key::Eb, 5),
            Note(Key::G, 5),
            Note(Key::Bb, 5),
            Note(Key::D, 6),
            Note(Key::Bb, 5),
            Note(Key::G, 5),
            Note(Key::Eb, 5),
            Note(Key::C, 5),
            Note(Key::B, 4),
        ]))
    );

    assert_eq!(
        parser.parse_notes(&"C5 Eb5 6".chars().collect::<Vec<_>>()),
        Err("at 7: note string may only be or 2 or 3 characters long".to_string())
    );

    assert_eq!(
        parser.parse_notes(&"C5 Eb5 67".chars().collect::<Vec<_>>()),
        Err("at 7: invalid key".to_string())
    );

    assert_eq!(
        parser.parse_notes(&"C5  Eb5  S7".chars().collect::<Vec<_>>()),
        Err("at 9: invalid key".to_string())
    );

    assert_eq!(
        parser.parse_notes(&"C5 Eb5 F%".chars().collect::<Vec<_>>()),
        Err("at 8: invalid octave number".to_string())
    );
}

#[test]
fn note_from_empty_string_is_none() {
    assert_eq!(Note::from_spanned_str(&[]), Ok(None));
}

#[test]
fn note_sharps_and_flats() {
    assert_eq!(Note::from_spanned_str(&spanned("c#4")), Ok(Some(Note(Key::Db, 4))));
    assert_eq!(Note::from_spanned_str(&spanned("Gb0")), Ok(Some(Note(Key::Gb, 0))));
    assert_eq!(Note::from_spanned_str(&spanned("bb9")), Ok(Some(Note(Key::Bb, 9))));
    assert_eq!(Note::from_spanned_str(&spanned("Ex3")), Ok(Some(Note(Key::E, 3))));
}

#[test]
fn note_octave_error_in_three_characters_names_the_second_offset() {
    assert_eq!(
        Note::from_spanned_str(&[(20, 'A'), (21, '#'), (22, 'x')]),
        Err("at 21: invalid octave number".to_string())
    );
}

#[test]
fn note_too_long_names_its_first_offset() {
    assert_eq!(
        Note::from_spanned_str(&[(123, 'C'), (124, '#'), (125, '1'), (126, '0')]),
        Err("at 123: note string may only be or 2 or 3 characters long".to_string())
    );
}

#[test]
fn note_numbers() {
    assert_eq!(Note(Key::C, 0).number(), 0);
    assert_eq!(Note(Key::A, 4).number(), 57);
    assert_eq!(Note(Key::B, 9).number(), 119);
}

#[test]
fn notes_split_on_any_whitespace() {
    let parser = PianoNoteParser::new(MidiPlayer::new("x.sf2").unwrap());
    assert_eq!(
        parser.parse_notes(&"\tA1\nb2 ".chars().collect::<Vec<_>>()),
        Ok(vec![Note(Key::A, 1), Note(Key::B, 2)])
    );
    assert_eq!(parser.parse_notes(&[]), Ok(vec![]));
}

#[test]
fn note_parser_numbers_its_events() {
    let parser = PianoNoteParser::new(MidiPlayer::new("x.sf2").unwrap());
    assert_eq!(
        parser.parse(&"A5  C6 e6".chars().collect::<Vec<_>>()),
        Ok(vec![(0, Note(Key::A, 5)), (1, Note(Key::C, 6)), (2, Note(Key::E, 6))])
    );
    assert_eq!(
        parser.parse(&"A5 H6".chars().collect::<Vec<_>>()),
        Err("at 3: invalid key".to_string())
    );
}
