use praise_mod::midi::{MidiMetaKind, MidiReader};
use praise_mod::xml::{XmlFile, XmlTrack, XmlTrackDifficulty, XmlTrackType};

fn tempo_500000() -> Vec<u8> {
    // 500000 microseconds per quarter, big-endian
    vec![0x07, 0xA1, 0x20]
}

#[test]
fn header_and_default_tempo_injection() {
    let mut r = MidiReader::new();
    r.header(1, 1, 480);
    r.track_change();
    // the tempo track ends with no tempo event: the 120 BPM default appears
    r.track_change();
    r.finalize_track();
    let mid = r.get_midi().unwrap();
    assert_eq!(mid.ticks_per_quarter, 480);
    assert_eq!(mid.tempo.len(), 1);
    assert_eq!(mid.tempo[0].pos, 0);
    assert_eq!(mid.tempo[0].mpq, 500_000);
}

#[test]
fn zero_resolution_falls_back_to_default() {
    let mut r = MidiReader::new();
    r.header(1, 1, 0);
    let mid = r.get_midi().unwrap();
    assert_eq!(mid.ticks_per_quarter, 480);
}

#[test]
fn chord_merges_lanes_and_takes_longer_sustain() {
    let mut r = MidiReader::new();
    r.header(1, 2, 480);
    r.track_change();
    r.meta_event(0, MidiMetaKind::SetTempo, &tempo_500000());
    r.track_change();
    r.meta_event(0, MidiMetaKind::TrackName, &b"PART GUITAR".to_vec());
    // two notes at one tick on different expert lanes
    r.midi_event(0, true, 0, 96, 100);
    r.midi_event(0, true, 0, 97, 100);
    r.midi_event(240, false, 0, 96, 64);
    r.midi_event(240, false, 0, 97, 64);
    r.finalize_track();
    let mid = r.get_midi().unwrap();
    let file = XmlFile::from_midi(&mid, XmlTrackType::Guitar, Some(XmlTrackDifficulty::Expert));
    match file.track {
        XmlTrack::GuitarBass(beats) => {
            assert_eq!(beats.len(), 1);
            assert!(beats[0].green);
            assert!(beats[0].red);
            assert_eq!(beats[0].pos, 0);
            // lengths 240 and 480 ticks: the chord takes the longer, 500 ms
            assert_eq!(beats[0].length, 500);
            assert!(!beats[0].star_power);
        },
        _ => panic!("expected beats"),
    }
}

#[test]
fn star_power_pitch_marks_covered_notes() {
    let mut r = MidiReader::new();
    r.header(1, 2, 480);
    r.track_change();
    r.meta_event(0, MidiMetaKind::SetTempo, &tempo_500000());
    r.track_change();
    r.meta_event(0, MidiMetaKind::TrackName, &b"PART BASS".to_vec());
    // a star-power span covering [0, 480)
    r.midi_event(0, true, 0, 116, 100);
    r.midi_event(0, true, 0, 96, 100);
    r.midi_event(60, false, 0, 96, 64);
    r.midi_event(420, false, 0, 116, 64);
    // a note at the window's end tick is not covered
    r.midi_event(0, true, 0, 97, 100);
    r.midi_event(60, false, 0, 97, 64);
    r.finalize_track();
    let mid = r.get_midi().unwrap();
    let file = XmlFile::from_midi(&mid, XmlTrackType::Bass, Some(XmlTrackDifficulty::Expert));
    match file.track {
        XmlTrack::GuitarBass(beats) => {
            assert_eq!(beats.len(), 2);
            assert!(beats[0].star_power);
            assert!(!beats[1].star_power);
        },
        _ => panic!("expected beats"),
    }
}

#[test]
fn missing_guitar_track_yields_no_beats() {
    let mut r = MidiReader::new();
    r.header(1, 1, 480);
    r.track_change();
    r.track_change();
    r.finalize_track();
    let mid = r.get_midi().unwrap();
    let file = XmlFile::from_midi(&mid, XmlTrackType::Guitar, None);
    match file.track {
        XmlTrack::GuitarBass(beats) => assert_eq!(beats.len(), 0),
        _ => panic!("expected beats"),
    }
}

#[test]
fn lyric_syllables_join_into_phrases() {
    let mut r = MidiReader::new();
    r.header(1, 2, 480);
    r.track_change();
    r.meta_event(0, MidiMetaKind::SetTempo, &tempo_500000());
    r.track_change();
    r.meta_event(0, MidiMetaKind::TrackName, &b"PART VOCALS".to_vec());
    // one phrase marker covering the three syllables
    r.midi_event(0, true, 0, 105, 100);
    r.meta_event(0, MidiMetaKind::Lyric, &b"Hel-".to_vec());
    r.meta_event(120, MidiMetaKind::Lyric, &b"lo".to_vec());
    r.meta_event(120, MidiMetaKind::Lyric, &b"world".to_vec());
    r.midi_event(720, false, 0, 105, 64);
    r.finalize_track();
    let mid = r.get_midi().unwrap();
    let file = XmlFile::from_midi(&mid, XmlTrackType::Vocals, None);
    match file.track {
        XmlTrack::Vocals(lyrics) => {
            assert_eq!(lyrics.len(), 1);
            assert_eq!(lyrics[0].text, "Hello world");
            assert_eq!(lyrics[0].pos, 0);
            // 960 ticks at 120 BPM are 1000 ms
            assert_eq!(lyrics[0].length, 1000);
        },
        _ => panic!("expected lyrics"),
    }
}

#[test]
fn empty_phrases_are_dropped() {
    let mut r = MidiReader::new();
    r.header(1, 2, 480);
    r.track_change();
    r.track_change();
    r.meta_event(0, MidiMetaKind::TrackName, &b"PART VOCALS".to_vec());
    r.midi_event(0, true, 0, 105, 100);
    r.midi_event(480, false, 0, 105, 64);
    r.finalize_track();
    let mid = r.get_midi().unwrap();
    let file = XmlFile::from_midi(&mid, XmlTrackType::Vocals, None);
    match file.track {
        XmlTrack::Vocals(lyrics) => assert_eq!(lyrics.len(), 0),
        _ => panic!("expected lyrics"),
    }
}

#[test]
fn rest_marker_contributes_no_text_and_no_space() {
    let toks = vec![String::from("+"), String::from("la"), String::from("la")];
    assert_eq!(XmlFile::concat_text(&toks), "la la");
}

#[test]
fn dash_joins_and_hash_strips_with_space() {
    let toks = vec![String::from("Hel-"), String::from("lo"), String::from("world")];
    assert_eq!(XmlFile::concat_text(&toks), "Hello world");
    let toks2 = vec![String::from("oh#"), String::from("no="), String::from("pe")];
    assert_eq!(XmlFile::concat_text(&toks2), "oh nope");
    let toks3 = vec![String::from("a"), String::from("+-"), String::from("b")];
    assert_eq!(XmlFile::concat_text(&toks3), "ab");
}

#[test]
fn dangling_notes_close_at_track_end() {
    let mut r = MidiReader::new();
    r.header(1, 2, 480);
    r.track_change();
    r.meta_event(0, MidiMetaKind::SetTempo, &tempo_500000());
    r.track_change();
    r.meta_event(0, MidiMetaKind::TrackName, &b"PART GUITAR".to_vec());
    // a note-on that never sees its note-off
    r.midi_event(0, true, 0, 96, 100);
    r.sys_ex_event(480);
    r.finalize_track();
    let mid = r.get_midi().unwrap();
    assert_eq!(mid.tracks.len(), 1);
    assert_eq!(mid.tracks[0].notes.len(), 1);
    assert_eq!(mid.tracks[0].notes[0].pos, 0);
    assert_eq!(mid.tracks[0].notes[0].length, 480);
}

#[test]
fn duplicate_note_on_and_off_are_tolerated() {
    let mut r = MidiReader::new();
    r.header(1, 2, 480);
    r.track_change();
    r.track_change();
    r.midi_event(0, true, 0, 60, 100);
    r.midi_event(0, true, 0, 60, 100);
    r.midi_event(120, false, 0, 60, 64);
    r.midi_event(0, false, 0, 60, 64);
    r.finalize_track();
    let mid = r.get_midi().unwrap();
    assert_eq!(mid.tracks[0].notes.len(), 1);
    assert_eq!(mid.tracks[0].notes[0].length, 120);
}

#[test]
fn tempo_events_outside_first_track_are_dropped() {
    let mut r = MidiReader::new();
    r.header(1, 2, 480);
    r.track_change();
    r.meta_event(0, MidiMetaKind::SetTempo, &tempo_500000());
    r.track_change();
    // a tempo change on a later track is not authoritative
    r.meta_event(0, MidiMetaKind::SetTempo, &vec![0x03, 0xD0, 0x90]);
    r.finalize_track();
    let mid = r.get_midi().unwrap();
    assert_eq!(mid.tempo.len(), 1);
    assert_eq!(mid.tempo[0].mpq, 500_000);
}
