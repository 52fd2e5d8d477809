use praise_mod::chart::{ChartParseError, GuitarEventType, SyncEventType};
use praise_mod::chart_parser::parse_chart;
use praise_mod::xml::{XmlFile, XmlTrack, XmlTrackDifficulty, XmlTrackType};

fn chart_text() -> String {
    let mut t = String::new();
    t.push_str("[Song]\n{\n Resolution = 480\n}\n");
    t.push_str("[SyncTrack]\n{\n 0 = B 120000\n}\n");
    t.push_str("[ExpertSingle]\n{\n 480 = N 0 240\n 480 = N 1 0\n 960 = N 2 120\n}\n");
    t
}

#[test]
fn parses_sections_and_resolution() {
    let chart = parse_chart(&chart_text()).unwrap();
    assert_eq!(chart.resolution, 480);
    assert_eq!(chart.guitar_tracks.len(), 1);
    assert_eq!(chart.guitar_tracks[0].name, "ExpertSingle");
    assert_eq!(chart.guitar_tracks[0].events.len(), 3);
    match chart.guitar_tracks[0].events[0].value {
        GuitarEventType::Note(n) => assert_eq!(n, 0),
        _ => panic!("expected a fret note"),
    }
    assert_eq!(chart.sync_track.events.len(), 1);
    match chart.sync_track.events[0].value {
        SyncEventType::Beat(b) => assert_eq!(b, 120_000),
        _ => panic!("expected a tempo event"),
    }
}

#[test]
fn resolution_defaults_when_absent_or_unparsable() {
    let t = "[Song]\n{\n Name = x\n}\n[SyncTrack]\n{\n 0 = B 120000\n}\n";
    let chart = parse_chart(t).unwrap();
    assert_eq!(chart.resolution, 480);
    let t2 = "[Song]\n{\n Resolution = abc\n}\n[SyncTrack]\n{\n 0 = B 120000\n}\n";
    assert_eq!(parse_chart(t2).unwrap().resolution, 480);
}

#[test]
fn garbage_text_fails_initial_parse() {
    match parse_chart("this is not a chart") {
        Err(ChartParseError::InitialParseFail) => {},
        _ => panic!("expected the initial parse to fail"),
    }
}

#[test]
fn missing_song_section_fails() {
    match parse_chart("[SyncTrack]\n{\n 0 = B 120000\n}\n") {
        Err(ChartParseError::CantParseSongSection) => {},
        _ => panic!("expected the song section error"),
    }
}

#[test]
fn missing_sync_track_section_fails() {
    match parse_chart("[Song]\n{\n Resolution = 480\n}\n") {
        Err(ChartParseError::CantParseSyncTrackSection) => {},
        _ => panic!("expected the sync track error"),
    }
}

#[test]
fn unparsable_sync_key_fails() {
    let t = "[Song]\n{\n Resolution = 480\n}\n[SyncTrack]\n{\n abc = B 120000\n}\n";
    match parse_chart(t) {
        Err(ChartParseError::CantParseSyncTrackSection) => {},
        _ => panic!("expected the sync track error"),
    }
}

#[test]
fn unparsable_guitar_section_names_its_track() {
    let t = "[Song]\n{\n Resolution = 480\n}\n[SyncTrack]\n{\n 0 = B 120000\n}\n[ExpertSingle]\n{\n @@\n}\n";
    match parse_chart(t) {
        Err(ChartParseError::CantParseGuitarBassTrackSection { track_name }) => {
            assert_eq!(track_name, "ExpertSingle");
        },
        _ => panic!("expected the guitar track error"),
    }
}

#[test]
fn duplicate_tick_sync_lines_collapse_last_wins() {
    // two tempo lines under one tick literal: only the last survives
    let t = "[Song]\n{\n Resolution = 480\n}\n[SyncTrack]\n{\n 0 = B 120000\n 480 = B 120000\n 480 = B 240000\n}\n";
    let chart = parse_chart(t).unwrap();
    assert_eq!(chart.sync_track.events.len(), 2);
    assert_eq!(chart.sync_track.events[1].pos, 480);
    match chart.sync_track.events[1].value {
        SyncEventType::Beat(b) => assert_eq!(b, 240_000),
        _ => panic!("expected a tempo event"),
    }
}

#[test]
fn default_tempo_injected_when_no_beat_declared() {
    let t = "[Song]\n{\n Resolution = 480\n}\n[SyncTrack]\n{\n 0 = TS 4\n}\n";
    let mut chart = parse_chart(t).unwrap();
    chart.update_realtime_positions();
    assert_eq!(chart.sync_track.events.len(), 1);
    assert_eq!(chart.sync_track.events[0].pos, 0);
    match chart.sync_track.events[0].value {
        SyncEventType::Beat(b) => assert_eq!(b, 120_000),
        _ => panic!("expected the synthetic tempo"),
    }
}

#[test]
fn chart_note_timing_at_constant_120_bpm() {
    let mut chart = parse_chart(&chart_text()).unwrap();
    chart.update_realtime_positions();
    let file = XmlFile::from_chart(&chart, XmlTrackType::Guitar, Some(XmlTrackDifficulty::Expert));
    match file.track {
        XmlTrack::GuitarBass(beats) => {
            // the two notes at tick 480 merge into one chord at 500 ms
            assert_eq!(beats.len(), 2);
            assert_eq!(beats[0].pos, 500);
            assert!(beats[0].green);
            assert!(beats[0].red);
            // 240 ticks exceed the threshold of 120: sustain of 250 ms
            assert_eq!(beats[0].length, 250);
            // 120 ticks are exactly the threshold: no sustain
            assert_eq!(beats[1].pos, 1000);
            assert_eq!(beats[1].length, 0);
        },
        _ => panic!("expected beats"),
    }
}

#[test]
fn sustain_threshold_is_exclusive() {
    // at resolution 480 a tick length of 120 yields no sustain, 121 does
    let t = "[Song]\n{\n Resolution = 480\n}\n[SyncTrack]\n{\n 0 = B 120000\n}\n[ExpertSingle]\n{\n 0 = N 0 120\n 480 = N 1 121\n}\n";
    let mut chart = parse_chart(t).unwrap();
    chart.update_realtime_positions();
    let file = XmlFile::from_chart(&chart, XmlTrackType::Guitar, Some(XmlTrackDifficulty::Expert));
    match file.track {
        XmlTrack::GuitarBass(beats) => {
            assert_eq!(beats.len(), 2);
            assert_eq!(beats[0].length, 0);
            assert!(beats[1].length > 0);
        },
        _ => panic!("expected beats"),
    }
}

#[test]
fn star_power_window_is_half_open() {
    // star power covers [480, 960): tick 480 marked, tick 960 not
    let t = "[Song]\n{\n Resolution = 480\n}\n[SyncTrack]\n{\n 0 = B 120000\n}\n[ExpertSingle]\n{\n 480 = S 2 480\n 480 = N 0 0\n 960 = N 1 0\n}\n";
    let mut chart = parse_chart(t).unwrap();
    chart.update_realtime_positions();
    let file = XmlFile::from_chart(&chart, XmlTrackType::Guitar, Some(XmlTrackDifficulty::Expert));
    match file.track {
        XmlTrack::GuitarBass(beats) => {
            assert_eq!(beats.len(), 2);
            assert!(beats[0].star_power);
            assert!(!beats[1].star_power);
        },
        _ => panic!("expected beats"),
    }
}

#[test]
fn tap_marker_marks_its_tick() {
    let t = "[Song]\n{\n Resolution = 480\n}\n[SyncTrack]\n{\n 0 = B 120000\n}\n[ExpertSingle]\n{\n 480 = N 0 0\n 480 = N 6 0\n 960 = N 1 0\n}\n";
    let mut chart = parse_chart(t).unwrap();
    chart.update_realtime_positions();
    let file = XmlFile::from_chart(&chart, XmlTrackType::Guitar, Some(XmlTrackDifficulty::Expert));
    match file.track {
        XmlTrack::GuitarBass(beats) => {
            assert_eq!(beats.len(), 2);
            assert!(beats[0].tap);
            assert!(!beats[1].tap);
        },
        _ => panic!("expected beats"),
    }
}

#[test]
fn missing_bass_track_yields_empty_not_error() {
    // no DoubleBass or DoubleRhythm section at any difficulty
    let mut chart = parse_chart(&chart_text()).unwrap();
    chart.update_realtime_positions();
    let file = XmlFile::from_chart(&chart, XmlTrackType::Bass, Some(XmlTrackDifficulty::Expert));
    match file.track {
        XmlTrack::GuitarBass(beats) => assert_eq!(beats.len(), 0),
        _ => panic!("expected beats"),
    }
}

#[test]
fn bass_falls_back_to_rhythm_track() {
    let t = "[Song]\n{\n Resolution = 480\n}\n[SyncTrack]\n{\n 0 = B 120000\n}\n[ExpertDoubleRhythm]\n{\n 0 = N 3 0\n}\n";
    let mut chart = parse_chart(t).unwrap();
    chart.update_realtime_positions();
    let file = XmlFile::from_chart(&chart, XmlTrackType::Bass, Some(XmlTrackDifficulty::Expert));
    match file.track {
        XmlTrack::GuitarBass(beats) => {
            assert_eq!(beats.len(), 1);
            assert!(beats[0].blue);
        },
        _ => panic!("expected beats"),
    }
}

#[test]
fn chart_vocals_are_empty() {
    let mut chart = parse_chart(&chart_text()).unwrap();
    chart.update_realtime_positions();
    let file = XmlFile::from_chart(&chart, XmlTrackType::Vocals, None);
    match file.track {
        XmlTrack::Vocals(lyrics) => assert_eq!(lyrics.len(), 0),
        _ => panic!("expected lyrics"),
    }
}
