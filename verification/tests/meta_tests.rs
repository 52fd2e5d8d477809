use praise_mod::meta::{SongMeta, SongMetaError};
use praise_mod::pack::{digit_count_for, pack_id_valid, ChartFile, PackApp, PackCreatorApp};

#[test]
fn reads_the_song_section_fields() {
    let text = "[song]\nname=My Song\nartist=Somebody\nalbum=Greatest\nyear=1999\npreview_start_time=5000\n";
    let m = SongMeta::from_ini_str(text).unwrap();
    assert_eq!(m.name, "My Song");
    assert_eq!(m.artist, "Somebody");
    assert_eq!(m.album, "Greatest");
    assert_eq!(m.year, 1999);
    assert_eq!(m.preview_start, Some(5000));
}

#[test]
fn section_name_matches_any_ascii_case() {
    let text = "[SoNg]\nname=X\n";
    let m = SongMeta::from_ini_str(text).unwrap();
    assert_eq!(m.name, "X");
    assert_eq!(m.artist, "");
    assert_eq!(m.album, "");
    assert_eq!(m.year, 2020);
    assert_eq!(m.preview_start, None);
}

#[test]
fn unparsable_ini_text_is_its_own_error() {
    match SongMeta::from_ini_str("[unclosed") {
        Err(SongMetaError::NotIni) => {},
        _ => panic!("expected the ini parse error"),
    }
}

#[test]
fn pack_error_message_is_fixed() {
    assert_eq!(praise_mod::pack::PackCreateError::NoAudioFound.message(), "no ogg audio found");
}

#[test]
fn missing_song_section_is_its_own_error() {
    let text = "[other]\nname=X\n";
    match SongMeta::from_ini_str(text) {
        Err(SongMetaError::NoSongSection) => {},
        _ => panic!("expected the missing-section error"),
    }
}

#[test]
fn bad_year_and_preview_fall_back() {
    let text = "[song]\nyear=soon\npreview_start_time=never\n";
    let m = SongMeta::from_ini_str(text).unwrap();
    assert_eq!(m.year, 2020);
    assert_eq!(m.preview_start, None);
}

#[test]
fn negative_years_parse() {
    let text = "[song]\nyear=-44\n";
    let m = SongMeta::from_ini_str(text).unwrap();
    assert_eq!(m.year, -44);
}

#[test]
fn pack_helpers_decide_like_the_pack_build() {
    assert!(pack_id_valid(4));
    assert!(pack_id_valid(98));
    assert!(!pack_id_valid(3));
    assert!(!pack_id_valid(99));
    assert_eq!(digit_count_for(1), 0);
    assert_eq!(digit_count_for(9), 1);
    assert_eq!(digit_count_for(10), 2);
    assert_eq!(digit_count_for(100), 3);
}

#[test]
fn pack_creator_arguments_become_options() {
    let app = PackCreatorApp {
        songs_path: String::from("songs"),
        output_path: String::from("out"),
        name: Some(String::from("Pack")),
        id: 7,
    };
    let ops = app.to_pack_ops();
    assert_eq!(ops.songs_path, "songs");
    assert_eq!(ops.output_path, "out");
    assert_eq!(ops.name, Some(String::from("Pack")));
    assert_eq!(ops.id, 7);
}

#[test]
fn windowed_shell_starts_with_its_defaults() {
    let app = PackApp::default();
    assert_eq!(app.headers.len(), 5);
    assert_eq!(app.headers[0], "id");
    assert_eq!(app.pack_name, "Custom Song Pack");
    assert_eq!(app.pack_id, 4);
    assert!(!app.is_dark);
}

#[test]
fn chart_file_kind_is_visible() {
    let mut r = praise_mod::midi::MidiReader::new();
    r.header(0, 1, 480);
    let mid = r.get_midi().unwrap();
    let cf = ChartFile::Midi(mid);
    assert!(cf.is_midi());
    let chart = praise_mod::chart_parser::parse_chart(
        "[Song]\n{\n Resolution = 480\n}\n[SyncTrack]\n{\n 0 = B 120000\n}\n",
    ).unwrap();
    let cf2 = ChartFile::Chart(chart);
    assert!(!cf2.is_midi());
}
