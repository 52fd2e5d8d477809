use praise_mod::builder::XmlSongMetaBuilder;
use praise_mod::meta::SongMeta;
use praise_mod::render::{format_duration, render_beats, render_lyrics, render_metadata, u64_to_string};
use praise_mod::xml::{BeatEvent, LyricEvent, XmlTrack};

#[test]
fn decimal_spelling_is_exact() {
    assert_eq!(u64_to_string(0), "0");
    assert_eq!(u64_to_string(7), "7");
    assert_eq!(u64_to_string(1234567890), "1234567890");
    assert_eq!(u64_to_string(u64::MAX), "18446744073709551615");
}

#[test]
fn durations_are_zero_padded() {
    assert_eq!(format_duration(3_723_456), "01h:02m:03s:456ms");
    assert_eq!(format_duration(0), "00h:00m:00s:000ms");
    assert_eq!(format_duration(59_999), "00h:00m:59s:999ms");
}

#[test]
fn note_names_list_flags_in_order() {
    let mut b = BeatEvent::default(0, 0);
    b.green = true;
    b.red = true;
    b.tap = true;
    assert_eq!(b.get_note_name(), "left_down_quick_");
    let mut c = BeatEvent::default(0, 10);
    c.orange = true;
    c.star_power = true;
    assert_eq!(c.get_note_name(), "five_float_spinner_");
    assert!(c.is_sustain());
}

#[test]
fn beat_documents_render_exactly() {
    let mut b = BeatEvent::default(3000, 100);
    b.green = true;
    let s = render_beats(&vec![b]);
    let expected = "<?xml version='1.1'?>\n<beats>\n\t<left_float_>\n\t\t<show>500</show>\n\t\t<target>3000</target>\n\t\t<end>3100</end>\n\t</left_float_>\n</beats>\n";
    assert_eq!(s, expected);
}

#[test]
fn early_beats_show_from_the_start() {
    let mut b = BeatEvent::default(1000, 0);
    b.red = true;
    let s = render_beats(&vec![b]);
    let expected = "<?xml version='1.1'?>\n<beats>\n\t<down_>\n\t\t<show>0</show>\n\t\t<target>1000</target>\n\t</down_>\n</beats>\n";
    assert_eq!(s, expected);
}

#[test]
fn lyric_documents_render_exactly() {
    let e = LyricEvent { pos: 10, length: 20, text: String::from("Hello world") };
    let s = render_lyrics(&vec![e]);
    let expected = "<?xml version='1.1'?>\n<lyrics>\n\t<show>10</show>\n\t<text>Hello world</text>\n\t<remove>30</remove>\n</lyrics>\n";
    assert_eq!(s, expected);
}

fn meta(name: &str, artist: &str, album: &str) -> SongMeta {
    SongMeta {
        name: String::from(name),
        artist: String::from(artist),
        album: String::from(album),
        year: 2001,
        preview_start: None,
    }
}

#[test]
fn albums_are_distinct_and_ordered() {
    let mut b = XmlSongMetaBuilder::new("My Pack", 7);
    b.add_song(&meta("s1", "ArtistX", "Beta"), 0);
    b.add_song(&meta("s2", "Alpha", "Alpha"), 1);
    b.add_song(&meta("s3", "ArtistY", "Beta"), 2);
    let file = b.to_xml_meta();
    match file.track {
        XmlTrack::Metadata { name, pack_id, albums, songs } => {
            assert_eq!(name, "My Pack");
            assert_eq!(pack_id, 7);
            assert_eq!(albums, vec![String::from("Alpha"), String::from("Beta")]);
            assert_eq!(songs.len(), 3);
            assert_eq!(songs[0].song_id, 0);
            assert_eq!(songs[0].artist, "ArtistX");
            assert_eq!(songs[0].title, "s1");
            // the index lookup goes by the artist name: only an album
            // name matching the artist hits; everything else gets 0
            assert_eq!(songs[0].album_idx, 0);
            assert_eq!(songs[1].album_idx, 0);
            assert_eq!(songs[2].album_idx, 0);
        },
        _ => panic!("expected metadata"),
    }
}

#[test]
fn index_document_renders_exactly_for_one_song() {
    let mut b = XmlSongMetaBuilder::new("P", 4);
    b.add_song(&meta("T", "A", "L"), 1);
    let file = b.to_xml_meta();
    match file.track {
        XmlTrack::Metadata { name, pack_id, albums, songs } => {
            let s = render_metadata(&name, pack_id, &albums, &songs);
            let mut expected = String::new();
            expected.push_str("<?xml version=\"1.0\" encoding=\"UTF-8\" standalone=\"no\" ?>\n");
            expected.push_str("<data>\n");
            expected.push_str("\t<exp_title>P</exp_title>\n");
            expected.push_str("\t<difficultyIcon>191042.dpa</difficultyIcon>\n");
            expected.push_str("\t<albumNames>\n");
            expected.push_str("\t\t<Name0>L</Name0>\n");
            expected.push_str("\t</albumNames>\n");
            expected.push_str("\t<tracks>\n");
            expected.push_str("\t\t<song_001>\n");
            expected.push_str("\t\t\t<artist>A</artist>\n");
            expected.push_str("\t\t\t<title>T</title>\n");
            expected.push_str("\t\t\t<short_title></short_title>\n");
            expected.push_str("\t\t\t<difficulty_easy>1</difficulty_easy>\n");
            expected.push_str("\t\t\t<difficulty_medium>2</difficulty_medium>\n");
            expected.push_str("\t\t\t<difficulty_hard>3</difficulty_hard>\n");
            expected.push_str("\t\t\t<difficulty_expert>4</difficulty_expert>\n");
            expected.push_str("\t\t\t<bpm_easy>003</bpm_easy>\n");
            expected.push_str("\t\t\t<bpm_medium>002</bpm_medium>\n");
            expected.push_str("\t\t\t<bpm_hard>003</bpm_hard>\n");
            expected.push_str("\t\t\t<albumID>0</albumID>\n");
            expected.push_str("\t\t\t<albumImage>CD_197237.bmp</albumImage>\n");
            expected.push_str("\t\t\t<cd_website></cd_website>\n");
            expected.push_str("\t\t\t<artist_website></artist_website>\n");
            expected.push_str("\t\t\t<wave>GPM04001.dpo</wave>\n");
            expected.push_str("\t\t\t<lyrics>GPL04001.xml</lyrics>\n");
            expected.push_str("\t\t\t<locked>0</locked>\n");
            expected.push_str("\t\t</song_001>\n");
            expected.push_str("\t</tracks>\n");
            expected.push_str("</data>\n");
            assert_eq!(s, expected);
        },
        _ => panic!("expected metadata"),
    }
}
