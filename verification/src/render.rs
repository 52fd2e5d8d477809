//! Text rendering of reduced documents: beat tags, lyric entries and the
//! pack index, with verified decimal formatting. Writing the text to a
//! file stays outside the library.

use vstd::prelude::*;

verus! {

use crate::xml::BeatEvent;
use crate::xml::LyricEvent;
use crate::xml::XmlSong;
use vstd::string::StringExecFns;

/// The character of one decimal digit value.
pub open spec fn dec_digit(d: int) -> char {
    if d == 0 {
        '0'
    } else if d == 1 {
        '1'
    } else if d == 2 {
        '2'
    } else if d == 3 {
        '3'
    } else if d == 4 {
        '4'
    } else if d == 5 {
        '5'
    } else if d == 6 {
        '6'
    } else if d == 7 {
        '7'
    } else if d == 8 {
        '8'
    } else {
        '9'
    }
}

/// The decimal spelling of a non-negative number.
pub open spec fn dec_chars(n: int) -> Seq<char>
    decreases n,
{
    if n < 10 {
        seq![dec_digit(n)]
    } else {
        dec_chars(n / 10).push(dec_digit(n % 10))
    }
}

/// `k` zero characters.
pub open spec fn zeros(k: int) -> Seq<char>
    decreases k,
{
    if k <= 0 {
        Seq::<char>::empty()
    } else {
        zeros(k - 1).push('0')
    }
}

/// The decimal spelling left-padded with zeros to at least `width`.
pub open spec fn dec_chars_pad(n: int, width: int) -> Seq<char> {
    zeros(width - dec_chars(n).len()) + dec_chars(n)
}

/// Appends one digit character.
fn append_digit(s: &mut String, d: u64)
    requires
        d < 10,
    ensures
        final(s)@ == old(s)@.push(dec_digit(d as int)),
{
    proof {
        reveal_strlit("0");
        reveal_strlit("1");
        reveal_strlit("2");
        reveal_strlit("3");
        reveal_strlit("4");
        reveal_strlit("5");
        reveal_strlit("6");
        reveal_strlit("7");
        reveal_strlit("8");
        reveal_strlit("9");
    }
    if d == 0 {
        s.append("0");
    } else if d == 1 {
        s.append("1");
    } else if d == 2 {
        s.append("2");
    } else if d == 3 {
        s.append("3");
    } else if d == 4 {
        s.append("4");
    } else if d == 5 {
        s.append("5");
    } else if d == 6 {
        s.append("6");
    } else if d == 7 {
        s.append("7");
    } else if d == 8 {
        s.append("8");
    } else {
        s.append("9");
    }
    proof {
        assert(s@ =~= old(s)@.push(dec_digit(d as int)));
    }
}

/// Appends the decimal spelling of `n`.
pub fn append_u64(s: &mut String, n: u64)
    ensures
        final(s)@ == old(s)@ + dec_chars(n as int),
    decreases n,
{
    if n < 10 {
        append_digit(s, n);
        proof {
            assert(old(s)@.push(dec_digit(n as int)) =~= old(s)@ + dec_chars(n as int));
        }
    } else {
        append_u64(s, n / 10);
        append_digit(s, n % 10);
        proof {
            assert((old(s)@ + dec_chars(n as int / 10)).push(dec_digit(n as int % 10)) =~= old(
                s,
            )@ + dec_chars(n as int));
        }
    }
}

/// The decimal spelling of `n` as a string.
pub fn u64_to_string(n: u64) -> (r: String)
    ensures
        r@ == dec_chars(n as int),
{
    let mut s = String::new();
    append_u64(&mut s, n);
    proof {
        assert(Seq::<char>::empty() + dec_chars(n as int) =~= dec_chars(n as int));
    }
    s
}

/// Appends the decimal spelling left-padded with zeros to `width`
/// (padding is only ever asked for small fields).
pub fn append_u64_pad(s: &mut String, n: u64, width: usize)
    requires
        width <= 3,
    ensures
        final(s)@ == old(s)@ + dec_chars_pad(n as int, width as int),
{
    let ghost pre = s@;
    let zs: usize = if n < 10 {
        proof {
            assert(dec_chars(n as int).len() == 1);
        }
        if width >= 1 {
            width - 1
        } else {
            0
        }
    } else if n < 100 {
        proof {
            assert(dec_chars(n as int / 10).len() == 1);
            assert(dec_chars(n as int).len() == 2);
        }
        if width >= 2 {
            width - 2
        } else {
            0
        }
    } else {
        proof {
            assert(dec_chars(n as int).len() == dec_chars(n as int / 10).len() + 1);
            assert(dec_chars(n as int / 10).len() == dec_chars(n as int / 100).len() + 1);
            assert(dec_chars(n as int / 100).len() >= 1);
        }
        0
    };
    proof {
        assert(zeros(width - dec_chars(n as int).len()) =~= zeros(zs as int));
        reveal_strlit("0");
    }
    let mut k: usize = 0;
    while k < zs
        invariant
            0 <= k <= zs,
            s@ == pre + zeros(k as int),
        decreases zs - k,
    {
        s.append("0");
        proof {
            reveal_strlit("0");
            assert(pre + zeros(k as int + 1) =~= (pre + zeros(k as int)).push('0'));
        }
        k = k + 1;
    }
    append_u64(s, n);
    proof {
        assert(pre + zeros(zs as int) + dec_chars(n as int) =~= pre + dec_chars_pad(
            n as int,
            width as int,
        ));
    }
}

/// One flag's contribution to a beat's tag name.
pub open spec fn flag_chars(on: bool, word: Seq<char>) -> Seq<char> {
    if on {
        word
    } else {
        Seq::<char>::empty()
    }
}

/// The tag name a beat's flags spell: its lanes in order, then the
/// sustain, tap and star-power marks.
pub open spec fn note_name_chars(b: BeatEvent) -> Seq<char> {
    flag_chars(b.green, "left_"@) + flag_chars(b.red, "down_"@) + flag_chars(b.yellow, "up_"@)
        + flag_chars(b.blue, "right_"@) + flag_chars(b.orange, "five_"@) + flag_chars(
        b.length > 0,
        "float_"@,
    ) + flag_chars(b.tap, "quick_"@) + flag_chars(b.star_power, "spinner_"@)
}

impl BeatEvent {
    /// The tag name this beat's flags spell.
    pub fn get_note_name(&self) -> (r: String)
        ensures
            r@ == note_name_chars(*self),
    {
        let mut s = String::new();
        if self.green {
            s.append("left_");
        }
        if self.red {
            s.append("down_");
        }
        if self.yellow {
            s.append("up_");
        }
        if self.blue {
            s.append("right_");
        }
        if self.orange {
            s.append("five_");
        }
        if self.is_sustain() {
            s.append("float_");
        }
        if self.tap {
            s.append("quick_");
        }
        if self.star_power {
            s.append("spinner_");
        }
        proof {
            assert(s@ =~= note_name_chars(*self));
        }
        s
    }
}

/// The position a beat is shown at: 2500 ms of approach time before the
/// hit, clamped at the start.
pub open spec fn show_pos(pos: u64) -> u64 {
    if pos >= 2500 {
        (pos - 2500) as u64
    } else {
        0
    }
}

/// A beat block's opening tag line.
pub open spec fn beat_open_chars(name: Seq<char>) -> Seq<char> {
    "\t<"@ + name + ">\n"@
}

/// A beat block's show line.
pub open spec fn beat_show_chars(pos: u64) -> Seq<char> {
    "\t\t<show>"@ + dec_chars(show_pos(pos) as int) + "</show>\n"@
}

/// A beat block's target line.
pub open spec fn beat_target_chars(pos: u64) -> Seq<char> {
    "\t\t<target>"@ + dec_chars(pos as int) + "</target>\n"@
}

/// A beat block's end line: present only for sustains.
pub open spec fn beat_end_chars(b: BeatEvent) -> Seq<char> {
    if b.length > 0 {
        "\t\t<end>"@ + dec_chars(b.pos + b.length) + "</end>\n"@
    } else {
        Seq::<char>::empty()
    }
}

/// A beat block's closing tag line.
pub open spec fn beat_close_chars(name: Seq<char>) -> Seq<char> {
    "\t</"@ + name + ">\n"@
}

/// The rendered block of one beat.
pub open spec fn beat_chars(b: BeatEvent) -> Seq<char> {
    let name = note_name_chars(b);
    beat_open_chars(name) + beat_show_chars(b.pos) + beat_target_chars(b.pos) + beat_end_chars(b)
        + beat_close_chars(name)
}

/// The rendered blocks of the first `i` beats.
pub open spec fn beats_chars(beats: Seq<BeatEvent>, i: int) -> Seq<char>
    decreases i,
{
    if i <= 0 {
        Seq::<char>::empty()
    } else {
        beats_chars(beats, i - 1) + beat_chars(beats[i - 1])
    }
}

/// The rendered guitar/bass document.
pub open spec fn beats_doc_chars(beats: Seq<BeatEvent>) -> Seq<char> {
    "<?xml version='1.1'?>\n"@ + "<beats>\n"@ + beats_chars(beats, beats.len() as int)
        + "</beats>\n"@
}

/// Appends a beat block's opening tag line.
fn append_beat_open(s: &mut String, name: &String)
    ensures
        final(s)@ == old(s)@ + beat_open_chars(name@),
{
    s.append("\t<");
    s.append(name.as_str());
    s.append(">\n");
    proof {
        assert(s@ =~= old(s)@ + beat_open_chars(name@));
    }
}

/// Appends a beat block's show line.
fn append_beat_show(s: &mut String, pos: u64)
    ensures
        final(s)@ == old(s)@ + beat_show_chars(pos),
{
    let show = if pos >= 2500 {
        pos - 2500
    } else {
        0
    };
    s.append("\t\t<show>");
    append_u64(s, show);
    s.append("</show>\n");
    proof {
        assert(s@ =~= old(s)@ + beat_show_chars(pos));
    }
}

/// Appends a beat block's target line.
fn append_beat_target(s: &mut String, pos: u64)
    ensures
        final(s)@ == old(s)@ + beat_target_chars(pos),
{
    s.append("\t\t<target>");
    append_u64(s, pos);
    s.append("</target>\n");
    proof {
        assert(s@ =~= old(s)@ + beat_target_chars(pos));
    }
}

/// Appends a beat block's end line for sustains.
fn append_beat_end(s: &mut String, b: &BeatEvent)
    requires
        b.pos + b.length <= u64::MAX,
    ensures
        final(s)@ == old(s)@ + beat_end_chars(*b),
{
    if b.is_sustain() {
        s.append("\t\t<end>");
        append_u64(s, b.pos + b.length);
        s.append("</end>\n");
        proof {
            assert(s@ =~= old(s)@ + beat_end_chars(*b));
        }
    } else {
        proof {
            assert(old(s)@ + beat_end_chars(*b) =~= old(s)@);
        }
    }
}

/// Appends a beat block's closing tag line.
fn append_beat_close(s: &mut String, name: &String)
    ensures
        final(s)@ == old(s)@ + beat_close_chars(name@),
{
    s.append("\t</");
    s.append(name.as_str());
    s.append(">\n");
    proof {
        assert(s@ =~= old(s)@ + beat_close_chars(name@));
    }
}

/// Appends the rendered block of one beat.
fn append_beat(s: &mut String, b: &BeatEvent)
    requires
        b.pos + b.length <= u64::MAX,
    ensures
        final(s)@ == old(s)@ + beat_chars(*b),
{
    let name = b.get_note_name();
    append_beat_open(s, &name);
    append_beat_show(s, b.pos);
    append_beat_target(s, b.pos);
    append_beat_end(s, b);
    append_beat_close(s, &name);
}

/// Appends the rendered block of one lyric line.
#[verifier::rlimit(100)]
fn append_lyric(s: &mut String, e: &LyricEvent)
    requires
        e.pos + e.length <= u64::MAX,
    ensures
        final(s)@ == old(s)@ + lyric_chars(e.pos, e.length, e.text@),
{
    s.append("\t<show>");
    append_u64(s, e.pos);
    s.append("</show>\n");
    s.append("\t<text>");
    s.append(e.text.as_str());
    s.append("</text>\n");
    s.append("\t<remove>");
    append_u64(s, e.pos + e.length);
    s.append("</remove>\n");
    proof {
        assert(s@ =~= old(s)@ + lyric_chars(e.pos, e.length, e.text@));
    }
}

/// Renders a guitar/bass beat list as its XML document text.
#[verifier::rlimit(100)]
pub fn render_beats(beats: &Vec<BeatEvent>) -> (r: String)
    requires
        forall|i: int|
            0 <= i < beats@.len() ==> (#[trigger] beats@[i]).pos + beats@[i].length <= u64::MAX,
    ensures
        r@ == beats_doc_chars(beats@),
{
    let mut s = String::new();
    s.append("<?xml version='1.1'?>\n");
    s.append("<beats>\n");
    let ghost head = s@;
    let mut i: usize = 0;
    while i < beats.len()
        invariant
            forall|k: int|
                0 <= k < beats@.len() ==> (#[trigger] beats@[k]).pos + beats@[k].length
                    <= u64::MAX,
            0 <= i <= beats@.len(),
            head == "<?xml version='1.1'?>\n"@ + "<beats>\n"@,
            s@ == head + beats_chars(beats@, i as int),
        decreases beats@.len() - i,
    {
        append_beat(&mut s, &beats[i]);
        proof {
            assert(head + beats_chars(beats@, i as int) + beat_chars(beats@[i as int]) =~= head
                + beats_chars(beats@, i as int + 1));
        }
        i = i + 1;
    }
    s.append("</beats>\n");
    proof {
        assert(s@ =~= beats_doc_chars(beats@));
    }
    s
}

/// The rendered block of one lyric line.
pub open spec fn lyric_chars(pos: u64, length: u64, text: Seq<char>) -> Seq<char> {
    "\t<show>"@ + dec_chars(pos as int) + "</show>\n"@ + "\t<text>"@ + text + "</text>\n"@
        + "\t<remove>"@ + dec_chars(pos + length) + "</remove>\n"@
}

/// The rendered blocks of the first `i` lyric lines.
pub open spec fn lyrics_chars(lyrics: Seq<LyricEvent>, i: int) -> Seq<char>
    decreases i,
{
    if i <= 0 {
        Seq::<char>::empty()
    } else {
        lyrics_chars(lyrics, i - 1) + lyric_chars(
            lyrics[i - 1].pos,
            lyrics[i - 1].length,
            lyrics[i - 1].text@,
        )
    }
}

/// The rendered vocals document.
pub open spec fn lyrics_doc_chars(lyrics: Seq<LyricEvent>) -> Seq<char> {
    "<?xml version='1.1'?>\n"@ + "<lyrics>\n"@ + lyrics_chars(lyrics, lyrics.len() as int)
        + "</lyrics>\n"@
}

/// Renders a lyric list as its XML document text.
#[verifier::rlimit(100)]
pub fn render_lyrics(lyrics: &Vec<LyricEvent>) -> (r: String)
    requires
        forall|i: int|
            0 <= i < lyrics@.len() ==> (#[trigger] lyrics@[i]).pos + lyrics@[i].length
                <= u64::MAX,
    ensures
        r@ == lyrics_doc_chars(lyrics@),
{
    let mut s = String::new();
    s.append("<?xml version='1.1'?>\n");
    s.append("<lyrics>\n");
    let ghost head = s@;
    let mut i: usize = 0;
    while i < lyrics.len()
        invariant
            forall|k: int|
                0 <= k < lyrics@.len() ==> (#[trigger] lyrics@[k]).pos + lyrics@[k].length
                    <= u64::MAX,
            0 <= i <= lyrics@.len(),
            head == "<?xml version='1.1'?>\n"@ + "<lyrics>\n"@,
            s@ == head + lyrics_chars(lyrics@, i as int),
        decreases lyrics@.len() - i,
    {
        append_lyric(&mut s, &lyrics[i]);
        proof {
            assert(head + lyrics_chars(lyrics@, i as int) + lyric_chars(
                lyrics@[i as int].pos,
                lyrics@[i as int].length,
                lyrics@[i as int].text@,
            ) =~= head + lyrics_chars(lyrics@, i as int + 1));
        }
        i = i + 1;
    }
    s.append("</lyrics>\n");
    proof {
        assert(s@ =~= lyrics_doc_chars(lyrics@));
    }
    s
}

/// One album name line of the index document.
pub open spec fn album_line_chars(i: int, album: Seq<char>) -> Seq<char> {
    "\t\t<Name"@ + dec_chars(i) + ">"@ + album + "</Name"@ + dec_chars(i) + ">\n"@
}

/// The first `i` album name lines.
pub open spec fn album_lines_chars(albums: Seq<String>, i: int) -> Seq<char>
    decreases i,
{
    if i <= 0 {
        Seq::<char>::empty()
    } else {
        album_lines_chars(albums, i - 1) + album_line_chars(i - 1, albums[i - 1]@)
    }
}

/// A song's combined pack-and-song id.
pub open spec fn full_song_id_chars(pack_id: u8, song_id: u16) -> Seq<char> {
    dec_chars_pad(pack_id as int, 2) + dec_chars_pad(song_id as int, 3)
}

/// A song block's opening: its element, artist and title lines.
pub open spec fn song_head_chars(s: XmlSong) -> Seq<char> {
    "\t\t<song_"@ + dec_chars_pad(s.song_id as int, 3) + ">\n"@ + "\t\t\t<artist>"@ + s.artist@
        + "</artist>\n"@ + "\t\t\t<title>"@ + s.title@ + "</title>\n"@
}

/// A song block's fixed difficulty and tempo-label lines.
pub open spec fn song_fixed_chars() -> Seq<char> {
    "\t\t\t<short_title></short_title>\n"@ + "\t\t\t<difficulty_easy>1</difficulty_easy>\n"@
        + "\t\t\t<difficulty_medium>2</difficulty_medium>\n"@
        + "\t\t\t<difficulty_hard>3</difficulty_hard>\n"@
        + "\t\t\t<difficulty_expert>4</difficulty_expert>\n"@ + "\t\t\t<bpm_easy>003</bpm_easy>\n"@
        + "\t\t\t<bpm_medium>002</bpm_medium>\n"@ + "\t\t\t<bpm_hard>003</bpm_hard>\n"@
}

/// A song block's album lines.
pub open spec fn song_album_chars(s: XmlSong) -> Seq<char> {
    "\t\t\t<albumID>"@ + dec_chars(s.album_idx as int) + "</albumID>\n"@
        + "\t\t\t<albumImage>CD_197237.bmp</albumImage>\n"@
        + "\t\t\t<cd_website></cd_website>\n"@ + "\t\t\t<artist_website></artist_website>\n"@
}

/// A song block's file references and closing.
pub open spec fn song_files_chars(pack_id: u8, s: XmlSong) -> Seq<char> {
    "\t\t\t<wave>GPM"@ + full_song_id_chars(pack_id, s.song_id) + ".dpo</wave>\n"@
        + "\t\t\t<lyrics>GPL"@ + full_song_id_chars(pack_id, s.song_id) + ".xml</lyrics>\n"@
        + "\t\t\t<locked>0</locked>\n"@ + "\t\t</song_"@ + dec_chars_pad(s.song_id as int, 3)
        + ">\n"@
}

/// One song's whole block.
pub open spec fn song_block_chars(pack_id: u8, s: XmlSong) -> Seq<char> {
    song_head_chars(s) + song_fixed_chars() + song_album_chars(s) + song_files_chars(pack_id, s)
}

/// The first `i` song blocks.
pub open spec fn song_blocks_chars(songs: Seq<XmlSong>, pack_id: u8, i: int) -> Seq<char>
    decreases i,
{
    if i <= 0 {
        Seq::<char>::empty()
    } else {
        song_blocks_chars(songs, pack_id, i - 1) + song_block_chars(pack_id, songs[i - 1])
    }
}

/// The rendered index document.
pub open spec fn metadata_doc_chars(
    name: Seq<char>,
    pack_id: u8,
    albums: Seq<String>,
    songs: Seq<XmlSong>,
) -> Seq<char> {
    "<?xml version=\"1.0\" encoding=\"UTF-8\" standalone=\"no\" ?>\n"@ + "<data>\n"@
        + "\t<exp_title>"@ + name + "</exp_title>\n"@
        + "\t<difficultyIcon>191042.dpa</difficultyIcon>\n"@ + "\t<albumNames>\n"@
        + album_lines_chars(albums, albums.len() as int) + "\t</albumNames>\n"@ + "\t<tracks>\n"@
        + song_blocks_chars(songs, pack_id, songs.len() as int) + "\t</tracks>\n"@
        + "</data>\n"@
}

/// Appends one album name line.
fn append_album_line(s: &mut String, i: u64, album: &String)
    ensures
        final(s)@ == old(s)@ + album_line_chars(i as int, album@),
{
    s.append("\t\t<Name");
    append_u64(s, i);
    s.append(">");
    s.append(album.as_str());
    s.append("</Name");
    append_u64(s, i);
    s.append(">\n");
    proof {
        assert(s@ =~= old(s)@ + album_line_chars(i as int, album@));
    }
}

/// Appends a song block's opening lines.
fn append_song_head(s: &mut String, e: &XmlSong)
    ensures
        final(s)@ == old(s)@ + song_head_chars(*e),
{
    s.append("\t\t<song_");
    append_u64_pad(s, e.song_id as u64, 3);
    s.append(">\n");
    s.append("\t\t\t<artist>");
    s.append(e.artist.as_str());
    s.append("</artist>\n");
    s.append("\t\t\t<title>");
    s.append(e.title.as_str());
    s.append("</title>\n");
    proof {
        assert(s@ =~= old(s)@ + song_head_chars(*e));
    }
}

/// Appends a song block's fixed lines.
fn append_song_fixed(s: &mut String)
    ensures
        final(s)@ == old(s)@ + song_fixed_chars(),
{
    s.append("\t\t\t<short_title></short_title>\n");
    s.append("\t\t\t<difficulty_easy>1</difficulty_easy>\n");
    s.append("\t\t\t<difficulty_medium>2</difficulty_medium>\n");
    s.append("\t\t\t<difficulty_hard>3</difficulty_hard>\n");
    s.append("\t\t\t<difficulty_expert>4</difficulty_expert>\n");
    s.append("\t\t\t<bpm_easy>003</bpm_easy>\n");
    s.append("\t\t\t<bpm_medium>002</bpm_medium>\n");
    s.append("\t\t\t<bpm_hard>003</bpm_hard>\n");
    proof {
        assert(s@ =~= old(s)@ + song_fixed_chars());
    }
}

/// Appends a song block's album lines.
fn append_song_album(s: &mut String, e: &XmlSong)
    ensures
        final(s)@ == old(s)@ + song_album_chars(*e),
{
    s.append("\t\t\t<albumID>");
    append_u64(s, e.album_idx as u64);
    s.append("</albumID>\n");
    s.append("\t\t\t<albumImage>CD_197237.bmp</albumImage>\n");
    s.append("\t\t\t<cd_website></cd_website>\n");
    s.append("\t\t\t<artist_website></artist_website>\n");
    proof {
        assert(s@ =~= old(s)@ + song_album_chars(*e));
    }
}

/// Appends a song block's file references and closing.
fn append_song_files(s: &mut String, pack_id: u8, e: &XmlSong)
    ensures
        final(s)@ == old(s)@ + song_files_chars(pack_id, *e),
{
    s.append("\t\t\t<wave>GPM");
    append_u64_pad(s, pack_id as u64, 2);
    append_u64_pad(s, e.song_id as u64, 3);
    s.append(".dpo</wave>\n");
    s.append("\t\t\t<lyrics>GPL");
    append_u64_pad(s, pack_id as u64, 2);
    append_u64_pad(s, e.song_id as u64, 3);
    s.append(".xml</lyrics>\n");
    s.append("\t\t\t<locked>0</locked>\n");
    s.append("\t\t</song_");
    append_u64_pad(s, e.song_id as u64, 3);
    s.append(">\n");
    proof {
        assert(s@ =~= old(s)@ + song_files_chars(pack_id, *e));
    }
}

/// Renders the index document from its data.
pub fn render_metadata(name: &String, pack_id: u8, albums: &Vec<String>, songs: &Vec<XmlSong>)
    -> (r: String)
    ensures
        r@ == metadata_doc_chars(name@, pack_id, albums@, songs@),
{
    let mut s = String::new();
    s.append("<?xml version=\"1.0\" encoding=\"UTF-8\" standalone=\"no\" ?>\n");
    s.append("<data>\n");
    s.append("\t<exp_title>");
    s.append(name.as_str());
    s.append("</exp_title>\n");
    s.append("\t<difficultyIcon>191042.dpa</difficultyIcon>\n");
    s.append("\t<albumNames>\n");
    let ghost head = s@;
    let mut i: usize = 0;
    while i < albums.len()
        invariant
            0 <= i <= albums@.len(),
            i <= u64::MAX,
            s@ == head + album_lines_chars(albums@, i as int),
        decreases albums@.len() - i,
    {
        append_album_line(&mut s, i as u64, &albums[i]);
        proof {
            assert(head + album_lines_chars(albums@, i as int) + album_line_chars(
                i as int,
                albums@[i as int]@,
            ) =~= head + album_lines_chars(albums@, i as int + 1));
        }
        i = i + 1;
    }
    s.append("\t</albumNames>\n");
    s.append("\t<tracks>\n");
    let ghost head2 = s@;
    let mut j: usize = 0;
    while j < songs.len()
        invariant
            0 <= j <= songs@.len(),
            s@ == head2 + song_blocks_chars(songs@, pack_id, j as int),
        decreases songs@.len() - j,
    {
        let ghost pre = s@;
        append_song_head(&mut s, &songs[j]);
        append_song_fixed(&mut s);
        append_song_album(&mut s, &songs[j]);
        append_song_files(&mut s, pack_id, &songs[j]);
        proof {
            assert(s@ =~= pre + song_block_chars(pack_id, songs@[j as int]));
            assert(head2 + song_blocks_chars(songs@, pack_id, j as int) + song_block_chars(
                pack_id,
                songs@[j as int],
            ) =~= head2 + song_blocks_chars(songs@, pack_id, j as int + 1));
        }
        j = j + 1;
    }
    s.append("\t</tracks>\n");
    s.append("</data>\n");
    proof {
        assert(s@ =~= metadata_doc_chars(name@, pack_id, albums@, songs@));
    }
    s
}

/// A duration in milliseconds written as zero-padded hours, minutes,
/// seconds and milliseconds.
pub open spec fn duration_chars(total: int) -> Seq<char> {
    let milli = total % 1000;
    let secs = (total / 1000) % 60;
    let mins = (total / 60000) % 60;
    let hours = (total / 3600000) % 60;
    dec_chars_pad(hours, 2) + "h:"@ + dec_chars_pad(mins, 2) + "m:"@ + dec_chars_pad(secs, 2)
        + "s:"@ + dec_chars_pad(milli, 3) + "ms"@
}

/// Writes a duration in milliseconds as `hh`h:`mm`m:`ss`s:`mmm`ms.
pub fn format_duration(total: u64) -> (r: String)
    ensures
        r@ == duration_chars(total as int),
{
    let milli = total % 1000;
    let secs = (total / 1000) % 60;
    let mins = (total / 60000) % 60;
    let hours = (total / 3600000) % 60;
    let mut s = String::new();
    append_u64_pad(&mut s, hours, 2);
    s.append("h:");
    append_u64_pad(&mut s, mins, 2);
    s.append("m:");
    append_u64_pad(&mut s, secs, 2);
    s.append("s:");
    append_u64_pad(&mut s, milli, 3);
    s.append("ms");
    proof {
        assert(s@ =~= duration_chars(total as int));
    }
    s
}

} // verus!
