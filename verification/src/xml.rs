//! Note/phrase reduction: turns annotated note events into
//! presentation-ready beat chords and lyric lines, shared by the MIDI and
//! chart-notation sources.

use vstd::prelude::*;

verus! {

use crate::midi::MidiFile;
use crate::midi::MidiNote;
use crate::midi::MidiText;
use crate::midi::MidiTrack;
use crate::midi::text_content;
use crate::midi::wf_midi_file;
use vstd::string::StrSliceExecFns;
use vstd::string::StringSliceAdditionalSpecFns;
use vstd::string::StringExecFns;

/// The three reduced track kinds a song provides.
#[derive(Clone, Copy, Debug, PartialEq, Eq, Structural)]
pub enum XmlTrackType {
    Guitar,
    Bass,
    Vocals,
}

/// The four difficulty tiers of the guitar and bass tracks.
#[derive(Clone, Copy, Debug, PartialEq, Eq, Structural)]
pub enum XmlTrackDifficulty {
    Easy,
    Medium,
    Hard,
    Expert,
}

/// One reduced beat: position and sustain length in whole milliseconds,
/// the five lane flags, and the tap and star-power marks.
#[derive(Clone, Copy, Debug, PartialEq, Eq, Structural)]
pub struct BeatEvent {
    pub pos: u64,
    pub length: u64,
    pub green: bool,
    pub red: bool,
    pub yellow: bool,
    pub blue: bool,
    pub orange: bool,
    pub tap: bool,
    pub star_power: bool,
}

/// One reduced lyric line: position and length in whole milliseconds and
/// the joined text.
#[derive(Clone, Debug)]
pub struct LyricEvent {
    pub pos: u64,
    pub length: u64,
    pub text: String,
}

/// One song's entry in a pack index.
#[derive(Clone, Debug)]
pub struct XmlSong {
    pub song_id: u16,
    pub artist: String,
    pub title: String,
    pub album_idx: u16,
}

/// A reduced track: guitar/bass beats, vocal lyrics, or pack metadata.
#[derive(Debug)]
pub enum XmlTrack {
    GuitarBass(Vec<BeatEvent>),
    Vocals(Vec<LyricEvent>),
    Metadata { name: String, pack_id: u8, albums: Vec<String>, songs: Vec<XmlSong> },
}

/// A reduced output document holding one track.
#[derive(Debug)]
pub struct XmlFile {
    pub track: XmlTrack,
}

/// A beat with the given timing and no flags set.
pub open spec fn default_beat(pos: u64, length: u64) -> BeatEvent {
    BeatEvent {
        pos,
        length,
        green: false,
        red: false,
        yellow: false,
        blue: false,
        orange: false,
        tap: false,
        star_power: false,
    }
}

/// Whether the lane flag for `lane` is set on `b`.
pub open spec fn lane_set(b: BeatEvent, lane: u8) -> bool {
    if lane == 0 {
        b.green
    } else if lane == 1 {
        b.red
    } else if lane == 2 {
        b.yellow
    } else if lane == 3 {
        b.blue
    } else if lane == 4 {
        b.orange
    } else {
        false
    }
}

/// A chord updated by one merged note: the sustain length grows to the
/// larger value, the note's lane flag is set, and the star-power and tap
/// marks are set if the note carries them. A lane outside 0 to 4 only
/// contributes its length.
pub open spec fn update_beat(note: BeatEvent, length: u64, index: u8, sp: bool, tap: bool)
    -> BeatEvent {
    let b = if note.length < length {
        BeatEvent { length, ..note }
    } else {
        note
    };
    if index > 4 {
        b
    } else {
        let b2 = if index == 0 {
            BeatEvent { green: true, ..b }
        } else if index == 1 {
            BeatEvent { red: true, ..b }
        } else if index == 2 {
            BeatEvent { yellow: true, ..b }
        } else if index == 3 {
            BeatEvent { blue: true, ..b }
        } else {
            BeatEvent { orange: true, ..b }
        };
        let b3 = if sp {
            BeatEvent { star_power: true, ..b2 }
        } else {
            b2
        };
        if tap {
            BeatEvent { tap: true, ..b3 }
        } else {
            b3
        }
    }
}

impl BeatEvent {
    /// A beat with the given timing and no flags set.
    pub fn default(pos: u64, length: u64) -> (r: BeatEvent)
        ensures
            r == default_beat(pos, length),
    {
        BeatEvent {
            pos,
            length,
            green: false,
            red: false,
            yellow: false,
            blue: false,
            orange: false,
            tap: false,
            star_power: false,
        }
    }

    /// Whether the beat holds long enough to be a sustain.
    pub fn is_sustain(&self) -> (r: bool)
        ensures
            r == (self.length > 0),
    {
        self.length > 0
    }
}

impl XmlFile {
    /// Folds one note into the chord being built.
    pub fn update_fret_beat_event(note: &mut BeatEvent, length: u64, index: u8, sp: bool, tap: bool)
        ensures
            *final(note) == update_beat(*old(note), length, index, sp, tap),
    {
        if note.length < length {
            note.length = length;
        }
        if index == 0 {
            note.green = true;
        } else if index == 1 {
            note.red = true;
        } else if index == 2 {
            note.yellow = true;
        } else if index == 3 {
            note.blue = true;
        } else if index == 4 {
            note.orange = true;
        } else {
            return ;
        }
        if sp {
            note.star_power = true;
        }
        if tap {
            note.tap = true;
        }
    }
}

// ---------------------------------------------------------------------
// the shared chord fold
// ---------------------------------------------------------------------
/// A note ready for chord reduction: tick position, position and
/// (threshold-filtered) sustain length in whole milliseconds, lane, and
/// tap mark.
#[derive(Clone, Copy, Debug, PartialEq, Eq, Structural)]
pub struct LaneNote {
    pub tick: u64,
    pub ms: u64,
    pub len_ms: u64,
    pub lane: u8,
    pub tap: bool,
}

/// Whether the half-open star-power window `[w.0, w.1)` covers `tick`.
pub open spec fn sp_covers(w: (u64, u64), tick: u64) -> bool {
    w.0 <= tick && tick < w.1
}

/// The star-power cursor advanced past every window that ends at or
/// before `tick`: the first index whose window still reaches past it.
pub open spec fn sp_advance(sps: Seq<(u64, u64)>, i: int, tick: u64) -> int
    decreases sps.len() - i,
{
    if 0 <= i < sps.len() && tick >= sps[i].1 {
        sp_advance(sps, i + 1, tick)
    } else {
        i
    }
}

/// The chord fold: notes sharing one millisecond position merge into one
/// beat (lane flags union, sustain length the maximum, star power and tap
/// if any merged note carries them); a note at a new position closes the
/// chord under construction. The star-power cursor only ever advances.
pub open spec fn beats_fold(
    notes: Seq<LaneNote>,
    sps: Seq<(u64, u64)>,
    i: int,
    spi: int,
    cur: Option<BeatEvent>,
    out: Seq<BeatEvent>,
) -> Seq<BeatEvent>
    decreases notes.len() - i,
{
    if i < 0 || i >= notes.len() {
        match cur {
            Some(b) => out.push(b),
            None => out,
        }
    } else {
        let n = notes[i];
        let spi2 = sp_advance(sps, spi, n.tick);
        let is_sp = spi2 < sps.len() && sps[spi2].0 <= n.tick;
        match cur {
            Some(b) => {
                if b.pos == n.ms {
                    beats_fold(
                        notes,
                        sps,
                        i + 1,
                        spi2,
                        Some(update_beat(b, n.len_ms, n.lane, is_sp, n.tap)),
                        out,
                    )
                } else {
                    beats_fold(
                        notes,
                        sps,
                        i + 1,
                        spi2,
                        Some(
                            update_beat(default_beat(n.ms, n.len_ms), n.len_ms, n.lane, is_sp, n.tap),
                        ),
                        out.push(b),
                    )
                }
            },
            None => beats_fold(
                notes,
                sps,
                i + 1,
                spi2,
                Some(update_beat(default_beat(n.ms, n.len_ms), n.len_ms, n.lane, is_sp, n.tap)),
                out,
            ),
        }
    }
}

/// The beats the chord fold produces for a note list and its star-power
/// windows.
pub open spec fn reduce_beats_spec(notes: Seq<LaneNote>, sps: Seq<(u64, u64)>) -> Seq<BeatEvent> {
    beats_fold(notes, sps, 0, 0, None, Seq::<BeatEvent>::empty())
}

/// Runs the chord fold.
pub fn reduce_beats(notes: &Vec<LaneNote>, sps: &Vec<(u64, u64)>) -> (r: Vec<BeatEvent>)
    ensures
        r@ =~= reduce_beats_spec(notes@, sps@),
{
    let mut out: Vec<BeatEvent> = Vec::new();
    let mut cur: Option<BeatEvent> = None;
    let mut spi: usize = 0;
    let mut i: usize = 0;
    while i < notes.len()
        invariant
            0 <= i <= notes@.len(),
            0 <= spi <= sps@.len(),
            reduce_beats_spec(notes@, sps@) == beats_fold(
                notes@,
                sps@,
                i as int,
                spi as int,
                cur,
                out@,
            ),
        decreases notes@.len() - i,
    {
        let n = notes[i];
        let ghost spi0 = spi;
        // advance the star-power cursor past spent windows
        while spi < sps.len() && n.tick >= sps[spi].1
            invariant
                0 <= spi <= sps@.len(),
                sp_advance(sps@, spi0 as int, n.tick) == sp_advance(sps@, spi as int, n.tick),
            decreases sps@.len() - spi,
        {
            spi = spi + 1;
        }
        let is_sp = spi < sps.len() && sps[spi].0 <= n.tick;
        match cur {
            Some(b) => {
                if b.pos == n.ms {
                    cur = Some(
                        {
                            let mut bb = b;
                            XmlFile::update_fret_beat_event(&mut bb, n.len_ms, n.lane, is_sp, n.tap);
                            bb
                        },
                    );
                } else {
                    out.push(b);
                    let mut bb = BeatEvent::default(n.ms, n.len_ms);
                    XmlFile::update_fret_beat_event(&mut bb, n.len_ms, n.lane, is_sp, n.tap);
                    cur = Some(bb);
                }
            },
            None => {
                let mut bb = BeatEvent::default(n.ms, n.len_ms);
                XmlFile::update_fret_beat_event(&mut bb, n.len_ms, n.lane, is_sp, n.tap);
                cur = Some(bb);
            },
        }
        i = i + 1;
    }
    if let Some(b) = cur {
        out.push(b);
    }
    out
}

// ---------------------------------------------------------------------
// syllable joining
// ---------------------------------------------------------------------
/// The syllable-join fold. A literal `+` is a rest marker contributing
/// nothing; `+-` and `+=` are rest artifacts that still suppress the
/// space before the next syllable; a syllable ending in `-` or `=`
/// continues its word (marker stripped, no space follows); one ending in
/// `#` is unpitched (marker stripped, a space follows). Words are
/// otherwise space-separated; no space is ever put before the first text.
pub open spec fn concat_from(tokens: Seq<Seq<char>>, i: int, prev: bool, acc: Seq<char>) -> Seq<
    char,
>
    decreases tokens.len() - i,
{
    if i < 0 || i >= tokens.len() {
        acc
    } else {
        let t = tokens[i];
        if t == seq!['+'] {
            concat_from(tokens, i + 1, prev, acc)
        } else if t == seq!['+', '-'] || t == seq!['+', '='] {
            concat_from(tokens, i + 1, true, acc)
        } else {
            let dash = t.len() > 0 && (t.last() == '-' || t.last() == '=');
            let unp = t.len() > 0 && t.last() == '#';
            let body = if dash || unp {
                t.drop_last()
            } else {
                t
            };
            let acc2 = if !prev && acc.len() > 0 {
                acc + seq![' ']
            } else {
                acc
            };
            concat_from(tokens, i + 1, dash, acc2 + body)
        }
    }
}

/// The text a list of syllable tokens joins into.
pub open spec fn concat_spec(tokens: Seq<Seq<char>>) -> Seq<char> {
    concat_from(tokens, 0, false, Seq::<char>::empty())
}

/// The views of a list of strings.
pub open spec fn str_views(v: Seq<String>) -> Seq<Seq<char>> {
    v.map(|i: int, s: String| s@)
}

impl XmlFile {
    /// Joins syllable tokens into one lyric line.
    pub fn concat_text(text: &Vec<String>) -> (r: String)
        ensures
            r@ == concat_spec(str_views(text@)),
    {
        let ghost toks = str_views(text@);
        let mut acc = String::new();
        let ghost mut prev_g: bool = false;
        let mut prev_concat = false;
        let mut i: usize = 0;
        while i < text.len()
            invariant
                toks == str_views(text@),
                toks.len() == text@.len(),
                forall|k: int| 0 <= k < toks.len() ==> #[trigger] toks[k] == text@[k]@,
                0 <= i <= text@.len(),
                prev_concat == prev_g,
                concat_spec(toks) == concat_from(toks, i as int, prev_g, acc@),
            decreases text@.len() - i,
        {
            let t = &text[i];
            let tlen = t.as_str().unicode_len();
            let ghost acc0 = acc@;
            let ghost p0 = prev_g;
            proof {
                assert(toks[i as int] == text@[i as int]@);
            }
            if tlen == 1 && t.as_str().get_char(0) == '+' {
                proof {
                    assert(t@ =~= seq!['+']);
                }
            } else if tlen == 2 && t.as_str().get_char(0) == '+' && (t.as_str().get_char(1) == '-'
                || t.as_str().get_char(1) == '=') {
                proof {
                    assert(t@ =~= seq!['+', t@[1]]);
                    assert(t@ == seq!['+', '-'] || t@ == seq!['+', '=']);
                }
                prev_concat = true;
                proof {
                    prev_g = true;
                }
            } else {
                proof {
                    assert(t@ != seq!['+']) by {
                        if t@ == seq!['+'] {
                            assert(t@.len() == 1);
                        }
                    }
                    assert(t@ != seq!['+', '-'] && t@ != seq!['+', '=']) by {
                        if t@ == seq!['+', '-'] || t@ == seq!['+', '='] {
                            assert(t@.len() == 2);
                            assert(t@[0] == '+');
                        }
                    }
                }
                let mut dash = false;
                let mut unp = false;
                if tlen > 0 {
                    let lastc = t.as_str().get_char(tlen - 1);
                    if lastc == '-' || lastc == '=' {
                        dash = true;
                    } else if lastc == '#' {
                        unp = true;
                    }
                }
                proof {
                    assert(dash == (t@.len() > 0 && (t@.last() == '-' || t@.last() == '=')));
                    assert(unp == (!dash && t@.len() > 0 && t@.last() == '#'));
                    assert((t@.len() > 0 && t@.last() == '#' && dash) == false);
                }
                if !prev_concat && acc.as_str().unicode_len() > 0 {
                    acc.append(" ");
                    proof {
                        reveal_strlit(" ");
                        assert(" "@ =~= seq![' ']);
                        assert(acc@ == acc0 + seq![' ']);
                    }
                }
                if dash || unp {
                    let body = t.as_str().substring_char(0, tlen - 1);
                    proof {
                        assert(body@ =~= t@.drop_last());
                    }
                    acc.append(body);
                } else {
                    acc.append(t.as_str());
                }
                prev_concat = dash;
                proof {
                    prev_g = dash;
                    let acc2 = if !p0 && acc0.len() > 0 {
                        acc0 + seq![' ']
                    } else {
                        acc0
                    };
                    let body = if dash || unp {
                        toks[i as int].drop_last()
                    } else {
                        toks[i as int]
                    };
                    assert(acc@ == acc2 + body);
                    assert(concat_from(toks, i as int, p0, acc0) == concat_from(
                        toks,
                        i as int + 1,
                        dash,
                        acc2 + body,
                    ));
                }
            }
            i = i + 1;
        }
        acc
    }
}

// ---------------------------------------------------------------------
// selection: from the MIDI document
// ---------------------------------------------------------------------
/// The lowest lane pitch of each difficulty tier.
pub open spec fn difficulty_offset(d: XmlTrackDifficulty) -> u8 {
    match d {
        XmlTrackDifficulty::Easy => 60,
        XmlTrackDifficulty::Medium => 72,
        XmlTrackDifficulty::Hard => 84,
        XmlTrackDifficulty::Expert => 96,
    }
}

/// The requested difficulty, defaulting to Expert.
pub open spec fn diff_of(o: Option<XmlTrackDifficulty>) -> XmlTrackDifficulty {
    match o {
        Some(d) => d,
        None => XmlTrackDifficulty::Expert,
    }
}

/// The MIDI pitch that marks a star-power span.
pub const SP_PITCH: u8 = 116;

/// A position's whole milliseconds from its exact units at resolution
/// `tpq`.
pub open spec fn ms_of(units: u64, tpq: u16) -> u64 {
    (units as int / (1000 * tpq as int)) as u64
}

/// The sustain length in whole milliseconds: the note's real span where
/// its tick length exceeds the 16th-note threshold `tpq / 4`, else 0 (a
/// tap hit, not a hold).
pub open spec fn sustain_len_ms(tick_length: u64, length_units: u64, tpq: u16) -> u64 {
    if tick_length > (tpq / 4) as u64 {
        (length_units as int / (1000 * tpq as int)) as u64
    } else {
        0
    }
}

/// Law: a tick length at or below the 16th-note threshold yields no
/// sustain; one above it propagates the note's real span.
pub proof fn lemma_sustain_threshold(tick_length: u64, length_units: u64, tpq: u16)
    requires
        tpq >= 1,
    ensures
        tick_length <= (tpq / 4) as u64 ==> sustain_len_ms(tick_length, length_units, tpq) == 0,
        tick_length > (tpq / 4) as u64 ==> sustain_len_ms(tick_length, length_units, tpq)
            == (length_units as int / (1000 * tpq as int)) as u64,
{
}

/// First track whose name's UTF-8 encoding is `nb`, or -1.
pub open spec fn track_index(tracks: Seq<MidiTrack>, nb: Seq<u8>, i: int) -> int
    decreases tracks.len() - i,
{
    if i < 0 || i >= tracks.len() {
        -1
    } else {
        match tracks[i].name {
            Some(nm) => if vstd::utf8::encode_utf8(nm@) == nb {
                i
            } else {
                track_index(tracks, nb, i + 1)
            },
            None => track_index(tracks, nb, i + 1),
        }
    }
}

/// The lane notes a MIDI track's notes yield for a difficulty: notes in
/// the five-lane pitch range, with millisecond position and
/// threshold-filtered sustain length.
pub open spec fn midi_lane_notes(notes: Seq<MidiNote>, off: u8, tpq: u16) -> Seq<LaneNote>
    decreases notes.len(),
{
    if notes.len() == 0 {
        Seq::<LaneNote>::empty()
    } else {
        let rest = midi_lane_notes(notes.drop_last(), off, tpq);
        let n = notes.last();
        if off <= n.pitch && n.pitch <= off + 4 {
            rest.push(
                LaneNote {
                    tick: n.pos,
                    ms: ms_of(n.pos_units, tpq),
                    len_ms: sustain_len_ms(n.length, n.length_units, tpq),
                    lane: (n.pitch - off) as u8,
                    tap: false,
                },
            )
        } else {
            rest
        }
    }
}

/// The star-power windows a MIDI track's notes yield, as half-open
/// `[start, end)` tick spans.
pub open spec fn midi_sp_windows(notes: Seq<MidiNote>) -> Seq<(u64, u64)>
    decreases notes.len(),
{
    if notes.len() == 0 {
        Seq::<(u64, u64)>::empty()
    } else {
        let rest = midi_sp_windows(notes.drop_last());
        let n = notes.last();
        if n.pitch == SP_PITCH {
            rest.push((n.pos, (n.pos + n.length) as u64))
        } else {
            rest
        }
    }
}

/// The reduced beats of a MIDI document's guitar or bass track.
pub open spec fn midi_guitar_beats(mid: MidiFile, is_bass: bool, d: XmlTrackDifficulty) -> Seq<
    BeatEvent,
> {
    let nb = if is_bass {
        "PART BASS".spec_bytes()
    } else {
        "PART GUITAR".spec_bytes()
    };
    let ti = track_index(mid.tracks@, nb, 0);
    if ti < 0 {
        Seq::<BeatEvent>::empty()
    } else {
        let notes = mid.tracks@[ti].notes@;
        reduce_beats_spec(
            midi_lane_notes(notes, difficulty_offset(d), mid.ticks_per_quarter),
            midi_sp_windows(notes),
        )
    }
}

/// First track whose name encodes to `nb`.
fn find_midi_track(tracks: &Vec<MidiTrack>, nb: &[u8]) -> (r: Option<usize>)
    ensures
        track_index(tracks@, nb@, 0) < 0 <==> r is None,
        r matches Some(ix) ==> ix as int == track_index(tracks@, nb@, 0) && ix < tracks@.len(),
{
    let mut i: usize = 0;
    while i < tracks.len()
        invariant
            0 <= i <= tracks@.len(),
            track_index(tracks@, nb@, 0) == track_index(tracks@, nb@, i as int),
        decreases tracks@.len() - i,
    {
        let hit = match &tracks[i].name {
            Some(nm) => crate::chart_parser::bytes_eq(nm.as_str().as_bytes(), nb),
            None => false,
        };
        if hit {
            return Some(i);
        }
        i = i + 1;
    }
    None
}

/// Selects and reduces one guitar/bass difficulty from a MIDI document.
fn guitar_beats_from_midi(mid: &MidiFile, is_bass: bool, d: XmlTrackDifficulty) -> (r: Vec<
    BeatEvent,
>)
    requires
        wf_midi_file(*mid),
    ensures
        r@ =~= midi_guitar_beats(*mid, is_bass, d),
{
    let name: &str = if is_bass {
        "PART BASS"
    } else {
        "PART GUITAR"
    };
    let ti = match find_midi_track(&mid.tracks, name.as_bytes()) {
        Some(ix) => ix,
        None => {
            return Vec::new();
        },
    };
    let track = &mid.tracks[ti];
    let ghost ns = track.notes@;
    let tpq = mid.ticks_per_quarter;
    let off = match d {
        XmlTrackDifficulty::Easy => 60u8,
        XmlTrackDifficulty::Medium => 72u8,
        XmlTrackDifficulty::Hard => 84u8,
        XmlTrackDifficulty::Expert => 96u8,
    };
    let sustain_length = (tpq / 4) as u64;
    let mut lane_notes: Vec<LaneNote> = Vec::new();
    let mut sps: Vec<(u64, u64)> = Vec::new();
    let mut i: usize = 0;
    while i < track.notes.len()
        invariant
            track.notes@ == ns,
            wf_midi_file(*mid),
            mid.tracks@[ti as int].notes@ == ns,
            ti < mid.tracks@.len(),
            tpq == mid.ticks_per_quarter,
            tpq >= 1,
            off == difficulty_offset(d),
            sustain_length == (tpq / 4) as u64,
            0 <= i <= ns.len(),
            lane_notes@ =~= midi_lane_notes(ns.take(i as int), off, tpq),
            sps@ =~= midi_sp_windows(ns.take(i as int)),
        decreases ns.len() - i,
    {
        proof {
            assert(ns.take(i as int + 1).drop_last() =~= ns.take(i as int));
            assert(ns.take(i as int + 1).last() == ns[i as int]);
            assert(track_bounds_at(*mid, ti as int, i as int));
        }
        let n = track.notes[i];
        if off <= n.pitch && n.pitch <= off + 4 {
            let len_ms = if n.length > sustain_length {
                crate::tempo::units_to_ms(n.length_units, tpq)
            } else {
                0
            };
            lane_notes.push(
                LaneNote {
                    tick: n.pos,
                    ms: crate::tempo::units_to_ms(n.pos_units, tpq),
                    len_ms,
                    lane: n.pitch - off,
                    tap: false,
                },
            );
        }
        if n.pitch == SP_PITCH {
            sps.push((n.pos, n.pos + n.length));
        }
        i = i + 1;
    }
    proof {
        assert(ns.take(ns.len() as int) =~= ns);
    }
    reduce_beats(&lane_notes, &sps)
}

/// The bound of one note of one track, as the file invariant gives it.
pub open spec fn track_bounds_at(mid: MidiFile, t: int, j: int) -> bool {
    0 <= t < mid.tracks@.len() && 0 <= j < mid.tracks@[t].notes@.len()
        ==> mid.tracks@[t].notes@[j].pos + mid.tracks@[t].notes@[j].length <= crate::MAX_TICK
}

// ---------------------------------------------------------------------
// selection: from the chart document
// ---------------------------------------------------------------------
use crate::chart::GuitarEvent;
use crate::chart::GuitarEventType;
use crate::chart::GuitarTrack;
use crate::chart::SongChart;
use crate::chart::wf_chart;

/// The slot index of a difficulty within an instrument block.
pub open spec fn diff_index(d: XmlTrackDifficulty) -> int {
    match d {
        XmlTrackDifficulty::Easy => 0,
        XmlTrackDifficulty::Medium => 1,
        XmlTrackDifficulty::Hard => 2,
        XmlTrackDifficulty::Expert => 3,
    }
}

/// The tick positions of a chart track's tap markers.
pub open spec fn tap_ticks_of(events: Seq<GuitarEvent>) -> Seq<u64>
    decreases events.len(),
{
    if events.len() == 0 {
        Seq::<u64>::empty()
    } else {
        let rest = tap_ticks_of(events.drop_last());
        if events.last().value is Tap {
            rest.push(events.last().pos)
        } else {
            rest
        }
    }
}

/// The lane notes a chart track's events yield: fret notes on lanes 0 to
/// 4, tap-marked where a tap marker shares their tick.
pub open spec fn chart_lane_notes(events: Seq<GuitarEvent>, res: u16, taps: Seq<u64>) -> Seq<
    LaneNote,
>
    decreases events.len(),
{
    if events.len() == 0 {
        Seq::<LaneNote>::empty()
    } else {
        let rest = chart_lane_notes(events.drop_last(), res, taps);
        let e = events.last();
        match e.value {
            GuitarEventType::Note(n) => if n <= 4 {
                rest.push(
                    LaneNote {
                        tick: e.pos,
                        ms: ms_of(e.pos_units, res),
                        len_ms: sustain_len_ms(e.length, e.length_units, res),
                        lane: n as u8,
                        tap: taps.contains(e.pos),
                    },
                )
            } else {
                rest
            },
            _ => rest,
        }
    }
}

/// The star-power windows a chart track's events yield.
pub open spec fn chart_sp_windows(events: Seq<GuitarEvent>) -> Seq<(u64, u64)>
    decreases events.len(),
{
    if events.len() == 0 {
        Seq::<(u64, u64)>::empty()
    } else {
        let rest = chart_sp_windows(events.drop_last());
        let e = events.last();
        if e.value is Starpower {
            rest.push((e.pos, (e.pos + e.length) as u64))
        } else {
            rest
        }
    }
}

/// First chart track whose name encodes to `nb`, or -1.
pub open spec fn chart_track_index(tracks: Seq<GuitarTrack>, nb: Seq<u8>, i: int) -> int
    decreases tracks.len() - i,
{
    if i < 0 || i >= tracks.len() {
        -1
    } else if vstd::utf8::encode_utf8(tracks[i].name@) == nb {
        i
    } else {
        chart_track_index(tracks, nb, i + 1)
    }
}

/// The reduced beats of one chart track.
pub open spec fn chart_track_beats(c: SongChart, ti: int) -> Seq<BeatEvent> {
    let events = c.guitar_tracks@[ti].events@;
    reduce_beats_spec(
        chart_lane_notes(events, c.resolution, tap_ticks_of(events)),
        chart_sp_windows(events),
    )
}

/// The reduced beats of a chart's guitar or bass selection: the guitar
/// uses the standard slot; the bass uses its slot, falling back to the
/// rhythm-guitar slot; a missing track yields no beats (and no error).
pub open spec fn chart_guitar_beats(c: SongChart, is_bass: bool, d: XmlTrackDifficulty) -> Seq<
    BeatEvent,
> {
    if !is_bass {
        let ti = chart_track_index(
            c.guitar_tracks@,
            crate::chart_parser::track_name_bytes(diff_index(d)),
            0,
        );
        if ti < 0 {
            Seq::<BeatEvent>::empty()
        } else {
            chart_track_beats(c, ti)
        }
    } else {
        let ti = chart_track_index(
            c.guitar_tracks@,
            crate::chart_parser::track_name_bytes(4 + diff_index(d)),
            0,
        );
        if ti >= 0 {
            chart_track_beats(c, ti)
        } else {
            let ri = chart_track_index(
                c.guitar_tracks@,
                crate::chart_parser::track_name_bytes(8 + diff_index(d)),
                0,
            );
            if ri < 0 {
                Seq::<BeatEvent>::empty()
            } else {
                chart_track_beats(c, ri)
            }
        }
    }
}

/// First chart track named by the given bytes.
fn find_chart_track(tracks: &Vec<GuitarTrack>, nb: &Vec<u8>) -> (r: Option<usize>)
    ensures
        chart_track_index(tracks@, nb@, 0) < 0 <==> r is None,
        r matches Some(ix) ==> ix as int == chart_track_index(tracks@, nb@, 0) && ix
            < tracks@.len(),
{
    let mut i: usize = 0;
    while i < tracks.len()
        invariant
            0 <= i <= tracks@.len(),
            chart_track_index(tracks@, nb@, 0) == chart_track_index(tracks@, nb@, i as int),
        decreases tracks@.len() - i,
    {
        if crate::chart_parser::bytes_eq(tracks[i].name.as_str().as_bytes(), nb.as_slice()) {
            return Some(i);
        }
        i = i + 1;
    }
    None
}

/// Reduces one chart track's events into beats.
fn reduce_chart_track(c: &SongChart, ti: usize) -> (r: Vec<BeatEvent>)
    requires
        wf_chart(*c),
        ti < c.guitar_tracks@.len(),
    ensures
        r@ =~= chart_track_beats(*c, ti as int),
{
    let track = &c.guitar_tracks[ti];
    let ghost es = track.events@;
    let res = c.resolution;
    let sustain_length = (res / 4) as u64;

    // the tap markers' ticks
    let mut taps: Vec<u64> = Vec::new();
    let mut i: usize = 0;
    while i < track.events.len()
        invariant
            track.events@ == es,
            0 <= i <= es.len(),
            taps@ =~= tap_ticks_of(es.take(i as int)),
        decreases es.len() - i,
    {
        proof {
            assert(es.take(i as int + 1).drop_last() =~= es.take(i as int));
            assert(es.take(i as int + 1).last() == es[i as int]);
        }
        match track.events[i].value {
            GuitarEventType::Tap => {
                taps.push(track.events[i].pos);
            },
            _ => {},
        }
        i = i + 1;
    }
    proof {
        assert(es.take(es.len() as int) =~= es);
    }

    // lane notes and star-power windows
    let mut lane_notes: Vec<LaneNote> = Vec::new();
    let mut sps: Vec<(u64, u64)> = Vec::new();
    let mut j: usize = 0;
    while j < track.events.len()
        invariant
            track.events@ == es,
            wf_chart(*c),
            ti < c.guitar_tracks@.len(),
            c.guitar_tracks@[ti as int].events@ == es,
            res == c.resolution,
            res >= 1,
            sustain_length == (res / 4) as u64,
            taps@ =~= tap_ticks_of(es),
            0 <= j <= es.len(),
            lane_notes@ =~= chart_lane_notes(es.take(j as int), res, tap_ticks_of(es)),
            sps@ =~= chart_sp_windows(es.take(j as int)),
        decreases es.len() - j,
    {
        proof {
            assert(es.take(j as int + 1).drop_last() =~= es.take(j as int));
            assert(es.take(j as int + 1).last() == es[j as int]);
        }
        let e = track.events[j];
        match e.value {
            GuitarEventType::Note(n) => {
                if n <= 4 {
                    let len_ms = if e.length > sustain_length {
                        crate::tempo::units_to_ms(e.length_units, res)
                    } else {
                        0
                    };
                    let is_tap = contains_tick(&taps, e.pos);
                    proof {
                        assert(taps@ == tap_ticks_of(es));
                    }
                    lane_notes.push(
                        LaneNote {
                            tick: e.pos,
                            ms: crate::tempo::units_to_ms(e.pos_units, res),
                            len_ms,
                            lane: n as u8,
                            tap: is_tap,
                        },
                    );
                }
            },
            GuitarEventType::Starpower => {
                sps.push((e.pos, e.pos + e.length));
            },
            _ => {},
        }
        j = j + 1;
    }
    proof {
        assert(es.take(es.len() as int) =~= es);
    }
    reduce_beats(&lane_notes, &sps)
}

/// Whether the tick list holds `x`.
fn contains_tick(v: &Vec<u64>, x: u64) -> (r: bool)
    ensures
        r == v@.contains(x),
{
    let mut i: usize = 0;
    while i < v.len()
        invariant
            0 <= i <= v@.len(),
            forall|k: int| 0 <= k < i ==> #[trigger] v@[k] != x,
        decreases v@.len() - i,
    {
        if v[i] == x {
            return true;
        }
        i = i + 1;
    }
    proof {
        if v@.contains(x) {
            let k = choose|k: int| 0 <= k < v@.len() && v@[k] == x;
        }
    }
    false
}

// ---------------------------------------------------------------------
// the reduction laws
// ---------------------------------------------------------------------
/// Law: star-power coverage is half-open. A lone note at a window's end
/// tick is not marked; one at its start tick is, whenever the window is
/// nonempty.
pub proof fn lemma_star_power_boundary(n: LaneNote, w: (u64, u64))
    requires
        n.lane <= 4,
    ensures
        reduce_beats_spec(seq![n], seq![w]).len() == 1,
        reduce_beats_spec(seq![n], seq![w])[0].star_power == sp_covers(w, n.tick),
        n.tick == w.1 ==> !reduce_beats_spec(seq![n], seq![w])[0].star_power,
        n.tick == w.0 && w.0 < w.1 ==> reduce_beats_spec(seq![n], seq![w])[0].star_power,
{
    let notes = seq![n];
    let sps = seq![w];
    assert(sp_advance(sps, 1, n.tick) == 1);
    if n.tick >= w.1 {
        assert(sp_advance(sps, 0, n.tick) == 1);
    } else {
        assert(sp_advance(sps, 0, n.tick) == 0);
    }
    let b = update_beat(
        default_beat(n.ms, n.len_ms),
        n.len_ms,
        n.lane,
        sp_covers(w, n.tick),
        n.tap,
    );
    assert(beats_fold(notes, sps, 1, sp_advance(sps, 0, n.tick), Some(b), Seq::<
        BeatEvent,
    >::empty()) =~= seq![b]);
    assert(reduce_beats_spec(notes, sps) =~= seq![b]);
    assert(b.star_power == sp_covers(w, n.tick));
}

/// The star-power cursor's position when the fold reaches note `i`.
pub open spec fn sp_cursor_at(notes: Seq<LaneNote>, sps: Seq<(u64, u64)>, i: int) -> int
    decreases i,
{
    if i <= 0 {
        0
    } else {
        sp_advance(sps, sp_cursor_at(notes, sps, i - 1), notes[i - 1].tick)
    }
}

/// What advancing the cursor leaves behind and stops at.
proof fn lemma_sp_advance_range(sps: Seq<(u64, u64)>, i: int, tick: u64)
    requires
        0 <= i <= sps.len(),
    ensures
        i <= sp_advance(sps, i, tick) <= sps.len(),
        forall|w: int| i <= w < sp_advance(sps, i, tick) ==> (#[trigger] sps[w]).1 <= tick,
        sp_advance(sps, i, tick) < sps.len() ==> tick < sps[sp_advance(sps, i, tick)].1,
    decreases sps.len() - i,
{
    if 0 <= i < sps.len() && tick >= sps[i].1 {
        lemma_sp_advance_range(sps, i + 1, tick);
    }
}

/// Along tick-ordered notes, every window the cursor has passed ended at
/// or before the previous note.
proof fn lemma_sp_cursor_spent(notes: Seq<LaneNote>, sps: Seq<(u64, u64)>, i: int)
    requires
        0 <= i <= notes.len(),
        forall|a: int, b: int|
            0 <= a <= b < notes.len() ==> (#[trigger] notes[a]).tick <= (#[trigger] notes[b]).tick,
    ensures
        0 <= sp_cursor_at(notes, sps, i) <= sps.len(),
        forall|w: int|
            0 <= w < sp_cursor_at(notes, sps, i) ==> i > 0 && (#[trigger] sps[w]).1 <= notes[i
                - 1].tick,
    decreases i,
{
    if i > 0 {
        lemma_sp_cursor_spent(notes, sps, i - 1);
        let c = sp_cursor_at(notes, sps, i - 1);
        lemma_sp_advance_range(sps, c, notes[i - 1].tick);
        assert forall|w: int| 0 <= w < sp_cursor_at(notes, sps, i) implies i > 0 && (
        #[trigger] sps[w]).1 <= notes[i - 1].tick by {
            if w < c {
                assert(sps[w].1 <= notes[i - 2].tick);
                assert(notes[i - 2].tick <= notes[i - 1].tick);
            }
        }
    }
}

/// Law: with notes in tick order and star-power windows in start order,
/// the forward-only cursor marks exactly the notes that some window
/// covers — advancing never loses coverage and never invents it.
pub proof fn lemma_star_power_cursor_exact(notes: Seq<LaneNote>, sps: Seq<(u64, u64)>, i: int)
    requires
        0 <= i < notes.len(),
        forall|a: int, b: int|
            0 <= a <= b < notes.len() ==> (#[trigger] notes[a]).tick <= (#[trigger] notes[b]).tick,
        forall|a: int, b: int|
            0 <= a <= b < sps.len() ==> (#[trigger] sps[a]).0 <= (#[trigger] sps[b]).0,
    ensures
        ({
            let spi2 = sp_advance(sps, sp_cursor_at(notes, sps, i), notes[i].tick);
            (spi2 < sps.len() && sps[spi2].0 <= notes[i].tick) == exists|w: int|
                0 <= w < sps.len() && sp_covers(#[trigger] sps[w], notes[i].tick)
        }),
{
    let tick = notes[i].tick;
    let c = sp_cursor_at(notes, sps, i);
    lemma_sp_cursor_spent(notes, sps, i);
    lemma_sp_advance_range(sps, c, tick);
    let spi2 = sp_advance(sps, c, tick);
    if spi2 < sps.len() && sps[spi2].0 <= tick {
        // the cursor's window covers the note
        assert(sp_covers(sps[spi2], tick));
    } else {
        // no window covers the note: spent ones ended, skipped ones ended,
        // and later ones start past it
        assert forall|w: int| 0 <= w < sps.len() implies !sp_covers(#[trigger] sps[w], tick) by {
            if w < c {
                assert(sps[w].1 <= notes[i - 1].tick);
                assert(notes[i - 1].tick <= tick);
            } else if w < spi2 {
                assert(sps[w].1 <= tick);
            } else if w == spi2 {
            } else {
                assert(sps[spi2].0 <= sps[w].0);
                if spi2 < sps.len() {
                    assert(sps[w].0 > tick);
                }
            }
        }
    }
}

/// Selecting from tick-ordered MIDI notes keeps the lane notes and the
/// star-power windows tick-ordered, below the last note's position.
proof fn lemma_midi_selection_sorted(notes: Seq<MidiNote>, off: u8, tpq: u16)
    requires
        forall|a: int, b: int|
            0 <= a <= b < notes.len() ==> (#[trigger] notes[a]).pos <= (#[trigger] notes[b]).pos,
    ensures
        forall|a: int, b: int|
            0 <= a <= b < midi_lane_notes(notes, off, tpq).len() ==> (#[trigger] midi_lane_notes(
                notes,
                off,
                tpq,
            )[a]).tick <= (#[trigger] midi_lane_notes(notes, off, tpq)[b]).tick,
        forall|a: int, b: int|
            0 <= a <= b < midi_sp_windows(notes).len() ==> (#[trigger] midi_sp_windows(
                notes,
            )[a]).0 <= (#[trigger] midi_sp_windows(notes)[b]).0,
        notes.len() > 0 ==> forall|k: int|
            0 <= k < midi_lane_notes(notes, off, tpq).len() ==> (#[trigger] midi_lane_notes(
                notes,
                off,
                tpq,
            )[k]).tick <= notes.last().pos,
        notes.len() > 0 ==> forall|k: int|
            0 <= k < midi_sp_windows(notes).len() ==> (#[trigger] midi_sp_windows(notes)[k]).0
                <= notes.last().pos,
    decreases notes.len(),
{
    if notes.len() > 0 {
        let s0 = notes.drop_last();
        assert(forall|a: int, b: int|
            0 <= a <= b < s0.len() ==> (#[trigger] s0[a]).pos <= (#[trigger] s0[b]).pos);
        lemma_midi_selection_sorted(s0, off, tpq);
        if s0.len() > 0 {
            assert(s0.last() == notes[notes.len() - 2]);
            assert(notes[notes.len() - 2].pos <= notes.last().pos);
        }
        let lane = midi_lane_notes(notes, off, tpq);
        let rest = midi_lane_notes(s0, off, tpq);
        assert forall|a: int, b: int| 0 <= a <= b < lane.len() implies (#[trigger] lane[a]).tick
            <= (#[trigger] lane[b]).tick by {
            if b < rest.len() {
                assert(lane[a] == rest[a] && lane[b] == rest[b]);
            } else if a < rest.len() {
                assert(lane[a] == rest[a]);
            }
        }
        let sp = midi_sp_windows(notes);
        let sprest = midi_sp_windows(s0);
        assert forall|a: int, b: int| 0 <= a <= b < sp.len() implies (#[trigger] sp[a]).0 <= (
        #[trigger] sp[b]).0 by {
            if b < sprest.len() {
                assert(sp[a] == sprest[a] && sp[b] == sprest[b]);
            } else if a < sprest.len() {
                assert(sp[a] == sprest[a]);
            }
        }
    }
}

/// Law: in a tick-ordered MIDI track, the reduction's star-power cursor
/// marks exactly the lane notes that some star-power span covers.
pub proof fn lemma_midi_star_power_exact(notes: Seq<MidiNote>, off: u8, tpq: u16, i: int)
    requires
        forall|a: int, b: int|
            0 <= a <= b < notes.len() ==> (#[trigger] notes[a]).pos <= (#[trigger] notes[b]).pos,
        0 <= i < midi_lane_notes(notes, off, tpq).len(),
    ensures
        ({
            let lane = midi_lane_notes(notes, off, tpq);
            let sps = midi_sp_windows(notes);
            let spi2 = sp_advance(sps, sp_cursor_at(lane, sps, i), lane[i].tick);
            (spi2 < sps.len() && sps[spi2].0 <= lane[i].tick) == exists|w: int|
                0 <= w < sps.len() && sp_covers(#[trigger] sps[w], lane[i].tick)
        }),
{
    lemma_midi_selection_sorted(notes, off, tpq);
    lemma_star_power_cursor_exact(
        midi_lane_notes(notes, off, tpq),
        midi_sp_windows(notes),
        i,
    );
}

/// Law: two notes at one millisecond position merge into exactly one
/// beat carrying both lane flags, the larger sustain length, and a tap
/// mark if either note has one.
pub proof fn lemma_chord_merge(a: LaneNote, b: LaneNote)
    requires
        a.ms == b.ms,
        a.lane <= 4,
        b.lane <= 4,
    ensures
        reduce_beats_spec(seq![a, b], Seq::<(u64, u64)>::empty()).len() == 1,
        ({
            let bt = reduce_beats_spec(seq![a, b], Seq::<(u64, u64)>::empty())[0];
            &&& bt.pos == a.ms
            &&& bt.length == (if a.len_ms >= b.len_ms {
                a.len_ms
            } else {
                b.len_ms
            })
            &&& lane_set(bt, a.lane)
            &&& lane_set(bt, b.lane)
            &&& bt.tap == (a.tap || b.tap)
            &&& !bt.star_power
        }),
{
    let notes = seq![a, b];
    let sps = Seq::<(u64, u64)>::empty();
    assert(sp_advance(sps, 0, a.tick) == 0);
    assert(sp_advance(sps, 0, b.tick) == 0);
    let b1 = update_beat(default_beat(a.ms, a.len_ms), a.len_ms, a.lane, false, a.tap);
    let b2 = update_beat(b1, b.len_ms, b.lane, false, b.tap);
    assert(notes[0] == a);
    assert(notes[1] == b);
    assert(b1.pos == a.ms);
    assert(beats_fold(notes, sps, 2, 0, Some(b2), Seq::<BeatEvent>::empty()) =~= seq![b2]);
    assert(beats_fold(notes, sps, 1, 0, Some(b1), Seq::<BeatEvent>::empty()) == beats_fold(
        notes,
        sps,
        2,
        0,
        Some(b2),
        Seq::<BeatEvent>::empty(),
    ));
    assert(beats_fold(notes, sps, 0, 0, None, Seq::<BeatEvent>::empty()) == beats_fold(
        notes,
        sps,
        1,
        0,
        Some(b1),
        Seq::<BeatEvent>::empty(),
    ));
    assert(reduce_beats_spec(notes, sps) =~= seq![b2]);
}

// ---------------------------------------------------------------------
// vocal reduction
// ---------------------------------------------------------------------
/// The phrase-marker notes of a vocal track (pitch 105 or 106).
pub open spec fn phrase_notes(notes: Seq<MidiNote>) -> Seq<MidiNote>
    decreases notes.len(),
{
    if notes.len() == 0 {
        Seq::<MidiNote>::empty()
    } else {
        let rest = phrase_notes(notes.drop_last());
        let n = notes.last();
        if 105 <= n.pitch && n.pitch <= 106 {
            rest.push(n)
        } else {
            rest
        }
    }
}

/// The lyric text events of a track, as `(tick, characters)`.
pub open spec fn lyric_pairs(texts: Seq<MidiText>) -> Seq<(u64, Seq<char>)>
    decreases texts.len(),
{
    if texts.len() == 0 {
        Seq::<(u64, Seq<char>)>::empty()
    } else {
        let rest = lyric_pairs(texts.drop_last());
        let t = texts.last();
        if t.text is Lyric {
            rest.push((t.pos, text_content(t.text)))
        } else {
            rest
        }
    }
}

/// The lyric cursor advanced to the first syllable at or past `end`.
pub open spec fn lyric_upto(lyr: Seq<(u64, Seq<char>)>, li: int, end: u64) -> int
    decreases lyr.len() - li,
{
    if 0 <= li < lyr.len() && lyr[li].0 < end {
        lyric_upto(lyr, li + 1, end)
    } else {
        li
    }
}

/// The phrase fold: each phrase marker consumes every remaining syllable
/// before its end tick and joins them into one line; phrases that gather
/// no syllables are dropped. Results are `(position ms, length ms,
/// text)`.
pub open spec fn lyrics_fold(
    phrases: Seq<MidiNote>,
    lyr: Seq<(u64, Seq<char>)>,
    i: int,
    li: int,
    tpq: u16,
    out: Seq<(u64, u64, Seq<char>)>,
) -> Seq<(u64, u64, Seq<char>)>
    decreases phrases.len() - i,
{
    if i < 0 || i >= phrases.len() {
        out
    } else {
        let ph = phrases[i];
        let end = (ph.pos + ph.length) as u64;
        let li2 = lyric_upto(lyr, li, end);
        let toks = lyr.subrange(if li < 0 {
            0
        } else {
            li
        }, if li2 > lyr.len() {
            lyr.len() as int
        } else {
            li2
        }).map(|k: int, p: (u64, Seq<char>)| p.1);
        if toks.len() == 0 {
            lyrics_fold(phrases, lyr, i + 1, li2, tpq, out)
        } else {
            lyrics_fold(
                phrases,
                lyr,
                i + 1,
                li2,
                tpq,
                out.push((ms_of(ph.pos_units, tpq), ms_of(ph.length_units, tpq), concat_spec(toks))),
            )
        }
    }
}

/// The reduced lyric lines of a MIDI document's vocal track.
pub open spec fn midi_vocal_lyrics(mid: MidiFile) -> Seq<(u64, u64, Seq<char>)> {
    let ti = track_index(mid.tracks@, "PART VOCALS".spec_bytes(), 0);
    if ti < 0 {
        Seq::<(u64, u64, Seq<char>)>::empty()
    } else {
        lyrics_fold(
            phrase_notes(mid.tracks@[ti].notes@),
            lyric_pairs(mid.tracks@[ti].texts@),
            0,
            0,
            mid.ticks_per_quarter,
            Seq::<(u64, u64, Seq<char>)>::empty(),
        )
    }
}

/// Selects and reduces the vocal track of a MIDI document.
#[verifier::rlimit(100)]
fn vocal_lyrics_from_midi(mid: &MidiFile) -> (r: Vec<LyricEvent>)
    requires
        wf_midi_file(*mid),
    ensures
        r@.len() == midi_vocal_lyrics(*mid).len(),
        forall|k: int|
            0 <= k < r@.len() ==> {
                &&& (#[trigger] r@[k]).pos == midi_vocal_lyrics(*mid)[k].0
                &&& r@[k].length == midi_vocal_lyrics(*mid)[k].1
                &&& r@[k].text@ == midi_vocal_lyrics(*mid)[k].2
            },
{
    let ti = match find_midi_track(&mid.tracks, "PART VOCALS".as_bytes()) {
        Some(ix) => ix,
        None => {
            return Vec::new();
        },
    };
    let track = &mid.tracks[ti];
    let tpq = mid.ticks_per_quarter;
    let ghost ns = track.notes@;
    let ghost ts = track.texts@;

    // phrase markers
    let mut phrases: Vec<MidiNote> = Vec::new();
    let mut i: usize = 0;
    while i < track.notes.len()
        invariant
            track.notes@ == ns,
            0 <= i <= ns.len(),
            phrases@ =~= phrase_notes(ns.take(i as int)),
        decreases ns.len() - i,
    {
        proof {
            assert(ns.take(i as int + 1).drop_last() =~= ns.take(i as int));
            assert(ns.take(i as int + 1).last() == ns[i as int]);
        }
        let n = track.notes[i];
        if 105 <= n.pitch && n.pitch <= 106 {
            phrases.push(n);
        }
        i = i + 1;
    }
    proof {
        assert(ns.take(ns.len() as int) =~= ns);
    }

    // lyric syllables
    let mut lyr: Vec<(u64, String)> = Vec::new();
    let mut j: usize = 0;
    while j < track.texts.len()
        invariant
            track.texts@ == ts,
            0 <= j <= ts.len(),
            lyr@.len() == lyric_pairs(ts.take(j as int)).len(),
            forall|k: int|
                0 <= k < lyr@.len() ==> (#[trigger] lyr@[k]).0 == lyric_pairs(
                    ts.take(j as int),
                )[k].0 && lyr@[k].1@ == lyric_pairs(ts.take(j as int))[k].1,
        decreases ts.len() - j,
    {
        proof {
            assert(ts.take(j as int + 1).drop_last() =~= ts.take(j as int));
            assert(ts.take(j as int + 1).last() == ts[j as int]);
        }
        let t = &track.texts[j];
        if t.is_lyric() {
            let txt = crate::chart::clone_string(t.get_text());
            lyr.push((t.pos, txt));
        }
        proof {
            assert forall|k: int| 0 <= k < lyr@.len() implies (#[trigger] lyr@[k]).0
                == lyric_pairs(ts.take(j as int + 1))[k].0 && lyr@[k].1@ == lyric_pairs(
                ts.take(j as int + 1),
            )[k].1 by {
                if k < lyric_pairs(ts.take(j as int)).len() {
                    assert(lyric_pairs(ts.take(j as int + 1))[k] == lyric_pairs(
                        ts.take(j as int),
                    )[k]);
                }
            }
        }
        j = j + 1;
    }
    proof {
        assert(ts.take(ts.len() as int) =~= ts);
    }
    let ghost lp = lyric_pairs(ts);

    // bound check for phrase ends
    proof {
        lemma_phrase_bounds(ns);
    }

    // walk phrases, consuming syllables
    let mut out: Vec<LyricEvent> = Vec::new();
    proof {
        assert(views3(out@) =~= Seq::<(u64, u64, Seq<char>)>::empty());
    }
    let mut pi: usize = 0;
    let mut li: usize = 0;
    while pi < phrases.len()
        invariant
            tpq == mid.ticks_per_quarter,
            tpq >= 1,
            0 <= pi <= phrases@.len(),
            0 <= li <= lyr@.len(),
            lyr@.len() == lp.len(),
            forall|k: int|
                0 <= k < lp.len() ==> (#[trigger] lyr@[k]).0 == lp[k].0 && lyr@[k].1@ == lp[k].1,
            forall|k: int|
                0 <= k < phrases@.len() ==> (#[trigger] phrases@[k]).pos + phrases@[k].length
                    <= crate::MAX_TICK,
            lyrics_fold(phrases@, lp, 0, 0, tpq, Seq::<(u64, u64, Seq<char>)>::empty())
                == lyrics_fold(phrases@, lp, pi as int, li as int, tpq, views3(out@)),
        decreases phrases@.len() - pi,
    {
        let ph = phrases[pi];
        let end = ph.pos + ph.length;
        let ghost li0 = li;
        let mut toks: Vec<String> = Vec::new();
        while li < lyr.len() && lyr[li].0 < end
            invariant
                0 <= li0 <= li <= lyr@.len(),
                lyr@.len() == lp.len(),
                forall|k: int|
                    0 <= k < lp.len() ==> (#[trigger] lyr@[k]).0 == lp[k].0 && lyr@[k].1@
                        == lp[k].1,
                lyric_upto(lp, li0 as int, end) == lyric_upto(lp, li as int, end),
                toks@.len() == li - li0,
                forall|k: int|
                    0 <= k < toks@.len() ==> (#[trigger] toks@[k])@ == lp[li0 + k].1,
            decreases lyr@.len() - li,
        {
            let txt = crate::chart::clone_string(&lyr[li].1);
            toks.push(txt);
            li = li + 1;
        }
        let ghost li2 = lyric_upto(lp, li0 as int, end);
        proof {
            assert(li2 == li as int);
            assert(str_views(toks@) =~= lp.subrange(li0 as int, li as int).map(
                |k: int, p: (u64, Seq<char>)| p.1,
            ));
        }
        if toks.len() > 0 {
            let text = XmlFile::concat_text(&toks);
            let pos = crate::tempo::units_to_ms(ph.pos_units, tpq);
            let length = crate::tempo::units_to_ms(ph.length_units, tpq);
            let ghost pre = out@;
            out.push(LyricEvent { pos, length, text });
            proof {
                assert(views3(out@) =~= views3(pre).push(
                    (ms_of(ph.pos_units, tpq), ms_of(ph.length_units, tpq), concat_spec(
                        str_views(toks@),
                    )),
                ));
            }
        }
        pi = pi + 1;
    }
    proof {
        assert(lyrics_fold(phrases@, lp, phrases@.len() as int, li as int, tpq, views3(out@))
            == views3(out@));
    }
    out
}

/// The `(position, length, characters)` views of lyric events.
pub open spec fn views3(v: Seq<LyricEvent>) -> Seq<(u64, u64, Seq<char>)> {
    v.map(|i: int, e: LyricEvent| (e.pos, e.length, e.text@))
}

/// Phrase markers inherit the track's note bounds.
proof fn lemma_phrase_bounds(notes: Seq<MidiNote>)
    requires
        forall|i: int|
            0 <= i < notes.len() ==> (#[trigger] notes[i]).pos + notes[i].length
                <= crate::MAX_TICK,
    ensures
        forall|k: int|
            0 <= k < phrase_notes(notes).len() ==> (#[trigger] phrase_notes(notes)[k]).pos
                + phrase_notes(notes)[k].length <= crate::MAX_TICK,
    decreases notes.len(),
{
    if notes.len() > 0 {
        assert(forall|i: int|
            0 <= i < notes.drop_last().len() ==> (#[trigger] notes.drop_last()[i]).pos
                + notes.drop_last()[i].length <= crate::MAX_TICK);
        lemma_phrase_bounds(notes.drop_last());
        let pn = phrase_notes(notes);
        let rest = phrase_notes(notes.drop_last());
        assert forall|k: int| 0 <= k < pn.len() implies (#[trigger] pn[k]).pos + pn[k].length
            <= crate::MAX_TICK by {
            if k < rest.len() {
                assert(pn[k] == rest[k]);
            } else {
                assert(pn[k] == notes.last());
                assert(notes[notes.len() - 1].pos + notes[notes.len() - 1].length
                    <= crate::MAX_TICK);
            }
        }
    }
}

// ---------------------------------------------------------------------
// the facades
// ---------------------------------------------------------------------
impl XmlFile {
    /// Reduces one track selection of a MIDI document.
    pub fn from_midi(
        mid: &MidiFile,
        track_type: XmlTrackType,
        track_difficulty: Option<XmlTrackDifficulty>,
    ) -> (r: XmlFile)
        requires
            wf_midi_file(*mid),
        ensures
            track_type == XmlTrackType::Guitar ==> (r.track matches XmlTrack::GuitarBass(v) && v@
                =~= midi_guitar_beats(*mid, false, diff_of(track_difficulty))),
            track_type == XmlTrackType::Bass ==> (r.track matches XmlTrack::GuitarBass(v) && v@
                =~= midi_guitar_beats(*mid, true, diff_of(track_difficulty))),
            track_type == XmlTrackType::Vocals ==> (r.track matches XmlTrack::Vocals(v) && {
                &&& v@.len() == midi_vocal_lyrics(*mid).len()
                &&& forall|k: int|
                    0 <= k < v@.len() ==> {
                        &&& (#[trigger] v@[k]).pos == midi_vocal_lyrics(*mid)[k].0
                        &&& v@[k].length == midi_vocal_lyrics(*mid)[k].1
                        &&& v@[k].text@ == midi_vocal_lyrics(*mid)[k].2
                    }
            }),
    {
        let diff = match track_difficulty {
            Some(d) => d,
            None => XmlTrackDifficulty::Expert,
        };
        match track_type {
            XmlTrackType::Guitar => XmlFile {
                track: XmlTrack::GuitarBass(guitar_beats_from_midi(mid, false, diff)),
            },
            XmlTrackType::Bass => XmlFile {
                track: XmlTrack::GuitarBass(guitar_beats_from_midi(mid, true, diff)),
            },
            XmlTrackType::Vocals => XmlFile { track: XmlTrack::Vocals(vocal_lyrics_from_midi(mid)) },
        }
    }

    /// Reduces one track selection of a chart document. A missing
    /// difficulty/instrument track yields an empty beat list, never an
    /// error; chart vocals are not carried by the notation and yield an
    /// empty lyric list.
    pub fn from_chart(
        chart: &SongChart,
        track_type: XmlTrackType,
        track_difficulty: Option<XmlTrackDifficulty>,
    ) -> (r: XmlFile)
        requires
            wf_chart(*chart),
        ensures
            track_type == XmlTrackType::Guitar ==> (r.track matches XmlTrack::GuitarBass(v) && v@
                =~= chart_guitar_beats(*chart, false, diff_of(track_difficulty))),
            track_type == XmlTrackType::Bass ==> (r.track matches XmlTrack::GuitarBass(v) && v@
                =~= chart_guitar_beats(*chart, true, diff_of(track_difficulty))),
            track_type == XmlTrackType::Vocals ==> (r.track matches XmlTrack::Vocals(v) && v@.len()
                == 0),
    {
        let diff = match track_difficulty {
            Some(d) => d,
            None => XmlTrackDifficulty::Expert,
        };
        match track_type {
            XmlTrackType::Guitar => XmlFile {
                track: XmlTrack::GuitarBass(guitar_beats_from_chart(chart, false, diff)),
            },
            XmlTrackType::Bass => XmlFile {
                track: XmlTrack::GuitarBass(guitar_beats_from_chart(chart, true, diff)),
            },
            XmlTrackType::Vocals => XmlFile { track: XmlTrack::Vocals(Vec::new()) },
        }
    }
}

/// The slot index a difficulty occupies.
fn diff_index_x(d: XmlTrackDifficulty) -> (r: usize)
    ensures
        r as int == diff_index(d),
        r < 4,
{
    match d {
        XmlTrackDifficulty::Easy => 0,
        XmlTrackDifficulty::Medium => 1,
        XmlTrackDifficulty::Hard => 2,
        XmlTrackDifficulty::Expert => 3,
    }
}

/// Selects and reduces one guitar/bass difficulty from a chart document,
/// with the bass falling back to the rhythm-guitar slot.
fn guitar_beats_from_chart(chart: &SongChart, is_bass: bool, d: XmlTrackDifficulty) -> (r: Vec<
    BeatEvent,
>)
    requires
        wf_chart(*chart),
    ensures
        r@ =~= chart_guitar_beats(*chart, is_bass, d),
{
    let di = diff_index_x(d);
    if !is_bass {
        let (_, nb) = crate::chart_parser::track_name_x(di);
        match find_chart_track(&chart.guitar_tracks, &nb) {
            None => Vec::new(),
            Some(ix) => reduce_chart_track(chart, ix),
        }
    } else {
        let (_, nb) = crate::chart_parser::track_name_x(4 + di);
        match find_chart_track(&chart.guitar_tracks, &nb) {
            Some(ix) => reduce_chart_track(chart, ix),
            None => {
                let (_, rb) = crate::chart_parser::track_name_x(8 + di);
                match find_chart_track(&chart.guitar_tracks, &rb) {
                    None => Vec::new(),
                    Some(ix) => reduce_chart_track(chart, ix),
                }
            },
        }
    }
}

} // verus!
