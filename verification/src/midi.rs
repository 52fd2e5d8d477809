//! MIDI event reduction: a streaming state machine that consumes header,
//! meta and channel events of a standard MIDI file (delta-time encoded) and
//! builds per-track note, text and tempo lists with exact real-time
//! annotation. The byte-level container walk is done by an outside reader;
//! the state machine here receives each event as plain values.

use vstd::prelude::*;

verus! {

use crate::DEFAULT_MPQ;
use crate::DEFAULT_TPQ;
use crate::MAX_MPQ;
use crate::MAX_TICK;
use crate::sort::SortKey;
use crate::sort::key_le;
use crate::sort::sort_spec;
use crate::sort::stable_sort;
use crate::tempo::MidiTempo;
use crate::tempo::annotate_spans;
use crate::tempo::append_tempo_change;
use crate::tempo::next_units;
use crate::tempo::units_at;
use crate::tempo::wf_tempo;
use vstd::utf8::encode_utf8;
use vstd::utf8::valid_utf8;

/// Header data of a MIDI file: container format and tick resolution.
#[derive(Clone, Copy, Debug, PartialEq, Eq, Structural)]
pub struct MidiInfo {
    pub format: u16,
    pub ticks_per_quarter: u16,
}

/// A finished note: `pos`/`length` in ticks, `pos_units`/`length_units`
/// the exact real-time annotation (see the tempo module's unit scale).
#[derive(Clone, Copy, Debug, PartialEq, Eq, Structural)]
pub struct MidiNote {
    pub pos: u64,
    pub pos_units: u64,
    pub length: u64,
    pub length_units: u64,
    pub pitch: u8,
    pub channel: u8,
    pub velocity: u8,
}

impl SortKey for MidiNote {
    open spec fn key(&self) -> (u64, u64) {
        (self.pos, self.pitch as u64)
    }

    fn sort_le(&self, other: &Self) -> (r: bool)
        ensures
            r == key_le(self.key(), other.key()),
    {
        self.pos < other.pos || (self.pos == other.pos && self.pitch <= other.pitch)
    }
}

/// A text meta event's payload: plain text or a lyric syllable.
#[derive(Clone, Debug)]
pub enum MidiTextType {
    Event(String),
    Lyric(String),
}

/// A text meta event at a tick position.
#[derive(Clone, Debug)]
pub struct MidiText {
    pub pos: u64,
    pub text: MidiTextType,
}

/// The characters a text payload carries, whichever variant holds them.
pub open spec fn text_content(t: MidiTextType) -> Seq<char> {
    match t {
        MidiTextType::Event(s) => s@,
        MidiTextType::Lyric(s) => s@,
    }
}

impl MidiText {
    /// Whether this text event is a lyric syllable.
    pub fn is_lyric(&self) -> (r: bool)
        ensures
            r == (self.text is Lyric),
    {
        match self.text {
            MidiTextType::Lyric(_) => true,
            _ => false,
        }
    }

    /// The text payload, whichever kind it is.
    pub fn get_text<'a>(&'a self) -> (r: &'a String)
        ensures
            r@ == text_content(self.text),
    {
        match &self.text {
            MidiTextType::Lyric(text) => text,
            MidiTextType::Event(text) => text,
        }
    }
}

/// One named track chunk: its notes and text events in stream order.
#[derive(Clone, Debug)]
pub struct MidiTrack {
    pub name: Option<String>,
    pub notes: Vec<MidiNote>,
    pub texts: Vec<MidiText>,
}

/// A fully reduced MIDI file: resolution, tracks, and the tempo map.
#[derive(Debug)]
pub struct MidiFile {
    pub format: u16,
    pub ticks_per_quarter: u16,
    pub tracks: Vec<MidiTrack>,
    pub tempo: Vec<MidiTempo>,
}

/// Every note's end position stays inside the tick range the timing
/// arithmetic accepts.
pub open spec fn track_bounds(t: MidiTrack) -> bool {
    forall|i: int|
        0 <= i < t.notes@.len() ==> (#[trigger] t.notes@[i]).pos + t.notes@[i].length <= MAX_TICK
}

/// What the reduction stage relies on of a reduced file.
pub open spec fn wf_midi_file(m: MidiFile) -> bool {
    &&& m.ticks_per_quarter >= 1
    &&& forall|i: int| 0 <= i < m.tracks@.len() ==> track_bounds(#[trigger] m.tracks@[i])
}

/// A note-on seen without its note-off yet.
#[derive(Clone, Copy, Debug, PartialEq, Eq, Structural)]
pub struct PendingMidiNote {
    pub pos: u64,
    pub channel: u8,
    pub velocity: u8,
}

/// The kinds of meta events the reducer consumes; all others are `Other`
/// and only advance the running position.
#[derive(Clone, Copy, Debug, PartialEq, Eq, Structural)]
pub enum MidiMetaKind {
    TrackName,
    TextEvent,
    Lyric,
    SetTempo,
    Other,
}

/// Streaming reducer over a MIDI event sequence. Feed it `header`, then
/// `track_change` at each track boundary, the events of each track, and a
/// final `finalize_track`; then take the result with `get_midi`.
#[derive(Debug)]
pub struct MidiReader {
    pub info: Option<MidiInfo>,
    pub current_track_index: i64,
    pub current_pos: u64,
    pub pending_notes: Vec<Option<PendingMidiNote>>,
    pub current_track: Option<MidiTrack>,
    pub tracks: Vec<MidiTrack>,
    pub tempo_track: Vec<MidiTempo>,
}

/// The reducer's state invariant: 128 pending-note slots, a bounded
/// running position no pending note exceeds, a well-formed tempo map once
/// one exists, a usable resolution once the header was seen, and bounded
/// notes in every track.
pub open spec fn wf_reader(r: MidiReader) -> bool {
    &&& r.pending_notes@.len() == 128
    &&& r.current_pos <= MAX_TICK
    &&& forall|i: int|
        0 <= i < 128 ==> ((#[trigger] r.pending_notes@[i]) matches Some(p) ==> p.pos
            <= r.current_pos)
    &&& (r.tempo_track@.len() == 0 || wf_tempo(r.tempo_track@))
    &&& (r.info matches Some(inf) ==> inf.ticks_per_quarter >= 1)
    &&& forall|i: int| 0 <= i < r.tracks@.len() ==> track_bounds(#[trigger] r.tracks@[i])
    &&& (r.current_track matches Some(t) ==> track_bounds(t))
}

/// The running position after a delta time, saturating at the largest
/// admissible tick.
pub open spec fn advanced_pos(pos: u64, delta: u32) -> u64 {
    if pos + delta <= MAX_TICK {
        (pos + delta) as u64
    } else {
        MAX_TICK
    }
}

/// Microseconds per quarter read from a tempo meta event's 3-byte
/// big-endian payload.
pub open spec fn mpq_of(data: Seq<u8>) -> u32 {
    ((data[0] as int) * 0x10000 + (data[1] as int) * 0x100 + (data[2] as int)) as u32
}

/// The notes a track boundary force-closes out of the pending slots below
/// `upto`, in pitch order, all ending at `end_pos` (a malformed-input
/// fallback: well-formed files close every note themselves).
pub open spec fn closed_pending(
    pending: Seq<Option<PendingMidiNote>>,
    upto: int,
    end_pos: u64,
) -> Seq<MidiNote>
    decreases upto,
{
    if upto <= 0 {
        Seq::<MidiNote>::empty()
    } else {
        let rest = closed_pending(pending, upto - 1, end_pos);
        match pending[upto - 1] {
            Some(p) => rest.push(
                MidiNote {
                    pos: p.pos,
                    pos_units: 0,
                    length: (end_pos - p.pos) as u64,
                    length_units: 0,
                    pitch: (upto - 1) as u8,
                    channel: p.channel,
                    velocity: p.velocity,
                },
            ),
            None => rest,
        }
    }
}

/// Notes with their exact real-time annotation filled in from the tempo
/// map: start time, and end time minus start time.
pub open spec fn annotated_notes(notes: Seq<MidiNote>, tempo: Seq<MidiTempo>) -> Seq<MidiNote> {
    notes.map(
        |i: int, n: MidiNote|
            MidiNote {
                pos: n.pos,
                pos_units: units_at(tempo, n.pos) as u64,
                length: n.length,
                length_units: (units_at(tempo, (n.pos + n.length) as u64) - units_at(
                    tempo,
                    n.pos,
                )) as u64,
                pitch: n.pitch,
                channel: n.channel,
                velocity: n.velocity,
            },
    )
}

/// The tempo map a track is finalized against: the synthetic 120 BPM
/// entry stands in when no tempo event was ever seen.
pub open spec fn finalized_tempo(s: Seq<MidiTempo>) -> Seq<MidiTempo> {
    if s.len() == 0 {
        seq![MidiTempo { pos: 0, pos_units: 0, mpq: DEFAULT_MPQ }]
    } else {
        s
    }
}

/// What finalizing the current track does to the track list and tempo
/// map: nothing without a current track; otherwise pending notes are
/// force-closed, notes sorted by position then pitch, annotated against
/// the (possibly defaulted) tempo map, and the track appended.
pub open spec fn finalized_effect(
    r: MidiReader,
    tracks2: Seq<MidiTrack>,
    tempo2: Seq<MidiTempo>,
) -> bool {
    match r.current_track {
        None => tracks2 == r.tracks@ && tempo2 == r.tempo_track@,
        Some(t) => {
            let tempo = finalized_tempo(r.tempo_track@);
            let all = t.notes@ + closed_pending(r.pending_notes@, 128, r.current_pos);
            &&& tempo2 == tempo
            &&& tracks2.len() == r.tracks@.len() + 1
            &&& tracks2.take(r.tracks@.len() as int) =~= r.tracks@
            &&& tracks2.last().name == t.name
            &&& tracks2.last().texts == t.texts
            &&& tracks2.last().notes@ =~= annotated_notes(sort_spec(all), tempo)
        },
    }
}

/// A track equal to `t` except that a text event was appended: position
/// `pos`, lyric or plain kind, text decoded from `data` (empty when the
/// bytes are not UTF-8).
pub open spec fn texts_pushed(
    t: MidiTrack,
    t2: MidiTrack,
    pos: u64,
    lyric: bool,
    data: Seq<u8>,
) -> bool {
    &&& t2.name == t.name
    &&& t2.notes == t.notes
    &&& t2.texts@.len() == t.texts@.len() + 1
    &&& t2.texts@.take(t.texts@.len() as int) =~= t.texts@
    &&& t2.texts@.last().pos == pos
    &&& (lyric ==> t2.texts@.last().text is Lyric)
    &&& (!lyric ==> t2.texts@.last().text is Event)
    &&& (valid_utf8(data) ==> encode_utf8(text_content(t2.texts@.last().text)) =~= data)
    &&& (!valid_utf8(data) ==> text_content(t2.texts@.last().text).len() == 0)
}

/// A track equal to `t` except that its name was set from `data`, on the
/// first occurrence only; undecodable bytes leave it unset.
pub open spec fn name_set(t: MidiTrack, t2: MidiTrack, data: Seq<u8>) -> bool {
    &&& t2.notes == t.notes
    &&& t2.texts == t.texts
    &&& (t.name is Some ==> t2.name == t.name)
    &&& (t.name is None && valid_utf8(data) ==> (t2.name matches Some(nm) && encode_utf8(nm@)
        =~= data))
    &&& (t.name is None && !valid_utf8(data) ==> t2.name is None)
}

/// The tempo list after a tempo change at `pos`: appended and chained,
/// with the synthetic 120 BPM head if the list was empty and `pos > 0`.
pub open spec fn tempo_appended(
    s: Seq<MidiTempo>,
    s2: Seq<MidiTempo>,
    pos: u64,
    mpq: u32,
) -> bool {
    if s.len() == 0 && pos == 0 {
        s2 =~= seq![MidiTempo { pos: 0, pos_units: 0, mpq }]
    } else if s.len() == 0 {
        s2 =~= seq![
            MidiTempo { pos: 0, pos_units: 0, mpq: DEFAULT_MPQ },
            MidiTempo { pos, pos_units: (DEFAULT_MPQ * pos) as u64, mpq },
        ]
    } else {
        s2 =~= s.push(MidiTempo { pos, pos_units: next_units(s, pos) as u64, mpq })
    }
}

/// The full transition a meta event makes on the reducer state.
pub open spec fn meta_applied(
    r: MidiReader,
    r2: MidiReader,
    delta: u32,
    kind: MidiMetaKind,
    data: Seq<u8>,
) -> bool {
    &&& r2.info == r.info
    &&& r2.current_track_index == r.current_track_index
    &&& r2.current_pos == advanced_pos(r.current_pos, delta)
    &&& r2.pending_notes == r.pending_notes
    &&& r2.tracks == r.tracks
    &&& match kind {
        MidiMetaKind::TrackName => {
            &&& r2.tempo_track == r.tempo_track
            &&& match r.current_track {
                None => r2.current_track is None,
                Some(t) => r2.current_track matches Some(t2) && name_set(t, t2, data),
            }
        },
        MidiMetaKind::TextEvent => {
            &&& r2.tempo_track == r.tempo_track
            &&& match r.current_track {
                None => r2.current_track is None,
                Some(t) => r2.current_track matches Some(t2) && texts_pushed(
                    t,
                    t2,
                    r2.current_pos,
                    false,
                    data,
                ),
            }
        },
        MidiMetaKind::Lyric => {
            &&& r2.tempo_track == r.tempo_track
            &&& match r.current_track {
                None => r2.current_track is None,
                Some(t) => r2.current_track matches Some(t2) && texts_pushed(
                    t,
                    t2,
                    r2.current_pos,
                    true,
                    data,
                ),
            }
        },
        MidiMetaKind::SetTempo => {
            &&& r2.current_track == r.current_track
            &&& if r.current_track_index <= 0 && data.len() >= 3 && (r.tempo_track@.len() == 0
                || r.tempo_track@.last().pos <= r2.current_pos) {
                tempo_appended(r.tempo_track@, r2.tempo_track@, r2.current_pos, mpq_of(data))
            } else {
                r2.tempo_track == r.tempo_track
            }
        },
        MidiMetaKind::Other => {
            &&& r2.tempo_track == r.tempo_track
            &&& r2.current_track == r.current_track
        },
    }
}

/// The full transition a channel note event makes on the reducer state:
/// a note-on with positive velocity opens a pending note unless one is
/// open for that pitch; a note-off (or zero-velocity note-on) closes the
/// pending note, if any, into the current track. Pitches outside the
/// 128-slot range are ignored.
pub open spec fn note_applied(
    r: MidiReader,
    r2: MidiReader,
    delta: u32,
    note_on: bool,
    channel: u8,
    pitch: u8,
    velocity: u8,
) -> bool {
    let pos = advanced_pos(r.current_pos, delta);
    let on = note_on && velocity > 0;
    &&& r2.info == r.info
    &&& r2.current_track_index == r.current_track_index
    &&& r2.current_pos == pos
    &&& r2.tracks == r.tracks
    &&& r2.tempo_track == r.tempo_track
    &&& if pitch >= 128 {
        r2.pending_notes == r.pending_notes && r2.current_track == r.current_track
    } else if on {
        if r.pending_notes@[pitch as int] is Some {
            r2.pending_notes == r.pending_notes && r2.current_track == r.current_track
        } else {
            &&& r2.pending_notes@ =~= r.pending_notes@.update(
                pitch as int,
                Some(PendingMidiNote { pos, channel, velocity }),
            )
            &&& r2.current_track == r.current_track
        }
    } else {
        match r.pending_notes@[pitch as int] {
            None => r2.pending_notes == r.pending_notes && r2.current_track == r.current_track,
            Some(p) => {
                &&& r2.pending_notes@ =~= r.pending_notes@.update(pitch as int, None)
                &&& match r.current_track {
                    None => r2.current_track is None,
                    Some(t) => r2.current_track matches Some(t2) && t2.name == t.name
                        && t2.texts == t.texts && t2.notes@ =~= t.notes@.push(
                        MidiNote {
                            pos: p.pos,
                            pos_units: 0,
                            length: (pos - p.pos) as u64,
                            length_units: 0,
                            pitch,
                            channel: p.channel,
                            velocity: p.velocity,
                        },
                    ),
                }
            },
        }
    }
}

/// Relies on String::from_utf8: succeeds exactly on valid UTF-8 bytes and
/// returns the string whose UTF-8 encoding is those bytes.
#[verifier::external_body]
fn utf8_to_string(data: &Vec<u8>) -> (r: Option<String>)
    ensures
        r is Some <==> valid_utf8(data@),
        r matches Some(s) ==> encode_utf8(s@) =~= data@,
{
    String::from_utf8(data.clone()).ok()
}

/// Decodes text bytes, substituting the empty string when they are not
/// UTF-8, as the reducer does for text and lyric events.
fn utf8_or_empty(data: &Vec<u8>) -> (r: String)
    ensures
        valid_utf8(data@) ==> encode_utf8(r@) =~= data@,
        !valid_utf8(data@) ==> r@.len() == 0,
{
    match utf8_to_string(data) {
        Some(s) => s,
        None => String::new(),
    }
}

/// Microseconds per quarter from a tempo event's 3-byte big-endian
/// payload.
fn mpq_from_raw_tempo(data: &Vec<u8>) -> (mpq: u32)
    requires
        data@.len() >= 3,
    ensures
        mpq == mpq_of(data@),
        mpq <= 0xFFFFFF,
{
    (data[0] as u32) * 0x10000 + (data[1] as u32) * 0x100 + (data[2] as u32)
}

/// A fresh bank of 128 empty pending-note slots.
fn empty_pending() -> (r: Vec<Option<PendingMidiNote>>)
    ensures
        r@.len() == 128,
        forall|k: int| 0 <= k < 128 ==> (#[trigger] r@[k]) is None,
{
    let mut v: Vec<Option<PendingMidiNote>> = Vec::new();
    let mut i: usize = 0;
    while i < 128
        invariant
            v@.len() == i,
            0 <= i <= 128,
            forall|k: int| 0 <= k < i ==> (#[trigger] v@[k]) is None,
        decreases 128 - i,
    {
        v.push(None);
        i = i + 1;
    }
    v
}

/// Notes force-closed out of the pending slots end exactly at `end_pos`.
proof fn lemma_closed_pending_bounds(pending: Seq<Option<PendingMidiNote>>, upto: int, end_pos: u64)
    requires
        pending.len() == 128,
        0 <= upto <= 128,
        forall|i: int|
            0 <= i < 128 ==> ((#[trigger] pending[i]) matches Some(p) ==> p.pos <= end_pos),
    ensures
        forall|j: int|
            0 <= j < closed_pending(pending, upto, end_pos).len() ==> (#[trigger] closed_pending(
                pending,
                upto,
                end_pos,
            )[j]).pos + closed_pending(pending, upto, end_pos)[j].length == end_pos,
    decreases upto,
{
    if upto > 0 {
        lemma_closed_pending_bounds(pending, upto - 1, end_pos);
        let c = closed_pending(pending, upto, end_pos);
        let c0 = closed_pending(pending, upto - 1, end_pos);
        assert forall|j: int| 0 <= j < c.len() implies (#[trigger] c[j]).pos + c[j].length
            == end_pos by {
            match pending[upto - 1] {
                Some(p) => {
                    if j < c0.len() {
                        assert(c[j] == c0[j]);
                    } else {
                        assert(c[j].pos == p.pos);
                        assert(p.pos <= end_pos);
                    }
                },
                None => {
                    assert(c[j] == c0[j]);
                },
            }
        }
    }
}

impl MidiReader {
    /// A reducer awaiting the header, before any track.
    pub fn new() -> (r: MidiReader)
        ensures
            wf_reader(r),
            r.info is None,
            r.current_track_index == -1,
            r.current_pos == 0,
            r.pending_notes@.len() == 128,
            forall|k: int| 0 <= k < 128 ==> (#[trigger] r.pending_notes@[k]) is None,
            r.current_track is None,
            r.tracks@.len() == 0,
            r.tempo_track@.len() == 0,
    {
        MidiReader {
            info: None,
            current_track_index: -1,
            current_pos: 0,
            pending_notes: empty_pending(),
            current_track: None,
            tracks: Vec::new(),
            tempo_track: Vec::new(),
        }
    }

    /// Advances the running tick position by an event's delta time,
    /// saturating at the largest admissible tick.
    fn update_pos(&mut self, delta_time: u32)
        requires
            old(self).current_pos <= MAX_TICK,
        ensures
            final(self).current_pos == advanced_pos(old(self).current_pos, delta_time),
            final(self).info == old(self).info,
            final(self).current_track_index == old(self).current_track_index,
            final(self).pending_notes == old(self).pending_notes,
            final(self).current_track == old(self).current_track,
            final(self).tracks == old(self).tracks,
            final(self).tempo_track == old(self).tempo_track,
    {
        if delta_time as u64 <= MAX_TICK - self.current_pos {
            self.current_pos = self.current_pos + delta_time as u64;
        } else {
            self.current_pos = MAX_TICK;
        }
    }

    /// Records the header: container format and tick resolution (a zero
    /// resolution, which no time could be derived from, falls back to the
    /// default).
    pub fn header(&mut self, format: u16, track: u16, time_base: u16)
        requires
            wf_reader(*old(self)),
        ensures
            wf_reader(*final(self)),
            final(self).info matches Some(inf) && inf.format == format && inf.ticks_per_quarter
                == (if time_base == 0 {
                DEFAULT_TPQ
            } else {
                time_base
            }),
            final(self).current_track_index == old(self).current_track_index,
            final(self).current_pos == old(self).current_pos,
            final(self).pending_notes == old(self).pending_notes,
            final(self).current_track == old(self).current_track,
            final(self).tracks == old(self).tracks,
            final(self).tempo_track == old(self).tempo_track,
    {
        let _ = track;
        let tpq = if time_base == 0 {
            DEFAULT_TPQ
        } else {
            time_base
        };
        self.info = Some(MidiInfo { format, ticks_per_quarter: tpq });
    }

    /// Consumes a meta event: a track name (first one wins), a text or
    /// lyric event appended to the current track, or a tempo change,
    /// honored only on the designated tempo track (index 0) and dropped
    /// when its payload is short or would run backwards in time.
    pub fn meta_event(&mut self, delta_time: u32, kind: MidiMetaKind, data: &Vec<u8>)
        requires
            wf_reader(*old(self)),
        ensures
            wf_reader(*final(self)),
            meta_applied(*old(self), *final(self), delta_time, kind, data@),
    {
        self.update_pos(delta_time);
        let pos = self.current_pos;
        match kind {
            MidiMetaKind::TrackName => {
                if let Some(track) = &mut self.current_track {
                    if track.name.is_none() {
                        track.name = utf8_to_string(data);
                    }
                }
            },
            MidiMetaKind::TextEvent => {
                if let Some(track) = &mut self.current_track {
                    let text = utf8_or_empty(data);
                    track.texts.push(MidiText { pos, text: MidiTextType::Event(text) });
                }
            },
            MidiMetaKind::Lyric => {
                if let Some(track) = &mut self.current_track {
                    let text = utf8_or_empty(data);
                    track.texts.push(MidiText { pos, text: MidiTextType::Lyric(text) });
                }
            },
            MidiMetaKind::SetTempo => {
                if self.current_track_index <= 0 && data.len() >= 3 {
                    let mpq = mpq_from_raw_tempo(data);
                    let n = self.tempo_track.len();
                    if n == 0 || self.tempo_track[n - 1].pos <= pos {
                        append_tempo_change(&mut self.tempo_track, pos, mpq);
                    }
                }
            },
            MidiMetaKind::Other => {},
        }
    }

    /// Consumes a channel note event. `note_on` says whether the event is
    /// a note-on message; one with velocity 0 closes like a note-off.
    pub fn midi_event(&mut self, delta_time: u32, note_on: bool, channel: u8, note: u8, velocity: u8)
        requires
            wf_reader(*old(self)),
        ensures
            wf_reader(*final(self)),
            note_applied(*old(self), *final(self), delta_time, note_on, channel, note, velocity),
    {
        self.update_pos(delta_time);
        let on = note_on && velocity > 0;
        if note >= 128 {
            return ;
        }
        let idx = note as usize;
        if on && self.pending_notes[idx].is_some() {
            // duplicate note-on: source anomaly, ignored
        } else if on {
            let pos = self.current_pos;
            self.pending_notes.set(idx, Some(PendingMidiNote { pos, channel, velocity }));
        } else if self.pending_notes[idx].is_none() {
            // note-off without a pending note: source anomaly, ignored
        } else {
            let p = self.pending_notes[idx].unwrap();
            self.pending_notes.set(idx, None);
            let length = self.current_pos - p.pos;
            if let Some(track) = &mut self.current_track {
                track.notes.push(
                    MidiNote {
                        pos: p.pos,
                        pos_units: 0,
                        length,
                        length_units: 0,
                        pitch: note,
                        channel: p.channel,
                        velocity: p.velocity,
                    },
                );
            }
        }
    }

    /// Consumes a system-exclusive or otherwise unhandled event, which
    /// only advances the running position.
    pub fn sys_ex_event(&mut self, delta_time: u32)
        requires
            wf_reader(*old(self)),
        ensures
            wf_reader(*final(self)),
            final(self).current_pos == advanced_pos(old(self).current_pos, delta_time),
            final(self).info == old(self).info,
            final(self).current_track_index == old(self).current_track_index,
            final(self).pending_notes == old(self).pending_notes,
            final(self).current_track == old(self).current_track,
            final(self).tracks == old(self).tracks,
            final(self).tempo_track == old(self).tempo_track,
    {
        self.update_pos(delta_time);
    }

    /// Marks a track boundary: the finished track (beyond the tempo
    /// track) is finalized; leaving the tempo track with no tempo event
    /// seen injects the synthetic 120 BPM entry; then counting, position
    /// and the current track reset for the next chunk. Notes still
    /// pending when the tempo track ends are dropped with it.
    pub fn track_change(&mut self)
        requires
            wf_reader(*old(self)),
        ensures
            wf_reader(*final(self)),
            final(self).info == old(self).info,
            final(self).current_track_index == (if old(self).current_track_index < i64::MAX {
                old(self).current_track_index + 1
            } else {
                old(self).current_track_index as int
            }),
            final(self).current_pos == 0,
            final(self).current_track matches Some(t) && t.name is None && t.notes@.len() == 0
                && t.texts@.len() == 0,
            final(self).pending_notes@.len() == 128,
            forall|k: int| 0 <= k < 128 ==> (#[trigger] final(self).pending_notes@[k]) is None,
            old(self).current_track_index == 0 && old(self).tempo_track@.len() == 0 ==> (final(
                self).tempo_track@ =~= seq![MidiTempo { pos: 0, pos_units: 0, mpq: DEFAULT_MPQ }]
                && final(self).tracks == old(self).tracks),
            old(self).current_track_index == 0 && old(self).tempo_track@.len() > 0 ==> (final(
                self).tempo_track == old(self).tempo_track && final(self).tracks == old(
                self).tracks),
            old(self).current_track_index > 0 ==> finalized_effect(
                *old(self),
                final(self).tracks@,
                final(self).tempo_track@,
            ),
            old(self).current_track_index < 0 ==> final(self).tempo_track == old(self).tempo_track
                && final(self).tracks == old(self).tracks,
    {
        if self.current_track_index == 0 && self.tempo_track.len() == 0 {
            // the tempo track ends with no tempo change seen: default to 120 BPM
            self.tempo_track.push(MidiTempo { pos: 0, pos_units: 0, mpq: DEFAULT_MPQ });
        } else if self.current_track_index > 0 {
            self.finalize_track();
        }
        self.pending_notes = empty_pending();
        if self.current_track_index < i64::MAX {
            self.current_track_index = self.current_track_index + 1;
        }
        self.current_pos = 0;
        self.current_track = Some(MidiTrack { name: None, notes: Vec::new(), texts: Vec::new() });
    }

    /// Finalizes the current track: force-closes pending notes at the
    /// running position, sorts notes by position then pitch, fills in the
    /// real-time annotation against the tempo map (defaulted to 120 BPM
    /// if empty), and appends the track to the finished list.
    #[verifier::rlimit(100)]
    pub fn finalize_track(&mut self)
        requires
            wf_reader(*old(self)),
        ensures
            wf_reader(*final(self)),
            finalized_effect(*old(self), final(self).tracks@, final(self).tempo_track@),
            final(self).info == old(self).info,
            final(self).current_track_index == old(self).current_track_index,
            final(self).current_pos == old(self).current_pos,
            final(self).current_track is None,
            old(self).current_track is None ==> *final(self) == *old(self),
            old(self).current_track is Some ==> final(self).pending_notes@.len() == 128 && forall|
                k: int,
            | 0 <= k < 128 ==> (#[trigger] final(self).pending_notes@[k]) is None,
    {
        if self.current_track.is_none() {
            return ;
        }
        let ghost r0 = *self;
        let ghost t0 = self.current_track->Some_0;
        proof {
            assert(self.current_track matches Some(t) && t == t0);
        }
        let mut track = self.current_track.take().unwrap();
        let ghost base = track.notes@;
        let ghost pend = self.pending_notes@;
        let end_pos = self.current_pos;

        // force-close notes still pending, in pitch order
        let mut i: usize = 0;
        while i < 128
            invariant
                0 <= i <= 128,
                pend.len() == 128,
                end_pos <= MAX_TICK,
                forall|k: int|
                    0 <= k < 128 ==> ((#[trigger] pend[k]) matches Some(p) ==> p.pos <= end_pos),
                self.pending_notes@ == pend,
                track.notes@ =~= base + closed_pending(pend, i as int, end_pos),
                track.name == t0.name,
                track.texts == t0.texts,
            decreases 128 - i,
        {
            if let Some(p) = self.pending_notes[i] {
                track.notes.push(
                    MidiNote {
                        pos: p.pos,
                        pos_units: 0,
                        length: end_pos - p.pos,
                        length_units: 0,
                        pitch: i as u8,
                        channel: p.channel,
                        velocity: p.velocity,
                    },
                );
            }
            i = i + 1;
        }
        let ghost all = base + closed_pending(pend, 128, end_pos);

        // sort by position, then pitch
        stable_sort(&mut track.notes);
        proof {
            crate::sort::lemma_sort_spec_props(all);
            lemma_closed_pending_bounds(pend, 128, end_pos);
            assert forall|k: int| 0 <= k < track.notes@.len() implies (#[trigger] track.notes@[k]).pos
                + track.notes@[k].length <= MAX_TICK by {
                assert(track.notes@.contains(track.notes@[k]));
                assert(all.contains(track.notes@[k]));
                let m = choose|m: int| 0 <= m < all.len() && all[m] == track.notes@[k];
                if m < base.len() {
                    assert(base[m] == t0.notes@[m]);
                } else {
                    assert(all[m] == closed_pending(pend, 128, end_pos)[m - base.len()]);
                }
            }
        }

        // fall back to the default tempo if no tempo event was ever seen
        if self.tempo_track.len() == 0 {
            self.tempo_track.push(MidiTempo { pos: 0, pos_units: 0, mpq: DEFAULT_MPQ });
            proof {
                assert(wf_tempo(self.tempo_track@));
            }
        }
        proof {
            assert(self.tempo_track@ == finalized_tempo(r0.tempo_track@));
        }

        // annotate: exact real time of each note's start and span
        let mut spans: Vec<(u64, u64)> = Vec::new();
        let mut k: usize = 0;
        while k < track.notes.len()
            invariant
                0 <= k <= track.notes@.len(),
                spans@.len() == k,
                forall|j: int|
                    0 <= j < k ==> #[trigger] spans@[j] == (track.notes@[j].pos,
                    track.notes@[j].length),
                forall|j: int|
                    0 <= j < track.notes@.len() ==> (#[trigger] track.notes@[j]).pos
                        + track.notes@[j].length <= MAX_TICK,
            decreases track.notes@.len() - k,
        {
            let n = track.notes[k];
            spans.push((n.pos, n.length));
            k = k + 1;
        }
        proof {
            assert forall|j: int| 0 <= j < spans@.len() implies (#[trigger] spans@[j]).0
                + spans@[j].1 <= MAX_TICK by {
                assert(spans@[j] == (track.notes@[j].pos, track.notes@[j].length));
            }
        }
        let ann = annotate_spans(&spans, &self.tempo_track);
        let ghost tempo = self.tempo_track@;
        let mut out: Vec<MidiNote> = Vec::new();
        let mut k2: usize = 0;
        while k2 < track.notes.len()
            invariant
                0 <= k2 <= track.notes@.len(),
                ann@.len() == spans@.len(),
                spans@.len() == track.notes@.len(),
                out@.len() == k2,
                forall|j: int|
                    0 <= j < spans@.len() ==> #[trigger] spans@[j] == (track.notes@[j].pos,
                    track.notes@[j].length),
                forall|j: int|
                    0 <= j < spans@.len() ==> #[trigger] ann@[j].0 == units_at(tempo, spans@[j].0),
                forall|j: int|
                    0 <= j < spans@.len() ==> #[trigger] ann@[j].1 == units_at(
                        tempo,
                        (spans@[j].0 + spans@[j].1) as u64,
                    ) - units_at(tempo, spans@[j].0),
                forall|j: int|
                    0 <= j < k2 ==> #[trigger] out@[j] == annotated_notes(track.notes@, tempo)[j],
            decreases track.notes@.len() - k2,
        {
            let n = track.notes[k2];
            let (u0, u1) = ann[k2];
            out.push(
                MidiNote {
                    pos: n.pos,
                    pos_units: u0,
                    length: n.length,
                    length_units: u1,
                    pitch: n.pitch,
                    channel: n.channel,
                    velocity: n.velocity,
                },
            );
            k2 = k2 + 1;
        }
        proof {
            assert(out@ =~= annotated_notes(sort_spec(all), tempo));
        }
        track.notes = out;
        self.tracks.push(track);
        self.pending_notes = empty_pending();
        proof {
            assert(self.tracks@.take(r0.tracks@.len() as int) =~= r0.tracks@);
        }
    }

    /// Takes the reduced file, or nothing when no header was ever seen.
    pub fn get_midi(self) -> (r: Option<MidiFile>)
        requires
            wf_reader(self),
        ensures
            self.info is None ==> r is None,
            self.info matches Some(inf) ==> r matches Some(m) && m.format == inf.format
                && m.ticks_per_quarter == inf.ticks_per_quarter && m.tracks == self.tracks
                && m.tempo == self.tempo_track && wf_midi_file(m),
    {
        match self.info {
            None => None,
            Some(inf) => Some(
                MidiFile {
                    format: inf.format,
                    ticks_per_quarter: inf.ticks_per_quarter,
                    tracks: self.tracks,
                    tempo: self.tempo_track,
                },
            ),
        }
    }
}

} // verus!
