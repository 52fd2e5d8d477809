//! Chart-notation document model: sync (tempo/time-signature) events,
//! guitar/bass note events, and the whole song chart, with the pass that
//! builds the tempo map and fills in exact real-time positions.

use vstd::prelude::*;

verus! {

use vstd::string::StringExecFns;

use crate::DEFAULT_MPQ;
use crate::MAX_MPQ;
use crate::MAX_TICK;
use crate::sort::SortKey;
use crate::sort::key_le;
use crate::sort::sort_spec;
use crate::sort::stable_sort;
use crate::tempo::MidiTempo;
use crate::tempo::annotate_spans;
use crate::tempo::build_tempo_map;
use crate::tempo::raw_with_default;
use crate::tempo::tempo_entries;
use crate::tempo::units_at;
use crate::tempo::wf_tempo;

/// Why a chart text was rejected: the section grammar did not match at
/// all, or a required section's body could not be interpreted.
#[derive(Clone, Debug)]
pub enum ChartParseError {
    InitialParseFail,
    CantParseSongSection,
    CantParseSyncTrackSection,
    CantParseGuitarBassTrackSection { track_name: String },
}

/// A sync-track event: a tempo in thousandths of BPM, or a time
/// signature whose second number is a base-2 power (absent here: the
/// notation's sync lines carry only the numerator).
#[derive(Clone, Copy, Debug)]
pub enum SyncEventType {
    Beat(u32),
    TimeSignature(u32, Option<u32>),
}

/// A sync-track event at a tick position, with its exact real-time
/// annotation in the tempo module's unit scale.
#[derive(Clone, Copy, Debug)]
pub struct SyncEvent {
    pub pos: u64,
    pub pos_units: u64,
    pub value: SyncEventType,
}

/// The tempo/time-signature track of a chart.
#[derive(Clone, Debug)]
pub struct SyncTrack {
    pub events: Vec<SyncEvent>,
}

/// A guitar/bass event kind: a fret note (lane 0 to 4), a star-power
/// span, or one of the marker notes (forced, tap, open).
#[derive(Clone, Copy, Debug)]
pub enum GuitarEventType {
    Note(u32),
    Starpower,
    Forced,
    Tap,
    Open,
}

/// A guitar/bass event: tick position and length, the exact real-time
/// annotation of both, and the event kind.
#[derive(Clone, Copy, Debug)]
pub struct GuitarEvent {
    pub pos: u64,
    pub pos_units: u64,
    pub length: u64,
    pub length_units: u64,
    pub value: GuitarEventType,
}

/// One difficulty/instrument section's events, under its section name.
#[derive(Clone, Debug)]
pub struct GuitarTrack {
    pub name: String,
    pub events: Vec<GuitarEvent>,
}

/// A parsed chart: resolution in ticks per quarter, the sync track, and
/// one track per difficulty/instrument section present.
#[derive(Clone, Debug)]
pub struct SongChart {
    pub resolution: u16,
    pub sync_track: SyncTrack,
    pub guitar_tracks: Vec<GuitarTrack>,
}

impl SortKey for SyncEvent {
    open spec fn key(&self) -> (u64, u64) {
        (self.pos, 0)
    }

    fn sort_le(&self, other: &Self) -> (r: bool)
        ensures
            r == key_le(self.key(), other.key()),
    {
        self.pos <= other.pos
    }
}

impl SortKey for (u64, u32) {
    open spec fn key(&self) -> (u64, u64) {
        (self.0, 0)
    }

    fn sort_le(&self, other: &Self) -> (r: bool)
        ensures
            r == key_le(self.key(), other.key()),
    {
        self.0 <= other.0
    }
}

/// Microseconds per quarter a sync event stands for: a tempo of `b`
/// thousandths of BPM gives `60_000_000 / (b / 1000)` (whole-BPM
/// precision); time signatures and tempi below 1 BPM give none, written 0.
pub open spec fn sync_mpq(v: SyncEventType) -> u32 {
    match v {
        SyncEventType::Beat(b) => if b >= 1000 {
            (60_000_000 as int / (b as int / 1000)) as u32
        } else {
            0
        },
        SyncEventType::TimeSignature(_, _) => 0,
    }
}

impl SyncEvent {
    /// The microseconds-per-quarter value of this event (0 when it
    /// carries no usable tempo).
    pub fn get_mpq(&self) -> (r: u32)
        ensures
            r == sync_mpq(self.value),
            r <= MAX_MPQ,
    {
        match self.value {
            SyncEventType::Beat(b) => {
                if b >= 1000 {
                    60_000_000u32 / (b / 1000)
                } else {
                    0
                }
            },
            SyncEventType::TimeSignature(_, _) => 0,
        }
    }
}

/// Whether any sync event declares a tempo.
pub open spec fn has_beat(events: Seq<SyncEvent>) -> bool {
    exists|i: int| 0 <= i < events.len() && (#[trigger] events[i].value) is Beat
}

/// The sync events with the synthetic 120 BPM declaration put in front
/// when none declares a tempo.
pub open spec fn with_default_beat(events: Seq<SyncEvent>) -> Seq<SyncEvent> {
    if has_beat(events) {
        events
    } else {
        seq![SyncEvent { pos: 0, pos_units: 0, value: SyncEventType::Beat(120_000) }] + events
    }
}

/// The tempo declarations the sync events contribute to the tempo map:
/// every tempo event inside the supported tick range whose value yields
/// at least 1 BPM, as `(tick, microseconds_per_quarter)`.
pub open spec fn beat_pairs(events: Seq<SyncEvent>) -> Seq<(u64, u32)>
    decreases events.len(),
{
    if events.len() == 0 {
        Seq::<(u64, u32)>::empty()
    } else {
        let rest = beat_pairs(events.drop_last());
        let e = events.last();
        match e.value {
            SyncEventType::Beat(b) => if b >= 1000 && e.pos <= MAX_TICK {
                rest.push((e.pos, sync_mpq(e.value)))
            } else {
                rest
            },
            SyncEventType::TimeSignature(_, _) => rest,
        }
    }
}

/// The tempo events kept in the annotated sync track: every tempo
/// declaration inside the supported tick range (time signatures are
/// dropped, as downstream only consumes tempo).
pub open spec fn kept_beats(events: Seq<SyncEvent>) -> Seq<SyncEvent>
    decreases events.len(),
{
    if events.len() == 0 {
        Seq::<SyncEvent>::empty()
    } else {
        let rest = kept_beats(events.drop_last());
        let e = events.last();
        match e.value {
            SyncEventType::Beat(_) => if e.pos <= MAX_TICK {
                rest.push(e)
            } else {
                rest
            },
            SyncEventType::TimeSignature(_, _) => rest,
        }
    }
}

/// The tempo map a chart's sync events give rise to.
pub open spec fn chart_tempo(events: Seq<SyncEvent>) -> Seq<MidiTempo> {
    tempo_entries(raw_with_default(sort_spec(beat_pairs(with_default_beat(events)))))
}

/// Sync events re-annotated with their exact real time under `tempo`.
pub open spec fn annotated_sync(events: Seq<SyncEvent>, tempo: Seq<MidiTempo>) -> Seq<SyncEvent> {
    events.map(
        |i: int, e: SyncEvent|
            SyncEvent { pos: e.pos, pos_units: units_at(tempo, e.pos) as u64, value: e.value },
    )
}

/// Guitar events inside the supported tick range (events beyond it carry
/// no representable time and are dropped).
pub open spec fn bounded_guitar(events: Seq<GuitarEvent>) -> Seq<GuitarEvent>
    decreases events.len(),
{
    if events.len() == 0 {
        Seq::<GuitarEvent>::empty()
    } else {
        let rest = bounded_guitar(events.drop_last());
        let e = events.last();
        if e.pos + e.length <= MAX_TICK {
            rest.push(e)
        } else {
            rest
        }
    }
}

/// Guitar events re-annotated with the exact real time of their start
/// and span under `tempo`.
pub open spec fn annotated_guitar(events: Seq<GuitarEvent>, tempo: Seq<MidiTempo>) -> Seq<
    GuitarEvent,
> {
    events.map(
        |i: int, e: GuitarEvent|
            GuitarEvent {
                pos: e.pos,
                pos_units: units_at(tempo, e.pos) as u64,
                length: e.length,
                length_units: (units_at(tempo, (e.pos + e.length) as u64) - units_at(
                    tempo,
                    e.pos,
                )) as u64,
                value: e.value,
            },
    )
}

/// A usable tempo declaration never exceeds the largest admissible
/// microseconds-per-quarter value.
proof fn lemma_sync_mpq_bound(v: SyncEventType)
    ensures
        sync_mpq(v) <= MAX_MPQ,
{
    match v {
        SyncEventType::Beat(b) => {
            if b >= 1000 {
                let q = b as int / 1000;
                assert(q >= 1) by {
                    vstd::arithmetic::div_mod::lemma_div_is_ordered(1000, b as int, 1000);
                }
                assert(60_000_000 as int / q <= 60_000_000) by {
                    vstd::arithmetic::div_mod::lemma_div_is_ordered_by_denominator(
                        60_000_000,
                        1,
                        q,
                    );
                    vstd::arithmetic::div_mod::lemma_div_basics(60_000_000);
                }
                assert(60_000_000 as int / q >= 0) by {
                    vstd::arithmetic::div_mod::lemma_div_pos_is_pos(60_000_000, q);
                }
            }
        },
        SyncEventType::TimeSignature(_, _) => {},
    }
}

/// Sync events without a tempo declaration contribute nothing.
proof fn lemma_no_beats_empty(events: Seq<SyncEvent>)
    requires
        !has_beat(events),
    ensures
        beat_pairs(events) =~= Seq::<(u64, u32)>::empty(),
        kept_beats(events) =~= Seq::<SyncEvent>::empty(),
    decreases events.len(),
{
    if events.len() > 0 {
        assert(!has_beat(events.drop_last())) by {
            if has_beat(events.drop_last()) {
                let i = choose|i: int|
                    0 <= i < events.drop_last().len() && (#[trigger] events.drop_last()[i].value)
                        is Beat;
                assert(events[i].value is Beat);
            }
        }
        lemma_no_beats_empty(events.drop_last());
        assert(!(events.last().value is Beat)) by {
            if events.last().value is Beat {
                assert(events[events.len() - 1].value is Beat);
            }
        }
    }
}

/// Law: a source with no tempo declaration at all yields exactly the
/// synthetic 120 BPM tempo map entry at tick 0, and the annotated sync
/// track holds exactly the synthetic declaration.
pub proof fn lemma_default_tempo_injection(events: Seq<SyncEvent>)
    requires
        !has_beat(events),
    ensures
        chart_tempo(events) =~= seq![MidiTempo { pos: 0, pos_units: 0, mpq: DEFAULT_MPQ }],
        kept_beats(with_default_beat(events)) =~= seq![
            SyncEvent { pos: 0, pos_units: 0, value: SyncEventType::Beat(120_000) },
        ],
{
    let d = SyncEvent { pos: 0, pos_units: 0, value: SyncEventType::Beat(120_000) };
    let w = with_default_beat(events);
    assert(w == seq![d] + events);
    lemma_cons_default(events);
    let bp = beat_pairs(w);
    assert(bp =~= seq![(0u64, DEFAULT_MPQ)]);
    assert(crate::sort::sort_spec(bp) =~= bp) by {
        assert(bp.drop_last() =~= Seq::<(u64, u32)>::empty());
        assert(crate::sort::sort_spec(Seq::<(u64, u32)>::empty()) =~= Seq::<(u64, u32)>::empty());
        assert(crate::sort::stable_insert(Seq::<(u64, u32)>::empty(), bp.last()) =~= seq![
            bp.last(),
        ]);
        assert(bp.last() == (0u64, DEFAULT_MPQ));
    }
    assert(raw_with_default(seq![(0u64, DEFAULT_MPQ)]) =~= seq![(0u64, DEFAULT_MPQ)]);
    assert(chart_tempo(events) =~= seq![MidiTempo { pos: 0, pos_units: 0, mpq: DEFAULT_MPQ }]) by {
        let raw = seq![(0u64, DEFAULT_MPQ)];
        assert(tempo_entries(Seq::<(u64, u32)>::empty()) =~= Seq::<MidiTempo>::empty());
        assert(raw.drop_last() =~= Seq::<(u64, u32)>::empty());
        assert(tempo_entries(raw).len() == 1);
        assert(tempo_entries(raw.drop_last()) =~= Seq::<MidiTempo>::empty());
        assert(tempo_entries(raw) =~= Seq::<MidiTempo>::empty().push(
            MidiTempo { pos: 0, pos_units: 0, mpq: DEFAULT_MPQ },
        ));
    }
}

/// With no tempo among `events`, prefixing the synthetic declaration
/// leaves exactly it in the kept and contributed lists.
proof fn lemma_cons_default(events: Seq<SyncEvent>)
    requires
        !has_beat(events),
    ensures
        beat_pairs(
            seq![SyncEvent { pos: 0, pos_units: 0, value: SyncEventType::Beat(120_000) }] + events,
        ) =~= seq![(0u64, DEFAULT_MPQ)],
        kept_beats(
            seq![SyncEvent { pos: 0, pos_units: 0, value: SyncEventType::Beat(120_000) }] + events,
        ) =~= seq![SyncEvent { pos: 0, pos_units: 0, value: SyncEventType::Beat(120_000) }],
    decreases events.len(),
{
    let d = SyncEvent { pos: 0, pos_units: 0, value: SyncEventType::Beat(120_000) };
    if events.len() == 0 {
        assert(seq![d] + events =~= seq![d]);
        assert((seq![d]).drop_last() =~= Seq::<SyncEvent>::empty());
        assert(beat_pairs(Seq::<SyncEvent>::empty()) =~= Seq::<(u64, u32)>::empty());
        assert(kept_beats(Seq::<SyncEvent>::empty()) =~= Seq::<SyncEvent>::empty());
        assert(beat_pairs(seq![d]) =~= seq![(0u64, sync_mpq(d.value))]);
        assert(sync_mpq(d.value) == DEFAULT_MPQ);
    } else {
        assert(!has_beat(events.drop_last())) by {
            if has_beat(events.drop_last()) {
                let i = choose|i: int|
                    0 <= i < events.drop_last().len() && (#[trigger] events.drop_last()[i].value)
                        is Beat;
                assert(events[i].value is Beat);
            }
        }
        lemma_cons_default(events.drop_last());
        assert((seq![d] + events).drop_last() =~= seq![d] + events.drop_last());
        assert(!((seq![d] + events).last().value is Beat)) by {
            assert((seq![d] + events).last() == events.last());
            if events.last().value is Beat {
                assert(events[events.len() - 1].value is Beat);
            }
        }
    }
}

/// Every contributed tempo declaration is bounded.
proof fn lemma_beat_pairs_bounds(events: Seq<SyncEvent>)
    ensures
        forall|k: int|
            0 <= k < beat_pairs(events).len() ==> (#[trigger] beat_pairs(events)[k]).0 <= MAX_TICK
                && beat_pairs(events)[k].1 <= MAX_MPQ,
    decreases events.len(),
{
    if events.len() > 0 {
        lemma_beat_pairs_bounds(events.drop_last());
        lemma_sync_mpq_bound(events.last().value);
        let bp = beat_pairs(events);
        let rest = beat_pairs(events.drop_last());
        assert forall|k: int| 0 <= k < bp.len() implies (#[trigger] bp[k]).0 <= MAX_TICK
            && bp[k].1 <= MAX_MPQ by {
            if k < rest.len() {
                assert(bp[k] == rest[k]);
            }
        }
    }
}

/// Every kept tempo event is bounded.
proof fn lemma_kept_beats_bounds(events: Seq<SyncEvent>)
    ensures
        forall|k: int|
            0 <= k < kept_beats(events).len() ==> (#[trigger] kept_beats(events)[k]).pos
                <= MAX_TICK,
    decreases events.len(),
{
    if events.len() > 0 {
        lemma_kept_beats_bounds(events.drop_last());
    }
}

impl SongChart {
    /// Builds the tempo map from the sync track and fills in the exact
    /// real-time annotation of every sync and guitar event.
    ///
    /// A chart with no tempo declaration receives the synthetic 120 BPM
    /// declaration at tick 0, so its tempo map holds exactly one entry.
    /// Time signatures, tempo declarations below 1 BPM and events beyond
    /// the supported tick range carry no time and are dropped; tempo
    /// events are then ordered by tick and chained.
    #[verifier::rlimit(100)]
    pub fn update_realtime_positions(&mut self)
        ensures
            final(self).resolution == old(self).resolution,
            wf_tempo(chart_tempo(old(self).sync_track.events@)),
            final(self).sync_track.events@ =~= annotated_sync(
                sort_spec(kept_beats(with_default_beat(old(self).sync_track.events@))),
                chart_tempo(old(self).sync_track.events@),
            ),
            final(self).guitar_tracks@.len() == old(self).guitar_tracks@.len(),
            forall|t: int|
                0 <= t < old(self).guitar_tracks@.len() ==> {
                    &&& (#[trigger] final(self).guitar_tracks@[t]).name@ == old(
                        self,
                    ).guitar_tracks@[t].name@
                    &&& final(self).guitar_tracks@[t].events@ =~= annotated_guitar(
                        bounded_guitar(old(self).guitar_tracks@[t].events@),
                        chart_tempo(old(self).sync_track.events@),
                    )
                },
            !has_beat(old(self).sync_track.events@) ==> final(self).sync_track.events@ =~= seq![
                SyncEvent { pos: 0, pos_units: 0, value: SyncEventType::Beat(120_000) },
            ],
    {
        let ghost olds = self.sync_track.events@;
        // inject the synthetic 120 BPM declaration if none declares a tempo
        let mut hasb = false;
        let mut i: usize = 0;
        while i < self.sync_track.events.len()
            invariant
                self.sync_track.events@ == olds,
                0 <= i <= olds.len(),
                hasb == has_beat(olds.take(i as int)),
            decreases olds.len() - i,
        {
            proof {
                assert(olds.take(i as int + 1).drop_last() =~= olds.take(i as int));
                assert(olds.take(i as int + 1).last() == olds[i as int]);
            }
            let ghost pre = has_beat(olds.take(i as int));
            match self.sync_track.events[i].value {
                SyncEventType::Beat(_) => {
                    hasb = true;
                    proof {
                        assert(olds.take(i as int + 1)[i as int].value is Beat);
                    }
                },
                SyncEventType::TimeSignature(_, _) => {
                    proof {
                        if has_beat(olds.take(i as int + 1)) {
                            let k = choose|k: int|
                                0 <= k < i + 1 && (#[trigger] olds.take(i as int + 1)[k].value)
                                    is Beat;
                            assert(olds.take(i as int)[k].value is Beat);
                        }
                    }
                },
            }
            i = i + 1;
        }
        proof {
            assert(olds.take(olds.len() as int) =~= olds);
        }
        if !hasb {
            self.sync_track.events.insert(
                0,
                SyncEvent { pos: 0, pos_units: 0, value: SyncEventType::Beat(120_000) },
            );
            proof {
                assert(self.sync_track.events@ =~= with_default_beat(olds));
            }
        }
        let ghost evs = self.sync_track.events@;
        proof {
            assert(evs == with_default_beat(olds));
        }

        // one pass: the kept tempo events, and their tempo declarations
        let mut kept: Vec<SyncEvent> = Vec::new();
        let mut pairs: Vec<(u64, u32)> = Vec::new();
        let mut j: usize = 0;
        while j < self.sync_track.events.len()
            invariant
                self.sync_track.events@ == evs,
                0 <= j <= evs.len(),
                kept@ =~= kept_beats(evs.take(j as int)),
                pairs@ =~= beat_pairs(evs.take(j as int)),
            decreases evs.len() - j,
        {
            proof {
                assert(evs.take(j as int + 1).drop_last() =~= evs.take(j as int));
                assert(evs.take(j as int + 1).last() == evs[j as int]);
            }
            let e = self.sync_track.events[j];
            match e.value {
                SyncEventType::Beat(b) => {
                    if e.pos <= MAX_TICK {
                        kept.push(e);
                        if b >= 1000 {
                            let mpq = e.get_mpq();
                            pairs.push((e.pos, mpq));
                        }
                    }
                },
                SyncEventType::TimeSignature(_, _) => {},
            }
            j = j + 1;
        }
        proof {
            assert(evs.take(evs.len() as int) =~= evs);
        }

        // order by tick, build the tempo map
        let ghost kept0 = kept@;
        let ghost pairs0 = pairs@;
        stable_sort(&mut kept);
        stable_sort(&mut pairs);
        proof {
            crate::sort::lemma_sort_spec_props(pairs0);
            crate::sort::lemma_sort_spec_props(kept0);
            lemma_beat_pairs_bounds(evs);
            lemma_kept_beats_bounds(evs);
            assert forall|a: int, b: int| 0 <= a <= b < pairs@.len() implies (
            #[trigger] pairs@[a]).0 <= (#[trigger] pairs@[b]).0 by {
                assert(crate::sort::key_le(pairs@[a].key(), pairs@[b].key()));
            }
            assert forall|a: int| 0 <= a < pairs@.len() implies (#[trigger] pairs@[a]).0
                <= MAX_TICK && pairs@[a].1 <= MAX_MPQ by {
                assert(pairs@.contains(pairs@[a]));
                assert(pairs0.contains(pairs@[a]));
                let m = choose|m: int| 0 <= m < pairs0.len() && pairs0[m] == pairs@[a];
                assert(beat_pairs(evs)[m] == pairs@[a]);
            }
            assert forall|a: int| 0 <= a < kept@.len() implies (#[trigger] kept@[a]).pos
                <= MAX_TICK by {
                assert(kept@.contains(kept@[a]));
                assert(kept0.contains(kept@[a]));
                let m = choose|m: int| 0 <= m < kept0.len() && kept0[m] == kept@[a];
                assert(kept_beats(evs)[m] == kept@[a]);
            }
        }
        let tempo = build_tempo_map(&pairs);
        proof {
            assert(tempo@ =~= chart_tempo(olds));
        }

        // annotate the sync track
        let mut spans: Vec<(u64, u64)> = Vec::new();
        let mut k: usize = 0;
        while k < kept.len()
            invariant
                0 <= k <= kept@.len(),
                spans@.len() == k,
                forall|m: int| 0 <= m < k ==> #[trigger] spans@[m] == (kept@[m].pos, 0u64),
                forall|m: int|
                    0 <= m < kept@.len() ==> (#[trigger] kept@[m]).pos <= MAX_TICK,
            decreases kept@.len() - k,
        {
            spans.push((kept[k].pos, 0));
            k = k + 1;
        }
        proof {
            assert forall|m: int| 0 <= m < spans@.len() implies (#[trigger] spans@[m]).0
                + spans@[m].1 <= MAX_TICK by {
                assert(spans@[m] == (kept@[m].pos, 0u64));
            }
        }
        let ann = annotate_spans(&spans, &tempo);
        let mut out: Vec<SyncEvent> = Vec::new();
        let mut k2: usize = 0;
        while k2 < kept.len()
            invariant
                0 <= k2 <= kept@.len(),
                ann@.len() == spans@.len(),
                spans@.len() == kept@.len(),
                forall|m: int| 0 <= m < kept@.len() ==> #[trigger] spans@[m] == (kept@[m].pos, 0u64),
                forall|m: int|
                    0 <= m < spans@.len() ==> #[trigger] ann@[m].0 == crate::tempo::units_at(
                        tempo@,
                        spans@[m].0,
                    ),
                out@.len() == k2,
                forall|m: int|
                    0 <= m < k2 ==> #[trigger] out@[m] == annotated_sync(kept@, tempo@)[m],
            decreases kept@.len() - k2,
        {
            let e = kept[k2];
            let (u0, _u1) = ann[k2];
            out.push(SyncEvent { pos: e.pos, pos_units: u0, value: e.value });
            k2 = k2 + 1;
        }
        proof {
            assert(out@ =~= annotated_sync(sort_spec(kept_beats(evs)), tempo@));
            if !has_beat(olds) {
                lemma_default_tempo_injection(olds);
                let d = SyncEvent { pos: 0, pos_units: 0, value: SyncEventType::Beat(120_000) };
                assert(sort_spec(kept_beats(evs)) =~= seq![d]) by {
                    assert(kept_beats(evs) =~= seq![d]);
                    assert(seq![d].drop_last() =~= Seq::<SyncEvent>::empty());
                    assert(sort_spec(Seq::<SyncEvent>::empty()) =~= Seq::<SyncEvent>::empty());
                    assert(crate::sort::stable_insert(Seq::<SyncEvent>::empty(), d) =~= seq![d]);
                }
                assert(out@ =~= seq![d]) by {
                    assert(annotated_sync(seq![d], tempo@).len() == 1);
                    assert(annotated_sync(seq![d], tempo@)[0]
                        == SyncEvent { pos: 0, pos_units: crate::tempo::units_at(tempo@, 0) as u64, value: d.value });
                    crate::tempo::lemma_tempo_monotonic(tempo@, 1, 0, 0);
                }
            }
        }
        self.sync_track.events = out;

        // annotate each guitar track against the same tempo map
        let ghost g0 = self.guitar_tracks@;
        let mut old_tracks: Vec<GuitarTrack> = Vec::new();
        core::mem::swap(&mut old_tracks, &mut self.guitar_tracks);
        let mut new_tracks: Vec<GuitarTrack> = Vec::new();
        let mut t: usize = 0;
        while t < old_tracks.len()
            invariant
                old_tracks@ == g0,
                wf_tempo(tempo@),
                tempo@ =~= chart_tempo(olds),
                0 <= t <= g0.len(),
                new_tracks@.len() == t,
                forall|m: int|
                    0 <= m < t ==> {
                        &&& (#[trigger] new_tracks@[m]).name@ == g0[m].name@
                        &&& new_tracks@[m].events@ =~= annotated_guitar(
                            bounded_guitar(g0[m].events@),
                            tempo@,
                        )
                    },
            decreases g0.len() - t,
        {
            let tr = &old_tracks[t];
            let ghost te = tr.events@;
            let mut evs2: Vec<GuitarEvent> = Vec::new();
            let mut j2: usize = 0;
            while j2 < tr.events.len()
                invariant
                    tr.events@ == te,
                    0 <= j2 <= te.len(),
                    evs2@ =~= bounded_guitar(te.take(j2 as int)),
                decreases te.len() - j2,
            {
                proof {
                    assert(te.take(j2 as int + 1).drop_last() =~= te.take(j2 as int));
                    assert(te.take(j2 as int + 1).last() == te[j2 as int]);
                }
                let e = tr.events[j2];
                if e.length <= MAX_TICK && e.pos <= MAX_TICK - e.length {
                    evs2.push(e);
                }
                j2 = j2 + 1;
            }
            proof {
                assert(te.take(te.len() as int) =~= te);
                lemma_bounded_guitar_bounds(te);
            }
            let mut spans2: Vec<(u64, u64)> = Vec::new();
            let mut k3: usize = 0;
            while k3 < evs2.len()
                invariant
                    0 <= k3 <= evs2@.len(),
                    spans2@.len() == k3,
                    forall|m: int|
                        0 <= m < k3 ==> #[trigger] spans2@[m] == (evs2@[m].pos, evs2@[m].length),
                    forall|m: int|
                        0 <= m < evs2@.len() ==> (#[trigger] evs2@[m]).pos + evs2@[m].length
                            <= MAX_TICK,
                decreases evs2@.len() - k3,
            {
                let e = evs2[k3];
                spans2.push((e.pos, e.length));
                k3 = k3 + 1;
            }
            proof {
                assert forall|m: int| 0 <= m < spans2@.len() implies (#[trigger] spans2@[m]).0
                    + spans2@[m].1 <= MAX_TICK by {
                    assert(spans2@[m] == (evs2@[m].pos, evs2@[m].length));
                }
            }
            let ann2 = annotate_spans(&spans2, &tempo);
            let mut out2: Vec<GuitarEvent> = Vec::new();
            let mut k4: usize = 0;
            while k4 < evs2.len()
                invariant
                    0 <= k4 <= evs2@.len(),
                    ann2@.len() == spans2@.len(),
                    spans2@.len() == evs2@.len(),
                    forall|m: int|
                        0 <= m < evs2@.len() ==> #[trigger] spans2@[m] == (evs2@[m].pos,
                        evs2@[m].length),
                    forall|m: int|
                        0 <= m < spans2@.len() ==> #[trigger] ann2@[m].0 == crate::tempo::units_at(
                            tempo@,
                            spans2@[m].0,
                        ),
                    forall|m: int|
                        0 <= m < spans2@.len() ==> #[trigger] ann2@[m].1 == crate::tempo::units_at(
                            tempo@,
                            (spans2@[m].0 + spans2@[m].1) as u64,
                        ) - crate::tempo::units_at(tempo@, spans2@[m].0),
                    out2@.len() == k4,
                    forall|m: int|
                        0 <= m < k4 ==> #[trigger] out2@[m] == annotated_guitar(evs2@, tempo@)[m],
                decreases evs2@.len() - k4,
            {
                let e = evs2[k4];
                let (u0, u1) = ann2[k4];
                out2.push(
                    GuitarEvent {
                        pos: e.pos,
                        pos_units: u0,
                        length: e.length,
                        length_units: u1,
                        value: e.value,
                    },
                );
                k4 = k4 + 1;
            }
            proof {
                assert(out2@ =~= annotated_guitar(bounded_guitar(g0[t as int].events@), tempo@));
            }
            let name = clone_string(&old_tracks[t].name);
            new_tracks.push(GuitarTrack { name, events: out2 });
            t = t + 1;
        }
        self.guitar_tracks = new_tracks;
    }
}

/// Every event kept by the bound filter ends inside the tick range.
proof fn lemma_bounded_guitar_bounds(events: Seq<GuitarEvent>)
    ensures
        forall|k: int|
            0 <= k < bounded_guitar(events).len() ==> (#[trigger] bounded_guitar(events)[k]).pos
                + bounded_guitar(events)[k].length <= MAX_TICK,
    decreases events.len(),
{
    if events.len() > 0 {
        lemma_bounded_guitar_bounds(events.drop_last());
    }
}

/// A fresh copy of a string, character for character.
pub fn clone_string(s: &String) -> (r: String)
    ensures
        r@ == s@,
{
    let mut r = String::new();
    r.append(s.as_str());
    r
}

/// What the reduction stage relies on of an annotated chart.
pub open spec fn wf_chart(c: SongChart) -> bool {
    &&& c.resolution >= 1
    &&& forall|t: int, j: int|
        0 <= t < c.guitar_tracks.len() && 0 <= j < c.guitar_tracks[t].events.len() ==> (
        #[trigger] c.guitar_tracks[t].events[j]).pos + c.guitar_tracks[t].events[j].length
            <= MAX_TICK
}

} // verus!
