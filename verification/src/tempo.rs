//! Tempo map: an ordered list of tempo changes and the conversion of tick
//! positions into real time.
//!
//! Real time is kept exactly: a position's `pos_units` is the sum of
//! `mpq * delta_ticks` over the tempo segments before it, so that its value
//! in milliseconds is `pos_units / (1000 * ticks_per_quarter)`, the same
//! quantity the chained per-segment formula yields, with no rounding until
//! a millisecond figure is demanded.

use vstd::arithmetic::div_mod::lemma_div_is_ordered;
use vstd::arithmetic::mul::lemma_mul_inequality;
use vstd::arithmetic::mul::lemma_mul_upper_bound;
use vstd::prelude::*;

verus! {

use crate::DEFAULT_MPQ;
use crate::MAX_MPQ;
use crate::MAX_TICK;

/// One tempo change: `pos` in ticks, `pos_units` the exact accumulated time
/// at `pos` (milliseconds scaled by `1000 * ticks_per_quarter`), `mpq` the
/// microseconds per quarter note that hold from `pos` on.
#[derive(Clone, Copy, Debug, PartialEq, Eq, Structural)]
pub struct MidiTempo {
    pub pos: u64,
    pub pos_units: u64,
    pub mpq: u32,
}

/// Tick positions never decrease along the list.
pub open spec fn tempo_sorted(s: Seq<MidiTempo>) -> bool {
    forall|i: int, j: int| 0 <= i <= j < s.len() ==> #[trigger] s[i].pos <= #[trigger] s[j].pos
}

/// Every entry's accumulated time extends its predecessor's by the
/// predecessor's tempo over the tick gap.
pub open spec fn tempo_chained(s: Seq<MidiTempo>) -> bool {
    forall|i: int|
        0 < i < s.len() ==> #[trigger] s[i].pos_units == s[i - 1].pos_units + s[i - 1].mpq * (
        s[i].pos - s[i - 1].pos)
}

/// Ticks and tempi stay inside the ranges the arithmetic needs.
pub open spec fn tempo_bounded(s: Seq<MidiTempo>) -> bool {
    forall|i: int|
        0 <= i < s.len() ==> #[trigger] s[i].pos <= MAX_TICK && #[trigger] s[i].mpq <= MAX_MPQ
}

/// A well-formed tempo map: at least one entry, the first at tick 0 with
/// time 0, ordered, chained, and bounded.
pub open spec fn wf_tempo(s: Seq<MidiTempo>) -> bool {
    &&& s.len() >= 1
    &&& s[0].pos == 0
    &&& s[0].pos_units == 0
    &&& tempo_sorted(s)
    &&& tempo_chained(s)
    &&& tempo_bounded(s)
}

/// Index of the latest tempo entry at or before `tick` (0 if none is).
pub open spec fn tempo_index_for(s: Seq<MidiTempo>, tick: u64) -> int
    decreases s.len(),
{
    if s.len() <= 1 {
        0
    } else if s[s.len() - 1].pos <= tick {
        s.len() - 1
    } else {
        tempo_index_for(s.drop_last(), tick)
    }
}

/// Exact accumulated time at `tick`: the governing entry's time plus its
/// tempo over the remaining ticks.
pub open spec fn units_at(s: Seq<MidiTempo>, tick: u64) -> int {
    let i = tempo_index_for(s, tick);
    s[i].pos_units + s[i].mpq * (tick - s[i].pos)
}

/// Real time in whole milliseconds at `tick` (exact value rounded down).
pub open spec fn real_time_ms(s: Seq<MidiTempo>, tick: u64, tpq: u16) -> int {
    units_at(s, tick) / (1000 * tpq as int)
}

pub proof fn lemma_tempo_index_for_props(s: Seq<MidiTempo>, tick: u64)
    requires
        s.len() >= 1,
        s[0].pos == 0,
    ensures
        0 <= tempo_index_for(s, tick) < s.len(),
        s[tempo_index_for(s, tick)].pos <= tick,
        forall|j: int| tempo_index_for(s, tick) < j < s.len() ==> #[trigger] s[j].pos > tick,
    decreases s.len(),
{
    if s.len() <= 1 {
    } else if s[s.len() - 1].pos <= tick {
    } else {
        lemma_tempo_index_for_props(s.drop_last(), tick);
        assert forall|j: int| tempo_index_for(s, tick) < j < s.len() implies #[trigger] s[j].pos
            > tick by {
            if j < s.len() - 1 {
                assert(s.drop_last()[j] == s[j]);
            }
        }
    }
}

/// The governing index never moves left as the query tick grows.
proof fn lemma_tempo_index_for_monotonic(s: Seq<MidiTempo>, a: u64, b: u64)
    requires
        s.len() >= 1,
        s[0].pos == 0,
        a <= b,
    ensures
        tempo_index_for(s, a) <= tempo_index_for(s, b),
    decreases s.len(),
{
    if s.len() <= 1 {
    } else if s[s.len() - 1].pos <= a {
    } else if s[s.len() - 1].pos <= b {
        lemma_tempo_index_for_props(s, a);
    } else {
        lemma_tempo_index_for_monotonic(s.drop_last(), a, b);
    }
}

/// Entries still at tick 0 carry accumulated time 0.
proof fn lemma_units_zero_prefix(s: Seq<MidiTempo>, i: int)
    requires
        wf_tempo(s),
        0 <= i < s.len(),
        s[i].pos == 0,
    ensures
        s[i].pos_units == 0,
    decreases i,
{
    if i > 0 {
        assert(s[i - 1].pos <= s[i].pos);
        lemma_units_zero_prefix(s, i - 1);
    }
}

/// Accumulated times never decrease along a well-formed map.
proof fn lemma_units_sorted(s: Seq<MidiTempo>, i: int, j: int)
    requires
        wf_tempo(s),
        0 <= i <= j < s.len(),
    ensures
        s[i].pos_units <= s[j].pos_units,
    decreases j - i,
{
    if i < j {
        lemma_units_sorted(s, i, j - 1);
        assert(s[j].pos_units == s[j - 1].pos_units + s[j - 1].mpq * (s[j].pos - s[j - 1].pos));
        lemma_mul_inequality(0, s[j - 1].mpq as int, s[j].pos - s[j - 1].pos);
    }
}

/// Accumulated time is bounded by the largest tempo times the position.
pub proof fn lemma_units_le(s: Seq<MidiTempo>, i: int)
    requires
        wf_tempo(s),
        0 <= i < s.len(),
    ensures
        s[i].pos_units <= MAX_MPQ * s[i].pos,
    decreases i,
{
    if i == 0 {
    } else {
        lemma_units_le(s, i - 1);
        let d = s[i].pos - s[i - 1].pos;
        lemma_mul_inequality(s[i - 1].mpq as int, MAX_MPQ as int, d);
        assert(MAX_MPQ * s[i - 1].pos + MAX_MPQ * d == MAX_MPQ * s[i].pos) by {
            vstd::arithmetic::mul::lemma_mul_is_distributive_add(
                MAX_MPQ as int,
                s[i - 1].pos as int,
                d,
            );
        }
    }
}

/// The exact time at any admissible tick fits comfortably in `u64`.
pub proof fn lemma_units_at_bound(s: Seq<MidiTempo>, tick: u64)
    requires
        wf_tempo(s),
        tick <= MAX_TICK,
    ensures
        0 <= units_at(s, tick) <= MAX_MPQ * tick,
        units_at(s, tick) <= u64::MAX,
{
    let i = tempo_index_for(s, tick);
    lemma_tempo_index_for_props(s, tick);
    lemma_units_le(s, i);
    let d = tick - s[i].pos;
    lemma_mul_inequality(s[i].mpq as int, MAX_MPQ as int, d);
    assert(MAX_MPQ * s[i].pos + MAX_MPQ * d == MAX_MPQ * tick) by {
        vstd::arithmetic::mul::lemma_mul_is_distributive_add(MAX_MPQ as int, s[i].pos as int, d);
    }
    lemma_mul_inequality(0, s[i].mpq as int, d);
    lemma_mul_upper_bound(MAX_MPQ as int, MAX_MPQ as int, tick as int, MAX_TICK as int);
}

/// Law: along a well-formed tempo map, exact time and real time in
/// milliseconds are non-decreasing in the tick position, and tick 0 maps
/// to time 0.
pub proof fn lemma_tempo_monotonic(s: Seq<MidiTempo>, tpq: u16, a: u64, b: u64)
    requires
        wf_tempo(s),
        tpq >= 1,
        a <= b,
    ensures
        units_at(s, a) <= units_at(s, b),
        real_time_ms(s, a, tpq) <= real_time_ms(s, b, tpq),
        units_at(s, 0) == 0,
        real_time_ms(s, 0, tpq) == 0,
{
    let ia = tempo_index_for(s, a);
    let ib = tempo_index_for(s, b);
    lemma_tempo_index_for_props(s, a);
    lemma_tempo_index_for_props(s, b);
    lemma_tempo_index_for_monotonic(s, a, b);
    if ia == ib {
        lemma_mul_inequality(a - s[ia].pos, b - s[ia].pos, s[ia].mpq as int);
        assert((a - s[ia].pos) * s[ia].mpq == s[ia].mpq * (a - s[ia].pos)) by {
            vstd::arithmetic::mul::lemma_mul_is_commutative(a - s[ia].pos, s[ia].mpq as int);
        }
        assert((b - s[ia].pos) * s[ia].mpq == s[ia].mpq * (b - s[ia].pos)) by {
            vstd::arithmetic::mul::lemma_mul_is_commutative(b - s[ia].pos, s[ia].mpq as int);
        }
    } else {
        // step from a up to the entry after ia, then along entries to ib
        assert(s[ia + 1].pos > a);
        assert(units_at(s, a) <= s[ia + 1].pos_units) by {
            assert(s[ia + 1].pos_units == s[ia].pos_units + s[ia].mpq * (s[ia + 1].pos
                - s[ia].pos));
            lemma_mul_inequality(a - s[ia].pos, s[ia + 1].pos - s[ia].pos, s[ia].mpq as int);
            assert((a - s[ia].pos) * s[ia].mpq == s[ia].mpq * (a - s[ia].pos)) by {
                vstd::arithmetic::mul::lemma_mul_is_commutative(a - s[ia].pos, s[ia].mpq as int);
            }
            assert((s[ia + 1].pos - s[ia].pos) * s[ia].mpq == s[ia].mpq * (s[ia + 1].pos
                - s[ia].pos)) by {
                vstd::arithmetic::mul::lemma_mul_is_commutative(
                    s[ia + 1].pos - s[ia].pos,
                    s[ia].mpq as int,
                );
            }
        }
        lemma_units_sorted(s, ia + 1, ib);
        lemma_mul_inequality(0, s[ib].mpq as int, b - s[ib].pos);
    }
    // tick 0 maps to time 0
    let i0 = tempo_index_for(s, 0);
    lemma_tempo_index_for_props(s, 0);
    assert(s[i0].pos == 0);
    lemma_units_zero_prefix(s, i0);
    assert(units_at(s, 0) == s[i0].pos_units + s[i0].mpq * 0);
    lemma_div_is_ordered(units_at(s, a), units_at(s, b), 1000 * tpq as int);
}

/// Moves `cursor` to the governing tempo entry for `tick` and returns the
/// exact accumulated time there. The cursor persists across calls, so
/// walking queries in either direction advances it incrementally.
pub fn seek_units(tempo: &Vec<MidiTempo>, cursor: &mut usize, tick: u64) -> (u: u64)
    requires
        wf_tempo(tempo@),
        *old(cursor) < tempo@.len(),
        tick <= MAX_TICK,
    ensures
        *final(cursor) < tempo@.len(),
        *final(cursor) == tempo_index_for(tempo@, tick),
        u == units_at(tempo@, tick),
{
    proof {
        lemma_tempo_index_for_props(tempo@, tick);
    }
    let ghost target = tempo_index_for(tempo@, tick);
    while *cursor + 1 < tempo.len() && tempo[*cursor + 1].pos <= tick
        invariant
            wf_tempo(tempo@),
            *cursor < tempo.len(),
            0 <= target < tempo@.len(),
            tempo@[target].pos <= tick,
            forall|j: int| target < j < tempo@.len() ==> #[trigger] tempo@[j].pos > tick,
            *cursor > target ==> tempo@[*cursor as int].pos > tick,
        decreases tempo@.len() - *cursor,
    {
        *cursor = *cursor + 1;
    }
    while tempo[*cursor].pos > tick
        invariant
            wf_tempo(tempo@),
            *cursor < tempo.len(),
            0 <= target < tempo@.len(),
            tempo@[target].pos <= tick,
            forall|j: int| target < j < tempo@.len() ==> #[trigger] tempo@[j].pos > tick,
            *cursor >= target,
            *cursor + 1 < tempo@.len() ==> tempo@[*cursor as int + 1].pos > tick,
        decreases *cursor,
    {
        *cursor = *cursor - 1;
    }
    proof {
        // cursor's entry is at or before tick and the next is after: it is
        // the governing index
        assert(*cursor == target) by {
            if (*cursor as int) < target {
                assert(tempo@[target].pos <= tick);
            }
        }
        lemma_units_at_bound(tempo@, tick);
        lemma_units_le(tempo@, *cursor as int);
        lemma_mul_upper_bound(
            tempo@[*cursor as int].mpq as int,
            MAX_MPQ as int,
            (tick - tempo@[*cursor as int].pos) as int,
            MAX_TICK as int,
        );
        lemma_mul_inequality(
            tempo@[*cursor as int].mpq as int,
            MAX_MPQ as int,
            (tick - tempo@[*cursor as int].pos) as int,
        );
        assert(MAX_MPQ * tempo@[*cursor as int].pos + MAX_MPQ * ((tick
            - tempo@[*cursor as int].pos) as int) == MAX_MPQ * tick) by {
            vstd::arithmetic::mul::lemma_mul_is_distributive_add(
                MAX_MPQ as int,
                tempo@[*cursor as int].pos as int,
                (tick - tempo@[*cursor as int].pos) as int,
            );
        }
        lemma_mul_upper_bound(MAX_MPQ as int, MAX_MPQ as int, tick as int, MAX_TICK as int);
    }
    let t = &tempo[*cursor];
    t.pos_units + (t.mpq as u64) * (tick - t.pos)
}

/// The accumulated time the next entry at `pos` would carry, extending `s`.
pub open spec fn next_units(s: Seq<MidiTempo>, pos: u64) -> int {
    if s.len() == 0 {
        0
    } else {
        s.last().pos_units + s.last().mpq * (pos - s.last().pos)
    }
}

/// Appends a tempo change at `pos`, chaining its accumulated time onto the
/// last entry. An empty map first receives the synthetic 120 BPM entry at
/// tick 0 when `pos > 0`, so the map always starts at tick 0.
pub fn append_tempo_change(tempo: &mut Vec<MidiTempo>, pos: u64, mpq: u32)
    requires
        old(tempo)@.len() == 0 || wf_tempo(old(tempo)@),
        old(tempo)@.len() > 0 ==> old(tempo)@.last().pos <= pos,
        pos <= MAX_TICK,
        mpq <= MAX_MPQ,
    ensures
        wf_tempo(final(tempo)@),
        old(tempo)@.len() == 0 && pos == 0 ==> final(tempo)@ =~= seq![
            MidiTempo { pos: 0, pos_units: 0, mpq },
        ],
        old(tempo)@.len() == 0 && pos > 0 ==> final(tempo)@ =~= seq![
            MidiTempo { pos: 0, pos_units: 0, mpq: DEFAULT_MPQ },
            MidiTempo { pos, pos_units: (DEFAULT_MPQ * pos) as u64, mpq },
        ],
        old(tempo)@.len() > 0 ==> final(tempo)@ =~= old(tempo)@.push(
            MidiTempo { pos, pos_units: next_units(old(tempo)@, pos) as u64, mpq },
        ),
{
    if tempo.len() == 0 && pos > 0 {
        tempo.push(MidiTempo { pos: 0, pos_units: 0, mpq: DEFAULT_MPQ });
    }
    if tempo.len() == 0 {
        tempo.push(MidiTempo { pos, pos_units: 0, mpq });
        return ;
    }
    let ghost pre = tempo@;
    let last = tempo[tempo.len() - 1];
    proof {
        lemma_units_le(pre, pre.len() - 1);
        lemma_mul_inequality(last.mpq as int, MAX_MPQ as int, pos - last.pos);
        assert(MAX_MPQ * last.pos + MAX_MPQ * ((pos - last.pos) as int) == MAX_MPQ * pos) by {
            vstd::arithmetic::mul::lemma_mul_is_distributive_add(
                MAX_MPQ as int,
                last.pos as int,
                (pos - last.pos) as int,
            );
        }
        lemma_mul_upper_bound(MAX_MPQ as int, MAX_MPQ as int, pos as int, MAX_TICK as int);
        lemma_mul_inequality(0, last.mpq as int, pos - last.pos);
    }
    let units = last.pos_units + (last.mpq as u64) * (pos - last.pos);
    tempo.push(MidiTempo { pos, pos_units: units, mpq });
    proof {
        let s = tempo@;
        assert forall|i: int, j: int| 0 <= i <= j < s.len() implies #[trigger] s[i].pos
            <= #[trigger] s[j].pos by {
            if j < pre.len() {
            } else if i < pre.len() {
                assert(s[i].pos <= pre.last().pos);
            }
        }
        assert(tempo_chained(s)) by {
            assert(forall|i: int| 0 < i < pre.len() ==> #[trigger] s[i].pos_units == s[i
                - 1].pos_units + s[i - 1].mpq * (s[i].pos - s[i - 1].pos));
        }
    }
}

/// Raw tempo declarations with the synthetic 120 BPM entry put in front
/// when none sits at tick 0.
pub open spec fn raw_with_default(raw: Seq<(u64, u32)>) -> Seq<(u64, u32)> {
    if raw.len() == 0 || raw[0].0 > 0 {
        seq![(0u64, DEFAULT_MPQ)] + raw
    } else {
        raw
    }
}

/// The tempo map the raw declarations `(tick, microseconds_per_quarter)`
/// give rise to, chaining each entry's accumulated time onto its
/// predecessor's.
pub open spec fn tempo_entries(all: Seq<(u64, u32)>) -> Seq<MidiTempo>
    decreases all.len(),
{
    if all.len() == 0 {
        Seq::<MidiTempo>::empty()
    } else {
        let prev = tempo_entries(all.drop_last());
        prev.push(
            MidiTempo {
                pos: all.last().0,
                pos_units: next_units(prev, all.last().0) as u64,
                mpq: all.last().1,
            },
        )
    }
}

/// Builds the tempo map from tick-ascending raw declarations
/// `(tick, microseconds_per_quarter)`.
///
/// With no declaration at all the map is exactly the single synthetic
/// 120 BPM entry at tick 0.
pub fn build_tempo_map(raw: &Vec<(u64, u32)>) -> (tempo: Vec<MidiTempo>)
    requires
        forall|i: int, j: int| 0 <= i <= j < raw@.len() ==> #[trigger] raw@[i].0 <= #[trigger] raw@[j].0,
        forall|i: int| 0 <= i < raw@.len() ==> #[trigger] raw@[i].0 <= MAX_TICK,
        forall|i: int| 0 <= i < raw@.len() ==> #[trigger] raw@[i].1 <= MAX_MPQ,
    ensures
        wf_tempo(tempo@),
        tempo@.len() == raw_with_default(raw@).len(),
        forall|i: int|
            0 <= i < tempo@.len() ==> #[trigger] tempo@[i].pos == raw_with_default(raw@)[i].0,
        forall|i: int|
            0 <= i < tempo@.len() ==> #[trigger] tempo@[i].mpq == raw_with_default(raw@)[i].1,
        raw@.len() == 0 ==> tempo@ =~= seq![MidiTempo { pos: 0, pos_units: 0, mpq: DEFAULT_MPQ }],
        tempo@ =~= tempo_entries(raw_with_default(raw@)),
{
    let ghost all = raw_with_default(raw@);
    let mut tempo: Vec<MidiTempo> = Vec::new();
    if raw.len() == 0 || raw[0].0 > 0 {
        tempo.push(MidiTempo { pos: 0, pos_units: 0, mpq: DEFAULT_MPQ });
    }
    let ghost head = tempo@.len() as int;
    proof {
        if head == 1 {
            assert(all.take(1).drop_last() =~= Seq::<(u64, u32)>::empty());
            assert(all.take(1).len() == 1);
            assert(all.take(1).last() == all[0]);
            assert(all[0] == (0u64, DEFAULT_MPQ));
            assert(tempo_entries(Seq::<(u64, u32)>::empty()) =~= Seq::<MidiTempo>::empty());
            assert(tempo_entries(all.take(1)) =~= tempo_entries(all.take(1).drop_last()).push(
                MidiTempo {
                    pos: all.take(1).last().0,
                    pos_units: next_units(tempo_entries(all.take(1).drop_last()), all.take(1).last().0) as u64,
                    mpq: all.take(1).last().1,
                },
            ));
            assert(tempo@ =~= tempo_entries(all.take(head)));
        } else {
            assert(all.take(0) =~= Seq::<(u64, u32)>::empty());
        }
    }
    let mut i: usize = 0;
    while i < raw.len()
        invariant
            forall|a: int, b: int|
                0 <= a <= b < raw@.len() ==> #[trigger] raw@[a].0 <= #[trigger] raw@[b].0,
            forall|a: int| 0 <= a < raw@.len() ==> #[trigger] raw@[a].0 <= MAX_TICK,
            forall|a: int| 0 <= a < raw@.len() ==> #[trigger] raw@[a].1 <= MAX_MPQ,
            all == raw_with_default(raw@),
            head == all.len() - raw@.len(),
            0 <= i <= raw@.len(),
            tempo@.len() == head + i,
            tempo@ =~= tempo_entries(all.take(head + i)),
            i > 0 || head > 0 ==> wf_tempo(tempo@),
            forall|j: int|
                0 <= j < tempo@.len() ==> #[trigger] tempo@[j].pos == all[j].0 && tempo@[j].mpq
                    == all[j].1,
        decreases raw@.len() - i,
    {
        let (pos, mpq) = raw[i];
        proof {
            if tempo@.len() > 0 {
                assert(tempo@.last().pos == all[head + i - 1].0);
                if head + i - 1 >= head {
                    assert(all[head + i - 1].0 == raw@[i - 1].0);
                }
            }
        }
        let ghost pre = tempo@;
        append_tempo_change(&mut tempo, pos, mpq);
        i = i + 1;
        proof {
            assert(all.take(head + i).drop_last() =~= all.take(head + i - 1));
            assert(all.take(head + i).last() == all[head + i - 1]);
            assert(all[head + i - 1] == raw@[i - 1]);
            assert(tempo@ =~= tempo_entries(all.take(head + i)));
        }
    }
    proof {
        if raw@.len() == 0 {
            assert(tempo@ =~= seq![MidiTempo { pos: 0, pos_units: 0, mpq: DEFAULT_MPQ }]);
        }
        assert forall|k: int| 0 <= k < tempo@.len() implies #[trigger] tempo@[k].pos
            == raw_with_default(raw@)[k].0 by {
            assert(tempo@[k].pos == all[k].0);
        }
        assert forall|k: int| 0 <= k < tempo@.len() implies #[trigger] tempo@[k].mpq
            == raw_with_default(raw@)[k].1 by {
            assert(tempo@[k].pos == all[k].0);
            assert(tempo@[k].mpq == all[k].1);
        }
        assert(all.take(all.len() as int) =~= all);
    }
    tempo
}

/// Converts exact accumulated units into whole milliseconds for a map with
/// `tpq` ticks per quarter note.
pub fn units_to_ms(units: u64, tpq: u16) -> (ms: u64)
    requires
        tpq >= 1,
    ensures
        ms == units as int / (1000 * tpq as int),
{
    units / (1000u64 * tpq as u64)
}

/// Annotates spans `(start_tick, tick_length)` with their exact times:
/// for each span the result holds `(units at start, units at end - units
/// at start)`, where the end is `start + length`.
#[verifier::rlimit(100)]
pub fn annotate_spans(spans: &Vec<(u64, u64)>, tempo: &Vec<MidiTempo>) -> (r: Vec<(u64, u64)>)
    requires
        wf_tempo(tempo@),
        forall|i: int| 0 <= i < spans@.len() ==> (#[trigger] spans@[i]).0 + spans@[i].1 <= MAX_TICK,
    ensures
        r@.len() == spans@.len(),
        forall|i: int|
            0 <= i < spans@.len() ==> #[trigger] r@[i].0 == units_at(tempo@, spans@[i].0),
        forall|i: int|
            0 <= i < spans@.len() ==> #[trigger] r@[i].1 == units_at(
                tempo@,
                (spans@[i].0 + spans@[i].1) as u64,
            ) - units_at(tempo@, spans@[i].0),
{
    let mut r: Vec<(u64, u64)> = Vec::new();
    let mut cursor: usize = 0;
    let mut i: usize = 0;
    while i < spans.len()
        invariant
            wf_tempo(tempo@),
            forall|k: int| 0 <= k < spans@.len() ==> (#[trigger] spans@[k]).0 + spans@[k].1 <= MAX_TICK,
            cursor < tempo.len(),
            0 <= i <= spans@.len(),
            r@.len() == i,
            forall|k: int| 0 <= k < i ==> #[trigger] r@[k].0 == units_at(tempo@, spans@[k].0),
            forall|k: int|
                0 <= k < i ==> #[trigger] r@[k].1 == units_at(
                    tempo@,
                    (spans@[k].0 + spans@[k].1) as u64,
                ) - units_at(tempo@, spans@[k].0),
        decreases spans@.len() - i,
    {
        let (start, length) = spans[i];
        let end = start + length;
        let end_units = seek_units(tempo, &mut cursor, end);
        let start_units = seek_units(tempo, &mut cursor, start);
        proof {
            lemma_tempo_monotonic(tempo@, 1, start, end);
        }
        r.push((start_units, end_units - start_units));
        i = i + 1;
    }
    r
}

} // verus!
