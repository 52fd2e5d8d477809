use praise_mod::tempo::{annotate_spans, build_tempo_map, units_to_ms, MidiTempo};

#[test]
fn empty_declarations_yield_single_default_entry() {
    let raw: Vec<(u64, u32)> = Vec::new();
    let tempo = build_tempo_map(&raw);
    assert_eq!(tempo.len(), 1);
    assert_eq!(tempo[0].pos, 0);
    assert_eq!(tempo[0].pos_units, 0);
    assert_eq!(tempo[0].mpq, 500_000);
}

#[test]
fn declaration_past_tick_zero_gets_default_head() {
    let raw: Vec<(u64, u32)> = vec![(960, 250_000)];
    let tempo = build_tempo_map(&raw);
    assert_eq!(tempo.len(), 2);
    assert_eq!(tempo[0].pos, 0);
    assert_eq!(tempo[0].mpq, 500_000);
    assert_eq!(tempo[1].pos, 960);
    assert_eq!(tempo[1].mpq, 250_000);
    // 960 ticks at 120 BPM and 480 ticks per quarter are 1000 ms
    assert_eq!(units_to_ms(tempo[1].pos_units, 480), 1000);
}

#[test]
fn constant_120_bpm_tick_480_is_500_ms() {
    let raw: Vec<(u64, u32)> = vec![(0, 500_000)];
    let tempo = build_tempo_map(&raw);
    let spans: Vec<(u64, u64)> = vec![(480, 240)];
    let ann = annotate_spans(&spans, &tempo);
    assert_eq!(units_to_ms(ann[0].0, 480), 500);
    // a span of 240 ticks lasts exactly 250 ms
    assert_eq!(units_to_ms(ann[0].1, 480), 250);
}

#[test]
fn real_time_is_monotonic_across_tempo_changes() {
    let raw: Vec<(u64, u32)> = vec![(0, 500_000), (480, 250_000), (960, 1_000_000)];
    let tempo = build_tempo_map(&raw);
    let spans: Vec<(u64, u64)> = vec![(0, 0), (120, 0), (480, 0), (700, 0), (960, 0), (2000, 0)];
    let ann = annotate_spans(&spans, &tempo);
    let mut prev = 0u64;
    for a in &ann {
        let ms = units_to_ms(a.0, 480);
        assert!(ms >= prev);
        prev = ms;
    }
    // tick 0 is time 0
    assert_eq!(units_to_ms(ann[0].0, 480), 0);
}

#[test]
fn chained_tempo_changes_accumulate_exactly() {
    // 480 ticks at 120 BPM (500 ms), then 480 ticks at 240 BPM (250 ms)
    let raw: Vec<(u64, u32)> = vec![(0, 500_000), (480, 250_000)];
    let tempo = build_tempo_map(&raw);
    let spans: Vec<(u64, u64)> = vec![(960, 0)];
    let ann = annotate_spans(&spans, &tempo);
    assert_eq!(units_to_ms(ann[0].0, 480), 750);
    let _ = MidiTempo { pos: 0, pos_units: 0, mpq: 500_000 };
}
