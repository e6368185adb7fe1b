use wavesong::osc::{eval, SineTable, AMPLITUDE_UNIT};
use wavesong::song::Instrument;

fn sine_table(len: usize) -> SineTable {
    let mut samples: Vec<i16> = Vec::new();
    for k in 0..len {
        let theta = 2.0 * std::f64::consts::PI * (k as f64) / (len as f64);
        samples.push((f64::sin(theta) * 32767.0).round() as i16);
    }
    SineTable::new(samples).expect("a sampled sine period is a valid table")
}

#[test]
fn eval_at_time_zero_has_characteristic_amplitudes() {
    let table = sine_table(1024);
    assert_eq!(eval(Instrument::Sine, 0, 44100, 440_000, &table), 0);
    assert_eq!(eval(Instrument::Square, 0, 44100, 440_000, &table), 32767);
    assert_eq!(eval(Instrument::Saw, 0, 44100, 440_000, &table), -32767);
}

#[test]
fn eval_stays_within_full_scale() {
    let table = sine_table(256);
    for i in 0..5000u64 {
        for instrument in [Instrument::Sine, Instrument::Square, Instrument::Saw] {
            let v = eval(instrument, i, 8000, 333_333, &table);
            assert!(-AMPLITUDE_UNIT <= v && v <= AMPLITUDE_UNIT);
        }
    }
}

#[test]
fn square_alternates_each_half_period() {
    let table = sine_table(4);
    // 1 Hz at 4 samples per second: half-period boundaries at every 2nd sample
    assert_eq!(eval(Instrument::Square, 0, 4, 1000, &table), 32767);
    assert_eq!(eval(Instrument::Square, 1, 4, 1000, &table), 32767);
    assert_eq!(eval(Instrument::Square, 2, 4, 1000, &table), -32767);
    assert_eq!(eval(Instrument::Square, 3, 4, 1000, &table), -32767);
    assert_eq!(eval(Instrument::Square, 4, 4, 1000, &table), 32767);
}

#[test]
fn saw_ramps_up_and_restarts() {
    let table = sine_table(4);
    // 1 Hz at 4 samples per second: frac phase 0, 1/4, 1/2, 3/4, then repeat
    assert_eq!(eval(Instrument::Saw, 0, 4, 1000, &table), -32767);
    // 2*(1/4) - 1 = -1/2: floor(32767 * -0.5) = -16384
    assert_eq!(eval(Instrument::Saw, 1, 4, 1000, &table), -16384);
    assert_eq!(eval(Instrument::Saw, 2, 4, 1000, &table), 0);
    // 2*(3/4) - 1 = 1/2: floor(32767 * 0.5) = 16383
    assert_eq!(eval(Instrument::Saw, 3, 4, 1000, &table), 16383);
    assert_eq!(eval(Instrument::Saw, 4, 4, 1000, &table), -32767);
}

#[test]
fn sine_reads_the_table_by_phase() {
    let samples: Vec<i16> = vec![0, 100, 200, -100];
    let table = SineTable::new(samples).unwrap();
    // 1 Hz at 4 samples per second walks one table entry per sample
    assert_eq!(eval(Instrument::Sine, 0, 4, 1000, &table), 0);
    assert_eq!(eval(Instrument::Sine, 1, 4, 1000, &table), 100);
    assert_eq!(eval(Instrument::Sine, 2, 4, 1000, &table), 200);
    assert_eq!(eval(Instrument::Sine, 3, 4, 1000, &table), -100);
    assert_eq!(eval(Instrument::Sine, 4, 4, 1000, &table), 0);
}

#[test]
fn sine_table_rejects_invalid_periods() {
    assert!(SineTable::new(vec![]).is_none());
    // must start at amplitude 0
    assert!(SineTable::new(vec![5, 0, -5]).is_none());
    // -32768 is outside the symmetric fixed-point amplitude range
    assert!(SineTable::new(vec![0, -32768]).is_none());
    assert!(SineTable::new(vec![0, 32767, 0, -32767]).is_some());
}
