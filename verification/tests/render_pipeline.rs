use wavesong::mix::{mix_song, quantize};
use wavesong::osc::SineTable;
use wavesong::render::quantize_buf;
use wavesong::song::{Instrument, Note, Song, Track, VOLUME_UNIT};
use wavesong::wave::{parse_header, Format, RenderConfig};

fn flat_table() -> SineTable {
    // one period sampled at quarter phases: 0, +1, 0, -1 at full scale
    SineTable::new(vec![0, 32767, 0, -32767]).unwrap()
}

fn mono_config(sample_rate: u32) -> RenderConfig {
    RenderConfig { sample_rate, stereo: false, format: Format::Wave }
}

fn one_note_song(instrument: Instrument, note: Note) -> Song {
    let mut track = Track::new(instrument);
    track.note(note);
    let mut song = Song::new();
    song.track(track);
    song
}

#[test]
fn empty_song_renders_header_only() {
    let song = Song::new();
    let bytes = song.render(&mono_config(44100), &flat_table());
    assert_eq!(bytes.len(), 44);
    let info = parse_header(&bytes).unwrap();
    assert_eq!(info.data_size, 0);
}

#[test]
fn song_with_empty_tracks_renders_header_only() {
    let mut song = Song::new();
    song.track(Track::new(Instrument::Sine));
    song.track(Track::new(Instrument::Saw));
    let bytes = song.render(&mono_config(8000), &flat_table());
    assert_eq!(bytes.len(), 44);
}

#[test]
fn single_note_length_rounds_the_sample_count_up() {
    // 0.5 s at 3 samples per second: 1.5 samples of duration, so the buffer
    // takes the ceiling and holds 2 samples: 44 + 2*2 bytes in mono
    let note = Note { freq_mhz: 1000, volume: VOLUME_UNIT, start_us: 0, duration_us: 500_000 };
    let song = one_note_song(Instrument::Square, note);
    let bytes = song.render(&mono_config(3), &flat_table());
    assert_eq!(bytes.len(), 44 + 2 * 2);
    let info = parse_header(&bytes).unwrap();
    assert_eq!(info.data_size, 4);
}

#[test]
fn single_note_exact_duration_needs_no_rounding() {
    // 2 s at 5 samples per second: exactly 10 samples
    let note = Note { freq_mhz: 2000, volume: 16384, start_us: 0, duration_us: 2_000_000 };
    let song = one_note_song(Instrument::Saw, note);
    let bytes = song.render(&mono_config(5), &flat_table());
    assert_eq!(bytes.len(), 44 + 2 * 10);
}

#[test]
fn stereo_render_doubles_the_data_size() {
    let note = Note { freq_mhz: 1000, volume: 32768, start_us: 0, duration_us: 1_000_000 };
    let song = one_note_song(Instrument::Square, note);
    let config = RenderConfig { sample_rate: 4, stereo: true, format: Format::Wave };
    let bytes = song.render(&config, &flat_table());
    assert_eq!(bytes.len(), 44 + 4 * 2 * 2);
    let info = parse_header(&bytes).unwrap();
    assert_eq!(info.channels, 2);
}

#[test]
fn round_trip_recovers_the_configuration() {
    let note = Note { freq_mhz: 440_000, volume: 26214, start_us: 0, duration_us: 10_000 };
    let song = one_note_song(Instrument::Sine, note);
    let table = flat_table();
    let bytes = song.render(&mono_config(44100), &table);
    let info = parse_header(&bytes).unwrap();
    assert_eq!(info.sample_rate, 44100);
    assert_eq!(info.channels, 1);
    assert_eq!(info.bits_per_sample, 16);
}

#[test]
fn mixed_samples_are_volume_times_waveform() {
    // unit volume square wave at 1 Hz, 4 samples per second, 1 s long:
    // +1 +1 -1 -1 at full scale
    let note = Note { freq_mhz: 1000, volume: 32768, start_us: 0, duration_us: 1_000_000 };
    let song = one_note_song(Instrument::Square, note);
    let mixed = mix_song(&song, 4, 4, &flat_table());
    assert_eq!(mixed, vec![
        32768 * 32767,
        32768 * 32767,
        -(32768 * 32767),
        -(32768 * 32767),
    ]);
    let qs = quantize_buf(&mixed);
    assert_eq!(qs, vec![32767, 32767, -32767, -32767]);
}

#[test]
fn note_placement_rounds_its_start_down() {
    // a quarter-second note starting at 0.6 s, 4 samples per second: start
    // index floor(2.4) = 2, one sample long
    let note = Note { freq_mhz: 1000, volume: 32768, start_us: 600_000, duration_us: 250_000 };
    let song = one_note_song(Instrument::Square, note);
    let mixed = mix_song(&song, 4, 4, &flat_table());
    assert_eq!(mixed, vec![0, 0, 32768 * 32767, 0]);
}

#[test]
fn identical_overlapping_notes_double_and_clip() {
    // two identical half-volume sine notes: each contributes 0.5, the sum
    // reaches exactly full scale where the table peaks
    let note = Note { freq_mhz: 1000, volume: 16384, start_us: 0, duration_us: 1_000_000 };
    let mut track = Track::new(Instrument::Sine);
    track.note(note);
    track.note(note);
    let mut song = Song::new();
    song.track(track);
    let table = flat_table();
    let mixed = mix_song(&song, 4, 4, &table);
    let single = mix_song(&one_note_song(Instrument::Sine, note), 4, 4, &table);
    for j in 0..4 {
        assert_eq!(mixed[j], 2 * single[j]);
    }
    // doubled peak: 2 * 16384 * 32767 == 32768 * 32767, exactly full scale,
    // quantizing to 32767 where a single note gives floor(16383.5) = 16383
    assert_eq!(quantize(single[1]), 16383);
    assert_eq!(quantize(mixed[1]), 32767);
    // at volumes past half scale the doubled sum clips to full scale
    let loud = Note { freq_mhz: 1000, volume: 20000, start_us: 0, duration_us: 1_000_000 };
    let mut track = Track::new(Instrument::Sine);
    track.note(loud);
    track.note(loud);
    let mut song = Song::new();
    song.track(track);
    let mixed = mix_song(&song, 4, 4, &table);
    assert!(2 * 20000i128 * 32767 > 32768 * 32767);
    assert_eq!(quantize(mixed[1]), 32767);
    assert_eq!(quantize(mixed[3]), -32767);
}

#[test]
fn overlapping_notes_on_different_tracks_sum() {
    let note = Note { freq_mhz: 1000, volume: 10000, start_us: 0, duration_us: 1_000_000 };
    let mut song = Song::new();
    let mut t1 = Track::new(Instrument::Square);
    t1.note(note);
    song.track(t1);
    let mut t2 = Track::new(Instrument::Square);
    t2.note(note);
    song.track(t2);
    let mixed = mix_song(&song, 2, 2, &flat_table());
    assert_eq!(mixed[0], 2 * 10000 * 32767);
}

#[test]
fn total_duration_is_the_latest_note_end() {
    let mut song = Song::new();
    let mut t1 = Track::new(Instrument::Saw);
    t1.note(Note { freq_mhz: 1000, volume: 1, start_us: 0, duration_us: 300_000 });
    t1.note(Note { freq_mhz: 1000, volume: 1, start_us: 100_000, duration_us: 500_000 });
    song.track(t1);
    let mut t2 = Track::new(Instrument::Sine);
    t2.note(Note { freq_mhz: 1000, volume: 1, start_us: 200_000, duration_us: 250_000 });
    song.track(t2);
    assert_eq!(song.total_duration_us(), 600_000);
    assert_eq!(Song::new().total_duration_us(), 0);
}
