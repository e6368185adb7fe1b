//! The mixer and the quantizer.
//!
//! The mixer walks every note of every track, synthesizes the note's samples
//! with the oscillator, and accumulates them — additively, never by
//! overwriting — into one monophonic buffer whose length the caller derives
//! from the song's total duration. Accumulation happens at the mix scale:
//! one note's contribution to one sample is its Q15 volume times the
//! oscillator's fixed-point amplitude, so [`MIX_FULL_SCALE`] stands for a
//! mixed amplitude of 1.0. The quantizer then clamps each mixed sample to
//! full scale and converts it, rounding downward, to a 16-bit sample.

use vstd::arithmetic::div_mod::{
    lemma_div_is_ordered, lemma_div_pos_is_pos, lemma_fundamental_div_mod,
    lemma_fundamental_div_mod_converse, lemma_mod_division_less_than_divisor,
};
use vstd::arithmetic::mul::{lemma_mul_inequality, lemma_mul_nonnegative};
use vstd::prelude::*;

use crate::buffer::merge;
use crate::osc::{eval, lemma_spec_eval_range, spec_eval, SineTable};
use crate::song::{
    lemma_notes_total_us_ge, lemma_song_total_us_ge, song_note_count, song_total_us, Instrument,
    Note, Song, Track, MICROS_PER_SECOND,
};

verus! {

/// Largest magnitude one note can contribute to one sample: an exclusive
/// bound, volume bound times amplitude bound.
pub const MAX_CONTRIBUTION: i128 = 0x1_0000_0000 * 32768;

/// The mix-scale value that stands for an amplitude of 1.0: unit volume
/// (32768) times full-scale oscillator amplitude (32767).
pub const MIX_FULL_SCALE: i128 = 32768 * 32767;

/// Index of the sample at which a note starts: its start time converted to
/// samples, rounded down.
pub open spec fn spec_note_start(note: Note, rate: u32) -> int {
    note.start_us * rate / (MICROS_PER_SECOND as int)
}

/// Number of samples a note fills: its duration converted to samples,
/// rounded down.
pub open spec fn spec_note_len(note: Note, rate: u32) -> int {
    note.duration_us * rate / (MICROS_PER_SECOND as int)
}

/// One note's contribution to mixed sample `j`: volume times the waveform
/// amplitude at the note-local sample index, and 0 outside the note's
/// window.
pub open spec fn note_contrib(
    instrument: Instrument,
    note: Note,
    rate: u32,
    table: Seq<i16>,
    j: int,
) -> int {
    let s = spec_note_start(note, rate);
    let l = spec_note_len(note, rate);
    if s <= j < s + l {
        note.volume * spec_eval(instrument, j - s, rate, note.freq_mhz, table)
    } else {
        0
    }
}

/// Sum of the contributions of the first `n` notes of one track to sample
/// `j`.
pub open spec fn notes_contrib_prefix(
    instrument: Instrument,
    notes: Seq<Note>,
    n: int,
    rate: u32,
    table: Seq<i16>,
    j: int,
) -> int
    decreases n,
{
    if n <= 0 {
        0
    } else {
        notes_contrib_prefix(instrument, notes, n - 1, rate, table, j) + note_contrib(
            instrument,
            notes[n - 1],
            rate,
            table,
            j,
        )
    }
}

/// One track's whole contribution to sample `j`.
pub open spec fn track_contrib(track: Track, rate: u32, table: Seq<i16>, j: int) -> int {
    notes_contrib_prefix(
        track.instrument,
        track.notes@,
        track.notes@.len() as int,
        rate,
        table,
        j,
    )
}

/// Sum of the contributions of the first `n` tracks to sample `j`.
pub open spec fn tracks_contrib_prefix(
    tracks: Seq<Track>,
    n: int,
    rate: u32,
    table: Seq<i16>,
    j: int,
) -> int
    decreases n,
{
    if n <= 0 {
        0
    } else {
        tracks_contrib_prefix(tracks, n - 1, rate, table, j) + track_contrib(
            tracks[n - 1],
            rate,
            table,
            j,
        )
    }
}

/// The mixed (pre-quantization) value of sample `j` of the whole song: the
/// sum of every note's contribution. Addition is commutative, so the
/// track/note walking order the mixer happens to use cannot change it.
pub open spec fn song_sample(song: Song, rate: u32, table: Seq<i16>, j: int) -> int {
    tracks_contrib_prefix(song.tracks@, song.tracks@.len() as int, rate, table, j)
}

/// A mixed sample clamped to the mix scale's full range.
pub open spec fn spec_clamp(x: int) -> int {
    if x < -(32768 * 32767) {
        -(32768int * 32767)
    } else if x > 32768 * 32767 {
        32768int * 32767
    } else {
        x
    }
}

/// Floor-based quantization: clamp to full scale, then divide by the unit
/// volume, rounding toward minus infinity — an intentional, reproducible
/// downward bias, not round-to-nearest. The result always fits a 16-bit
/// sample.
pub open spec fn spec_quantize(x: int) -> int {
    spec_clamp(x) / 32768
}

/// Quantizes one mixed sample, exactly as [`spec_quantize`] states.
pub fn quantize(x: i128) -> (r: i16)
    ensures
        r == spec_quantize(x as int),
        -32767 <= r <= 32767,
{
    let clamped: i128 = if x < -MIX_FULL_SCALE {
        -MIX_FULL_SCALE
    } else if x > MIX_FULL_SCALE {
        MIX_FULL_SCALE
    } else {
        x
    };
    if clamped >= 0 {
        let q: u128 = (clamped as u128) / 32768;
        q as i16
    } else {
        let m: u128 = (-clamped) as u128;
        let ghost q0 = (m as int) / 32768;
        let ghost r0 = (m as int) % 32768;
        proof {
            lemma_fundamental_div_mod(m as int, 32768);
            lemma_mod_division_less_than_divisor(m as int, 32768);
            if r0 == 0 {
                lemma_fundamental_div_mod_converse(-(m as int), 32768, -q0, 0);
                lemma_fundamental_div_mod_converse(m as int + 32767, 32768, q0, 32767);
            } else {
                lemma_fundamental_div_mod_converse(-(m as int), 32768, -(q0 + 1), 32768 - r0);
                lemma_fundamental_div_mod_converse(m as int + 32767, 32768, q0 + 1, r0 - 1);
            }
        }
        let q: u128 = (m + 32767) / 32768;
        -(q as i16)
    }
}

/// A sequence of notes contributes at most `n` times the per-note bound.
pub proof fn lemma_notes_contrib_prefix_bound(
    instrument: Instrument,
    notes: Seq<Note>,
    n: int,
    rate: u32,
    table: Seq<i16>,
    j: int,
)
    requires
        n >= 0,
        rate >= 1,
        table.len() >= 1,
        forall|k: int| 0 <= k < table.len() ==> -32767 <= #[trigger] table[k] <= 32767,
    ensures
        -(n * (MAX_CONTRIBUTION as int)) <= notes_contrib_prefix(instrument, notes, n, rate, table, j)
            <= n * (MAX_CONTRIBUTION as int),
        n <= 0 ==> notes_contrib_prefix(instrument, notes, n, rate, table, j) == 0,
    decreases n,
{
    if n > 0 {
        lemma_notes_contrib_prefix_bound(instrument, notes, n - 1, rate, table, j);
        lemma_note_contrib_bound(instrument, notes[n - 1], rate, table, j);
        let m = MAX_CONTRIBUTION as int;
        assert((n - 1) * m + m == n * m) by (nonlinear_arith);
    }
}

/// One note contributes strictly less than [`MAX_CONTRIBUTION`] in
/// magnitude.
pub proof fn lemma_note_contrib_bound(
    instrument: Instrument,
    note: Note,
    rate: u32,
    table: Seq<i16>,
    j: int,
)
    requires
        rate >= 1,
        table.len() >= 1,
        forall|k: int| 0 <= k < table.len() ==> -32767 <= #[trigger] table[k] <= 32767,
    ensures
        -(MAX_CONTRIBUTION as int) < note_contrib(instrument, note, rate, table, j) < (
        MAX_CONTRIBUTION as int),
{
    let s = spec_note_start(note, rate);
    let l = spec_note_len(note, rate);
    if s <= j < s + l {
        lemma_mul_nonnegative(note.duration_us as int, rate as int);
        lemma_div_pos_is_pos(note.duration_us * rate, MICROS_PER_SECOND as int);
        lemma_mul_nonnegative(note.start_us as int, rate as int);
        lemma_div_pos_is_pos(note.start_us * rate, MICROS_PER_SECOND as int);
        lemma_spec_eval_range(instrument, j - s, rate, note.freq_mhz, table);
        let e = spec_eval(instrument, j - s, rate, note.freq_mhz, table);
        assert(-(MAX_CONTRIBUTION as int) < note.volume * e < (MAX_CONTRIBUTION as int))
            by (nonlinear_arith)
            requires
                0 <= note.volume <= u32::MAX,
                -32767 <= e <= 32767,
                MAX_CONTRIBUTION as int == 0x1_0000_0000 * 32768,
        ;
    }
}

/// The first `n` tracks contribute at most their note count times the
/// per-note bound.
pub proof fn lemma_tracks_contrib_prefix_bound(
    tracks: Seq<Track>,
    n: int,
    rate: u32,
    table: Seq<i16>,
    j: int,
)
    requires
        rate >= 1,
        0 <= n <= tracks.len(),
        table.len() >= 1,
        forall|k: int| 0 <= k < table.len() ==> -32767 <= #[trigger] table[k] <= 32767,
    ensures
        -(song_note_count(tracks.take(n)) * (MAX_CONTRIBUTION as int)) <= tracks_contrib_prefix(
            tracks,
            n,
            rate,
            table,
            j,
        ) <= song_note_count(tracks.take(n)) * (MAX_CONTRIBUTION as int),
        song_note_count(tracks.take(n)) >= 0,
    decreases n,
{
    if n == 0 {
        assert(tracks.take(0).len() == 0);
    } else {
        lemma_tracks_contrib_prefix_bound(tracks, n - 1, rate, table, j);
        let track = tracks[n - 1];
        let c = track.notes@.len() as int;
        lemma_notes_contrib_prefix_bound(track.instrument, track.notes@, c, rate, table, j);
        assert(tracks.take(n).drop_last() =~= tracks.take(n - 1));
        assert(tracks.take(n).last() == tracks[n - 1]);
        let before = song_note_count(tracks.take(n - 1));
        assert(song_note_count(tracks.take(n)) == before + c);
        assert(c * (MAX_CONTRIBUTION as int) + before * (MAX_CONTRIBUTION as int) == (before + c) * (
        MAX_CONTRIBUTION as int)) by (nonlinear_arith);
    }
}

/// Note counts of prefixes never exceed the whole song's note count.
pub proof fn lemma_song_note_count_take(tracks: Seq<Track>, n: int)
    requires
        0 <= n <= tracks.len(),
    ensures
        song_note_count(tracks.take(n)) >= 0,
        song_note_count(tracks.take(n)) <= song_note_count(tracks),
    decreases tracks.len() - n,
{
    lemma_song_note_count_nonneg(tracks.take(n));
    if n == tracks.len() {
        assert(tracks.take(n) =~= tracks);
    } else {
        lemma_song_note_count_take(tracks, n + 1);
        assert(tracks.take(n + 1).drop_last() =~= tracks.take(n));
        assert(tracks.take(n + 1).last() == tracks[n]);
        assert(song_note_count(tracks.take(n + 1)) == song_note_count(tracks.take(n))
            + tracks[n].notes@.len());
    }
}

/// A note count is never negative.
pub proof fn lemma_song_note_count_nonneg(tracks: Seq<Track>)
    ensures
        song_note_count(tracks) >= 0,
    decreases tracks.len(),
{
    if tracks.len() > 0 {
        lemma_song_note_count_nonneg(tracks.drop_last());
    }
}

/// Splitting a nonnegative sum before dividing can only lose: the floors of
/// the parts never exceed the floor of the whole.
pub proof fn lemma_floor_div_add(a: int, b: int, d: int)
    requires
        a >= 0,
        b >= 0,
        d > 0,
    ensures
        a / d + b / d <= (a + b) / d,
{
    let qa = a / d;
    let ra = a % d;
    let qb = b / d;
    let rb = b % d;
    lemma_fundamental_div_mod(a, d);
    lemma_fundamental_div_mod(b, d);
    lemma_mod_division_less_than_divisor(a, d);
    lemma_mod_division_less_than_divisor(b, d);
    if ra + rb < d {
        assert(a + b == (qa + qb) * d + (ra + rb)) by (nonlinear_arith)
            requires
                a == d * qa + ra,
                b == d * qb + rb,
        ;
        lemma_fundamental_div_mod_converse(a + b, d, qa + qb, ra + rb);
    } else {
        assert(a + b == (qa + qb + 1) * d + (ra + rb - d)) by (nonlinear_arith)
            requires
                a == d * qa + ra,
                b == d * qb + rb,
        ;
        lemma_fundamental_div_mod_converse(a + b, d, qa + qb + 1, ra + rb - d);
    }
}

/// A note of a well-formed song never reaches past a buffer sized to the
/// song's total duration: the note's window, placed with floor rounding,
/// fits whenever the buffer holds at least the song's duration in samples.
pub proof fn lemma_note_window_fits(note: Note, rate: u32, total_us: int, num_samples: int)
    requires
        rate >= 1,
        note.wf(),
        note.end_us() <= total_us,
        total_us * rate <= (MICROS_PER_SECOND as int) * num_samples,
    ensures
        spec_note_start(note, rate) + spec_note_len(note, rate) <= num_samples,
        spec_note_start(note, rate) >= 0,
        spec_note_len(note, rate) >= 0,
{
    let d = MICROS_PER_SECOND as int;
    let a = note.start_us * rate;
    let b = note.duration_us * rate;
    lemma_mul_nonnegative(note.start_us as int, rate as int);
    lemma_mul_nonnegative(note.duration_us as int, rate as int);
    lemma_div_pos_is_pos(a, d);
    lemma_div_pos_is_pos(b, d);
    lemma_floor_div_add(a, b, d);
    assert(a + b == note.end_us() * rate) by (nonlinear_arith)
        requires
            a == note.start_us * rate,
            b == note.duration_us * rate,
            note.end_us() == note.start_us + note.duration_us,
    ;
    lemma_mul_inequality(note.end_us(), total_us, rate as int);
    lemma_div_is_ordered(a + b, total_us * rate, d);
    lemma_div_is_ordered(total_us * rate, d * num_samples, d);
    vstd::arithmetic::div_mod::lemma_div_multiples_vanish(num_samples, d);
}

/// A zero-initialized mix buffer: silence, before any note is added.
fn zero_buf(n: usize) -> (buf: Vec<i128>)
    ensures
        buf@.len() == n,
        forall|j: int| 0 <= j < n ==> buf@[j] == 0i128,
{
    let mut buf: Vec<i128> = Vec::new();
    let mut k: usize = 0;
    while k < n
        invariant
            k <= n,
            buf@.len() == k,
            forall|j: int| 0 <= j < k ==> buf@[j] == 0i128,
        decreases n - k,
    {
        buf.push(0);
        k += 1;
    }
    buf
}

/// Synthesizes one note into a fresh local buffer of exactly the note's
/// sample window length: element `k` is the note's volume times the
/// waveform amplitude at note-local sample `k`.
fn synth_note(instrument: Instrument, note: Note, rate: u32, len: usize, table: &SineTable) -> (buf:
    Vec<i128>)
    requires
        rate >= 1,
        note.freq_mhz >= 1,
        table.wf(),
    ensures
        buf@.len() == len,
        forall|k: int|
            0 <= k < len ==> buf@[k] == note.volume * spec_eval(
                instrument,
                k,
                rate,
                note.freq_mhz,
                table.samples@,
            ),
{
    let mut buf: Vec<i128> = Vec::new();
    let mut k: usize = 0;
    while k < len
        invariant
            rate >= 1,
            note.freq_mhz >= 1,
            table.wf(),
            k <= len,
            buf@.len() == k,
            forall|j: int|
                0 <= j < k ==> buf@[j] == note.volume * spec_eval(
                    instrument,
                    j,
                    rate,
                    note.freq_mhz,
                    table.samples@,
                ),
        decreases len - k,
    {
        let e: i32 = eval(instrument, k as u64, rate, note.freq_mhz, table);
        proof {
            assert(-(MAX_CONTRIBUTION as int) < (note.volume as int) * (e as int) < (
            MAX_CONTRIBUTION as int)) by (nonlinear_arith)
                requires
                    0 <= note.volume <= u32::MAX,
                    -32767 <= e <= 32767,
                    (MAX_CONTRIBUTION as int) == 0x1_0000_0000 * 32768,
            ;
        }
        let c: i128 = (note.volume as i128) * (e as i128);
        buf.push(c);
        k += 1;
    }
    buf
}

/// Mixes the whole song into one monophonic buffer of `num_samples`
/// samples: sample `j` of the result is exactly the sum of every note's
/// contribution at `j`, as [`song_sample`] states. The caller must size the
/// buffer to hold the song's entire duration; every note window then fits
/// (placement rounds down, the buffer length rounds up), so the additive
/// merges inside can never fail.
pub fn mix_song(song: &Song, rate: u32, num_samples: usize, table: &SineTable) -> (buf: Vec<i128>)
    requires
        song.wf(),
        rate >= 1,
        table.wf(),
        song_total_us(song.tracks@) * rate <= (MICROS_PER_SECOND as int) * num_samples,
    ensures
        buf@.len() == num_samples,
        forall|j: int|
            0 <= j < num_samples ==> buf@[j] == song_sample(*song, rate, table.samples@, j),
{
    let ghost tracksv = song.tracks@;
    let ghost tbl = table.samples@;
    let mut buf = zero_buf(num_samples);
    let mut ti: usize = 0;
    while ti < song.tracks.len()
        invariant
            song.wf(),
            rate >= 1,
            table.wf(),
            tracksv == song.tracks@,
            tbl == table.samples@,
            song_total_us(tracksv) * rate <= (MICROS_PER_SECOND as int) * num_samples,
            ti <= tracksv.len(),
            buf@.len() == num_samples,
            forall|j: int|
                0 <= j < num_samples ==> buf@[j] == tracks_contrib_prefix(
                    tracksv,
                    ti as int,
                    rate,
                    tbl,
                    j,
                ),
        decreases tracksv.len() - ti,
    {
        let track = &song.tracks[ti];
        let mut ni: usize = 0;
        while ni < track.notes.len()
            invariant
                song.wf(),
                rate >= 1,
                table.wf(),
                tracksv == song.tracks@,
                tbl == table.samples@,
                song_total_us(tracksv) * rate <= (MICROS_PER_SECOND as int) * num_samples,
                ti < tracksv.len(),
                track == tracksv[ti as int],
                ni <= track.notes@.len(),
                buf@.len() == num_samples,
                forall|j: int|
                    0 <= j < num_samples ==> buf@[j] == tracks_contrib_prefix(
                        tracksv,
                        ti as int,
                        rate,
                        tbl,
                        j,
                    ) + notes_contrib_prefix(
                        track.instrument,
                        track.notes@,
                        ni as int,
                        rate,
                        tbl,
                        j,
                    ),
            decreases track.notes@.len() - ni,
        {
            let note: Note = track.notes[ni];
            proof {
                assert(tracksv[ti as int].wf());
                assert(note.wf());
                lemma_notes_total_us_ge(track.notes@, ni as int);
                lemma_song_total_us_ge(tracksv, ti as int);
                lemma_note_window_fits(
                    note,
                    rate,
                    song_total_us(tracksv),
                    num_samples as int,
                );
                assert((note.start_us as int) * (rate as int) <= (u64::MAX as int) * (
                u32::MAX as int)) by (nonlinear_arith)
                    requires
                        0 <= note.start_us <= u64::MAX,
                        0 <= rate <= u32::MAX,
                ;
                assert((note.duration_us as int) * (rate as int) <= (u64::MAX as int) * (
                u32::MAX as int)) by (nonlinear_arith)
                    requires
                        0 <= note.duration_us <= u64::MAX,
                        0 <= rate <= u32::MAX,
                ;
            }
            let start_wide: u128 = ((note.start_us as u128) * (rate as u128)) / 1_000_000;
            let len_wide: u128 = ((note.duration_us as u128) * (rate as u128)) / 1_000_000;
            let start: usize = start_wide as usize;
            let nlen: usize = len_wide as usize;
            let samples: Vec<i128> = synth_note(track.instrument, note, rate, nlen, table);
            let combine = |a: i128, b: i128| -> (c: i128)
                requires
                    i128::MIN <= a + b <= i128::MAX,
                ensures
                    c == a + b,
                { crate::buffer::add(a, b) };
            proof {
                let m = MAX_CONTRIBUTION as int;
                let cap = usize::MAX as int;
                assert forall|k: int|
                    0 <= k < samples@.len() implies i128::MIN <= buf@[start + k] + #[trigger] samples@[k]
                    <= i128::MAX by {
                    let j = start + k;
                    lemma_tracks_contrib_prefix_bound(tracksv, ti as int, rate, tbl, j);
                    lemma_notes_contrib_prefix_bound(
                        track.instrument,
                        track.notes@,
                        ni as int,
                        rate,
                        tbl,
                        j,
                    );
                    lemma_song_note_count_take(tracksv, ti as int);
                    lemma_note_contrib_bound(track.instrument, note, rate, tbl, j);
                    lemma_mul_inequality(song_note_count(tracksv.take(ti as int)), cap, m);
                    lemma_mul_inequality(ni as int, cap, m);
                    assert(samples@[k] == note_contrib(track.instrument, note, rate, tbl, j));
                }
            }
            let res = merge(&mut buf, start, &samples, combine);
            match res {
                Ok(()) => {},
                Err(_) => {
                    proof {
                        assert(false);
                    }
                    return buf;
                },
            }
            proof {
                assert forall|j: int|
                    0 <= j < num_samples implies buf@[j] == tracks_contrib_prefix(
                    tracksv,
                    ti as int,
                    rate,
                    tbl,
                    j,
                ) + notes_contrib_prefix(
                    track.instrument,
                    track.notes@,
                    ni + 1,
                    rate,
                    tbl,
                    j,
                ) by {
                    assert(track.notes@[ni as int] == note);
                    if start <= j < start + samples@.len() {
                        assert(samples@[j - start] == note_contrib(
                            track.instrument,
                            note,
                            rate,
                            tbl,
                            j,
                        ));
                    } else {
                        assert(note_contrib(track.instrument, note, rate, tbl, j) == 0);
                    }
                }
            }
            ni += 1;
        }
        proof {
            assert forall|j: int|
                0 <= j < num_samples implies buf@[j] == tracks_contrib_prefix(
                tracksv,
                ti + 1,
                rate,
                tbl,
                j,
            ) by {
                assert(track_contrib(tracksv[ti as int], rate, tbl, j) == notes_contrib_prefix(
                    track.instrument,
                    track.notes@,
                    track.notes@.len() as int,
                    rate,
                    tbl,
                    j,
                ));
            }
        }
        ti += 1;
    }
    buf
}

} // verus!
