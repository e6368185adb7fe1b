//! Render orchestration: compute the song's total duration, size the sample
//! buffer with ceiling rounding, mix every note, quantize, and serialize
//! the complete container byte image. Everything is computed here except
//! the terminal file write, which is the caller's single remaining step —
//! and the caller must act on its outcome, not discard it.

use vstd::arithmetic::div_mod::{
    lemma_div_pos_is_pos, lemma_fundamental_div_mod, lemma_fundamental_div_mod_converse,
    lemma_mod_division_less_than_divisor,
};
use vstd::arithmetic::mul::{lemma_mul_nonnegative, lemma_mul_upper_bound};
use vstd::prelude::*;

use crate::mix::{mix_song, note_contrib, quantize, song_sample, spec_quantize};
use crate::osc::SineTable;
use crate::song::{song_total_us, Note, Song, MICROS_PER_SECOND};
use crate::wave::{spec_data_size, wave_bytes, write_wave, RenderConfig};

verus! {

/// Number of samples a render holds: the song's total duration converted to
/// samples, rounded up, so that no note is cut short.
pub open spec fn spec_num_samples(total_us: int, rate: u32) -> int {
    (total_us * rate + (MICROS_PER_SECOND - 1)) / (MICROS_PER_SECOND as int)
}

/// The sequence of quantized samples a render produces: every mixed sample,
/// clamped to full scale and floor-quantized.
pub open spec fn rendered_samples(song: Song, rate: u32, table: Seq<i16>, n: int) -> Seq<i16> {
    Seq::new(n as nat, |j: int| spec_quantize(song_sample(song, rate, table, j)) as i16)
}

/// Rounding the sample count up never loses time: a buffer of
/// [`spec_num_samples`] samples holds the song's whole duration.
pub proof fn lemma_num_samples_covers(total_us: int, rate: u32)
    requires
        total_us >= 0,
        rate >= 1,
    ensures
        spec_num_samples(total_us, rate) >= 0,
        total_us * rate <= (MICROS_PER_SECOND as int) * spec_num_samples(total_us, rate),
{
    let d = MICROS_PER_SECOND as int;
    let a = total_us * rate;
    lemma_mul_nonnegative(total_us, rate as int);
    lemma_div_pos_is_pos(a + (d - 1), d);
    let qa = a / d;
    let ra = a % d;
    lemma_fundamental_div_mod(a, d);
    lemma_mod_division_less_than_divisor(a, d);
    if ra == 0 {
        lemma_fundamental_div_mod_converse(a + d - 1, d, qa, d - 1);
    } else {
        lemma_fundamental_div_mod_converse(a + d - 1, d, qa + 1, ra - 1);
    }
}

/// Quantizes a whole mix buffer, element by element.
pub fn quantize_buf(buf: &Vec<i128>) -> (out: Vec<i16>)
    ensures
        out@.len() == buf@.len(),
        forall|j: int| 0 <= j < buf@.len() ==> out@[j] == spec_quantize(buf@[j] as int),
{
    let mut out: Vec<i16> = Vec::new();
    let mut k: usize = 0;
    while k < buf.len()
        invariant
            k <= buf@.len(),
            out@.len() == k,
            forall|j: int| 0 <= j < k ==> out@[j] == spec_quantize(buf@[j] as int),
        decreases buf@.len() - k,
    {
        let q = quantize(buf[k]);
        out.push(q);
        k += 1;
    }
    out
}

impl Song {
    /// Renders the song for the given target: computes the total duration,
    /// mixes every note at the configured rate, quantizes the mix, and
    /// serializes the complete container image — exactly [`wave_bytes`] of
    /// the quantized samples. The data must leave room for the header in
    /// the container's 32-bit size fields; writing the returned bytes to
    /// the configured path is the caller's one remaining step.
    pub fn render(&self, config: &RenderConfig, table: &SineTable) -> (out: Vec<u8>)
        requires
            self.wf(),
            config.wf(),
            table.wf(),
            spec_data_size(
                spec_num_samples(song_total_us(self.tracks@), config.sample_rate),
                config.spec_channels(),
            ) + 44 <= u32::MAX,
        ensures
            out@ == wave_bytes(
                config.sample_rate,
                config.spec_channels() as u16,
                rendered_samples(
                    *self,
                    config.sample_rate,
                    table.samples@,
                    spec_num_samples(song_total_us(self.tracks@), config.sample_rate),
                ),
            ),
            out@.len() == 44 + spec_data_size(
                spec_num_samples(song_total_us(self.tracks@), config.sample_rate),
                config.spec_channels(),
            ),
    {
        let total: u64 = self.total_duration_us();
        let ghost num = spec_num_samples(total as int, config.sample_rate);
        let ghost ch = config.spec_channels();
        proof {
            lemma_num_samples_covers(total as int, config.sample_rate);
            lemma_mul_upper_bound(
                total as int,
                u64::MAX as int,
                config.sample_rate as int,
                u32::MAX as int,
            );
            assert(num <= num * ch) by (nonlinear_arith)
                requires
                    num >= 0,
                    ch >= 1,
            ;
        }
        let num128: u128 = ((total as u128) * (config.sample_rate as u128) + 999_999) / 1_000_000;
        let num_samples: usize = num128 as usize;
        let mixed: Vec<i128> = mix_song(self, config.sample_rate, num_samples, table);
        let qs: Vec<i16> = quantize_buf(&mixed);
        proof {
            assert(qs@ =~= rendered_samples(*self, config.sample_rate, table.samples@, num));
        }
        let channels: u16 = config.channels();
        let out = match config.format {
            crate::wave::Format::Wave => write_wave(config.sample_rate, channels, &qs),
        };
        out
    }
}

/// An empty song — no tracks, hence no notes — renders to a header-only
/// container: no samples, a data size of 0, and a total image of exactly 44
/// bytes.
pub proof fn lemma_empty_song_header_only(song: Song, config: RenderConfig, table: Seq<i16>)
    requires
        song.tracks@.len() == 0,
        config.wf(),
    ensures
        spec_num_samples(song_total_us(song.tracks@), config.sample_rate) == 0,
        wave_bytes(
            config.sample_rate,
            config.spec_channels() as u16,
            rendered_samples(song, config.sample_rate, table, 0),
        ).len() == 44,
{
    let d = MICROS_PER_SECOND as int;
    assert(song_total_us(song.tracks@) == 0);
    lemma_fundamental_div_mod_converse(d - 1, d, 0, d - 1);
    assert(rendered_samples(song, config.sample_rate, table, 0).len() == 0);
    crate::wave::lemma_wave_bytes_len(
        config.sample_rate,
        config.spec_channels() as u16,
        rendered_samples(song, config.sample_rate, table, 0),
    );
}

/// A song holding one single note that starts at time 0 renders
/// `ceil(duration · rate)` samples — the buffer length rounds up, so a
/// fractional final sample still gets a slot — and, mono, a container of
/// `44 + 2 · ceil(duration · rate)` bytes.
pub proof fn lemma_single_note_render_size(song: Song, rate: u32, note: Note)
    requires
        rate >= 1,
        song.tracks@.len() == 1,
        song.tracks@[0].notes@ =~= seq![note],
        note.start_us == 0,
    ensures
        spec_num_samples(song_total_us(song.tracks@), rate) == (note.duration_us * rate + (
        MICROS_PER_SECOND - 1)) / (MICROS_PER_SECOND as int),
        44 + spec_data_size(spec_num_samples(song_total_us(song.tracks@), rate), 1) == 44 + 2
            * spec_num_samples(song_total_us(song.tracks@), rate),
{
    let notes = song.tracks@[0].notes@;
    assert(notes.drop_last() =~= Seq::<Note>::empty());
    assert(notes.last() == note);
    assert(crate::song::notes_total_us(notes.drop_last()) == 0);
    assert(note.end_us() >= 0);
    assert(crate::song::notes_total_us(notes) == note.end_us());
    assert(song.tracks@.drop_last() =~= Seq::<crate::song::Track>::empty());
    assert(song.tracks@.last() == song.tracks@[0]);
    assert(song_total_us(song.tracks@.drop_last()) == 0);
    assert(song_total_us(song.tracks@) == note.end_us());
}

/// Two identical overlapping notes on one track mix to exactly twice the
/// single note's contribution at every sample — amplitudes double — and the
/// quantizer afterwards clamps the doubled value to full scale, which is
/// where clipping sets in.
pub proof fn lemma_identical_notes_double(song: Song, rate: u32, table: Seq<i16>, j: int)
    requires
        song.tracks@.len() == 1,
        song.tracks@[0].notes@.len() == 2,
        song.tracks@[0].notes@[0] == song.tracks@[0].notes@[1],
    ensures
        song_sample(song, rate, table, j) == 2 * note_contrib(
            song.tracks@[0].instrument,
            song.tracks@[0].notes@[0],
            rate,
            table,
            j,
        ),
{
    let tracks = song.tracks@;
    let track = tracks[0];
    let notes = track.notes@;
    let instrument = track.instrument;
    assert(crate::mix::notes_contrib_prefix(instrument, notes, 0, rate, table, j) == 0);
    assert(crate::mix::notes_contrib_prefix(instrument, notes, 1, rate, table, j) == note_contrib(
        instrument,
        notes[0],
        rate,
        table,
        j,
    ));
    assert(crate::mix::notes_contrib_prefix(instrument, notes, 2, rate, table, j) == note_contrib(
        instrument,
        notes[0],
        rate,
        table,
        j,
    ) + note_contrib(instrument, notes[1], rate, table, j));
    assert(crate::mix::tracks_contrib_prefix(tracks, 0, rate, table, j) == 0);
    assert(crate::mix::tracks_contrib_prefix(tracks, 1, rate, table, j) == crate::mix::track_contrib(
        track,
        rate,
        table,
        j,
    ));
}

} // verus!
