//! The static song model: instruments, notes, tracks, and the song itself,
//! together with the derived total duration that sizes the sample buffer.
//!
//! All quantities are exact integers: times are in microseconds, frequencies
//! in millihertz, and volumes are Q15 gains (32768 is unit gain), so every
//! derived quantity below is computed without rounding surprises.

use vstd::prelude::*;

verus! {

/// Number of microseconds in one second; the denominator of every
/// time-to-sample-index conversion.
pub const MICROS_PER_SECOND: u64 = 1_000_000;

/// Unit gain in the Q15 volume encoding.
pub const VOLUME_UNIT: u32 = 32768;

/// The closed set of waveform kinds a track can be played with.
#[derive(Clone, Copy, Debug, PartialEq, Eq, Structural)]
pub enum Instrument {
    Sine,
    Square,
    Saw,
}

/// One note: frequency in millihertz (positive), volume as a Q15 gain,
/// start time and duration in microseconds. Immutable once created.
#[derive(Clone, Copy, Debug, PartialEq, Eq, Structural)]
pub struct Note {
    pub freq_mhz: u64,
    pub volume: u32,
    pub start_us: u64,
    pub duration_us: u64,
}

impl Note {
    /// The instant the note stops sounding, in microseconds.
    pub open spec fn end_us(self) -> int {
        self.start_us + self.duration_us
    }

    /// A well-formed note has a positive frequency (the square and saw
    /// waveforms divide by the implied period) and an end time that fits
    /// the microsecond clock.
    pub open spec fn wf(self) -> bool {
        &&& self.freq_mhz >= 1
        &&& self.start_us + self.duration_us <= u64::MAX
    }
}

/// An ordered sequence of notes, all played with one instrument. Notes may
/// overlap in time; overlapping notes are summed, never overwritten.
pub struct Track {
    pub notes: Vec<Note>,
    pub instrument: Instrument,
}

impl Track {
    pub open spec fn wf(self) -> bool {
        forall|i: int| 0 <= i < self.notes@.len() ==> self.notes@[i].wf()
    }

    /// A fresh track for `instrument`, with no notes yet.
    pub fn new(instrument: Instrument) -> (r: Track)
        ensures
            r.instrument == instrument,
            r.notes@.len() == 0,
    {
        Track { instrument, notes: Vec::new() }
    }

    /// Appends one note to the track.
    pub fn note(&mut self, note: Note)
        ensures
            final(self).instrument == old(self).instrument,
            final(self).notes@ == old(self).notes@.push(note),
    {
        self.notes.push(note);
    }
}

/// The latest end time among a sequence of notes, or 0 when there are none.
pub open spec fn notes_total_us(notes: Seq<Note>) -> int
    decreases notes.len(),
{
    if notes.len() == 0 {
        0
    } else {
        let rest = notes_total_us(notes.drop_last());
        let end = notes.last().end_us();
        if end > rest {
            end
        } else {
            rest
        }
    }
}

/// The latest end time among all notes of all tracks, or 0 when the song is
/// empty: the song's total duration in microseconds.
pub open spec fn song_total_us(tracks: Seq<Track>) -> int
    decreases tracks.len(),
{
    if tracks.len() == 0 {
        0
    } else {
        let rest = song_total_us(tracks.drop_last());
        let end = notes_total_us(tracks.last().notes@);
        if end > rest {
            end
        } else {
            rest
        }
    }
}

/// Total number of notes over all tracks.
pub open spec fn song_note_count(tracks: Seq<Track>) -> int
    decreases tracks.len(),
{
    if tracks.len() == 0 {
        0
    } else {
        song_note_count(tracks.drop_last()) + tracks.last().notes@.len()
    }
}

/// The root entity: an ordered collection of tracks, owning all notes.
pub struct Song {
    pub tracks: Vec<Track>,
}

impl Song {
    /// Every note is well formed, and the song is small enough to exist in
    /// memory at all: the note count fits in `usize`.
    pub open spec fn wf(self) -> bool {
        &&& forall|i: int| 0 <= i < self.tracks@.len() ==> (#[trigger] self.tracks@[i]).wf()
        &&& song_note_count(self.tracks@) <= usize::MAX
    }

    /// A fresh song with no tracks.
    pub fn new() -> (r: Song)
        ensures
            r.tracks@.len() == 0,
    {
        Song { tracks: Vec::new() }
    }

    /// Appends one track to the song.
    pub fn track(&mut self, track: Track)
        ensures
            final(self).tracks@ == old(self).tracks@.push(track),
    {
        self.tracks.push(track);
    }

    /// The song's total duration in microseconds: the latest end time among
    /// all notes, 0 for a song with no notes.
    pub fn total_duration_us(&self) -> (r: u64)
        requires
            self.wf(),
        ensures
            r == song_total_us(self.tracks@),
    {
        proof {
            lemma_song_total_us_bounds(self.tracks@);
        }
        let mut total: u64 = 0;
        let mut ti: usize = 0;
        while ti < self.tracks.len()
            invariant
                self.wf(),
                ti <= self.tracks@.len(),
                total == song_total_us(self.tracks@.take(ti as int)),
                total <= u64::MAX,
            decreases self.tracks@.len() - ti,
        {
            let track = &self.tracks[ti];
            let mut ni: usize = 0;
            while ni < track.notes.len()
                invariant
                    self.wf(),
                    ti < self.tracks@.len(),
                    track == self.tracks@[ti as int],
                    ni <= track.notes@.len(),
                    total == vstd::math::max(
                        notes_total_us(track.notes@.take(ni as int)),
                        song_total_us(self.tracks@.take(ti as int)),
                    ),
                    total <= u64::MAX,
                decreases track.notes@.len() - ni,
            {
                proof {
                    assert(track.notes@.take(ni + 1).drop_last() =~= track.notes@.take(ni as int));
                    assert(track.notes@.take(ni + 1).last() == track.notes@[ni as int]);
                    assert(track.wf());
                    assert(track.notes@[ni as int].wf());
                }
                let note = &track.notes[ni];
                let end: u64 = note.start_us + note.duration_us;
                if end > total {
                    total = end;
                }
                ni += 1;
            }
            proof {
                assert(track.notes@.take(track.notes@.len() as int) =~= track.notes@);
                assert(self.tracks@.take(ti + 1).drop_last() =~= self.tracks@.take(ti as int));
                assert(self.tracks@.take(ti + 1).last() == self.tracks@[ti as int]);
            }
            ti += 1;
        }
        proof {
            assert(self.tracks@.take(self.tracks@.len() as int) =~= self.tracks@);
        }
        total
    }
}

/// The total duration is never negative, and, for a well-formed song, never
/// larger than the microsecond clock can hold.
pub proof fn lemma_song_total_us_bounds(tracks: Seq<Track>)
    requires
        forall|i: int| 0 <= i < tracks.len() ==> (#[trigger] tracks[i]).wf(),
    ensures
        0 <= song_total_us(tracks) <= u64::MAX,
    decreases tracks.len(),
{
    if tracks.len() > 0 {
        assert(forall|i: int|
            0 <= i < tracks.drop_last().len() ==> (#[trigger] tracks.drop_last()[i]).wf());
        lemma_song_total_us_bounds(tracks.drop_last());
        lemma_notes_total_us_bounds(tracks.last().notes@);
    }
}

/// Same bound for the notes of a single well-formed track.
pub proof fn lemma_notes_total_us_bounds(notes: Seq<Note>)
    requires
        forall|i: int| 0 <= i < notes.len() ==> (#[trigger] notes[i]).wf(),
    ensures
        0 <= notes_total_us(notes) <= u64::MAX,
    decreases notes.len(),
{
    if notes.len() > 0 {
        assert(forall|i: int|
            0 <= i < notes.drop_last().len() ==> (#[trigger] notes.drop_last()[i]).wf());
        lemma_notes_total_us_bounds(notes.drop_last());
    }
}

/// Every note ends no later than its own track's latest end time.
pub proof fn lemma_notes_total_us_ge(notes: Seq<Note>, k: int)
    requires
        0 <= k < notes.len(),
    ensures
        notes[k].end_us() <= notes_total_us(notes),
    decreases notes.len(),
{
    if k == notes.len() - 1 {
        lemma_notes_total_us_nonneg(notes);
    } else {
        lemma_notes_total_us_ge(notes.drop_last(), k);
    }
}

/// A track's latest end time is never negative.
pub proof fn lemma_notes_total_us_nonneg(notes: Seq<Note>)
    ensures
        notes_total_us(notes) >= 0,
    decreases notes.len(),
{
    if notes.len() > 0 {
        lemma_notes_total_us_nonneg(notes.drop_last());
    }
}

/// Every track's latest end time is bounded by the song's total duration.
pub proof fn lemma_song_total_us_ge(tracks: Seq<Track>, t: int)
    requires
        0 <= t < tracks.len(),
    ensures
        notes_total_us(tracks[t].notes@) <= song_total_us(tracks),
    decreases tracks.len(),
{
    if t < tracks.len() - 1 {
        lemma_song_total_us_ge(tracks.drop_last(), t);
    }
}

} // verus!
