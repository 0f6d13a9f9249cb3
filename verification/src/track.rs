//! One track's pattern: a cyclic buffer of step flags, sampled through a
//! sixteen-step window that is anchored at the start of the current bar.

use crate::stepbuf::{
    buffer_fill_euclidean, buffer_get, buffer_len, buffer_new, buffer_resize, buffer_set,
    buffer_steps, euclidean_rhythm, onsets, StepBuffer, MAX_STEPS,
};
use vstd::arithmetic::div_mod::{lemma_mod_bound, lemma_mul_mod_noop_left};
use vstd::prelude::*;

verus! {

/// The number of steps shown and triggered at a time: the sixteenths of one
/// bar.
pub const WINDOW: usize = 16;

/// Beats in a bar.
pub const BEATS_PER_BAR: usize = 4;

/// The sixteenth at which the bar that holds `beat` begins.
pub open spec fn bar_start(beat: nat) -> nat {
    beat / 4 * 16
}

/// The sixteen flags of `p` that start at the bar that holds `beat`, the
/// pattern taken as a cycle.
pub open spec fn window(p: Seq<u8>, beat: nat) -> Seq<u8> {
    Seq::new(16, |i: int| p[(bar_start(beat) + i) % (p.len() as int)])
}

/// `p` with the flag at `x` inverted: a silent step sounds, any other falls
/// silent.
pub open spec fn flipped(p: Seq<u8>, x: int) -> Seq<u8> {
    p.update(
        x,
        if p[x] == 0 {
            1u8
        } else {
            0u8
        },
    )
}

/// The sixteen-step pattern that manual editing works on: `p` itself when
/// it has sixteen steps, else its window at beat zero.
pub open spec fn frozen(p: Seq<u8>) -> Seq<u8> {
    if p.len() == 16 {
        p
    } else {
        window(p, 0)
    }
}

/// `p` after a key press at column `x`.
pub open spec fn toggled(p: Seq<u8>, x: int) -> Seq<u8> {
    flipped(frozen(p), x)
}

/// A pattern of `steps` flags that all equal `flag`.
pub open spec fn uniform(steps: nat, flag: u8) -> Seq<u8> {
    Seq::new(steps, |i: int| flag)
}

/// The pattern of `steps` flags with `pulses` onsets: silence where no
/// onset is asked for, else the generator's rhythm.
pub open spec fn euclidean_steps(steps: nat, pulses: nat) -> Seq<u8> {
    if pulses == 0 {
        uniform(steps, 0)
    } else {
        euclidean_rhythm(steps, pulses)
    }
}

/// A reading of the musical clock in whole numbers: the beats and the
/// sixteenths that have passed, and whether the reading falls in the short
/// gate at the start of its sixteenth.
#[derive(Clone, Copy, PartialEq, Eq, Debug, Structural)]
pub struct Moment {
    pub beat: usize,
    pub sixteenth: usize,
    pub gate: bool,
}

/// Whether a track with the pattern `p` drives its output high at `moment`:
/// the step under the playhead sounds and `moment.gate` holds.
pub open spec fn triggered(p: Seq<u8>, moment: Moment) -> bool {
    window(p, moment.beat as nat)[(moment.sixteenth % 16) as int] != 0 && moment.gate
}

/// Whether `p` can be a track's pattern: at least one step, at most
/// `MAX_STEPS`, every flag 0 or 1.
pub open spec fn valid_pattern(p: Seq<u8>) -> bool {
    &&& 1 <= p.len() <= MAX_STEPS
    &&& forall|i: int| 0 <= i < p.len() ==> #[trigger] p[i] <= 1
}

/// What holds of a pattern `p` that was generated as the Euclidean rhythm of
/// `steps` flags with `pulses` onsets: it is that rhythm, it has `steps`
/// valid flags of which `pulses` are onsets, no onset gives silence, and as
/// many onsets as steps gives an onset on every step.
pub open spec fn generated(p: Seq<u8>, steps: nat, pulses: nat) -> bool {
    &&& p == euclidean_steps(steps, pulses)
    &&& p.len() == steps
    &&& valid_pattern(p)
    &&& onsets(p) == pulses
    &&& pulses == 0 ==> p == uniform(steps, 0)
    &&& pulses == steps ==> p == uniform(steps, 1)
}

/// A pattern whose flags are all alike has an onset on every step if the
/// flag is 1, and none otherwise.
pub proof fn lemma_onsets_uniform(steps: nat, flag: u8)
    ensures
        onsets(uniform(steps, flag)) == if flag == 1 {
            steps
        } else {
            0
        },
    decreases steps,
{
    if steps > 0 {
        assert(uniform(steps, flag).drop_last() =~= uniform((steps - 1) as nat, flag));
        lemma_onsets_uniform((steps - 1) as nat, flag);
    }
}

/// Asked for no onset, the rhythm of any number of steps is silence.
pub proof fn lemma_euclidean_silent(steps: nat)
    ensures
        euclidean_steps(steps, 0) == uniform(steps, 0),
        onsets(euclidean_steps(steps, 0)) == 0,
{
    lemma_onsets_uniform(steps, 0);
}

/// Pressing the same column twice gives back the sixteen-step pattern that
/// was there before.
pub proof fn lemma_toggle_twice(p: Seq<u8>, x: int)
    requires
        valid_pattern(p),
        p.len() == 16,
        0 <= x < 16,
    ensures
        toggled(toggled(p, x), x) == p,
{
    assert(toggled(toggled(p, x), x) =~= p);
}

/// A press leaves a valid sixteen-step pattern, whatever the length was.
pub proof fn lemma_toggled_valid(p: Seq<u8>, x: int)
    requires
        valid_pattern(p),
        0 <= x < 16,
    ensures
        valid_pattern(toggled(p, x)),
        toggled(p, x).len() == 16,
{
    let len = p.len() as int;
    assert forall|i: int| 0 <= i < 16 implies #[trigger] frozen(p)[i] <= 1 by {
        if p.len() != 16 {
            lemma_mod_bound(bar_start(0) + i, len);
        }
    }
}

/// The patterns of a set of tracks, first track first.
pub open spec fn patterns(tracks: Seq<TrackControl>) -> Seq<Seq<u8>> {
    Seq::new(tracks.len(), |i: int| tracks[i]@)
}

/// Whether every track of the set keeps its invariant.
pub open spec fn tracks_wf(tracks: Seq<TrackControl>) -> bool {
    forall|i: int| 0 <= i < tracks.len() ==> #[trigger] tracks[i].wf()
}

/// The tracks keep their invariants exactly if their patterns are valid.
pub proof fn lemma_tracks_wf(tracks: Seq<TrackControl>)
    ensures
        tracks_wf(tracks) <==> forall|i: int|
            0 <= i < patterns(tracks).len() ==> valid_pattern(#[trigger] patterns(tracks)[i]),
        patterns(tracks).len() == tracks.len(),
{
    if tracks_wf(tracks) {
        assert forall|i: int| 0 <= i < patterns(tracks).len() implies valid_pattern(
            #[trigger] patterns(tracks)[i],
        ) by {
            assert(tracks[i].wf());
        }
    }
    if forall|i: int|
        0 <= i < patterns(tracks).len() ==> valid_pattern(#[trigger] patterns(tracks)[i]) {
        assert forall|i: int| 0 <= i < tracks.len() implies #[trigger] tracks[i].wf() by {
            assert(valid_pattern(patterns(tracks)[i]));
        }
    }
}

/// A set of `tracks` silent patterns of sixteen steps.
pub open spec fn silent(tracks: nat) -> Seq<Seq<u8>> {
    Seq::new(tracks, |i: int| uniform(16, 0))
}

/// Makes `count` silent tracks.
pub fn silent_tracks(count: usize) -> (tracks: Vec<TrackControl>)
    ensures
        tracks@.len() == count,
        tracks_wf(tracks@),
        patterns(tracks@) == silent(count as nat),
{
    let mut tracks: Vec<TrackControl> = Vec::new();
    let mut i: usize = 0;
    while i < count
        invariant
            i <= count,
            tracks@.len() == i,
            tracks_wf(tracks@),
            forall|j: int| 0 <= j < i ==> (#[trigger] tracks@[j])@ == uniform(16, 0),
        decreases count - i,
    {
        tracks.push(TrackControl::new());
        i += 1;
    }
    assert(patterns(tracks@) =~= silent(count as nat));
    tracks
}

/// The track's pattern.
pub struct TrackControl {
    steps: StepBuffer,
}

impl View for TrackControl {
    type V = Seq<u8>;

    closed spec fn view(&self) -> Seq<u8> {
        buffer_steps(self.steps)
    }
}

impl TrackControl {
    /// The invariant of a track: its pattern is valid.
    pub open spec fn wf(&self) -> bool {
        valid_pattern(self@)
    }

    /// A silent track of sixteen steps.
    pub fn new() -> (track: TrackControl)
        ensures
            track.wf(),
            track@ == uniform(16, 0),
    {
        let mut steps = buffer_new();
        buffer_resize(&mut steps, WINDOW, 0);
        let track = TrackControl { steps };
        assert(track@ =~= uniform(16, 0));
        track
    }

    /// The number of steps in the pattern.
    pub fn len(&self) -> (n: usize)
        ensures
            n == self@.len(),
    {
        buffer_len(&self.steps)
    }

    /// The flag of step `i`.
    pub fn step(&self, i: usize) -> (flag: u8)
        requires
            i < self@.len(),
        ensures
            flag == self@[i as int],
    {
        buffer_get(&self.steps, i)
    }

    /// The whole pattern, first step first.
    pub fn to_vec(&self) -> (flags: Vec<u8>)
        ensures
            flags@ == self@,
    {
        let n = buffer_len(&self.steps);
        let mut flags: Vec<u8> = Vec::new();
        let mut i: usize = 0;
        while i < n
            invariant
                n == self@.len(),
                i <= n,
                flags@ == self@.take(i as int),
            decreases n - i,
        {
            flags.push(buffer_get(&self.steps, i));
            i += 1;
            assert(flags@ =~= self@.take(i as int));
        }
        assert(self@.take(n as int) =~= self@);
        flags
    }

    /// A key press at column `x`. A pattern of another length than sixteen
    /// is first replaced by its window at beat zero; then the flag at `x` is
    /// inverted.
    pub fn press(&mut self, x: usize)
        requires
            old(self).wf(),
            x < 16,
        ensures
            final(self)@ == toggled(old(self)@, x as int),
            final(self)@.len() == 16,
            final(self).wf(),
    {
        if buffer_len(&self.steps) != WINDOW {
            let mut current_steps = [0u8;16];
            self.steps(0, &mut current_steps);
            buffer_resize(&mut self.steps, WINDOW, 0);
            let mut i: usize = 0;
            while i < WINDOW
                invariant
                    i <= 16,
                    self@.len() == 16,
                    current_steps@ == window(old(self)@, 0),
                    forall|j: int| 0 <= j < i ==> self@[j] == #[trigger] current_steps@[j],
                decreases 16 - i,
            {
                buffer_set(&mut self.steps, i, current_steps[i]);
                i += 1;
            }
            assert(self@ =~= frozen(old(self)@));
        }
        if buffer_get(&self.steps, x) == 0 {
            buffer_set(&mut self.steps, x, 1);
        } else {
            buffer_set(&mut self.steps, x, 0);
        }
        proof {
            lemma_toggled_valid(old(self)@, x as int);
        }
    }

    /// Replaces the pattern by the Euclidean rhythm of `steps` flags with
    /// `pulses` onsets. What was there before plays no part. Exactly `pulses`
    /// of the flags are onsets: no onset gives silence, and as many onsets as
    /// steps gives an onset on every step.
    pub fn euclidian(&mut self, steps: usize, pulses: usize)
        requires
            1 <= steps <= MAX_STEPS,
            pulses <= steps,
        ensures
            final(self)@ == euclidean_steps(steps as nat, pulses as nat),
            final(self)@.len() == steps,
            final(self).wf(),
            onsets(final(self)@) == pulses,
            pulses == 0 ==> final(self)@ == uniform(steps as nat, 0),
            pulses == steps ==> final(self)@ == uniform(steps as nat, 1),
            generated(final(self)@, steps as nat, pulses as nat),
    {
        buffer_resize(&mut self.steps, steps, 0);
        let mut i: usize = 0;
        while i < steps
            invariant
                i <= steps,
                self@.len() == steps,
                forall|j: int| 0 <= j < i ==> #[trigger] self@[j] == 0,
            decreases steps - i,
        {
            buffer_set(&mut self.steps, i, 0);
            i += 1;
        }
        assert(self@ =~= uniform(steps as nat, 0));
        proof {
            lemma_onsets_uniform(steps as nat, 0);
        }
        if pulses > 0 {
            buffer_fill_euclidean(&mut self.steps, pulses);
            if pulses == steps {
                assert(self@ =~= uniform(steps as nat, 1));
            }
        }
    }

    /// Sets a loop region. The region has no effect yet: the pattern stays
    /// as it is.
    pub fn looop(&mut self, start: usize, end: usize)
        ensures
            final(self)@ == old(self)@,
    {
    }

    /// Whether the track drives its output high at `moment`.
    pub fn triggered(&self, moment: Moment) -> (high: bool)
        requires
            self.wf(),
        ensures
            high == triggered(self@, moment),
    {
        let mut current_steps = [0u8;16];
        self.steps(moment.beat, &mut current_steps);
        let pos_in_pattern = moment.sixteenth % WINDOW;
        current_steps[pos_in_pattern] != 0 && moment.gate
    }

    /// Writes to `steps` the sixteen flags that start at the bar that holds
    /// `beat`, a count of whole beats.
    pub fn steps(&self, beat: usize, steps: &mut [u8; 16])
        requires
            self.wf(),
        ensures
            final(steps)@ == window(self@, beat as nat),
            forall|i: int|
                0 <= i < 16 ==> #[trigger] final(steps)@[i] == self@[(beat as nat / 4 * 16 + i) % (
                self@.len() as int)],
    {
        let len = buffer_len(&self.steps);
        let bar = beat / BEATS_PER_BAR;
        let offset = (bar % len) * WINDOW % len;
        proof {
            lemma_mul_mod_noop_left(bar as int, 16, len as int);
        }
        let mut i: usize = 0;
        while i < WINDOW
            invariant
                i <= 16,
                len == self@.len(),
                1 <= len <= MAX_STEPS,
                offset == bar_start(beat as nat) % (len as nat),
                forall|j: int|
                    0 <= j < i ==> #[trigger] steps@[j] == self@[(bar_start(beat as nat) + j) % (
                    len as int)],
            decreases 16 - i,
        {
            proof {
                lemma_offset_step(bar_start(beat as nat) as int, i as int, len as int);
            }
            steps[i] = buffer_get(&self.steps, (offset + i) % len);
            i += 1;
        }
        assert(steps@ =~= window(self@, beat as nat));
    }
}

/// Reducing an offset before a step is added does not change where the step
/// lands in the cycle.
proof fn lemma_offset_step(start: int, i: int, len: int)
    requires
        0 <= start,
        0 <= i,
        0 < len,
    ensures
        (start % len + i) % len == (start + i) % len,
        0 <= (start + i) % len < len,
{
    vstd::arithmetic::div_mod::lemma_add_mod_noop(start, i, len);
    vstd::arithmetic::div_mod::lemma_add_mod_noop(start % len, i, len);
    vstd::arithmetic::div_mod::lemma_mod_twice(start, len);
    lemma_mod_bound(start + i, len);
}

} // verus!
