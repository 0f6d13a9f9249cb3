//! The edits that travel from the control side to the audio side, and what
//! each of them does to a set of patterns.
//!
//! Both sides hold their own patterns. The control side edits its set and
//! sends the edit; the audio side applies what it receives, one message per
//! buffer. The two sets agree again once every message has arrived.

use crate::grid::MDSAction;
use crate::stepbuf::MAX_STEPS;
use crate::track::{euclidean_steps, generated, patterns, toggled, tracks_wf, TrackControl};
use vstd::prelude::*;

verus! {

/// One edit, as it is sent. A tempo is carried as the bit pattern of its
/// single-precision number: the sequencer stores it and never computes with
/// it.
#[derive(Clone, Copy, PartialEq, Eq, Debug, Structural)]
pub enum Message {
    Key { col: usize, track: usize },
    TempoChange { tempo: u32 },
    Euclidian { track: usize, steps: usize, pulses: usize },
    Loop { track: usize, start: usize, end: usize },
}

/// What one look at the queue found.
#[derive(Clone, Copy, PartialEq, Eq, Debug, Structural)]
pub enum Polled {
    Message(Message),
    Empty,
    Disconnected,
}

impl Message {
    /// Whether the edit can be applied to a set of `tracks` patterns: its
    /// track is one of them, a key is within the sixteen steps, and a rhythm
    /// has at least one step, at most `MAX_STEPS`, and no more pulses than
    /// steps.
    pub open spec fn fits(self, tracks: nat) -> bool {
        match self {
            Message::Key { col, track } => col < 16 && track < tracks,
            Message::TempoChange { tempo } => true,
            Message::Euclidian { track, steps, pulses } => track < tracks && 1 <= steps
                <= MAX_STEPS && pulses <= steps,
            Message::Loop { track, start, end } => track < tracks,
        }
    }

    /// The set of patterns after the edit. A tempo change and a loop leave
    /// every pattern as it is.
    pub open spec fn applied(self, set: Seq<Seq<u8>>) -> Seq<Seq<u8>> {
        match self {
            Message::Key { col, track } => set.update(
                track as int,
                toggled(set[track as int], col as int),
            ),
            Message::TempoChange { tempo } => set,
            Message::Euclidian { track, steps, pulses } => set.update(
                track as int,
                euclidean_steps(steps as nat, pulses as nat),
            ),
            Message::Loop { track, start, end } => set,
        }
    }

    /// What holds of a set of patterns to which the edit was just applied:
    /// a rhythm that it asked for was generated.
    pub open spec fn done(self, set: Seq<Seq<u8>>) -> bool {
        self matches Message::Euclidian { track, steps, pulses } ==> generated(
            set[track as int],
            steps as nat,
            pulses as nat,
        )
    }

    /// The tempo after the edit.
    pub open spec fn tempo_after(self, tempo: u32) -> u32 {
        match self {
            Message::TempoChange { tempo: new_tempo } => new_tempo,
            _ => tempo,
        }
    }

    /// Tests whether the edit can be applied to `tracks` tracks.
    pub fn check(&self, tracks: usize) -> (ok: bool)
        ensures
            ok == self.fits(tracks as nat),
    {
        match *self {
            Message::Key { col, track } => col < 16 && track < tracks,
            Message::TempoChange { tempo } => true,
            Message::Euclidian { track, steps, pulses } => track < tracks && 1 <= steps && steps
                <= MAX_STEPS && pulses <= steps,
            Message::Loop { track, start, end } => track < tracks,
        }
    }

    /// Applies the edit to a set of tracks.
    pub fn apply(&self, tracks: &mut Vec<TrackControl>)
        requires
            self.fits(old(tracks)@.len()),
            tracks_wf(old(tracks)@),
        ensures
            patterns(final(tracks)@) == self.applied(patterns(old(tracks)@)),
            final(tracks)@.len() == old(tracks)@.len(),
            tracks_wf(final(tracks)@),
            self.done(patterns(final(tracks)@)),
    {
        match *self {
            Message::Key { col, track } => {
                tracks[track].press(col);
            },
            Message::TempoChange { tempo } => {},
            Message::Euclidian { track, steps, pulses } => {
                tracks[track].euclidian(steps, pulses);
            },
            Message::Loop { track, start, end } => {
                tracks[track].looop(start, end);
                assert(tracks@[track as int]@ == old(tracks)@[track as int]@);
            },
        }
        assert(patterns(tracks@) =~= self.applied(patterns(old(tracks)@)));
        assert forall|i: int| 0 <= i < tracks@.len() implies #[trigger] tracks@[i].wf() by {
            assert(old(tracks)@[i].wf());
        }
    }
}

impl MDSAction {
    /// The edit that carries out the action, if it asks for one.
    pub open spec fn edit(self) -> Option<Message> {
        match self {
            MDSAction::Nothing => None,
            MDSAction::Tick { col, track } => Some(Message::Key { col, track }),
            MDSAction::Euclidian { track, steps, pulses } => Some(
                Message::Euclidian { track, steps, pulses },
            ),
            MDSAction::Loop { track, start, end } => Some(Message::Loop { track, start, end }),
        }
    }

    /// The edit that carries out the action, if it asks for one.
    pub fn message(&self) -> (message: Option<Message>)
        ensures
            message == self.edit(),
    {
        match *self {
            MDSAction::Nothing => None,
            MDSAction::Tick { col, track } => Some(Message::Key { col, track }),
            MDSAction::Euclidian { track, steps, pulses } => Some(
                Message::Euclidian { track, steps, pulses },
            ),
            MDSAction::Loop { track, start, end } => Some(Message::Loop { track, start, end }),
        }
    }
}

/// The set of patterns after the edit that an action asks for, if any.
pub open spec fn acted(set: Seq<Seq<u8>>, action: MDSAction) -> Seq<Seq<u8>> {
    match action.edit() {
        Some(message) => message.applied(set),
        None => set,
    }
}

/// The set of patterns after one look at the queue: a message that fits is
/// applied, anything else leaves the set as it is.
pub open spec fn absorbed(set: Seq<Seq<u8>>, polled: Polled) -> Seq<Seq<u8>> {
    match polled {
        Polled::Message(message) => if message.fits(set.len()) {
            message.applied(set)
        } else {
            set
        },
        Polled::Empty => set,
        Polled::Disconnected => set,
    }
}

/// The tempo after one look at the queue.
pub open spec fn tempo_absorbed(tempo: u32, tracks: nat, polled: Polled) -> u32 {
    match polled {
        Polled::Message(message) => if message.fits(tracks) {
            message.tempo_after(tempo)
        } else {
            tempo
        },
        Polled::Empty => tempo,
        Polled::Disconnected => tempo,
    }
}

/// The control side's patterns after the edits of `log`, in their order.
pub open spec fn replayed(set: Seq<Seq<u8>>, log: Seq<Message>) -> Seq<Seq<u8>>
    decreases log.len(),
{
    if log.len() == 0 {
        set
    } else {
        replayed(log[0].applied(set), log.skip(1))
    }
}

/// What a look at `queue` finds while nothing is being sent.
pub open spec fn head(queue: Seq<Message>) -> Polled {
    if queue.len() == 0 {
        Polled::Empty
    } else {
        Polled::Message(queue[0])
    }
}

/// What is left of `queue` after a look at it.
pub open spec fn tail(queue: Seq<Message>) -> Seq<Message> {
    if queue.len() == 0 {
        queue
    } else {
        queue.skip(1)
    }
}

/// The audio side's patterns after `polls` looks at `queue`, one message
/// taken at each look.
pub open spec fn drained(set: Seq<Seq<u8>>, queue: Seq<Message>, polls: nat) -> Seq<Seq<u8>>
    decreases polls,
{
    if polls == 0 {
        set
    } else {
        drained(absorbed(set, head(queue)), tail(queue), (polls - 1) as nat)
    }
}

/// An edit keeps the number of patterns.
pub proof fn lemma_applied_len(message: Message, set: Seq<Seq<u8>>)
    requires
        message.fits(set.len()),
    ensures
        message.applied(set).len() == set.len(),
{
}

/// Any number of looks at an empty queue leaves every pattern as it is.
pub proof fn lemma_drained_empty(set: Seq<Seq<u8>>, polls: nat)
    ensures
        drained(set, Seq::<Message>::empty(), polls) == set,
    decreases polls,
{
    if polls > 0 {
        lemma_drained_empty(set, (polls - 1) as nat);
    }
}

/// Once the audio side has looked at the queue at least as often as the
/// control side has edited, with no message lost, its patterns are those of
/// the control side.
pub proof fn lemma_convergence(set: Seq<Seq<u8>>, log: Seq<Message>, polls: nat)
    requires
        forall|i: int| 0 <= i < log.len() ==> (#[trigger] log[i]).fits(set.len()),
        polls >= log.len(),
    ensures
        drained(set, log, polls) == replayed(set, log),
    decreases log.len(),
{
    if log.len() == 0 {
        assert(log =~= Seq::<Message>::empty());
        lemma_drained_empty(set, polls);
    } else {
        let next = log[0].applied(set);
        lemma_applied_len(log[0], set);
        assert forall|i: int| 0 <= i < log.skip(1).len() implies (#[trigger] log.skip(1)[i]).fits(
            next.len(),
        ) by {
            assert(log.skip(1)[i] == log[i + 1]);
        }
        lemma_convergence(next, log.skip(1), (polls - 1) as nat);
    }
}

/// Whether the audio side is in step with the control side: the edits that
/// wait in the queue are all that its patterns lack.
pub open spec fn in_step(control: Seq<Seq<u8>>, audio: Seq<Seq<u8>>, queue: Seq<Message>) -> bool {
    &&& audio.len() == control.len()
    &&& forall|i: int| 0 <= i < queue.len() ==> (#[trigger] queue[i]).fits(audio.len())
    &&& replayed(audio, queue) == control
}

/// Replaying a log and then one more edit is replaying the log with that
/// edit at its end.
pub proof fn lemma_replayed_push(set: Seq<Seq<u8>>, log: Seq<Message>, message: Message)
    ensures
        replayed(set, log.push(message)) == message.applied(replayed(set, log)),
    decreases log.len(),
{
    let longer = log.push(message);
    if log.len() == 0 {
        assert(longer.skip(1) =~= Seq::<Message>::empty());
        assert(replayed(message.applied(set), longer.skip(1)) == message.applied(set));
    } else {
        assert(longer.skip(1) =~= log.skip(1).push(message));
        assert(longer[0] == log[0]);
        lemma_replayed_push(log[0].applied(set), log.skip(1), message);
    }
}

/// Two sides that start from the same patterns, with nothing in the queue,
/// are in step.
pub proof fn lemma_in_step_at_start(set: Seq<Seq<u8>>)
    ensures
        in_step(set, set, Seq::<Message>::empty()),
{
}

/// An edit that the control side does and sends keeps the two sides in
/// step.
pub proof fn lemma_in_step_after_edit(
    control: Seq<Seq<u8>>,
    audio: Seq<Seq<u8>>,
    queue: Seq<Message>,
    message: Message,
)
    requires
        in_step(control, audio, queue),
        message.fits(control.len()),
    ensures
        in_step(message.applied(control), audio, queue.push(message)),
{
    lemma_replayed_push(audio, queue, message);
}

/// A look of the audio side at the queue keeps the two sides in step,
/// whether it finds an edit or not.
pub proof fn lemma_in_step_after_poll(
    control: Seq<Seq<u8>>,
    audio: Seq<Seq<u8>>,
    queue: Seq<Message>,
)
    requires
        in_step(control, audio, queue),
    ensures
        in_step(control, absorbed(audio, head(queue)), tail(queue)),
{
    if queue.len() > 0 {
        assert(queue[0].fits(audio.len()));
        assert forall|i: int| 0 <= i < queue.skip(1).len() implies (#[trigger] queue.skip(
            1,
        )[i]).fits(queue[0].applied(audio).len()) by {
            assert(queue.skip(1)[i] == queue[i + 1]);
        }
    }
}

/// Two sides in step with nothing left in the queue hold the same
/// patterns.
pub proof fn lemma_in_step_drained(control: Seq<Seq<u8>>, audio: Seq<Seq<u8>>)
    requires
        in_step(control, audio, Seq::<Message>::empty()),
    ensures
        audio == control,
{
}

/// The control side's tempo after the edits of `log`, in their order.
pub open spec fn tempo_replayed(tempo: u32, log: Seq<Message>) -> u32
    decreases log.len(),
{
    if log.len() == 0 {
        tempo
    } else {
        tempo_replayed(log[0].tempo_after(tempo), log.skip(1))
    }
}

/// Whether the audio side is in tune with the control side: the edits that
/// wait in the queue, all of which fit `tracks` tracks, are all that its
/// tempo lacks.
pub open spec fn in_tune(control: u32, audio: u32, queue: Seq<Message>, tracks: nat) -> bool {
    &&& forall|i: int| 0 <= i < queue.len() ==> (#[trigger] queue[i]).fits(tracks)
    &&& tempo_replayed(audio, queue) == control
}

/// Replaying a log and then one more edit gives the tempo of replaying the
/// log with that edit at its end.
pub proof fn lemma_tempo_replayed_push(tempo: u32, log: Seq<Message>, message: Message)
    ensures
        tempo_replayed(tempo, log.push(message)) == message.tempo_after(
            tempo_replayed(tempo, log),
        ),
    decreases log.len(),
{
    let longer = log.push(message);
    if log.len() == 0 {
        assert(longer.skip(1) =~= Seq::<Message>::empty());
        assert(tempo_replayed(message.tempo_after(tempo), longer.skip(1)) == message.tempo_after(
            tempo,
        ));
    } else {
        assert(longer.skip(1) =~= log.skip(1).push(message));
        assert(longer[0] == log[0]);
        lemma_tempo_replayed_push(log[0].tempo_after(tempo), log.skip(1), message);
    }
}

/// A change of tempo that the control side makes and sends puts the two
/// sides in tune, whatever their tempos were before.
pub proof fn lemma_in_tune_after_change(audio: u32, queue: Seq<Message>, tracks: nat, tempo: u32)
    requires
        forall|i: int| 0 <= i < queue.len() ==> (#[trigger] queue[i]).fits(tracks),
    ensures
        in_tune(tempo, audio, queue.push(Message::TempoChange { tempo }), tracks),
{
    lemma_tempo_replayed_push(audio, queue, Message::TempoChange { tempo });
}

/// An edit that the control side does and sends keeps the two sides in
/// tune.
pub proof fn lemma_in_tune_after_edit(
    control: u32,
    audio: u32,
    queue: Seq<Message>,
    tracks: nat,
    message: Message,
)
    requires
        in_tune(control, audio, queue, tracks),
        message.fits(tracks),
    ensures
        in_tune(message.tempo_after(control), audio, queue.push(message), tracks),
{
    lemma_tempo_replayed_push(audio, queue, message);
}

/// A look of the audio side at the queue keeps the two sides in tune,
/// whether it finds an edit or not; with nothing left in the queue, their
/// tempos are the same.
pub proof fn lemma_in_tune_after_poll(control: u32, audio: u32, queue: Seq<Message>, tracks: nat)
    requires
        in_tune(control, audio, queue, tracks),
    ensures
        in_tune(control, tempo_absorbed(audio, tracks, head(queue)), tail(queue), tracks),
        queue.len() == 0 ==> audio == control,
{
    if queue.len() > 0 {
        assert(queue[0].fits(tracks));
        assert forall|i: int| 0 <= i < queue.skip(1).len() implies (#[trigger] queue.skip(
            1,
        )[i]).fits(tracks) by {
            assert(queue.skip(1)[i] == queue[i + 1]);
        }
    }
}

} // verus!
