//! The audio side. Once per buffer it takes at most one edit from the queue,
//! without waiting, and says what every track's port is to be driven to in
//! every frame of the buffer.

use crate::channel::poll_message;
use crate::message::{absorbed, tempo_absorbed, Message, Polled};
use crate::port::{check_range, range_error, range_serves, track_port, ConfigError, Port, PortWrite};
use crate::track::{
    lemma_tracks_wf, patterns, silent, silent_tracks, triggered, valid_pattern, Moment,
    TrackControl,
};
use std::sync::mpsc::Receiver;
use vstd::arithmetic::div_mod::lemma_fundamental_div_mod_converse;
use vstd::prelude::*;

verus! {

/// The audio side as a value.
pub struct RendererState {
    pub patterns: Seq<Seq<u8>>,
    pub tempo: u32,
    pub port_range: (Port, Port),
}

impl RendererState {
    /// Every pattern is valid, and the port range holds one port for each
    /// of them.
    pub open spec fn wf(self) -> bool {
        &&& forall|i: int| 0 <= i < self.patterns.len() ==> valid_pattern(#[trigger] self.patterns[i])
        &&& range_serves(self.port_range, self.patterns.len())
    }
}

/// The write that stands at place `k` of a buffer's writes: the frames in
/// their order, and within a frame the tracks in theirs.
pub open spec fn planned_write(
    set: Seq<Seq<u8>>,
    port_range: (Port, Port),
    moment: Moment,
    k: int,
) -> PortWrite {
    let tracks = set.len() as int;
    PortWrite {
        frame: (k / tracks) as usize,
        port: track_port(port_range, k % tracks),
        high: triggered(set[k % tracks], moment),
    }
}

/// The writes of a buffer of `frames` frames: in every frame, every track's
/// port is driven high if the track is triggered at `moment`, else low.
pub open spec fn planned(
    set: Seq<Seq<u8>>,
    port_range: (Port, Port),
    moment: Moment,
    frames: nat,
) -> Seq<PortWrite> {
    Seq::new(frames * set.len(), |k: int| planned_write(set, port_range, moment, k))
}

/// The audio side: its own patterns, the tempo, the receiving end of the
/// queue and the ports that the triggers go to.
pub struct MDSRenderer {
    receiver: Receiver<Message>,
    tracks: Vec<TrackControl>,
    tempo: u32,
    port_range: (Port, Port),
}

impl View for MDSRenderer {
    type V = RendererState;

    closed spec fn view(&self) -> RendererState {
        RendererState {
            patterns: patterns(self.tracks@),
            tempo: self.tempo,
            port_range: self.port_range,
        }
    }
}

impl MDSRenderer {
    /// The invariant of the audio side.
    pub open spec fn wf(&self) -> bool {
        self@.wf()
    }

    /// An audio side with `tracks` silent tracks and tempo zero, that reads
    /// from `receiver` and drives the ports of `port_range`. A range that
    /// does not hold one port of one kind for each track is refused.
    pub fn new(tracks: usize, receiver: Receiver<Message>, port_range: (Port, Port)) -> (result:
        Result<MDSRenderer, ConfigError>)
        ensures
            result is Ok <==> range_serves(port_range, tracks as nat),
            result matches Err(e) ==> range_error(port_range, tracks as nat) == Some(e),
            result matches Ok(renderer) ==> {
                &&& renderer.wf()
                &&& renderer@.patterns == silent(tracks as nat)
                &&& renderer@.tempo == 0
                &&& renderer@.port_range == port_range
            },
    {
        match check_range(port_range, tracks) {
            Err(e) => Err(e),
            Ok(()) => {
                let tracks = silent_tracks(tracks);
                proof {
                    lemma_tracks_wf(tracks@);
                }
                Ok(MDSRenderer { receiver, tracks, tempo: 0, port_range })
            },
        }
    }

    /// The number of tracks.
    pub fn tracks(&self) -> (n: usize)
        ensures
            n == self@.patterns.len(),
    {
        self.tracks.len()
    }

    /// The tempo, as the bit pattern of its single-precision number.
    pub fn tempo(&self) -> (tempo: u32)
        ensures
            tempo == self@.tempo,
    {
        self.tempo
    }

    /// The two ends of the port range.
    pub fn port_range(&self) -> (port_range: (Port, Port))
        ensures
            port_range == self@.port_range,
    {
        self.port_range
    }

    /// The pattern of track `track`, first step first.
    pub fn pattern(&self, track: usize) -> (flags: Vec<u8>)
        requires
            track < self@.patterns.len(),
        ensures
            flags@ == self@.patterns[track as int],
    {
        self.tracks[track].to_vec()
    }

    /// Applies an edit that fits.
    pub fn apply(&mut self, message: Message)
        requires
            old(self).wf(),
            message.fits(old(self)@.patterns.len()),
        ensures
            final(self).wf(),
            final(self)@.patterns == message.applied(old(self)@.patterns),
            final(self)@.tempo == message.tempo_after(old(self)@.tempo),
            final(self)@.port_range == old(self)@.port_range,
            message.done(final(self)@.patterns),
    {
        proof {
            lemma_tracks_wf(self.tracks@);
        }
        if let Message::TempoChange { tempo } = message {
            self.tempo = tempo;
        }
        message.apply(&mut self.tracks);
        proof {
            lemma_tracks_wf(self.tracks@);
        }
    }

    /// Takes in what a look at the queue found. A message that fits is
    /// applied. An empty queue, a queue whose sender is gone, and a message
    /// that does not fit change nothing.
    pub fn absorb(&mut self, polled: Polled)
        requires
            old(self).wf(),
        ensures
            final(self).wf(),
            final(self)@.patterns == absorbed(old(self)@.patterns, polled),
            final(self)@.tempo == tempo_absorbed(
                old(self)@.tempo,
                old(self)@.patterns.len(),
                polled,
            ),
            final(self)@.port_range == old(self)@.port_range,
            !(polled is Message) ==> final(self)@ == old(self)@,
    {
        if let Polled::Message(message) = polled {
            if message.check(self.tracks.len()) {
                self.apply(message);
            }
        }
    }

    /// Looks at the queue once, without waiting, and takes in what is
    /// there. Returns what the look found.
    pub fn poll(&mut self) -> (polled: Polled)
        requires
            old(self).wf(),
        ensures
            final(self).wf(),
            final(self)@.patterns == absorbed(old(self)@.patterns, polled),
            final(self)@.tempo == tempo_absorbed(
                old(self)@.tempo,
                old(self)@.patterns.len(),
                polled,
            ),
            final(self)@.port_range == old(self)@.port_range,
            !(polled is Message) ==> final(self)@ == old(self)@,
    {
        let polled = poll_message(&self.receiver);
        self.absorb(polled);
        polled
    }

    /// The port of track `track`.
    pub fn port(&self, track: usize) -> (port: Port)
        requires
            self.wf(),
            track < self@.patterns.len(),
        ensures
            port == track_port(self@.port_range, track as int),
    {
        match self.port_range.0 {
            Port::Digital(start) => Port::Digital(start + track),
            Port::AnalogOut(start) => Port::AnalogOut(start + track),
        }
    }

    /// Fills `writes` with the writes of a buffer of `frames` frames at
    /// `moment`, for the patterns as they are now.
    pub fn plan(&self, moment: Moment, frames: usize, writes: &mut Vec<PortWrite>)
        requires
            self.wf(),
            frames * self@.patterns.len() <= usize::MAX,
        ensures
            final(writes)@ == planned(self@.patterns, self@.port_range, moment, frames as nat),
    {
        writes.clear();
        let tracks = self.tracks.len();
        let mut frame: usize = 0;
        while frame < frames
            invariant
                self.wf(),
                tracks == self.tracks@.len(),
                frame <= frames,
                frames * tracks <= usize::MAX,
                writes@.len() == frame * tracks,
                forall|k: int|
                    0 <= k < writes@.len() ==> #[trigger] writes@[k] == planned_write(
                        self@.patterns,
                        self@.port_range,
                        moment,
                        k,
                    ),
            decreases frames - frame,
        {
            let mut i: usize = 0;
            while i < tracks
                invariant
                    self.wf(),
                    tracks == self.tracks@.len(),
                    frame < frames,
                    i <= tracks,
                    frames * tracks <= usize::MAX,
                    writes@.len() == frame * tracks + i,
                    forall|k: int|
                        0 <= k < writes@.len() ==> #[trigger] writes@[k] == planned_write(
                            self@.patterns,
                            self@.port_range,
                            moment,
                            k,
                        ),
                decreases tracks - i,
            {
                proof {
                    lemma_fundamental_div_mod_converse(
                        frame * tracks + i,
                        tracks as int,
                        frame as int,
                        i as int,
                    );
                    assert(frame * tracks == tracks * frame) by (nonlinear_arith);
                }
                proof {
                    lemma_tracks_wf(self.tracks@);
                }
                let high = self.tracks[i].triggered(moment);
                let port = self.port(i);
                writes.push(PortWrite { frame, port, high });
                i += 1;
            }
            proof {
                assert(frame * tracks + tracks == (frame + 1) * tracks) by (nonlinear_arith);
            }
            frame += 1;
        }
        assert(writes@ =~= planned(self@.patterns, self@.port_range, moment, frames as nat));
    }

    /// One buffer: looks at the queue once, without waiting, takes in what
    /// is there, and fills `writes` with the writes of the buffer for the
    /// patterns as they are after that. Returns what the look found.
    pub fn render(&mut self, moment: Moment, frames: usize, writes: &mut Vec<PortWrite>) -> (polled:
        Polled)
        requires
            old(self).wf(),
            frames * old(self)@.patterns.len() <= usize::MAX,
        ensures
            final(self).wf(),
            final(self)@.patterns == absorbed(old(self)@.patterns, polled),
            final(self)@.tempo == tempo_absorbed(
                old(self)@.tempo,
                old(self)@.patterns.len(),
                polled,
            ),
            final(self)@.port_range == old(self)@.port_range,
            !(polled is Message) ==> final(self)@ == old(self)@,
            final(writes)@ == planned(
                final(self)@.patterns,
                final(self)@.port_range,
                moment,
                frames as nat,
            ),
    {
        let polled = self.poll();
        proof {
            if let Polled::Message(message) = polled {
                if message.fits(old(self)@.patterns.len()) {
                    crate::message::lemma_applied_len(message, old(self)@.patterns);
                }
            }
        }
        self.plan(moment, frames, writes);
        polled
    }
}

} // verus!
