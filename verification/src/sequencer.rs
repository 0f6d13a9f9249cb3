//! The control side. It owns the patterns that the operator sees, turns key
//! events into edits through the gesture tracker, applies each edit at once
//! and sends it to the audio side, and draws the display.

use crate::channel::{message_channel, send_message};
use crate::grid::{Grid, GridStateTracker, MDSAction, MDSIntent};
use crate::message::{acted, Message};
use crate::port::{grid_fits, range_error, range_serves, ConfigError, Port, DISPLAY_CELLS};
use crate::renderer::MDSRenderer;
use crate::stepbuf::MAX_STEPS;
use crate::track::{
    generated, lemma_tracks_wf, patterns, silent, silent_tracks, valid_pattern, window, Moment, TrackControl,
};
use std::sync::mpsc::Sender;
use vstd::arithmetic::div_mod::lemma_fundamental_div_mod_converse;
use vstd::prelude::*;

verus! {

/// The tempo of a new control side: 120 beats per minute, as the bit
/// pattern of its single-precision number.
pub const DEFAULT_TEMPO: u32 = 0x42F0_0000;

/// The intensity of a cell under the playhead.
pub const PLAYHEAD: u8 = 4;

/// The intensity of a step that sounds.
pub const ACTIVE: u8 = 15;

/// Which way a key went.
#[derive(Clone, Copy, PartialEq, Eq, Debug, Structural)]
pub enum KeyDirection {
    Down,
    Up,
}

/// A key of the grid going down or up.
#[derive(Clone, Copy, PartialEq, Eq, Debug, Structural)]
pub struct GridKey {
    pub x: usize,
    pub y: usize,
    pub direction: KeyDirection,
}

/// The control side as a value.
pub struct SequencerState {
    pub patterns: Seq<Seq<u8>>,
    pub tempo: u32,
    pub grid: Grid,
}

impl SequencerState {
    /// The grid is well formed, every row below the control row has its
    /// track, and every pattern is valid.
    pub open spec fn wf(self) -> bool {
        &&& self.grid.wf()
        &&& self.patterns.len() + 1 == self.grid.height
        &&& forall|i: int| 0 <= i < self.patterns.len() ==> valid_pattern(#[trigger] self.patterns[i])
    }

    /// Whether the grid can be drawn into the display buffer.
    pub open spec fn can_show(self) -> bool {
        grid_fits(self.grid.width, self.grid.height)
    }

    /// Whether a key event can be taken: the key is on the grid, and what a
    /// release asks for can be done to the patterns. That leaves out a tick
    /// beyond the sixteenth column and a rhythm of more than `MAX_STEPS`
    /// steps, which only a wider grid can ask for.
    pub open spec fn can_take(self, event: GridKey) -> bool {
        &&& event.x < self.grid.width
        &&& event.y < self.grid.height
        &&& event.direction is Up ==> match self.grid.action(
            event.x as int,
            event.y as int,
        ).edit() {
            Some(message) => message.fits(self.patterns.len()),
            None => true,
        }
    }

    /// The control side after a key event: a key that goes down is noted on
    /// the grid; a key that goes up is cleared from it, and what its release
    /// asks for is done to the patterns.
    pub open spec fn after(self, event: GridKey) -> SequencerState {
        match event.direction {
            KeyDirection::Down => SequencerState {
                grid: self.grid.pressed(event.x as int, event.y as int),
                ..self
            },
            KeyDirection::Up => SequencerState {
                grid: self.grid.released(event.x as int, event.y as int),
                patterns: acted(self.patterns, self.grid.action(event.x as int, event.y as int)),
                ..self
            },
        }
    }
}

/// The intensity of cell `k` of the display, the cells counted row after
/// row on a grid `width` columns wide: a step that sounds in the window of
/// its track is lit, the column under the playhead glows on every track
/// row, and everything else is dark.
pub open spec fn display_cell(set: Seq<Seq<u8>>, width: int, moment: Moment, k: int) -> u8 {
    let row = k / width;
    let col = k % width;
    if 1 <= row <= set.len() {
        if window(set[row - 1], moment.beat as nat)[col] != 0 {
            ACTIVE
        } else if col == moment.sixteenth as int % width {
            PLAYHEAD
        } else {
            0
        }
    } else {
        0
    }
}

/// The display at `moment`.
pub open spec fn displayed(set: Seq<Seq<u8>>, width: int, moment: Moment) -> Seq<u8> {
    Seq::new(DISPLAY_CELLS as nat, |k: int| display_cell(set, width, moment, k))
}

/// The display while it is drawn: the playhead stands on the track rows
/// above `heads`, and the steps are drawn on the track rows above `rows`
/// and, on row `rows` itself, in the columns left of `cols`.
spec fn drawing_cell(
    set: Seq<Seq<u8>>,
    width: int,
    moment: Moment,
    heads: int,
    rows: int,
    cols: int,
    k: int,
) -> u8 {
    let row = k / width;
    let col = k % width;
    if 1 <= row <= set.len() {
        if (row < rows || (row == rows && col < cols)) && window(
            set[row - 1],
            moment.beat as nat,
        )[col] != 0 {
            ACTIVE
        } else if row < heads && col == moment.sixteenth as int % width {
            PLAYHEAD
        } else {
            0
        }
    } else {
        0
    }
}

/// The row and the column of a cell, from its place in the display.
proof fn lemma_cell(width: int, row: int, col: int)
    requires
        0 < width,
        0 <= row,
        0 <= col < width,
    ensures
        (row * width + col) / width == row,
        (row * width + col) % width == col,
        0 <= row * width <= row * width + col,
{
    assert(row * width == width * row) by (nonlinear_arith);
    assert(0 <= row * width) by (nonlinear_arith)
        requires
            0 < width,
            0 <= row,
    ;
    lemma_fundamental_div_mod_converse(row * width + col, width, row, col);
}

/// The place of a cell in the display, from its row and its column.
proof fn lemma_place(width: int, k: int)
    requires
        0 < width,
        0 <= k,
    ensures
        k == (k / width) * width + k % width,
        0 <= k % width < width,
        0 <= k / width,
{
    vstd::arithmetic::div_mod::lemma_fundamental_div_mod(k, width);
    vstd::arithmetic::div_mod::lemma_mod_bound(k, width);
    vstd::arithmetic::div_mod::lemma_div_pos_is_pos(k, width);
    assert((k / width) * width == width * (k / width)) by (nonlinear_arith);
}

/// The control side: its patterns, the tempo, the keys that are down and
/// the sending end of the queue.
pub struct MDS {
    tempo: u32,
    tracks: Vec<TrackControl>,
    sender: Sender<Message>,
    state_tracker: GridStateTracker,
}

impl View for MDS {
    type V = SequencerState;

    closed spec fn view(&self) -> SequencerState {
        SequencerState {
            patterns: patterns(self.tracks@),
            tempo: self.tempo,
            grid: self.state_tracker@,
        }
    }
}

impl MDS {
    /// The invariant of the control side.
    pub open spec fn wf(&self) -> bool {
        self@.wf()
    }

    /// A control side and its audio side, joined by a new queue, for a grid
    /// of `width` columns and `height` rows: the control row and one row for
    /// each track. Both start with silent tracks and no key down. Any grid
    /// with a control row whose cells a machine can count will do. A port
    /// range that does not hold one port of one kind for each track is
    /// refused, and nothing else is.
    pub fn new(ports: (Port, Port), width: usize, height: usize) -> (result: Result<
        (MDS, MDSRenderer),
        ConfigError,
    >)
        requires
            1 <= height,
            width * height <= usize::MAX,
        ensures
            result is Ok <==> range_serves(ports, (height - 1) as nat),
            result matches Err(e) ==> range_error(ports, (height - 1) as nat) == Some(e),
            result matches Ok((control, renderer)) ==> {
                &&& control.wf()
                &&& control@.patterns == silent((height - 1) as nat)
                &&& control@.tempo == DEFAULT_TEMPO
                &&& control@.grid.width == width
                &&& control@.grid.height == height
                &&& forall|i: int|
                    0 <= i < width * height ==> control@.grid.cells[i] == MDSIntent::Nothing
                &&& renderer.wf()
                &&& renderer@.patterns == control@.patterns
                &&& renderer@.tempo == 0
                &&& renderer@.port_range == ports
            },
    {
        let track_count = height - 1;
        let (sender, receiver) = message_channel();
        let renderer = match MDSRenderer::new(track_count, receiver, ports) {
            Ok(renderer) => renderer,
            Err(e) => {
                return Err(e);
            },
        };
        let state_tracker = GridStateTracker::new(width, height);
        let tracks = silent_tracks(track_count);
        proof {
            lemma_tracks_wf(tracks@);
        }
        let control = MDS { tempo: DEFAULT_TEMPO, tracks, sender, state_tracker };
        Ok((control, renderer))
    }

    /// The number of columns of the grid.
    pub fn width(&self) -> (w: usize)
        ensures
            w == self@.grid.width,
    {
        self.state_tracker.width()
    }

    /// The number of rows of the grid, the control row among them.
    pub fn height(&self) -> (h: usize)
        ensures
            h == self@.grid.height,
    {
        self.state_tracker.height()
    }

    /// The number of tracks.
    pub fn tracks(&self) -> (n: usize)
        ensures
            n == self@.patterns.len(),
    {
        self.tracks.len()
    }

    /// The tempo, as the bit pattern of its single-precision number.
    pub fn tempo(&self) -> (tempo: u32)
        ensures
            tempo == self@.tempo,
    {
        self.tempo
    }

    /// The pattern of track `track`, first step first.
    pub fn pattern(&self, track: usize) -> (flags: Vec<u8>)
        requires
            track < self@.patterns.len(),
        ensures
            flags@ == self@.patterns[track as int],
    {
        self.tracks[track].to_vec()
    }

    /// The intent of the key at (`x`, `y`).
    pub fn intent(&self, x: usize, y: usize) -> (intent: MDSIntent)
        requires
            self.wf(),
            x < self@.grid.width,
            y < self@.grid.height,
        ensures
            intent == self@.grid.at(x as int, y as int),
    {
        self.state_tracker.intent(x, y)
    }

    /// Does an edit to the patterns and sends it to the audio side. Tells
    /// whether the audio side was still there to receive it; if it was not,
    /// the edit stays done on this side all the same.
    pub fn edit(&mut self, message: Message) -> (delivered: bool)
        requires
            old(self).wf(),
            message.fits(old(self)@.patterns.len()),
        ensures
            final(self).wf(),
            final(self)@.patterns == message.applied(old(self)@.patterns),
            final(self)@.tempo == message.tempo_after(old(self)@.tempo),
            final(self)@.grid == old(self)@.grid,
            message.done(final(self)@.patterns),
    {
        proof {
            lemma_tracks_wf(self.tracks@);
        }
        if let Message::TempoChange { tempo } = message {
            self.tempo = tempo;
        }
        message.apply(&mut self.tracks);
        proof {
            lemma_tracks_wf(self.tracks@);
        }
        send_message(&self.sender, message)
    }

    /// Sets the tempo and tells the audio side.
    pub fn set_tempo(&mut self, new_tempo: u32) -> (delivered: bool)
        requires
            old(self).wf(),
        ensures
            final(self).wf(),
            final(self)@ == (SequencerState { tempo: new_tempo, ..old(self)@ }),
    {
        self.edit(Message::TempoChange { tempo: new_tempo })
    }

    /// Toggles step `x` of track `track_idx` and tells the audio side.
    pub fn press(&mut self, x: usize, track_idx: usize) -> (delivered: bool)
        requires
            old(self).wf(),
            x < 16,
            track_idx < old(self)@.patterns.len(),
        ensures
            final(self).wf(),
            final(self)@ == (SequencerState {
                patterns: (Message::Key { col: x, track: track_idx }).applied(old(self)@.patterns),
                ..old(self)@
            }),
    {
        self.edit(Message::Key { col: x, track: track_idx })
    }

    /// Gives track `track` the Euclidean rhythm of `steps` steps with
    /// `pulses` onsets and tells the audio side.
    pub fn euclidian(&mut self, track: usize, steps: usize, pulses: usize) -> (delivered: bool)
        requires
            old(self).wf(),
            track < old(self)@.patterns.len(),
            1 <= steps <= MAX_STEPS,
            pulses <= steps,
        ensures
            final(self).wf(),
            final(self)@ == (SequencerState {
                patterns: (Message::Euclidian { track, steps, pulses }).applied(
                    old(self)@.patterns,
                ),
                ..old(self)@
            }),
            generated(final(self)@.patterns[track as int], steps as nat, pulses as nat),
    {
        self.edit(Message::Euclidian { track, steps, pulses })
    }

    /// Sets the loop region of track `track` and tells the audio side. The
    /// region has no effect yet.
    pub fn looop(&mut self, track: usize, start: usize, end: usize) -> (delivered: bool)
        requires
            old(self).wf(),
            track < old(self)@.patterns.len(),
        ensures
            final(self).wf(),
            final(self)@ == old(self)@,
    {
        self.edit(Message::Loop { track, start, end })
    }

    /// Tests whether a key event can be taken as the keys stand now.
    pub fn accepts(&self, event: GridKey) -> (ok: bool)
        requires
            self.wf(),
        ensures
            ok == self@.can_take(event),
    {
        if event.x >= self.state_tracker.width() || event.y >= self.state_tracker.height() {
            return false;
        }
        match event.direction {
            KeyDirection::Down => true,
            KeyDirection::Up => {
                match self.state_tracker.peek(event.x, event.y).message() {
                    Some(message) => message.check(self.tracks.len()),
                    None => true,
                }
            },
        }
    }

    /// A key event. A key that goes down is noted. A key that goes up is
    /// resolved by the tracker, and what it asks for is done and sent.
    /// Returns what the event asked for and, if that was an edit, whether
    /// the audio side was still there to receive it.
    pub fn input(&mut self, event: GridKey) -> (outcome: (MDSAction, Option<bool>))
        requires
            old(self).wf(),
            old(self)@.can_take(event),
        ensures
            final(self).wf(),
            final(self)@ == old(self)@.after(event),
            outcome.0 == match event.direction {
                KeyDirection::Down => MDSAction::Nothing,
                KeyDirection::Up => old(self)@.grid.action(event.x as int, event.y as int),
            },
            outcome.1 is Some <==> outcome.0 != MDSAction::Nothing,
    {
        match event.direction {
            KeyDirection::Down => {
                self.state_tracker.down(event.x, event.y);
                (MDSAction::Nothing, None)
            },
            KeyDirection::Up => {
                let action = self.state_tracker.up(event.x, event.y);
                match action.message() {
                    Some(message) => {
                        let delivered = self.edit(message);
                        (action, Some(delivered))
                    },
                    None => (action, None),
                }
            },
        }
    }

    /// Draws the display at `moment` into `grid`: everything dark, then the
    /// playhead on every track row, then the steps that sound. The grid must
    /// be one that the display buffer can show.
    pub fn render(&self, moment: Moment, grid: &mut [u8; 128])
        requires
            self.wf(),
            self@.can_show(),
        ensures
            final(grid)@ == displayed(self@.patterns, self@.grid.width as int, moment),
    {
        let width = self.state_tracker.width();
        let height = self.state_tracker.height();
        let track_count = self.tracks.len();
        let pos_in_pattern = moment.sixteenth % width;
        let ghost set = self@.patterns;
        let ghost w = width as int;
        proof {
            lemma_tracks_wf(self.tracks@);
            assert(width * (track_count + 1) <= 128);
        }

        let mut k: usize = 0;
        while k < DISPLAY_CELLS
            invariant
                k <= 128,
                forall|j: int| 0 <= j < k ==> #[trigger] grid@[j] == 0,
            decreases 128 - k,
        {
            grid[k] = 0;
            k += 1;
        }
        assert forall|j: int| 0 <= j < 128 implies #[trigger] grid@[j] == drawing_cell(
            set,
            w,
            moment,
            1,
            0,
            0,
            j,
        ) by {}

        let mut i: usize = 1;
        while i < height
            invariant
                1 <= i <= height,
                height == track_count + 1,
                1 <= width <= 16,
                w == width,
                pos_in_pattern == moment.sixteenth as int % w,
                set.len() == track_count,
                width * (track_count + 1) <= 128,
                forall|j: int|
                    0 <= j < 128 ==> #[trigger] grid@[j] == drawing_cell(
                        set,
                        w,
                        moment,
                        i as int,
                        0,
                        0,
                        j,
                    ),
            decreases height - i,
        {
            proof {
                lemma_cell(w, i as int, pos_in_pattern as int);
                assert(i * width + pos_in_pattern < width * (track_count + 1)) by (nonlinear_arith)
                    requires
                        i <= track_count,
                        pos_in_pattern < width,
                ;
            }
            let ghost before = grid@;
            grid[i * width + pos_in_pattern] = PLAYHEAD;
            assert forall|j: int| 0 <= j < 128 implies #[trigger] grid@[j] == drawing_cell(
                set,
                w,
                moment,
                i + 1,
                0,
                0,
                j,
            ) by {
                lemma_place(w, j);
                assert(before[j] == drawing_cell(set, w, moment, i as int, 0, 0, j));
            }
            i += 1;
        }

        let mut steps = [0u8;16];
        let mut i: usize = 0;
        while i < track_count
            invariant
                i <= track_count,
                1 <= width <= 16,
                w == width,
                set == self@.patterns,
                set.len() == track_count,
                self.tracks@.len() == track_count,
                self.wf(),
                width * (track_count + 1) <= 128,
                forall|j: int|
                    0 <= j < 128 ==> #[trigger] grid@[j] == drawing_cell(
                        set,
                        w,
                        moment,
                        track_count + 1,
                        i + 1,
                        0,
                        j,
                    ),
            decreases track_count - i,
        {
            proof {
                lemma_tracks_wf(self.tracks@);
            }
            self.tracks[i].steps(moment.beat, &mut steps);
            let mut j: usize = 0;
            while j < width
                invariant
                    i < track_count,
                    j <= width,
                    1 <= width <= 16,
                    w == width,
                    set.len() == track_count,
                    steps@ == window(set[i as int], moment.beat as nat),
                    width * (track_count + 1) <= 128,
                    forall|c: int|
                        0 <= c < 128 ==> #[trigger] grid@[c] == drawing_cell(
                            set,
                            w,
                            moment,
                            track_count + 1,
                            i + 1,
                            j as int,
                            c,
                        ),
                decreases width - j,
            {
                proof {
                    lemma_cell(w, i + 1, j as int);
                    assert((1 + i) * width + j < width * (track_count + 1)) by (nonlinear_arith)
                        requires
                            i < track_count,
                            j < width,
                    ;
                }
                let ghost before = grid@;
                if steps[j] != 0 {
                    grid[(1 + i) * width + j] = ACTIVE;
                }
                assert forall|c: int| 0 <= c < 128 implies #[trigger] grid@[c] == drawing_cell(
                    set,
                    w,
                    moment,
                    track_count + 1,
                    i + 1,
                    j + 1,
                    c,
                ) by {
                    lemma_place(w, c);
                    assert(before[c] == drawing_cell(
                        set,
                        w,
                        moment,
                        track_count + 1,
                        i + 1,
                        j as int,
                        c,
                    ));
                }
                j += 1;
            }
            assert forall|c: int| 0 <= c < 128 implies #[trigger] grid@[c] == drawing_cell(
                set,
                w,
                moment,
                track_count + 1,
                i + 2,
                0,
                c,
            ) by {
                vstd::arithmetic::div_mod::lemma_mod_bound(c, w);
            }
            i += 1;
        }
        assert forall|c: int| 0 <= c < 128 implies #[trigger] grid@[c] == display_cell(
            set,
            w,
            moment,
            c,
        ) by {
            vstd::arithmetic::div_mod::lemma_mod_bound(c, w);
        }
        assert(grid@ =~= displayed(set, w, moment));
    }
}

} // verus!
