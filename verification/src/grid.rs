//! The gesture tracker: what the keys that are down on the grid mean.
//!
//! A key alone on its row is a tick. A key pressed while another key of the
//! row is held makes a pair: to the right of the held key the pair asks for a
//! Euclidean rhythm, anywhere else for a loop. The first release of a pair
//! resolves it, the second one is idle.

use vstd::prelude::*;

verus! {

/// What a key that is down is taken to mean.
#[derive(Clone, Copy, PartialEq, Eq, Debug, Structural)]
pub enum MDSIntent {
    Nothing,
    Tick,
    Euclidian,
    Loop,
}

/// What a release asks the sequencer to do.
#[derive(Clone, Copy, PartialEq, Eq, Debug, Structural)]
pub enum MDSAction {
    Nothing,
    Tick { col: usize, track: usize },
    Euclidian { track: usize, steps: usize, pulses: usize },
    Loop { track: usize, start: usize, end: usize },
}

/// The smaller of two numbers.
pub open spec fn least(a: int, b: int) -> int {
    if a <= b {
        a
    } else {
        b
    }
}

/// The larger of two numbers.
pub open spec fn most(a: int, b: int) -> int {
    if a <= b {
        b
    } else {
        a
    }
}

/// The tracker as a value: the intent of every cell, row after row.
pub struct Grid {
    pub cells: Seq<MDSIntent>,
    pub width: nat,
    pub height: nat,
}

impl Grid {
    /// Every cell has an intent, the control row, row 0, is idle, and the
    /// grid is of a size that a machine can count.
    pub open spec fn wf(self) -> bool {
        &&& self.cells.len() == self.width * self.height
        &&& self.width <= usize::MAX
        &&& self.height <= usize::MAX
        &&& forall|col: int|
            0 <= col < self.width && 0 < self.height ==> self.at(col, 0) == MDSIntent::Nothing
    }

    /// The place of a cell in `cells`.
    pub open spec fn idx(self, col: int, row: int) -> int {
        row * self.width + col
    }

    /// The intent of the cell at (`col`, `row`).
    pub open spec fn at(self, col: int, row: int) -> MDSIntent {
        self.cells[self.idx(col, row)]
    }

    /// The grid with the cell at (`col`, `row`) set to `intent`.
    pub open spec fn with(self, col: int, row: int, intent: MDSIntent) -> Grid {
        Grid { cells: self.cells.update(self.idx(col, row), intent), ..self }
    }

    /// Whether `col` is the leftmost column of `row` whose key is down.
    pub open spec fn is_first_held(self, row: int, col: int) -> bool {
        &&& 0 <= col < self.width
        &&& self.at(col, row) != MDSIntent::Nothing
        &&& forall|j: int| 0 <= j < col ==> self.at(j, row) == MDSIntent::Nothing
    }

    /// The leftmost column of `row` whose key is down, if there is one.
    pub open spec fn first_held(self, row: int) -> Option<int> {
        if exists|col: int| self.is_first_held(row, col) {
            Some(choose|col: int| self.is_first_held(row, col))
        } else {
            None
        }
    }

    /// Whether `other` is the rightmost column of `row`, apart from `col`,
    /// whose cell has the intent `intent`.
    pub open spec fn is_last_other(self, row: int, col: int, intent: MDSIntent, other: int) -> bool {
        &&& 0 <= other < self.width
        &&& other != col
        &&& self.at(other, row) == intent
        &&& forall|j: int|
            other < j < self.width && j != col ==> self.at(j, row) != intent
    }

    /// The rightmost column of `row`, apart from `col`, whose cell has the
    /// intent `intent`, if there is one.
    pub open spec fn last_other(self, row: int, col: int, intent: MDSIntent) -> Option<int> {
        if exists|other: int| self.is_last_other(row, col, intent, other) {
            Some(choose|other: int| self.is_last_other(row, col, intent, other))
        } else {
            None
        }
    }

    /// The grid after the key at (`col`, `row`) went down.
    pub open spec fn pressed(self, col: int, row: int) -> Grid {
        if row == 0 {
            self
        } else {
            match self.first_held(row) {
                None => self.with(col, row, MDSIntent::Tick),
                Some(i) => if i < col {
                    self.with(i, row, MDSIntent::Euclidian).with(col, row, MDSIntent::Euclidian)
                } else {
                    self.with(i, row, MDSIntent::Loop).with(col, row, MDSIntent::Loop)
                },
            }
        }
    }

    /// The grid after the key at (`col`, `row`) went up: the cell is idle
    /// again.
    pub open spec fn released(self, col: int, row: int) -> Grid {
        if row == 0 {
            self
        } else {
            self.with(col, row, MDSIntent::Nothing)
        }
    }

    /// What the release of the key at (`col`, `row`) asks for. A tick names
    /// its column. A pair names the track and, from the released key and the
    /// other key of the pair: for a rhythm, the larger column plus one as
    /// the steps and the smaller column plus one as the pulses; for a loop,
    /// the smaller column as the start, and as the end the larger of the row
    /// and the other key's column.
    pub open spec fn action(self, col: int, row: int) -> MDSAction {
        if row == 0 {
            MDSAction::Nothing
        } else {
            match self.at(col, row) {
                MDSIntent::Nothing => MDSAction::Nothing,
                MDSIntent::Tick => MDSAction::Tick { col: col as usize, track: (row - 1) as usize },
                MDSIntent::Euclidian => match self.last_other(row, col, MDSIntent::Euclidian) {
                    Some(i) => MDSAction::Euclidian {
                        track: (row - 1) as usize,
                        steps: (most(col, i) + 1) as usize,
                        pulses: (least(col, i) + 1) as usize,
                    },
                    None => MDSAction::Nothing,
                },
                MDSIntent::Loop => match self.last_other(row, col, MDSIntent::Loop) {
                    Some(i) => MDSAction::Loop {
                        track: (row - 1) as usize,
                        start: least(col, i) as usize,
                        end: most(row, i) as usize,
                    },
                    None => MDSAction::Nothing,
                },
            }
        }
    }
}

impl MDSAction {
    /// Whether the action can be applied to `tracks` tracks on a grid that
    /// is `width` columns wide.
    pub open spec fn fits(self, width: nat, tracks: nat) -> bool {
        match self {
            MDSAction::Nothing => true,
            MDSAction::Tick { col, track } => col < width && track < tracks,
            MDSAction::Euclidian { track, steps, pulses } => track < tracks && 1 <= pulses <= steps
                <= width,
            MDSAction::Loop { track, start, end } => track < tracks,
        }
    }
}

/// At most one column is the leftmost held one.
pub proof fn lemma_first_held_unique(g: Grid, row: int, col: int)
    requires
        g.is_first_held(row, col),
    ensures
        g.first_held(row) == Some(col),
{
    let c = choose|c: int| g.is_first_held(row, c);
    assert(g.is_first_held(row, c));
    if c < col {
        assert(g.at(c, row) == MDSIntent::Nothing);
    } else if col < c {
        assert(g.at(col, row) == MDSIntent::Nothing);
    }
}

/// At most one column is the rightmost other one with a given intent.
pub proof fn lemma_last_other_unique(g: Grid, row: int, col: int, intent: MDSIntent, other: int)
    requires
        g.is_last_other(row, col, intent, other),
    ensures
        g.last_other(row, col, intent) == Some(other),
{
    let c = choose|c: int| g.is_last_other(row, col, intent, c);
    assert(g.is_last_other(row, col, intent, c));
    if c < other {
        assert(g.at(other, row) != intent);
    } else if other < c {
        assert(g.at(c, row) != intent);
    }
}

/// A cell of the grid has its own place in `cells`, apart from every other
/// cell's.
pub proof fn lemma_idx(g: Grid, col: int, row: int)
    requires
        0 <= col < g.width,
        0 <= row < g.height,
    ensures
        0 <= g.idx(col, row) < g.width * g.height,
        forall|c: int, r: int|
            0 <= c < g.width && 0 <= r < g.height && (c != col || r != row) ==> #[trigger] g.idx(
                c,
                r,
            ) != g.idx(col, row),
{
    let w = g.width as int;
    let h = g.height as int;
    assert(0 <= row * w + col < w * h) by (nonlinear_arith)
        requires
            0 <= col < w,
            0 <= row < h,
    ;
    assert forall|c: int, r: int|
        0 <= c < g.width && 0 <= r < g.height && (c != col || r != row) implies #[trigger] g.idx(
        c,
        r,
    ) != g.idx(col, row) by {
        assert(r * w + c != row * w + col) by (nonlinear_arith)
            requires
                0 <= c < w,
                0 <= col < w,
                c != col || r != row,
        ;
    }
}

/// Setting a cell changes that cell and no other.
pub proof fn lemma_with(g: Grid, col: int, row: int, intent: MDSIntent)
    requires
        g.cells.len() == g.width * g.height,
        0 <= col < g.width,
        0 <= row < g.height,
    ensures
        g.with(col, row, intent).at(col, row) == intent,
        g.with(col, row, intent).cells.len() == g.cells.len(),
        g.with(col, row, intent).width == g.width,
        g.with(col, row, intent).height == g.height,
        forall|c: int, r: int|
            0 <= c < g.width && 0 <= r < g.height && (c != col || r != row) ==> #[trigger] g.with(
                col,
                row,
                intent,
            ).at(c, r) == g.at(c, r),
{
    lemma_idx(g, col, row);
    assert forall|c: int, r: int|
        0 <= c < g.width && 0 <= r < g.height && (c != col || r != row) implies #[trigger] g.with(
        col,
        row,
        intent,
    ).at(c, r) == g.at(c, r) by {
        lemma_idx(g, c, r);
        assert(g.idx(c, r) != g.idx(col, row));
    }
}

/// A press keeps the grid well formed.
pub proof fn lemma_pressed_wf(g: Grid, col: int, row: int)
    requires
        g.wf(),
        0 <= col < g.width,
        0 <= row < g.height,
    ensures
        g.pressed(col, row).wf(),
        g.pressed(col, row).width == g.width,
        g.pressed(col, row).height == g.height,
{
    if row != 0 {
        match g.first_held(row) {
            None => {
                lemma_with(g, col, row, MDSIntent::Tick);
            },
            Some(i) => {
                assert(g.is_first_held(row, i));
                let tag = if i < col {
                    MDSIntent::Euclidian
                } else {
                    MDSIntent::Loop
                };
                let mid = g.with(i, row, tag);
                lemma_with(g, i, row, tag);
                lemma_with(mid, col, row, tag);
                assert(g.pressed(col, row) == mid.with(col, row, tag));
                assert forall|c: int| 0 <= c < g.width implies g.pressed(col, row).at(c, 0)
                    == MDSIntent::Nothing by {
                    assert(mid.at(c, 0) == g.at(c, 0));
                }
            },
        }
    }
}

/// A release keeps the grid well formed.
pub proof fn lemma_released_wf(g: Grid, col: int, row: int)
    requires
        g.wf(),
        0 <= col < g.width,
        0 <= row < g.height,
    ensures
        g.released(col, row).wf(),
        g.released(col, row).width == g.width,
        g.released(col, row).height == g.height,
        row > 0 ==> g.released(col, row).at(col, row) == MDSIntent::Nothing,
{
    if row != 0 {
        lemma_with(g, col, row, MDSIntent::Nothing);
    }
}

/// What a release asks for can be applied: the track is one of the rows
/// below the control row, a tick is on the grid, and a rhythm has at least
/// one pulse, no more pulses than steps and no more steps than columns.
pub proof fn lemma_action_fits(g: Grid, col: int, row: int)
    requires
        g.wf(),
        0 <= col < g.width,
        0 <= row < g.height,
    ensures
        g.action(col, row).fits(g.width, (g.height - 1) as nat),
{
    if row != 0 {
        match g.at(col, row) {
            MDSIntent::Euclidian => {
                if let Some(i) = g.last_other(row, col, MDSIntent::Euclidian) {
                    assert(g.is_last_other(row, col, MDSIntent::Euclidian, i));
                }
            },
            MDSIntent::Loop => {
                if let Some(i) = g.last_other(row, col, MDSIntent::Loop) {
                    assert(g.is_last_other(row, col, MDSIntent::Loop, i));
                }
            },
            _ => {},
        }
    }
}

/// A key pressed alone on its row and released resolves to a tick on that
/// column, and leaves its cell idle.
pub proof fn lemma_tick_round_trip(g: Grid, col: int, row: int)
    requires
        g.wf(),
        0 <= col < g.width,
        0 < row < g.height,
        forall|c: int| 0 <= c < g.width ==> g.at(c, row) == MDSIntent::Nothing,
    ensures
        g.pressed(col, row).action(col, row) == (MDSAction::Tick {
            col: col as usize,
            track: (row - 1) as usize,
        }),
        g.pressed(col, row).released(col, row).at(col, row) == MDSIntent::Nothing,
        g.pressed(col, row).released(col, row).cells == g.cells,
{
    assert(g.first_held(row) is None) by {
        if g.first_held(row) is Some {
            let c = choose|c: int| g.is_first_held(row, c);
            assert(g.is_first_held(row, c));
        }
    }
    lemma_with(g, col, row, MDSIntent::Tick);
    let p = g.pressed(col, row);
    lemma_with(p, col, row, MDSIntent::Nothing);
    lemma_idx(g, col, row);
    assert(g.at(col, row) == MDSIntent::Nothing);
    assert(p.released(col, row).cells =~= g.cells);
}

/// A pair with the held key on the left resolves, at the first release, to
/// a rhythm with as many steps as the right key's column counts and as many
/// pulses as the left key's; the second release is idle.
pub proof fn lemma_euclidean_round_trip(g: Grid, left: int, right: int, row: int)
    requires
        g.wf(),
        0 <= left < right < g.width,
        0 < row < g.height,
        forall|c: int| 0 <= c < g.width ==> g.at(c, row) == MDSIntent::Nothing,
    ensures
        ({
            let pair = g.pressed(left, row).pressed(right, row);
            &&& pair.at(left, row) == MDSIntent::Euclidian
            &&& pair.at(right, row) == MDSIntent::Euclidian
            &&& pair.action(right, row) == (MDSAction::Euclidian {
                track: (row - 1) as usize,
                steps: (right + 1) as usize,
                pulses: (left + 1) as usize,
            })
            &&& pair.released(right, row).action(left, row) == MDSAction::Nothing
            &&& pair.released(right, row).released(left, row).cells == g.cells
        }),
{
    assert(g.first_held(row) is None) by {
        if g.first_held(row) is Some {
            let c = choose|c: int| g.is_first_held(row, c);
            assert(g.is_first_held(row, c));
        }
    }
    let one = g.pressed(left, row);
    lemma_with(g, left, row, MDSIntent::Tick);
    assert(one.is_first_held(row, left));
    lemma_first_held_unique(one, row, left);
    let mid = one.with(left, row, MDSIntent::Euclidian);
    lemma_with(one, left, row, MDSIntent::Euclidian);
    let pair = one.pressed(right, row);
    lemma_with(mid, right, row, MDSIntent::Euclidian);
    assert(pair == mid.with(right, row, MDSIntent::Euclidian));
    assert(pair.at(left, row) == MDSIntent::Euclidian);
    assert(pair.is_last_other(row, right, MDSIntent::Euclidian, left));
    lemma_last_other_unique(pair, row, right, MDSIntent::Euclidian, left);
    let rest = pair.released(right, row);
    lemma_with(pair, right, row, MDSIntent::Nothing);
    assert(rest.at(left, row) == MDSIntent::Euclidian);
    assert(rest.last_other(row, left, MDSIntent::Euclidian) is None) by {
        if rest.last_other(row, left, MDSIntent::Euclidian) is Some {
            let c = choose|c: int| rest.is_last_other(row, left, MDSIntent::Euclidian, c);
            assert(rest.is_last_other(row, left, MDSIntent::Euclidian, c));
            assert(rest.at(c, row) == pair.at(c, row) || c == right);
        }
    }
    lemma_with(rest, left, row, MDSIntent::Nothing);
    lemma_idx(g, left, row);
    lemma_idx(g, right, row);
    assert(g.at(left, row) == MDSIntent::Nothing);
    assert(g.at(right, row) == MDSIntent::Nothing);
    assert(rest.released(left, row).cells =~= g.cells);
}

/// A pair with the held key on the right resolves, at the first release, to
/// a loop that starts at the left key's column and ends at the larger of the
/// row and the right key's column; the second release is idle.
pub proof fn lemma_loop_round_trip(g: Grid, left: int, right: int, row: int)
    requires
        g.wf(),
        0 <= left < right < g.width,
        0 < row < g.height,
        forall|c: int| 0 <= c < g.width ==> g.at(c, row) == MDSIntent::Nothing,
    ensures
        ({
            let pair = g.pressed(right, row).pressed(left, row);
            &&& pair.at(left, row) == MDSIntent::Loop
            &&& pair.at(right, row) == MDSIntent::Loop
            &&& pair.action(left, row) == (MDSAction::Loop {
                track: (row - 1) as usize,
                start: left as usize,
                end: most(row, right) as usize,
            })
            &&& pair.released(left, row).action(right, row) == MDSAction::Nothing
            &&& pair.released(left, row).released(right, row).cells == g.cells
        }),
{
    assert(g.first_held(row) is None) by {
        if g.first_held(row) is Some {
            let c = choose|c: int| g.is_first_held(row, c);
            assert(g.is_first_held(row, c));
        }
    }
    let one = g.pressed(right, row);
    lemma_with(g, right, row, MDSIntent::Tick);
    assert(one.is_first_held(row, right));
    lemma_first_held_unique(one, row, right);
    let mid = one.with(right, row, MDSIntent::Loop);
    lemma_with(one, right, row, MDSIntent::Loop);
    let pair = one.pressed(left, row);
    lemma_with(mid, left, row, MDSIntent::Loop);
    assert(pair == mid.with(left, row, MDSIntent::Loop));
    assert(pair.at(right, row) == MDSIntent::Loop);
    assert(pair.is_last_other(row, left, MDSIntent::Loop, right));
    lemma_last_other_unique(pair, row, left, MDSIntent::Loop, right);
    let rest = pair.released(left, row);
    lemma_with(pair, left, row, MDSIntent::Nothing);
    assert(rest.at(right, row) == MDSIntent::Loop);
    assert(rest.last_other(row, right, MDSIntent::Loop) is None) by {
        if rest.last_other(row, right, MDSIntent::Loop) is Some {
            let c = choose|c: int| rest.is_last_other(row, right, MDSIntent::Loop, c);
            assert(rest.is_last_other(row, right, MDSIntent::Loop, c));
            assert(rest.at(c, row) == pair.at(c, row) || c == left);
        }
    }
    lemma_with(rest, right, row, MDSIntent::Nothing);
    lemma_idx(g, left, row);
    lemma_idx(g, right, row);
    assert(g.at(left, row) == MDSIntent::Nothing);
    assert(g.at(right, row) == MDSIntent::Nothing);
    assert(rest.released(right, row).cells =~= g.cells);
}

/// The grid's keys and what each of them, while down, is taken to mean.
pub struct GridStateTracker {
    buttons: Vec<MDSIntent>,
    width: usize,
    height: usize,
}

impl View for GridStateTracker {
    type V = Grid;

    closed spec fn view(&self) -> Grid {
        Grid { cells: self.buttons@, width: self.width as nat, height: self.height as nat }
    }
}

impl GridStateTracker {
    /// The invariant of the tracker.
    pub open spec fn wf(&self) -> bool {
        self@.wf()
    }

    /// A tracker for a grid of `width` columns and `height` rows, with no
    /// key down.
    pub fn new(width: usize, height: usize) -> (tracker: GridStateTracker)
        requires
            width * height <= usize::MAX,
        ensures
            tracker.wf(),
            tracker@.width == width,
            tracker@.height == height,
            forall|i: int| 0 <= i < width * height ==> tracker@.cells[i] == MDSIntent::Nothing,
    {
        let cells = width * height;
        let mut buttons: Vec<MDSIntent> = Vec::new();
        let mut i: usize = 0;
        while i < cells
            invariant
                i <= cells,
                buttons@.len() == i,
                forall|j: int| 0 <= j < i ==> buttons@[j] == MDSIntent::Nothing,
            decreases cells - i,
        {
            buttons.push(MDSIntent::Nothing);
            i += 1;
        }
        let tracker = GridStateTracker { buttons, width, height };
        proof {
            assert forall|col: int| 0 <= col < width && 0 < height implies tracker@.at(col, 0)
                == MDSIntent::Nothing by {
                lemma_idx(tracker@, col, 0);
            }
        }
        tracker
    }

    /// The number of columns.
    pub fn width(&self) -> (w: usize)
        ensures
            w == self@.width,
    {
        self.width
    }

    /// The number of rows, the control row among them.
    pub fn height(&self) -> (h: usize)
        ensures
            h == self@.height,
    {
        self.height
    }

    /// The intent of the cell at (`x`, `y`).
    pub fn intent(&self, x: usize, y: usize) -> (intent: MDSIntent)
        requires
            self.wf(),
            x < self@.width,
            y < self@.height,
        ensures
            intent == self@.at(x as int, y as int),
    {
        self.buttons[Self::idx(self.width, self.height, self.buttons.len(), x, y)]
    }

    /// The place of the cell at (`x`, `y`) among the `cells` cells of a
    /// grid of `width` columns and `height` rows.
    fn idx(width: usize, height: usize, cells: usize, x: usize, y: usize) -> (i: usize)
        requires
            x < width,
            y < height,
            width * height == cells,
        ensures
            i == y * width + x,
            i < cells,
    {
        assert(0 <= y * width + x < width * height) by (nonlinear_arith)
            requires
                x < width,
                y < height,
        ;
        assert(0 <= y * width <= y * width + x) by (nonlinear_arith);
        y * width + x
    }

    fn put(&mut self, x: usize, y: usize, intent: MDSIntent)
        requires
            old(self)@.cells.len() == old(self)@.width * old(self)@.height,
            x < old(self)@.width,
            y < old(self)@.height,
        ensures
            final(self)@ == old(self)@.with(x as int, y as int, intent),
    {
        let i = Self::idx(self.width, self.height, self.buttons.len(), x, y);
        self.buttons[i] = intent;
    }

    /// The key at (`x`, `y`) went down. On the control row nothing happens.
    /// On a track row the key is a tick if it is alone, else it pairs with
    /// the leftmost key that is held: for a rhythm if that key is to its
    /// left, for a loop if not.
    pub fn down(&mut self, x: usize, y: usize)
        requires
            old(self).wf(),
            x < old(self)@.width,
            y < old(self)@.height,
        ensures
            final(self).wf(),
            final(self)@ == old(self)@.pressed(x as int, y as int),
    {
        proof {
            lemma_pressed_wf(self@, x as int, y as int);
        }
        if y == 0 {
            return ;
        }
        let mut first: Option<usize> = None;
        let mut i: usize = 0;
        while i < self.width
            invariant_except_break
                first is None,
                forall|j: int| 0 <= j < i ==> self@.at(j, y as int) == MDSIntent::Nothing,
            invariant
                self == old(self),
                self.wf(),
                y < self@.height,
                i <= self.width,
                self.width == self@.width,
            ensures
                first is None ==> forall|j: int|
                    0 <= j < self@.width ==> self@.at(j, y as int) == MDSIntent::Nothing,
                first matches Some(c) ==> self@.is_first_held(y as int, c as int),
            decreases self.width - i,
        {
            if self.intent(i, y) != MDSIntent::Nothing {
                first = Some(i);
                break ;
            }
            i += 1;
        }
        match first {
            None => {
                proof {
                    if self@.first_held(y as int) is Some {
                        let c = choose|c: int| self@.is_first_held(y as int, c);
                        assert(self@.is_first_held(y as int, c));
                    }
                }
                self.put(x, y, MDSIntent::Tick);
            },
            Some(c) => {
                proof {
                    lemma_first_held_unique(self@, y as int, c as int);
                }
                let tag = if c < x {
                    MDSIntent::Euclidian
                } else {
                    MDSIntent::Loop
                };
                proof {
                    lemma_with(self@, c as int, y as int, tag);
                }
                self.put(c, y, tag);
                self.put(x, y, tag);
            },
        }
    }

    /// The rightmost column of row `y`, apart from `x`, whose cell has the
    /// intent `intent`.
    fn other(&self, x: usize, y: usize, intent: MDSIntent) -> (found: Option<usize>)
        requires
            self.wf(),
            x < self@.width,
            y < self@.height,
        ensures
            found matches Some(c) ==> self@.last_other(y as int, x as int, intent) == Some(
                c as int,
            ) && c < self@.width && c != x,
            found is None ==> self@.last_other(y as int, x as int, intent) is None,
    {
        let mut found: Option<usize> = None;
        let mut i: usize = 0;
        while i < self.width
            invariant
                self.wf(),
                y < self@.height,
                i <= self.width,
                self.width == self@.width,
                found is None ==> forall|j: int|
                    0 <= j < i && j != x ==> self@.at(j, y as int) != intent,
                found matches Some(c) ==> {
                    &&& c < i
                    &&& c != x
                    &&& self@.at(c as int, y as int) == intent
                    &&& forall|j: int| c < j < i && j != x ==> self@.at(j, y as int) != intent
                },
            decreases self.width - i,
        {
            if i != x && self.intent(i, y) == intent {
                found = Some(i);
            }
            i += 1;
        }
        proof {
            match found {
                Some(c) => {
                    assert(self@.is_last_other(y as int, x as int, intent, c as int));
                    lemma_last_other_unique(self@, y as int, x as int, intent, c as int);
                },
                None => {
                    if self@.last_other(y as int, x as int, intent) is Some {
                        let c = choose|c: int| self@.is_last_other(y as int, x as int, intent, c);
                        assert(self@.is_last_other(y as int, x as int, intent, c));
                    }
                },
            }
        }
        found
    }

    /// What the release of the key at (`x`, `y`) would resolve to, as the
    /// keys stand now. Nothing changes.
    pub fn peek(&self, x: usize, y: usize) -> (action: MDSAction)
        requires
            self.wf(),
            x < self@.width,
            y < self@.height,
        ensures
            action == self@.action(x as int, y as int),
            action.fits(self@.width, (self@.height - 1) as nat),
    {
        proof {
            lemma_action_fits(self@, x as int, y as int);
        }
        if y == 0 {
            return MDSAction::Nothing;
        }
        match self.intent(x, y) {
            MDSIntent::Nothing => MDSAction::Nothing,
            MDSIntent::Tick => MDSAction::Tick { col: x, track: y - 1 },
            MDSIntent::Euclidian => {
                match self.other(x, y, MDSIntent::Euclidian) {
                    Some(i) => {
                        let pulses = if x < i {
                            x
                        } else {
                            i
                        };
                        let steps = if x < i {
                            i
                        } else {
                            x
                        };
                        MDSAction::Euclidian { track: y - 1, steps: steps + 1, pulses: pulses + 1 }
                    },
                    None => MDSAction::Nothing,
                }
            },
            MDSIntent::Loop => {
                match self.other(x, y, MDSIntent::Loop) {
                    Some(i) => {
                        let start = if x < i {
                            x
                        } else {
                            i
                        };
                        let end = if y < i {
                            i
                        } else {
                            y
                        };
                        MDSAction::Loop { track: y - 1, start, end }
                    },
                    None => MDSAction::Nothing,
                }
            },
        }
    }

    /// The key at (`x`, `y`) went up. The cell falls idle, and the release
    /// resolves to what its intent and the other keys of the row ask for.
    pub fn up(&mut self, x: usize, y: usize) -> (action: MDSAction)
        requires
            old(self).wf(),
            x < old(self)@.width,
            y < old(self)@.height,
        ensures
            final(self).wf(),
            final(self)@ == old(self)@.released(x as int, y as int),
            action == old(self)@.action(x as int, y as int),
            action.fits(old(self)@.width, (old(self)@.height - 1) as nat),
    {
        proof {
            lemma_released_wf(self@, x as int, y as int);
        }
        let action = self.peek(x, y);
        if y != 0 {
            self.put(x, y, MDSIntent::Nothing);
        }
        action
    }
}

} // verus!
