//! Tracks the touches of a number of fingers and turns each into a short
//! sequence of moves in one of eight directions.

use integer_sqrt::IntegerSquareRoot;
use std::time::{Duration, Instant};
use vstd::prelude::*;

verus! {

/// The number of moves that are kept for one touch.
pub const MAX_MOVES: usize = 10;

/// The distance that a finger has to travel before a move counts.
pub const DEFAULT_MIN_DISTANCE: u32 = 200;

/// The slope of the line at a 16th of a half turn, in 2^32nds.
pub const SLOPE_NARROW: u64 = 854322113;

/// The slope of the line at five 16ths of a half turn, in 2^32nds.
pub const SLOPE_WIDE: u64 = 6427872806;

/// A point of the screen; `y` grows downwards.
#[derive(Debug, Default, Clone, Copy, PartialEq, Eq, Structural)]
pub struct Location {
    pub x: u32,
    pub y: u32,
}

#[verifier::external_type_specification]
#[verifier::external_body]
pub struct ExInstant(Instant);

/// The largest number whose square does not exceed `n`.
pub open spec fn is_sqrt_of(r: int, n: int) -> bool {
    0 <= r && r * r <= n < (r + 1) * (r + 1)
}

/// Calls `integer_sqrt` of the crate integer-sqrt, which gives the integer
/// square root of a number: the largest number whose square does not exceed
/// it.
#[verifier::external_body]
fn integer_sqrt(n: u128) -> (r: u128)
    ensures
        is_sqrt_of(r as int, n as int),
{
    n.integer_sqrt()
}

/// Calls `Instant::now` of std. Nothing is known of the moment it gives.
#[verifier::external_body]
fn now() -> Instant {
    Instant::now()
}

/// Calls `Instant::duration_since` of std. Nothing is claimed of the span.
#[verifier::external_body]
fn duration_since(later: &Instant, earlier: &Instant) -> Duration {
    later.duration_since(*earlier)
}

impl Location {
    pub fn new(x: u32, y: u32) -> (l: Self)
        ensures
            l.x == x,
            l.y == y,
    {
        Self { x, y }
    }

    /// The square of the distance to `loc`.
    pub open spec fn dist_squared(self, loc: Location) -> int {
        (self.x - loc.x) * (self.x - loc.x) + (self.y - loc.y) * (self.y - loc.y)
    }

    /// The distance to `loc`, rounded down.
    pub fn dist(self, loc: Location) -> (d: u64)
        ensures
            is_sqrt_of(d as int, self.dist_squared(loc)),
    {
        let x_d: u128 = if self.x >= loc.x {
            (self.x - loc.x) as u128
        } else {
            (loc.x - self.x) as u128
        };
        let y_d: u128 = if self.y >= loc.y {
            (self.y - loc.y) as u128
        } else {
            (loc.y - self.y) as u128
        };
        assert(x_d * x_d == (self.x - loc.x) * (self.x - loc.x)) by (nonlinear_arith)
            requires
                x_d == self.x - loc.x || x_d == loc.x - self.x,
        ;
        assert(y_d * y_d == (self.y - loc.y) * (self.y - loc.y)) by (nonlinear_arith)
            requires
                y_d == self.y - loc.y || y_d == loc.y - self.y,
        ;
        assert(x_d * x_d <= 0xffff_ffff * 0xffff_ffff) by (nonlinear_arith)
            requires
                0 <= x_d <= 0xffff_ffff,
        ;
        assert(y_d * y_d <= 0xffff_ffff * 0xffff_ffff) by (nonlinear_arith)
            requires
                0 <= y_d <= 0xffff_ffff,
        ;
        let n: u128 = x_d * x_d + y_d * y_d;
        let r = integer_sqrt(n);
        assert(r < 0x2_0000_0000) by (nonlinear_arith)
            requires
                r * r <= n,
                n <= 2 * (0xffff_ffff * 0xffff_ffff),
                r >= 0,
        ;
        r as u64
    }
}

/// A touch is down since a moment, or was down for a span.
#[derive(Debug, Clone, Copy)]
pub enum Phase {
    Started(Instant),
    Ended(Duration),
}

/// The eight directions of a move on the screen.
#[derive(Debug, PartialEq, Eq, Structural, Clone, Copy)]
pub enum Move {
    UpRight,
    Up,
    UpLeft,
    Left,
    DownLeft,
    Down,
    DownRight,
    Right,
}

/// Which of three stretches of a quarter turn the vector (`ux`, `uy`) points
/// into, where `ux > 0` and `uy >= 0`: below the narrow slope, between the
/// two slopes, or above the wide slope.
pub open spec fn stretch(ux: int, uy: int) -> int {
    if uy * 0x1_0000_0000 < SLOPE_NARROW * ux {
        0
    } else if uy * 0x1_0000_0000 < SLOPE_WIDE * ux {
        1
    } else {
        2
    }
}

/// The eight sectors, counted in the sense that leads from left over up to
/// right on the screen.
pub open spec fn sector_move(sector: int) -> Move {
    if sector == 0 {
        Move::UpLeft
    } else if sector == 1 {
        Move::Up
    } else if sector == 2 {
        Move::UpRight
    } else if sector == 3 {
        Move::Right
    } else if sector == 4 {
        Move::DownRight
    } else if sector == 5 {
        Move::Down
    } else if sector == 6 {
        Move::DownLeft
    } else {
        Move::Left
    }
}

/// The direction of the move from `a` to `b`.
///
/// The plane is cut into eight sectors of an eighth of a turn each. The cuts
/// do not run through the axes and diagonals: they are turned from them by a
/// 16th of a half turn, against the sense in which the sectors are counted.
/// A move along an axis or a diagonal is thus well inside its sector. A move
/// that leads nowhere counts as a move to the right.
pub open spec fn direction(a: Location, b: Location) -> Move {
    let vx = a.x - b.x;
    let vy = a.y - b.y;
    if vx == 0 && vy == 0 {
        Move::Right
    } else if vx > 0 && vy >= 0 {
        sector_move((stretch(vx, vy) + 7) % 8)
    } else if vx <= 0 && vy > 0 {
        sector_move(stretch(vy, -vx) + 1)
    } else if vx < 0 && vy <= 0 {
        sector_move(stretch(-vx, -vy) + 3)
    } else {
        sector_move(stretch(-vy, vx) + 5)
    }
}

fn stretch_of(ux: u32, uy: u32) -> (s: u8)
    ensures
        s == stretch(ux as int, uy as int),
{
    let lhs: u128 = (uy as u128) * 0x1_0000_0000;
    assert(SLOPE_NARROW * ux <= 854322113 * 0xffff_ffff) by (nonlinear_arith)
        requires
            SLOPE_NARROW == 854322113,
            0 <= ux <= 0xffff_ffff,
    ;
    assert(SLOPE_WIDE * ux <= 6427872806 * 0xffff_ffff) by (nonlinear_arith)
        requires
            SLOPE_WIDE == 6427872806,
            0 <= ux <= 0xffff_ffff,
    ;
    if lhs < (SLOPE_NARROW as u128) * (ux as u128) {
        0
    } else if lhs < (SLOPE_WIDE as u128) * (ux as u128) {
        1
    } else {
        2
    }
}

fn move_of_sector(sector: u8) -> (m: Move)
    ensures
        m == sector_move(sector as int),
{
    if sector == 0 {
        Move::UpLeft
    } else if sector == 1 {
        Move::Up
    } else if sector == 2 {
        Move::UpRight
    } else if sector == 3 {
        Move::Right
    } else if sector == 4 {
        Move::DownRight
    } else if sector == 5 {
        Move::Down
    } else if sector == 6 {
        Move::DownLeft
    } else {
        Move::Left
    }
}

impl Move {
    /// The direction of the move from `a` to `b`, on a screen whose `y`
    /// grows downwards.
    pub fn into_move(a: Location, b: Location) -> (m: Move)
        ensures
            m == direction(a, b),
    {
        if a.x == b.x && a.y == b.y {
            Move::Right
        } else if a.x > b.x && a.y >= b.y {
            move_of_sector((stretch_of(a.x - b.x, a.y - b.y) + 7) % 8)
        } else if a.x <= b.x && a.y > b.y {
            move_of_sector(stretch_of(a.y - b.y, b.x - a.x) + 1)
        } else if a.x < b.x && a.y <= b.y {
            move_of_sector(stretch_of(b.x - a.x, b.y - a.y) + 3)
        } else {
            move_of_sector(stretch_of(b.y - a.y, a.x - b.x) + 5)
        }
    }
}

/// What is known of one touch.
#[derive(Debug, Clone, Copy)]
pub struct GestureState {
    pub id: u64,
    pub ph: Phase,
    pub loc: Location,
    pub idx: usize,
    pub moves: [Option<(Move, u8)>; 10],
}

impl GestureState {
    pub open spec fn spec_active_id(&self, finger_id: u64) -> bool {
        self.ph is Started && self.id == finger_id
    }

    /// Whether this is the touch of `finger_id` and the finger is down.
    #[verifier::when_used_as_spec(spec_active_id)]
    pub fn active_id(&self, finger_id: u64) -> (b: bool)
        ensures
            b == self.spec_active_id(finger_id),
    {
        match self.ph {
            Phase::Started(_) => self.id == finger_id,
            Phase::Ended(_) => false,
        }
    }
}

/// Keeps the move of the touch `s` to `l`.
pub fn record_direction(state: &mut GestureState, l: Location)
    ensures
        final(state)@ == recorded_view(old(state)@, l),
        final(state).ph == old(state).ph,
{
    if state.idx >= MAX_MOVES - 2 {
        return ;
    }
    let m = Move::into_move(state.loc, l);
    state.loc = l;
    let idx = state.idx;
    let entry = state.moves[idx];
    match entry {
        Some((mv, d)) => {
            if mv == m {
                let count = if d < 255 {
                    d + 1
                } else {
                    d
                };
                state.moves[idx] = Some((mv, count));
            } else {
                state.moves[idx + 1] = Some((m, 1));
                state.idx = idx + 1;
            }
        },
        None => {
            state.moves[idx] = Some((m, 1));
        },
    }
}

/// A touch as a value: the moments and spans are left out.
pub struct TouchView {
    pub id: u64,
    pub down: bool,
    pub loc: Location,
    pub idx: usize,
    pub moves: Seq<Option<(Move, u8)>>,
}

impl View for GestureState {
    type V = TouchView;

    open spec fn view(&self) -> TouchView {
        TouchView {
            id: self.id,
            down: self.ph is Started,
            loc: self.loc,
            idx: self.idx,
            moves: self.moves@,
        }
    }
}

/// The touches of a tracker as values.
pub open spec fn touch_views(states: Seq<Option<GestureState>>) -> Seq<Option<TouchView>> {
    states.map_values(
        |s: Option<GestureState>|
            match s {
                Some(s) => Some(s@),
                None => None,
            },
    )
}

/// The first free slot at or behind `from`.
pub open spec fn first_free(slots: Seq<Option<TouchView>>, from: int) -> Option<int>
    decreases slots.len() - from,
{
    if from < 0 || from >= slots.len() {
        None
    } else if slots[from] is None {
        Some(from)
    } else {
        first_free(slots, from + 1)
    }
}

/// The first slot at or behind `from` that holds the touch of `finger_id`
/// with the finger down.
pub open spec fn first_active(slots: Seq<Option<TouchView>>, finger_id: u64, from: int) -> Option<
    int,
>
    decreases slots.len() - from,
{
    if from < 0 || from >= slots.len() {
        None
    } else if slots[from] is Some && slots[from]->0.down && slots[from]->0.id == finger_id {
        Some(from)
    } else {
        first_active(slots, finger_id, from + 1)
    }
}

/// No finger is down.
pub open spec fn all_up(slots: Seq<Option<TouchView>>) -> bool {
    forall|i: int| 0 <= i < slots.len() && (#[trigger] slots[i]) is Some ==> !slots[i]->0.down
}

/// Whether a tracker follows a finger.
#[derive(Debug, Copy, Clone, PartialEq, Eq, Structural)]
pub enum GestureTrackerStatus {
    Idle,
    Tracking,
}

impl GestureTrackerStatus {
    pub fn idle(self) -> (b: bool)
        ensures
            b == (self == GestureTrackerStatus::Idle),
    {
        match self {
            GestureTrackerStatus::Idle => true,
            GestureTrackerStatus::Tracking => false,
        }
    }
}

/// Follows up to `F` fingers.
pub struct GestureTracker<const F: usize> {
    min_distance: u32,
    states: Vec<Option<GestureState>>,
}

/// The moves of one finished touch, one after the other.
pub struct GestureMoveIter<'a> {
    idx: usize,
    d: Duration,
    moves: &'a [Option<(Move, u8)>; 10],
}

impl<'a> GestureMoveIter<'a> {
    /// The moves that are still to come.
    pub closed spec fn rest(&self) -> Seq<Option<(Move, u8)>> {
        if self.idx <= 10 {
            self.moves@.skip(self.idx as int)
        } else {
            Seq::empty()
        }
    }

    /// How long the finger was down.
    pub closed spec fn span(&self) -> Duration {
        self.d
    }

    /// How long the finger was down.
    pub fn duration(&self) -> (d: Duration)
        ensures
            d == self.span(),
    {
        self.d
    }

    /// The next move of the touch; `None` behind its last move.
    pub fn next(&mut self) -> (r: Option<(Move, u8)>)
        ensures
            r == (if old(self).rest().len() > 0 {
                old(self).rest()[0]
            } else {
                None
            }),
            final(self).rest() == (if r is Some {
                old(self).rest().drop_first()
            } else {
                old(self).rest()
            }),
    {
        assert(self.moves@.len() == 10);
        if self.idx < 10 {
            let m = self.moves[self.idx];
            if m.is_some() {
                assert(self.moves@.skip(self.idx as int).drop_first() =~= self.moves@.skip(
                    self.idx + 1,
                ));
                self.idx = self.idx + 1;
            }
            m
        } else {
            None
        }
    }

    /// The moves that are still to come, up to the first free place.
    pub fn collect(self) -> (v: Vec<(Move, u8)>)
        ensures
            v@ == leading(self.rest(), 0),
    {
        let mut it = self;
        let mut v: Vec<(Move, u8)> = Vec::new();
        let ghost all = it.rest();
        loop
            invariant
                all == self.rest(),
                v@.len() <= all.len(),
                it.rest() == all.skip(v@.len() as int),
                v@ + leading(all, v@.len() as int) == leading(all, 0),
            decreases all.len() - v@.len(),
        {
            let ghost before = it.rest();
            let ghost n = v@.len() as int;
            match it.next() {
                Some(m) => {
                    assert(before[0] == all[n]);
                    assert(all.skip(n).drop_first() =~= all.skip(n + 1));
                    v.push(m);
                    assert(v@ + leading(all, n + 1) =~= v@.drop_last() + leading(all, n));
                },
                None => {
                    proof {
                        if before.len() > 0 {
                            assert(before[0] == all[n]);
                        }
                        assert(leading(all, n) =~= Seq::<(Move, u8)>::empty());
                        assert(v@ + Seq::<(Move, u8)>::empty() =~= v@);
                    }
                    return v;
                },
            }
        }
    }
}

/// The moves of a touch from place `from` on, up to the first free place.
pub open spec fn leading(moves: Seq<Option<(Move, u8)>>, from: int) -> Seq<(Move, u8)>
    decreases moves.len() - from,
{
    if from < 0 || from >= moves.len() || moves[from] is None {
        Seq::empty()
    } else {
        seq![moves[from]->0] + leading(moves, from + 1)
    }
}

/// The finished touches of a tracker, one after the other.
pub struct GestureIter<'a, const F: usize> {
    idx: usize,
    states: &'a Vec<Option<GestureState>>,
}

/// The first slot at or behind `from` that holds a finished touch.
pub open spec fn first_finished(slots: Seq<Option<TouchView>>, from: int) -> Option<int>
    decreases slots.len() - from,
{
    if from < 0 || from >= slots.len() {
        None
    } else if slots[from] is Some && !slots[from]->0.down {
        Some(from)
    } else {
        first_finished(slots, from + 1)
    }
}

/// The moves of each finished touch at or behind `from`, slot by slot.
pub open spec fn finished_moves(slots: Seq<Option<TouchView>>, from: int) -> Seq<Seq<(Move, u8)>>
    decreases slots.len() - from,
{
    if from < 0 || from >= slots.len() {
        Seq::empty()
    } else if slots[from] is Some && !slots[from]->0.down {
        seq![leading(slots[from]->0.moves, 0)] + finished_moves(slots, from + 1)
    } else {
        finished_moves(slots, from + 1)
    }
}

/// The moves of the gestures of a list.
pub open spec fn gesture_moves(v: Seq<(Duration, Vec<(Move, u8)>)>) -> Seq<Seq<(Move, u8)>> {
    v.map_values(|g: (Duration, Vec<(Move, u8)>)| g.1@)
}

impl<'a, const F: usize> GestureIter<'a, F> {
    /// The touches that are gone through.
    pub closed spec fn touches(&self) -> Seq<Option<TouchView>> {
        touch_views(self.states@)
    }

    /// The slot at which the search for the next finished touch starts.
    pub closed spec fn at(&self) -> int {
        self.idx as int
    }

    /// The moves of the next finished touch.
    pub fn next(&mut self) -> (r: Option<GestureMoveIter<'a>>)
        ensures
            final(self).touches() == old(self).touches(),
            match r {
                Some(moves) => first_finished(old(self).touches(), old(self).at()) is Some
                    && final(self).at() == first_finished(old(self).touches(), old(self).at())->0
                    + 1 && moves.rest() == old(self).touches()[final(self).at() - 1]->0.moves,
                None => first_finished(old(self).touches(), old(self).at()) is None && final(self).at() == old(self).at(),
            },
    {
        let states: &'a Vec<Option<GestureState>> = self.states;
        let ghost slots = touch_views(states@);
        let mut i = self.idx;
        while i < states.len()
            invariant
                states == self.states,
                self.states == old(self).states,
                slots == touch_views(states@),
                self.idx == old(self).idx,
                first_finished(slots, old(self).idx as int) == first_finished(slots, i as int),
                self.idx <= i,
            decreases states.len() - i,
        {
            assert(slots[i as int] == match states@[i as int] {
                Some(s) => Some(s@),
                None => None,
            });
            if let Some(state) = &states[i] {
                if let Phase::Ended(d) = state.ph {
                    self.idx = i + 1;
                    let moves = GestureMoveIter { idx: 0, d, moves: &state.moves };
                    assert(state.moves@.len() == 10);
                    assert(moves.rest() =~= state.moves@);
                    return Some(moves);
                }
            }
            i = i + 1;
        }
        None
    }

    /// Every finished touch with the time the finger was down and its moves.
    pub fn into_vec(self) -> (v: Vec<(Duration, Vec<(Move, u8)>)>)
        ensures
            gesture_moves(v@) == finished_moves(self.touches(), self.at()),
    {
        let mut it = self;
        let mut v: Vec<(Duration, Vec<(Move, u8)>)> = Vec::new();
        let ghost slots = it.touches();
        let ghost total = finished_moves(slots, it.at());
        assert(gesture_moves(v@) + total =~= total);
        loop
            invariant
                it.touches() == slots,
                0 <= it.at(),
                total == finished_moves(self.touches(), self.at()),
                gesture_moves(v@) + finished_moves(slots, it.at()) == total,
            decreases slots.len() - it.at(),
        {
            let ghost at0 = it.at();
            let ghost before = v@;
            match it.next() {
                Some(moves) => {
                    proof {
                        lemma_moves_from_first(slots, at0);
                    }
                    let d = moves.duration();
                    let collected = moves.collect();
                    v.push((d, collected));
                    assert(gesture_moves(v@) =~= gesture_moves(before).push(collected@));
                    assert(gesture_moves(v@) + finished_moves(slots, it.at()) =~= gesture_moves(
                        before,
                    ) + finished_moves(slots, at0));
                },
                None => {
                    proof {
                        lemma_moves_none(slots, at0);
                        assert(gesture_moves(v@) + Seq::<Seq<(Move, u8)>>::empty() =~= gesture_moves(
                            v@,
                        ));
                    }
                    return v;
                },
            }
        }
    }
}

proof fn lemma_moves_from_first(slots: Seq<Option<TouchView>>, from: int)
    requires
        first_finished(slots, from) is Some,
    ensures
        from <= first_finished(slots, from)->0 < slots.len(),
        finished_moves(slots, from) == seq![
            leading(slots[first_finished(slots, from)->0]->0.moves, 0),
        ] + finished_moves(slots, first_finished(slots, from)->0 + 1),
    decreases slots.len() - from,
{
    if 0 <= from < slots.len() {
        if slots[from] is Some && !slots[from]->0.down {
        } else {
            lemma_moves_from_first(slots, from + 1);
        }
    }
}

proof fn lemma_moves_none(slots: Seq<Option<TouchView>>, from: int)
    requires
        first_finished(slots, from) is None,
    ensures
        finished_moves(slots, from).len() == 0,
    decreases slots.len() - from,
{
    if 0 <= from < slots.len() {
        lemma_moves_none(slots, from + 1);
    }
}

impl<const F: usize> GestureTracker<F> {
    /// The touches, one slot for each finger that can be followed.
    pub closed spec fn touches(&self) -> Seq<Option<TouchView>> {
        touch_views(self.states@)
    }

    /// The distance that a finger has to travel before a move counts.
    pub closed spec fn threshold(&self) -> u32 {
        self.min_distance
    }

    pub fn new() -> (t: Self)
        ensures
            t.threshold() == DEFAULT_MIN_DISTANCE,
            t.touches() == Seq::new(F as nat, |i: int| None::<TouchView>),
    {
        let mut states: Vec<Option<GestureState>> = Vec::new();
        let mut i: usize = 0;
        while i < F
            invariant
                i <= F,
                states@.len() == i,
                forall|j: int| 0 <= j < i ==> states@[j] is None,
            decreases F - i,
        {
            states.push(None);
            i = i + 1;
        }
        let t = Self { min_distance: DEFAULT_MIN_DISTANCE, states };
        assert(t.touches() =~= Seq::new(F as nat, |i: int| None::<TouchView>));
        t
    }

    /// The finished touches.
    pub fn gestures<'a>(&'a self) -> (it: GestureIter<'a, F>)
        ensures
            it.touches() == self.touches(),
            it.at() == 0,
    {
        GestureIter { idx: 0, states: &self.states }
    }

    pub fn set_min_distance(&mut self, min_distance: u32)
        ensures
            final(self).threshold() == min_distance,
            final(self).touches() == old(self).touches(),
    {
        self.min_distance = min_distance;
    }

    /// Sets the distance to a tenth of the shorter side of the screen.
    pub fn set_min_distance_by_screen(&mut self, width: u32, height: u32)
        ensures
            final(self).threshold() == (if width <= height {
                width
            } else {
                height
            }) / 10,
            final(self).touches() == old(self).touches(),
    {
        let side = if width <= height {
            width
        } else {
            height
        };
        self.min_distance = side / 10;
    }

    /// Forgets every touch.
    pub fn reset(&mut self)
        ensures
            final(self).threshold() == old(self).threshold(),
            final(self).touches() == Seq::new(
                old(self).touches().len(),
                |i: int| None::<TouchView>,
            ),
    {
        let n = self.states.len();
        let mut i: usize = 0;
        while i < n
            invariant
                i <= n,
                n == self.states@.len(),
                self.min_distance == old(self).min_distance,
                forall|j: int| 0 <= j < i ==> self.states@[j] is None,
            decreases n - i,
        {
            self.states.set(i, None);
            i = i + 1;
        }
        assert(self.touches() =~= Seq::new(old(self).touches().len(), |i: int| None::<TouchView>));
    }

    /// The slot of the touch of `finger_id` whose finger is down.
    fn find_active(&self, finger_id: u64) -> (r: Option<usize>)
        ensures
            match r {
                Some(i) => first_active(self.touches(), finger_id, 0) == Some(i as int) && i
                    < self.states@.len() && self.states@[i as int] is Some,
                None => first_active(self.touches(), finger_id, 0) is None,
            },
    {
        let ghost slots = self.touches();
        let mut i: usize = 0;
        while i < self.states.len()
            invariant
                i <= self.states@.len(),
                slots == touch_views(self.states@),
                first_active(slots, finger_id, 0) == first_active(slots, finger_id, i as int),
            decreases self.states@.len() - i,
        {
            assert(slots[i as int] == match self.states@[i as int] {
                Some(s) => Some(s@),
                None => None,
            });
            if let Some(s) = &self.states[i] {
                if s.active_id(finger_id) {
                    return Some(i);
                }
            }
            i = i + 1;
        }
        None
    }

    /// A finger comes down at `l`. It takes the first free slot; where none
    /// is free, the finger is not followed.
    pub fn touch_start(&mut self, finger_id: u64, l: Location)
        ensures
            final(self).threshold() == old(self).threshold(),
            match first_free(old(self).touches(), 0) {
                Some(i) => final(self).touches() == old(self).touches().update(
                    i,
                    Some(
                        TouchView {
                            id: finger_id,
                            down: true,
                            loc: l,
                            idx: 0,
                            moves: Seq::new(10, |i: int| None::<(Move, u8)>),
                        },
                    ),
                ),
                None => final(self).touches() == old(self).touches(),
            },
    {
        let ghost slots = self.touches();
        let mut i: usize = 0;
        while i < self.states.len()
            invariant
                i <= self.states@.len(),
                *self == *old(self),
                slots == touch_views(self.states@),
                first_free(slots, 0) == first_free(slots, i as int),
            decreases self.states@.len() - i,
        {
            assert(slots[i as int] == match self.states@[i as int] {
                Some(s) => Some(s@),
                None => None,
            });
            if self.states[i].is_none() {
                let t = now();
                let state = GestureState {
                    id: finger_id,
                    ph: Phase::Started(t),
                    loc: l,
                    idx: 0,
                    moves: [None; 10],
                };
                assert(state.moves@ =~= Seq::new(10, |i: int| None::<(Move, u8)>));
                self.states.set(i, Some(state));
                assert(self.touches() =~= slots.update(i as int, Some(state@)));
                return ;
            }
            i = i + 1;
        }
    }

    /// The finger `finger_id` went on to `l`. The move counts where it is
    /// longer than the tracker's distance.
    pub fn touch_move(&mut self, finger_id: u64, l: Location)
        ensures
            final(self).threshold() == old(self).threshold(),
            final(self).touches() == moved(
                old(self).touches(),
                old(self).threshold(),
                finger_id,
                l,
            ),
    {
        let ghost slots = self.touches();
        if let Some(i) = self.find_active(finger_id) {
            if let Some(state) = self.states[i] {
                let mut state = state;
                let d = state.loc.dist(l);
                proof {
                    lemma_farther(state.loc, l, d as int, self.min_distance as int);
                }
                if d > self.min_distance as u64 {
                    record_direction(&mut state, l);
                    self.states.set(i, Some(state));
                    assert(self.touches() =~= slots.update(i as int, Some(state@)));
                }
            }
        }
    }

    /// The finger `finger_id` is lifted at `l`: a last move is kept as in
    /// [`GestureTracker::touch_move`], and the touch is finished.
    pub fn touch_end(&mut self, finger_id: u64, l: Location) -> (status: GestureTrackerStatus)
        ensures
            final(self).threshold() == old(self).threshold(),
            final(self).touches() == lifted(
                moved(old(self).touches(), old(self).threshold(), finger_id, l),
                finger_id,
            ),
            status == status_of(final(self).touches()),
    {
        let ghost slots = self.touches();
        if let Some(i) = self.find_active(finger_id) {
            if let Some(state) = self.states[i] {
                let mut state = state;
                let d = state.loc.dist(l);
                proof {
                    lemma_farther(state.loc, l, d as int, self.min_distance as int);
                }
                if d > self.min_distance as u64 {
                    record_direction(&mut state, l);
                }
                let ghost mid = slots.update(i as int, Some(state@));
                if let Phase::Started(t0) = state.ph {
                    let t = now();
                    let d = duration_since(&t, &t0);
                    state.ph = Phase::Ended(d);
                }
                self.states.set(i, Some(state));
                proof {
                    let after = moved(slots, self.min_distance, finger_id, l);
                    assert(after =~= mid);
                    lemma_first_active_found(slots, finger_id, 0);
                    lemma_first_active_at(mid, finger_id, 0, i as int);
                    assert(self.touches() =~= lifted(after, finger_id));
                }
            }
        }
        self.status()
    }

    /// The touch of the finger `finger_id` is dropped.
    pub fn touch_cancel(&mut self, finger_id: u64) -> (status: GestureTrackerStatus)
        ensures
            final(self).threshold() == old(self).threshold(),
            final(self).touches() == (match first_active(old(self).touches(), finger_id, 0) {
                Some(i) => old(self).touches().update(i, None),
                None => old(self).touches(),
            }),
            status == status_of(final(self).touches()),
    {
        let ghost slots = self.touches();
        if let Some(i) = self.find_active(finger_id) {
            self.states.set(i, None);
            assert(self.touches() =~= slots.update(i as int, None));
        }
        self.status()
    }

    /// Whether a finger is down.
    pub fn status(&self) -> (status: GestureTrackerStatus)
        ensures
            status == status_of(self.touches()),
    {
        let ghost slots = self.touches();
        let mut i: usize = 0;
        while i < self.states.len()
            invariant
                i <= self.states@.len(),
                slots == touch_views(self.states@),
                forall|j: int| 0 <= j < i && (#[trigger] slots[j]) is Some ==> !slots[j]->0.down,
            decreases self.states@.len() - i,
        {
            assert(slots[i as int] == match self.states@[i as int] {
                Some(s) => Some(s@),
                None => None,
            });
            if let Some(s) = &self.states[i] {
                if let Phase::Started(_) = s.ph {
                    return GestureTrackerStatus::Tracking;
                }
            }
            i = i + 1;
        }
        GestureTrackerStatus::Idle
    }
}

/// Idle where no finger is down.
pub open spec fn status_of(slots: Seq<Option<TouchView>>) -> GestureTrackerStatus {
    if all_up(slots) {
        GestureTrackerStatus::Idle
    } else {
        GestureTrackerStatus::Tracking
    }
}

/// Whether `b` is farther from `a` than `min_distance`, by the distance
/// rounded down.
pub open spec fn farther(a: Location, b: Location, min_distance: int) -> bool {
    a.dist_squared(b) >= (min_distance + 1) * (min_distance + 1)
}

/// A touch as a value after the finger went on to `l`.
pub open spec fn recorded_view(s: TouchView, l: Location) -> TouchView {
    if s.idx >= MAX_MOVES - 2 {
        s
    } else {
        let m = direction(s.loc, l);
        match s.moves[s.idx as int] {
            Some((mv, d)) => if mv == m {
                TouchView {
                    loc: l,
                    moves: s.moves.update(
                        s.idx as int,
                        Some(
                            (
                                mv,
                                if d < 255 {
                                    (d + 1) as u8
                                } else {
                                    d
                                },
                            ),
                        ),
                    ),
                    ..s
                }
            } else {
                TouchView {
                    loc: l,
                    idx: (s.idx + 1) as usize,
                    moves: s.moves.update(s.idx + 1, Some((m, 1u8))),
                    ..s
                }
            },
            None => TouchView { loc: l, moves: s.moves.update(s.idx as int, Some((m, 1u8))), ..s },
        }
    }
}

/// The touches after the finger `finger_id` went on to `l`.
pub open spec fn moved(
    slots: Seq<Option<TouchView>>,
    min_distance: u32,
    finger_id: u64,
    l: Location,
) -> Seq<Option<TouchView>> {
    match first_active(slots, finger_id, 0) {
        Some(i) => if farther(slots[i]->0.loc, l, min_distance as int) {
            slots.update(i, Some(recorded_view(slots[i]->0, l)))
        } else {
            slots
        },
        None => slots,
    }
}

/// The touches after the finger `finger_id` was lifted.
pub open spec fn lifted(slots: Seq<Option<TouchView>>, finger_id: u64) -> Seq<Option<TouchView>> {
    match first_active(slots, finger_id, 0) {
        Some(i) => slots.update(i, Some(TouchView { down: false, ..slots[i]->0 })),
        None => slots,
    }
}

proof fn lemma_farther(a: Location, b: Location, d: int, min_distance: int)
    requires
        is_sqrt_of(d, a.dist_squared(b)),
        0 <= min_distance,
    ensures
        d > min_distance <==> farther(a, b, min_distance),
{
    let n = a.dist_squared(b);
    if d > min_distance {
        assert((min_distance + 1) * (min_distance + 1) <= d * d) by (nonlinear_arith)
            requires
                0 <= min_distance + 1 <= d,
        ;
    } else {
        assert((d + 1) * (d + 1) <= (min_distance + 1) * (min_distance + 1)) by (nonlinear_arith)
            requires
                0 <= d + 1 <= min_distance + 1,
        ;
    }
}

proof fn lemma_first_active_found(slots: Seq<Option<TouchView>>, finger_id: u64, from: int)
    requires
        first_active(slots, finger_id, from) is Some,
    ensures
        ({
            let at = first_active(slots, finger_id, from)->0;
            &&& from <= at < slots.len()
            &&& slots[at] is Some && slots[at]->0.down && slots[at]->0.id == finger_id
            &&& forall|j: int|
                from <= j < at ==> !((#[trigger] slots[j]) is Some && slots[j]->0.down
                    && slots[j]->0.id == finger_id)
        }),
    decreases slots.len() - from,
{
    if 0 <= from < slots.len() {
        if slots[from] is Some && slots[from]->0.down && slots[from]->0.id == finger_id {
        } else {
            lemma_first_active_found(slots, finger_id, from + 1);
        }
    }
}

proof fn lemma_first_active_at(slots: Seq<Option<TouchView>>, finger_id: u64, from: int, at: int)
    requires
        0 <= from <= at < slots.len(),
        slots[at] is Some && slots[at]->0.down && slots[at]->0.id == finger_id,
        forall|j: int|
            from <= j < at ==> !((#[trigger] slots[j]) is Some && slots[j]->0.down && slots[j]->0.id
                == finger_id),
    ensures
        first_active(slots, finger_id, from) == Some(at),
    decreases at - from,
{
    if from < at {
        assert(!(slots[from] is Some && slots[from]->0.down && slots[from]->0.id == finger_id));
        lemma_first_active_at(slots, finger_id, from + 1, at);
    }
}

} // verus!
