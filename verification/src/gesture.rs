//! The page's pointer gesture: a press, drags that orbit the camera, and a
//! release that counts as a click when the pointer barely moved.
use vstd::prelude::*;

verus! {

/// Total pointer travel, in pixels, below which a press and release is a click.
pub const CLICK_SLOP: u64 = 4;

/// What a gesture tracker holds, as numbers.
pub struct GestureView {
    pub dragging: bool,
    /// Pixels travelled since the press (summed over both axes, capped at `u64::MAX`).
    pub moved: nat,
    pub last_x: int,
    pub last_y: int,
}

/// `|a|` for an integer.
pub open spec fn abs(a: int) -> nat {
    if a < 0 {
        (-a) as nat
    } else {
        a as nat
    }
}

/// A tracker that has seen no press.
pub open spec fn idle() -> GestureView {
    GestureView { dragging: false, moved: 0, last_x: 0, last_y: 0 }
}

/// The tracker after a press at `(x, y)`.
pub open spec fn after_press(x: int, y: int) -> GestureView {
    GestureView { dragging: true, moved: 0, last_x: x, last_y: y }
}

/// The movement reported for a pointer move to `(x, y)`: none unless dragging.
pub open spec fn move_delta(g: GestureView, x: int, y: int) -> Option<(int, int)> {
    if g.dragging {
        Some((x - g.last_x, y - g.last_y))
    } else {
        None
    }
}

/// The tracker after a pointer move to `(x, y)`.
pub open spec fn after_move(g: GestureView, x: int, y: int) -> GestureView {
    if g.dragging {
        let travelled = g.moved + abs(x - g.last_x) + abs(y - g.last_y);
        GestureView {
            dragging: true,
            moved: if travelled > u64::MAX {
                u64::MAX as nat
            } else {
                travelled
            },
            last_x: x,
            last_y: y,
        }
    } else {
        g
    }
}

/// The tracker after the pointer is released or the gesture is cancelled.
pub open spec fn after_release(g: GestureView) -> GestureView {
    GestureView { dragging: false, ..g }
}

/// Whether releasing the pointer in state `g` is a click.
pub open spec fn is_click(g: GestureView) -> bool {
    g.dragging && g.moved < CLICK_SLOP
}

/// Tracks one pointer gesture in the integer pixel coordinates that pointer
/// events report.
#[derive(Clone, Copy, Debug)]
pub struct PointerGesture {
    dragging: bool,
    moved: u64,
    last_x: i32,
    last_y: i32,
}

impl View for PointerGesture {
    type V = GestureView;

    closed spec fn view(&self) -> GestureView {
        GestureView {
            dragging: self.dragging,
            moved: self.moved as nat,
            last_x: self.last_x as int,
            last_y: self.last_y as int,
        }
    }
}

impl PointerGesture {
    /// A tracker that has seen no press.
    pub fn new() -> (g: Self)
        ensures
            g@ == idle(),
    {
        PointerGesture { dragging: false, moved: 0, last_x: 0, last_y: 0 }
    }

    /// The pointer went down at `(x, y)`: a drag starts there.
    pub fn press(&mut self, x: i32, y: i32)
        ensures
            final(self)@ == after_press(x as int, y as int),
    {
        self.dragging = true;
        self.moved = 0;
        self.last_x = x;
        self.last_y = y;
    }

    /// The pointer moved to `(x, y)`. While dragging, gives how far it moved
    /// since the last position; otherwise gives nothing and changes nothing.
    pub fn drag_to(&mut self, x: i32, y: i32) -> (delta: Option<(i64, i64)>)
        ensures
            final(self)@ == after_move(old(self)@, x as int, y as int),
            match move_delta(old(self)@, x as int, y as int) {
                Some((dx, dy)) => delta == Some((dx as i64, dy as i64)),
                None => delta is None,
            },
    {
        if !self.dragging {
            return None;
        }
        let dx: i64 = x as i64 - self.last_x as i64;
        let dy: i64 = y as i64 - self.last_y as i64;
        let step_x: u64 = if dx < 0 {
            (-dx) as u64
        } else {
            dx as u64
        };
        let step_y: u64 = if dy < 0 {
            (-dy) as u64
        } else {
            dy as u64
        };
        let step: u64 = step_x + step_y;
        self.moved = if self.moved > u64::MAX - step {
            u64::MAX
        } else {
            self.moved + step
        };
        self.last_x = x;
        self.last_y = y;
        Some((dx, dy))
    }

    /// The gesture was cancelled: it ends without a click.
    pub fn cancel(&mut self)
        ensures
            final(self)@ == after_release(old(self)@),
    {
        self.dragging = false;
    }

    /// The pointer went up. Gives whether the gesture was a click: a press
    /// followed by less than `CLICK_SLOP` pixels of travel.
    pub fn release(&mut self) -> (clicked: bool)
        ensures
            clicked == is_click(old(self)@),
            final(self)@ == after_release(old(self)@),
    {
        let clicked = self.dragging && self.moved < CLICK_SLOP;
        self.dragging = false;
        clicked
    }
}


/// The tracker after the pointer moves through `points`, in order.
pub open spec fn after_moves(g: GestureView, points: Seq<(int, int)>) -> GestureView
    decreases points.len(),
{
    if points.len() == 0 {
        g
    } else {
        after_move(after_moves(g, points.drop_last()), points.last().0, points.last().1)
    }
}

/// Where the pointer is after moving from `(x, y)` through `points`.
pub open spec fn end_point(x: int, y: int, points: Seq<(int, int)>) -> (int, int) {
    if points.len() == 0 {
        (x, y)
    } else {
        points.last()
    }
}

/// Pixels travelled (over both axes) from `(x, y)` through `points`.
pub open spec fn path_length(x: int, y: int, points: Seq<(int, int)>) -> nat
    decreases points.len(),
{
    if points.len() == 0 {
        0
    } else {
        let from = end_point(x, y, points.drop_last());
        path_length(x, y, points.drop_last()) + abs(points.last().0 - from.0) + abs(
            points.last().1 - from.1,
        )
    }
}

/// The sum of the movements reported while the pointer moves through `points`.
pub open spec fn reported_total(g: GestureView, points: Seq<(int, int)>) -> (int, int)
    decreases points.len(),
{
    if points.len() == 0 {
        (0, 0)
    } else {
        let before = reported_total(g, points.drop_last());
        match move_delta(after_moves(g, points.drop_last()), points.last().0, points.last().1) {
            Some((dx, dy)) => (before.0 + dx, before.1 + dy),
            None => before,
        }
    }
}

proof fn lemma_drag_state(x: int, y: int, points: Seq<(int, int)>)
    ensures
        ({
            let g = after_moves(after_press(x, y), points);
            &&& g.dragging
            &&& (g.last_x, g.last_y) == end_point(x, y, points)
            &&& g.moved == (if path_length(x, y, points) > u64::MAX {
                u64::MAX as nat
            } else {
                path_length(x, y, points)
            })
            &&& reported_total(after_press(x, y), points) == (
                end_point(x, y, points).0 - x,
                end_point(x, y, points).1 - y,
            )
        }),
    decreases points.len(),
{
    if points.len() > 0 {
        lemma_drag_state(x, y, points.drop_last());
    }
}

/// A press and release is a click exactly when the pointer travelled fewer
/// than `CLICK_SLOP` pixels in between, whatever path it took.
pub proof fn law_click_iff_short_travel(x: int, y: int, points: Seq<(int, int)>)
    ensures
        is_click(after_moves(after_press(x, y), points)) <==> path_length(x, y, points)
            < CLICK_SLOP,
{
    lemma_drag_state(x, y, points);
}

/// The movements reported during a drag add up to the pointer's displacement
/// since the press, so the camera turns by exactly that much.
pub proof fn law_reported_moves_add_up(x: int, y: int, points: Seq<(int, int)>)
    ensures
        reported_total(after_press(x, y), points) == (
            end_point(x, y, points).0 - x,
            end_point(x, y, points).1 - y,
        ),
{
    lemma_drag_state(x, y, points);
}

/// After a release or a cancel, moves report nothing and no release is a click
/// until the next press.
pub proof fn law_quiet_after_release(g: GestureView, points: Seq<(int, int)>)
    ensures
        after_moves(after_release(g), points) == after_release(g),
        reported_total(after_release(g), points) == (0int, 0int),
        !is_click(after_moves(after_release(g), points)),
    decreases points.len(),
{
    if points.len() > 0 {
        law_quiet_after_release(g, points.drop_last());
    }
}

} // verus!
