use vstd::prelude::*;

verus! {

/// Occupancy of one grid cell. `Killed` is a ship that was targeted,
/// `Pressed` is an empty cell that was targeted. Occupancy only ever
/// advances `Empty -> Pressed` or `Ship -> Killed`; a whole-grid reset is
/// the only way back.
#[derive(Clone, Copy, PartialEq, Eq, Structural, Debug)]
pub enum State {
    Empty,
    Ship,
    Killed,
    Pressed,
}

/// Whether the presentation layer may show this cell's true occupancy.
#[derive(Clone, Copy, PartialEq, Eq, Structural, Debug)]
pub enum RenderState {
    Visible,
    Hidden,
}

/// One grid cell: occupancy plus the reveal flag, which are independent.
#[derive(Clone, Copy, PartialEq, Eq, Structural, Debug)]
pub struct Node {
    pub state: State,
    pub render_state: RenderState,
}

impl Node {
    /// A fresh cell: empty, shown iff `revealed`.
    pub fn new(revealed: bool) -> (r: Node)
        ensures
            r.state == State::Empty,
            r.render_state == (if revealed {
                RenderState::Visible
            } else {
                RenderState::Hidden
            }),
    {
        Node {
            state: State::Empty,
            render_state: if revealed {
                RenderState::Visible
            } else {
                RenderState::Hidden
            },
        }
    }
}

/// An integer coordinate: either a pixel location or a cell address,
/// depending on context.
#[derive(Clone, Copy, PartialEq, Eq, Structural, Debug)]
pub struct Point {
    pub x: i32,
    pub y: i32,
}

/// The occupancy that results from targeting a cell whose occupancy is `s`:
/// an empty cell becomes a miss, a ship is destroyed, and a cell that was
/// already targeted keeps its occupancy.
pub open spec fn after_mark(s: State) -> State {
    match s {
        State::Empty => State::Pressed,
        State::Ship => State::Killed,
        State::Killed => State::Killed,
        State::Pressed => State::Pressed,
    }
}

} // verus!
