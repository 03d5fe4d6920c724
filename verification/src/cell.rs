//! The two-valued cell state and the per-cell transition rule.

use vstd::prelude::*;

verus! {

/// The state of one cell.
#[derive(Debug, Clone, Copy, PartialEq, Eq, Structural)]
pub enum State {
    Live,
    Dead,
}

/// The transition rule: what a cell in state `current` becomes when
/// `live_neighbors` of its neighbours are alive.
///
/// A live cell survives with two or three live neighbours and dies otherwise;
/// a dead cell comes alive with exactly three and stays dead otherwise.
pub open spec fn transition(current: State, live_neighbors: int) -> State {
    match current {
        State::Live => if live_neighbors == 2 || live_neighbors == 3 {
            State::Live
        } else {
            State::Dead
        },
        State::Dead => if live_neighbors == 3 {
            State::Live
        } else {
            State::Dead
        },
    }
}

/// The rule as a table: a live cell stays alive with exactly two or three
/// live neighbours, a dead cell comes alive with exactly three, and every
/// other cell is dead afterwards.
pub proof fn lemma_transition_table(live_neighbors: int)
    ensures
        transition(State::Live, live_neighbors) == State::Live <==> live_neighbors == 2
            || live_neighbors == 3,
        transition(State::Dead, live_neighbors) == State::Live <==> live_neighbors == 3,
        transition(State::Live, live_neighbors) == State::Dead <==> live_neighbors != 2
            && live_neighbors != 3,
        transition(State::Dead, live_neighbors) == State::Dead <==> live_neighbors != 3,
{
}

} // verus!
