//! The parts of the user interface whose behavior is pure: the input
//! interface, terminal coloring, and the board presenter.

pub mod color;
pub mod input;
pub mod presenter;
