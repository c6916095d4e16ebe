//! Black and white.
use vstd::prelude::*;

verus! {

/// The two colors of the panel.
#[derive(Debug, Clone, Copy, PartialEq, Eq, Structural)]
pub enum Color {
    Black,
    White,
}

} // verus!
