//! The color tag a settled cell carries. Each piece kind locks cells of its
//! own tag; the tag needs identity only, never arithmetic.

use vstd::prelude::*;

verus! {

/// One color tag per piece kind.
#[derive(Clone, Copy, PartialEq, Eq, Structural, Debug)]
pub enum CellColor {
    Cyan,
    Blue,
    Orange,
    Yellow,
    Green,
    Purple,
    Red,
}

} // verus!
