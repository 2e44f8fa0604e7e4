//! Orientation of monitors and layouts.
use vstd::prelude::*;

use crate::geometry::{Rect, TilingDirection};

verus! {

/// Orientation of a monitor (or of a layout made for one).
#[derive(Clone, Copy, Debug, PartialEq, Eq, Structural)]
pub enum Orientation {
    /// Wider than tall (or square).
    Landscape,
    /// Taller than wide.
    Portrait,
}

impl Orientation {
    pub open spec fn spec_of(rect: Rect) -> Orientation {
        if rect.spec_height() > rect.spec_width() {
            Orientation::Portrait
        } else {
            Orientation::Landscape
        }
    }

    /// Orientation of the given bounds.
    #[must_use]
    pub fn of(rect: &Rect) -> (orientation: Orientation)
        ensures
            orientation == Orientation::spec_of(*rect),
    {
        if rect.height() > rect.width() {
            Orientation::Portrait
        } else {
            Orientation::Landscape
        }
    }

    /// Orientation that a layout with the given direction is made for.
    pub open spec fn spec_for_direction(direction: TilingDirection) -> Orientation {
        match direction {
            TilingDirection::Horizontal => Orientation::Landscape,
            TilingDirection::Vertical => Orientation::Portrait,
        }
    }

    /// Orientation that a layout with the given direction is made for.
    pub fn for_direction(direction: TilingDirection) -> (orientation: Orientation)
        ensures
            orientation == Orientation::spec_for_direction(direction),
    {
        match direction {
            TilingDirection::Horizontal => Orientation::Landscape,
            TilingDirection::Vertical => Orientation::Portrait,
        }
    }
}

} // verus!
