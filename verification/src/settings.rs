//! Sort settings: the threshold window, the scan axis, and the order.

use vstd::prelude::*;

verus! {

/// The geometric axis along which lines of the image are scanned:
/// rows (`Horizontal`) or columns (`Vertical`).
#[derive(Clone, Copy, Debug, PartialEq, Eq, Structural)]
pub enum Direction {
    Horizontal,
    Vertical,
}

/// The order in which a span's pixels are arranged by brightness key.
#[derive(Clone, Copy, Debug, PartialEq, Eq, Structural)]
pub enum Order {
    Ascending,
    Descending,
}

/// The parameters of one sorting job. The luminance window
/// `[lower_threshold, upper_threshold]` selects which pixels are
/// sortable; `direction` picks the axis; `order` picks the arrangement.
#[derive(Clone, Copy, Debug, PartialEq, Eq, Structural)]
pub struct SortSettings {
    pub lower_threshold: u8,
    pub upper_threshold: u8,
    pub direction: Direction,
    pub order: Order,
}

impl SortSettings {
    /// The settings invariant: the window is never inverted.
    pub open spec fn wf(self) -> bool {
        self.lower_threshold <= self.upper_threshold
    }

    /// Set the lower threshold. When the new lower bound passes the
    /// upper one, the upper bound snaps up to match, so the window is
    /// never inverted.
    pub fn set_lower_threshold(&mut self, value: u8)
        ensures
            final(self).lower_threshold == value,
            final(self).upper_threshold == if old(self).upper_threshold <= value {
                value
            } else {
                old(self).upper_threshold
            },
            final(self).direction == old(self).direction,
            final(self).order == old(self).order,
            final(self).wf(),
    {
        self.lower_threshold = value;
        if self.upper_threshold <= self.lower_threshold {
            self.upper_threshold = self.lower_threshold;
        }
    }

    /// Set the upper threshold. When the new upper bound passes the
    /// lower one, the lower bound snaps down to match, so the window is
    /// never inverted.
    pub fn set_upper_threshold(&mut self, value: u8)
        ensures
            final(self).upper_threshold == value,
            final(self).lower_threshold == if old(self).lower_threshold >= value {
                value
            } else {
                old(self).lower_threshold
            },
            final(self).direction == old(self).direction,
            final(self).order == old(self).order,
            final(self).wf(),
    {
        self.upper_threshold = value;
        if self.lower_threshold >= self.upper_threshold {
            self.lower_threshold = self.upper_threshold;
        }
    }
}

impl Default for SortSettings {
    /// The default settings: window `[50, 150]`, horizontal scan,
    /// ascending order.
    fn default() -> (s: Self)
        ensures
            s.lower_threshold == 50,
            s.upper_threshold == 150,
            s.direction == Direction::Horizontal,
            s.order == Order::Ascending,
            s.wf(),
    {
        SortSettings {
            lower_threshold: 50,
            upper_threshold: 150,
            direction: Direction::Horizontal,
            order: Order::Ascending,
        }
    }
}

} // verus!
