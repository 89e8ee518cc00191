//! Per-point colours of a point collection.

use vstd::prelude::*;

verus! {

/// The colours of a collection of points, one per point.
pub struct Color {
    data: Vec<PointColor>,
}

impl Color {
    /// The colours, in point order.
    pub closed spec fn colors(self) -> Seq<PointColor> {
        self.data@
    }

    /// A collection of the given colours.
    pub fn new(data: Vec<PointColor>) -> (c: Self)
        ensures
            c.colors() == data@,
    {
        Color { data }
    }

    /// The colours, in point order.
    pub fn data(&self) -> (d: &Vec<PointColor>)
        ensures
            d@ == self.colors(),
    {
        &self.data
    }
}

/// The colour of one point: 8-bit red, green and blue.
#[derive(Clone, Copy, Debug, PartialEq, Eq, Structural)]
pub struct PointColor {
    pub red: u8,
    pub green: u8,
    pub blue: u8,
}

impl PointColor {
    /// Black (every channel 0).
    pub fn new_default() -> (c: Self)
        ensures
            c.red == 0 && c.green == 0 && c.blue == 0,
    {
        PointColor { red: 0, green: 0, blue: 0 }
    }

    /// The colour with the given channels.
    pub fn new(red: u8, green: u8, blue: u8) -> (c: Self)
        ensures
            c.red == red && c.green == green && c.blue == blue,
    {
        PointColor { red, green, blue }
    }
}

} // verus!
