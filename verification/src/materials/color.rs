//! Colours (in RGB) of the points of a collection.

use vstd::prelude::*;

verus! {

/// The colours (in RGB) of the points of a collection.
pub struct Color {
    data: Vec<PointColor>,
}

impl Color {
    /// The colours, in point order.
    pub closed spec fn colors(self) -> Seq<PointColor> {
        self.data@
    }

    /// A collection with the given colours.
    pub fn new(data: Vec<PointColor>) -> (c: Self)
        ensures
            c.colors() == data@,
    {
        Color { data }
    }

    /// The colours, borrowed.
    pub fn get_borrow_data(&self) -> (d: &Vec<PointColor>)
        ensures
            d@ == self.colors(),
    {
        &self.data
    }
}

/// The colour (in RGB) of one point. Two colours are equal when their channels are.
#[derive(Debug, Clone, Copy, PartialEq, Eq, Structural)]
pub struct PointColor {
    /// red
    pub red: u8,
    /// green
    pub green: u8,
    /// blue
    pub blue: u8,
}

impl PointColor {
    /// Black: R = G = B = 0.
    pub fn new_default() -> (c: Self)
        ensures
            c.red == 0 && c.green == 0 && c.blue == 0,
    {
        PointColor { red: 0, green: 0, blue: 0 }
    }

    /// The colour with the given channels.
    pub fn new(red: u8, green: u8, blue: u8) -> (c: Self)
        ensures
            c.red == red && c.green == green && c.blue == blue,
    {
        PointColor { red, green, blue }
    }

    /// The colour whose channels are `[red, green, blue]`.
    pub fn new_with_array(array: [u8; 3]) -> (c: PointColor)
        ensures
            c.red == array[0] && c.green == array[1] && c.blue == array[2],
    {
        PointColor::new(array[0], array[1], array[2])
    }

    /// The channels as `[red, green, blue]`.
    pub fn to_array(&self) -> (a: [u8; 3])
        ensures
            a[0] == self.red && a[1] == self.green && a[2] == self.blue,
    {
        [self.red, self.green, self.blue]
    }
}

} // verus!
