//! What a level-of-detail encoding records per partition.

use vstd::prelude::*;

verus! {

/// For each partition in turn: its bounds (of type `B`), and the numbers of
/// base and additional points of each of its segments; and how the space is
/// partitioned along x, y and z.
pub struct MetaData<B> {
    pub bounds: Vec<B>,
    pub base_point_num: Vec<Vec<usize>>,
    pub additional_point_num: Vec<Vec<usize>>,
    pub partitions: (usize, usize, usize),
}

impl<B> MetaData<B> {
    /// Metadata with the given records.
    pub fn new(
        bounds: Vec<B>,
        base_point_num: Vec<Vec<usize>>,
        additional_point_num: Vec<Vec<usize>>,
        partitions: (usize, usize, usize),
    ) -> (m: Self)
        ensures
            m.bounds@ == bounds@,
            m.base_point_num@ == base_point_num@,
            m.additional_point_num@ == additional_point_num@,
            m.partitions == partitions,
    {
        MetaData { bounds, base_point_num, additional_point_num, partitions }
    }

    /// Metadata with no record and no partition.
    pub fn default() -> (m: Self)
        ensures
            m.bounds@.len() == 0,
            m.base_point_num@.len() == 0,
            m.additional_point_num@.len() == 0,
            m.partitions == (0usize, 0usize, 0usize),
    {
        MetaData {
            bounds: Vec::new(),
            base_point_num: Vec::new(),
            additional_point_num: Vec::new(),
            partitions: (0, 0, 0),
        }
    }

    /// Records the next partition.
    pub fn next(&mut self, bound: B, base_point_num: Vec<usize>, additional_point_num: Vec<usize>)
        ensures
            final(self).bounds@ == old(self).bounds@.push(bound),
            final(self).base_point_num@ == old(self).base_point_num@.push(base_point_num),
            final(self).additional_point_num@ == old(self).additional_point_num@.push(
                additional_point_num,
            ),
            final(self).partitions == old(self).partitions,
    {
        self.bounds.push(bound);
        self.base_point_num.push(base_point_num);
        self.additional_point_num.push(additional_point_num);
    }
}

} // verus!
