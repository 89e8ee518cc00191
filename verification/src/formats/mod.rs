//! Point-cloud data formats: a point cloud, optionally cut into segments.
//!
//! The point type `T` and the type `B` of a segment's bounds are the caller's:
//! the bookkeeping here reads neither.

use vstd::prelude::*;

pub mod metadata;
pub mod triangle_face;

verus! {

/// A point cloud: its points and their count, and, once partitioned, its segments.
pub struct PointCloud<T, B> {
    pub number_of_points: usize,
    pub segments: Option<Vec<PointCloudSegment<T, B>>>,
    pub points: Vec<T>,
}

/// A segment of a point cloud: its points and the bounds they lie in.
pub struct PointCloudSegment<T, B> {
    pub points: Vec<T>,
    pub bounds: B,
}

/// The points of the segments, one segment after the other.
pub open spec fn segment_points<T, B>(segments: Seq<PointCloudSegment<T, B>>) -> Seq<T>
    decreases segments.len(),
{
    if segments.len() == 0 {
        Seq::empty()
    } else {
        segment_points(segments.drop_last()) + segments.last().points@
    }
}

/// Appends the points of `src` to `dst`.
fn extend_points<T: Copy>(dst: &mut Vec<T>, src: &Vec<T>)
    ensures
        final(dst)@ == old(dst)@ + src@,
{
    let mut i: usize = 0;
    while i < src.len()
        invariant
            i <= src.len(),
            dst@ == old(dst)@ + src@.subrange(0, i as int),
        decreases src.len() - i,
    {
        dst.push(src[i]);
        i = i + 1;
    }
}

impl<T: Copy, B> PointCloud<T, B> {
    /// Appends the points of `other`, and adds its count.
    pub fn combine(&mut self, other: &Self)
        requires
            old(self).number_of_points + other.number_of_points <= usize::MAX,
        ensures
            final(self).points@ == old(self).points@ + other.points@,
            final(self).number_of_points == old(self).number_of_points + other.number_of_points,
            final(self).segments == old(self).segments,
    {
        extend_points(&mut self.points, &other.points);
        self.number_of_points = self.number_of_points + other.number_of_points;
    }

    /// An unpartitioned cloud of `points`, counted as `number_of_points`.
    pub fn new(number_of_points: usize, points: Vec<T>) -> (pc: Self)
        ensures
            pc.number_of_points == number_of_points,
            pc.points@ == points@,
            pc.segments is None,
    {
        PointCloud { number_of_points, points, segments: None }
    }

    /// A cloud cut into `segments`: its points are theirs, one segment after the other.
    pub fn new_with_segments(segments: Vec<PointCloudSegment<T, B>>) -> (pc: Self)
        requires
            segment_points(segments@).len() <= usize::MAX,
        ensures
            pc.points@ == segment_points(segments@),
            pc.number_of_points == segment_points(segments@).len(),
            pc.segments == Some(segments),
    {
        let mut points: Vec<T> = Vec::new();
        let mut i: usize = 0;
        assert(segments@.subrange(0, 0) =~= Seq::<PointCloudSegment<T, B>>::empty());
        while i < segments.len()
            invariant
                i <= segments@.len(),
                points@ == segment_points(segments@.subrange(0, i as int)),
            decreases segments.len() - i,
        {
            assert(segments@.subrange(0, i + 1).drop_last() =~= segments@.subrange(0, i as int));
            extend_points(&mut points, &segments[i].points);
            i = i + 1;
        }
        assert(segments@.subrange(0, i as int) =~= segments@);
        let n = points.len();
        PointCloud { number_of_points: n, points, segments: Some(segments) }
    }

    /// Whether the cloud is cut into segments.
    pub fn is_partitioned(&self) -> (b: bool)
        ensures
            b == self.segments is Some,
    {
        self.segments.is_some()
    }

    /// Adds `points` to segment `segment_index`: they are appended to the
    /// cloud's points and to the segment's, and counted. An unpartitioned
    /// cloud is left as it is.
    pub fn add_points(&mut self, points: Vec<T>, segment_index: usize)
        requires
            old(self).segments matches Some(segs) ==> {
                &&& segment_index < segs@.len()
                &&& old(self).number_of_points + points@.len() <= usize::MAX
            },
        ensures
            match old(self).segments {
                None => *final(self) == *old(self),
                Some(segs) => {
                    &&& final(self).number_of_points == old(self).number_of_points + points@.len()
                    &&& final(self).points@ == old(self).points@ + points@
                    &&& final(self).segments matches Some(new_segs) && new_segs@.len() == segs@.len()
                        && (forall|k: int|
                        0 <= k < segs@.len() && k != segment_index ==> #[trigger] new_segs@[k]
                            == segs@[k]) && new_segs@[segment_index as int].points@
                        == segs@[segment_index as int].points@ + points@
                        && new_segs@[segment_index as int].bounds == segs@[segment_index as int].bounds
                },
            },
    {
        if self.segments.is_none() {
            return;
        }
        let mut segments = self.segments.take().unwrap();
        self.number_of_points = self.number_of_points + points.len();
        extend_points(&mut self.points, &points);
        let mut segment = segments.remove(segment_index);
        extend_points(&mut segment.points, &points);
        segments.insert(segment_index, segment);
        self.segments = Some(segments);
    }
}

} // verus!
