use vstd::prelude::*;
use crate::rect::Rect;

verus! {

/// The dash `k` of a line of dashes, counted from the top: one pixel wide,
/// `segment` high, and followed by a gap `space` high.
pub open spec fn dash(k: int, segment: int, space: int) -> Rect {
    Rect::placed(0, k * (segment + space), 1, segment)
}

/// What a dashed line is: where it is shown, how high its picture is, and
/// the dashes of the picture.
pub struct DashedLineModel {
    pub pos: Rect,
    pub height: int,
    pub dashes: Seq<Rect>,
}

/// An upright dashed line.
pub struct DashedLineVert {
    pos: Rect,
    height: u32,
    dashes: Vec<Rect>,
}

impl View for DashedLineVert {
    type V = DashedLineModel;

    closed spec fn view(&self) -> DashedLineModel {
        DashedLineModel { pos: self.pos, height: self.height as int, dashes: self.dashes@ }
    }
}

impl DashedLineVert {
    /// A line of `number_of_segments` dashes that is shown at `pos`. In its
    /// picture a dash is `segment_height_proportion` high and the gap after
    /// it `space_height_proportion`.
    pub fn new(
        pos: Rect,
        number_of_segments: u32,
        segment_height_proportion: u32,
        space_height_proportion: u32,
    ) -> (line: Self)
        requires
            (segment_height_proportion + space_height_proportion) * number_of_segments
                <= i32::MAX,
            segment_height_proportion + space_height_proportion <= i32::MAX,
        ensures
            line@ == (DashedLineModel {
                pos,
                height: (segment_height_proportion + space_height_proportion)
                    * number_of_segments,
                dashes: Seq::new(
                    number_of_segments as nat,
                    |k: int| dash(k, segment_height_proportion as int, space_height_proportion as int),
                ),
            }),
    {
        let period: u32 = segment_height_proportion + space_height_proportion;
        let mut dashes: Vec<Rect> = Vec::new();
        let mut top: i32 = 0;
        let mut k: u32 = 0;
        while k < number_of_segments
            invariant
                k <= number_of_segments,
                period == segment_height_proportion + space_height_proportion,
                period * number_of_segments <= i32::MAX,
                top == k * period,
                dashes@ == Seq::new(
                    k as nat,
                    |j: int| dash(j, segment_height_proportion as int, space_height_proportion as int),
                ),
            decreases number_of_segments - k,
        {
            dashes.push(Rect::new(0, top, 1, segment_height_proportion));
            assert(dashes@ =~= Seq::new(
                (k + 1) as nat,
                |j: int| dash(j, segment_height_proportion as int, space_height_proportion as int),
            ));
            assert((k + 1) * period <= period * number_of_segments) by (nonlinear_arith)
                requires
                    k < number_of_segments,
                    period >= 0,
            ;
            assert((k + 1) * period == k * period + period) by (nonlinear_arith);
            top = top + period as i32;
            k += 1;
        }
        assert(top == period * number_of_segments) by (nonlinear_arith)
            requires
                top == k * period,
                k == number_of_segments,
        ;
        DashedLineVert { pos, height: top as u32, dashes }
    }

    /// Where the line is shown.
    pub fn pos(&self) -> (r: Rect)
        ensures
            r == self@.pos,
    {
        self.pos
    }

    /// How high the picture of the line is.
    pub fn height(&self) -> (r: u32)
        ensures
            r == self@.height,
    {
        self.height
    }

    /// The dash `k` of the picture, if it has so many.
    pub fn dash(&self, k: usize) -> (r: Option<Rect>)
        ensures
            k < self@.dashes.len() ==> r == Some(self@.dashes[k as int]),
            k >= self@.dashes.len() ==> r is None,
    {
        if k < self.dashes.len() {
            Some(self.dashes[k])
        } else {
            None
        }
    }

    /// How many dashes the picture has.
    pub fn len(&self) -> (r: usize)
        ensures
            r == self@.dashes.len(),
    {
        self.dashes.len()
    }
}

} // verus!
