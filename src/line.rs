use vstd::prelude::*;
use rltk::{LineAlg, Point};

verus! {

/// The points rltk's Bresenham line goes through from (x1, y1) to (x2, y2).
pub uninterp spec fn bresenham_points(x1: int, y1: int, x2: int, y2: int) -> Seq<(i32, i32)>;

/// Relies on rltk::line2d with LineAlg::Bresenham: the points of the line
/// from (x1, y1) to (x2, y2), in the order it lists them; the result depends
/// on the end points alone. The end points are kept small so that the
/// differences it takes between them cannot overflow.
#[verifier::external_body]
pub(crate) fn line_points(x1: i32, y1: i32, x2: i32, y2: i32) -> (r: Vec<(i32, i32)>)
    requires
        -4096 <= x1 <= 4096,
        -4096 <= y1 <= 4096,
        -4096 <= x2 <= 4096,
        -4096 <= y2 <= 4096,
    ensures
        r@ == bresenham_points(x1 as int, y1 as int, x2 as int, y2 as int),
{
    rltk::line2d(LineAlg::Bresenham, Point::new(x1, y1), Point::new(x2, y2)).iter().map(|p| (p.x, p.y)).collect()
}

} // verus!
