//! The arithmetic on doubles that the decisions of this library rest on.

use crate::animation::Animation;
use crate::compositor::window::AnimatedRect;
use crate::layout::{Columns, Row, WindowGeometry};
use crate::scalar::{Double, Single};
use vstd::prelude::*;

verus! {

/// What the program computes with doubles. Nothing is taken for granted about
/// the answers: contracts speak of whatever was answered to a question.
pub trait Numerics {
    /// The size of the first part of a side of length `extent` that is divided by
    /// `ratio`, with `gap` between the parts: the share of the side less half the
    /// gap, rounded.
    fn split(&self, ratio: Double, gap: u32, extent: i64) -> i64;

    /// The columns of an area whose master column has the share `ratio`.
    fn columns(&self, area: WindowGeometry<Double>, ratio: Double) -> Columns;

    /// The row with a number out of a count of rows that divide the height of an
    /// area evenly.
    fn row(&self, area: WindowGeometry<Double>, number: usize, count: usize) -> Row;

    /// Whether two coordinates are more than a pixel apart.
    fn far(&self, a: Double, b: Double) -> bool;

    /// The value of an animation that is still running, after the time elapsed.
    fn sample(&self, animation: Animation, elapsed: u64) -> Double;

    /// An integer as a double.
    fn double(&self, n: i64) -> Double;

    /// The place from which a window flies in to `target`: half as large, about
    /// the middle of an output of the given size.
    fn entry(&self, target: AnimatedRect, output: (i32, i32)) -> AnimatedRect;

    /// The place of a window that starts to float: six tenths of an area, in the
    /// middle of it.
    fn centered(&self, area: WindowGeometry<i64>) -> WindowGeometry<Double>;

    /// A double as an integer, without its fraction.
    fn truncated(&self, value: Double) -> i32;

    /// A sum.
    fn plus(&self, a: Double, b: Double) -> Double;

    /// A difference.
    fn minus(&self, a: Double, b: Double) -> Double;

    /// A coordinate after a motion, kept between zero and `last`.
    fn bounded(&self, value: Double, delta: Double, last: i32) -> Double;

    /// Whether a continuous scroll amount is too small to count.
    fn negligible(&self, amount: Double) -> bool;

    /// Whether a number is zero.
    fn is_zero(&self, value: Double) -> bool;

    /// A side after a change of its length, but no shorter than `least`.
    fn resized(&self, side: Double, delta: Double, least: u32) -> Double;

    /// A split ratio after a change, kept between a tenth and nine tenths.
    fn adjusted(&self, ratio: Double, delta: Double) -> Double;

    /// An opacity that is reduced to a share of itself.
    fn faded(&self, alpha: Single, share: Single) -> Single;

    /// The number that a text spells out, if it does.
    fn number(&self, text: String) -> Option<Double>;
}

/// The question where a cut falls is always answered in the same way.
pub open spec fn splits_steadily<N: Numerics>(num: N) -> bool {
    forall|ratio: Double, gap: u32, extent: i64, a: i64, b: i64| #[trigger]
        call_ensures(N::split, (&num, ratio, gap, extent), a) && #[trigger] call_ensures(
            N::split,
            (&num, ratio, gap, extent),
            b,
        ) ==> a == b
}

/// The question whether two coordinates are far apart is always answered in the same
/// way, and no coordinate is far from itself.
pub open spec fn measures_steadily<N: Numerics>(num: N) -> bool {
    &&& forall|a: Double, b: Double| #[trigger]
        call_ensures(N::far, (&num, a, b), true) ==> !call_ensures(N::far, (&num, a, b), false)
    &&& forall|a: Double| !#[trigger] call_ensures(N::far, (&num, a, a), true)
}

} // verus!
