//! Dynamic tiling: the dwindle arrangement and the persistent layout tree.
//!
//! Tiles are integer rectangles. How far along a side the cut of a split falls
//! is the one thing that depends on the (fractional) split ratio; it is answered
//! by [`Numerics::split`].

pub mod laws;
pub mod paths;
pub mod tree;

use crate::numerics::Numerics;
use crate::scalar::Double;
use vstd::prelude::*;

verus! {

/// A rectangle on the screen.
#[derive(Clone, Copy, Debug, PartialEq, Eq, Structural)]
pub struct WindowGeometry<T> {
    pub x: T,
    pub y: T,
    pub width: T,
    pub height: T,
}

/// A rectangle over the mathematical integers.
pub struct Rect {
    pub x: int,
    pub y: int,
    pub width: int,
    pub height: int,
}

impl View for WindowGeometry<i64> {
    type V = Rect;

    open spec fn view(&self) -> Rect {
        Rect {
            x: self.x as int,
            y: self.y as int,
            width: self.width as int,
            height: self.height as int,
        }
    }
}

/// The rectangles of a list of tiles.
pub open spec fn rects(tiles: Seq<WindowGeometry<i64>>) -> Seq<Rect> {
    tiles.map_values(|g: WindowGeometry<i64>| g@)
}

/// How an area is divided: the share of the first part, and the gap between the
/// parts.
#[derive(Clone, Copy, Debug, PartialEq, Eq, Structural)]
pub struct Division {
    pub ratio: Double,
    pub gap: u32,
}

/// The largest magnitude of a coordinate, a side or a cut that the layout
/// functions work with.
pub const MAX_EXTENT: i64 = 0x100_0000_0000;

/// The largest number of tiles that one arrangement holds.
pub const MAX_TILES: usize = 0x10_0000;

impl Rect {
    /// The rectangle in machine integers.
    pub open spec fn geometry(self) -> WindowGeometry<i64> {
        WindowGeometry {
            x: self.x as i64,
            y: self.y as i64,
            width: self.width as i64,
            height: self.height as i64,
        }
    }

    /// Every coordinate and side is within `bound` of zero.
    pub open spec fn within(self, bound: int) -> bool {
        &&& -bound <= self.x <= bound
        &&& -bound <= self.y <= bound
        &&& -bound <= self.width <= bound
        &&& -bound <= self.height <= bound
    }

    /// The side that a split divides.
    pub open spec fn extent(self, horizontal: bool) -> int {
        if horizontal {
            self.width
        } else {
            self.height
        }
    }

    /// The first part of a split whose cut falls `cut` along the divided side.
    pub open spec fn first_part(self, horizontal: bool, cut: int) -> Rect {
        if horizontal {
            Rect { width: cut, ..self }
        } else {
            Rect { height: cut, ..self }
        }
    }

    /// The second part of a split: what is left behind the cut and the gap.
    pub open spec fn second_part(self, horizontal: bool, cut: int, gap: int) -> Rect {
        if horizontal {
            Rect { x: self.x + cut + gap, width: self.width - cut - gap, ..self }
        } else {
            Rect { y: self.y + cut + gap, height: self.height - cut - gap, ..self }
        }
    }
}

/// How far from zero the coordinates of an area may lie that `n` further splits
/// can still divide within the range of a coordinate.
pub open spec fn room(n: int) -> int {
    0x2000_0000_0000_0000 - n * (MAX_EXTENT + u32::MAX)
}

/// Every cut is answered within [`MAX_EXTENT`].
pub open spec fn splits_in_range<N: Numerics>(num: N) -> bool {
    forall|ratio: Double, gap: u32, extent: i64, cut: i64| #[trigger]
        call_ensures(N::split, (&num, ratio, gap, extent), cut) ==> -MAX_EXTENT <= cut <= MAX_EXTENT
}

/// `cut` is the answer for the divided side of `area`.
pub open spec fn cuts<N: Numerics>(
    num: N,
    by: Division,
    area: Rect,
    horizontal: bool,
    cut: i64,
) -> bool {
    call_ensures(N::split, (&num, by.ratio, by.gap, area.extent(horizontal) as i64), cut)
}

/// The two parts of `area`, split at `cut` with `gap` between them.
fn divide(
    area: WindowGeometry<i64>,
    horizontal: bool,
    cut: i64,
    gap: i64,
) -> (parts: (WindowGeometry<i64>, WindowGeometry<i64>))
    requires
        area@.within(room(0)),
        -MAX_EXTENT <= cut <= MAX_EXTENT,
        0 <= gap <= u32::MAX,
    ensures
        parts.0@ == area@.first_part(horizontal, cut as int),
        parts.1@ == area@.second_part(horizontal, cut as int, gap as int),
{
    if horizontal {
        (
            WindowGeometry { x: area.x, y: area.y, width: cut, height: area.height },
            WindowGeometry {
                x: area.x + cut + gap,
                y: area.y,
                width: area.width - cut - gap,
                height: area.height,
            },
        )
    } else {
        (
            WindowGeometry { x: area.x, y: area.y, width: area.width, height: cut },
            WindowGeometry {
                x: area.x,
                y: area.y + cut + gap,
                width: area.width,
                height: area.height - cut - gap,
            },
        )
    }
}

/// A layout algorithm on coordinates of type `T`.
pub trait LayoutEngine<N: Numerics, T> {
    /// The arrangements that the algorithm can compute within the range of its
    /// coordinates.
    spec fn accepts(&self, window_count: nat, area: WindowGeometry<T>, num: N) -> bool;

    /// What the algorithm makes of `area` for a number of windows.
    spec fn arranges(
        &self,
        window_count: nat,
        area: WindowGeometry<T>,
        num: N,
        tiles: Seq<WindowGeometry<T>>,
    ) -> bool;

    /// Computes the place of each of `window_count` windows in `area`.
    fn arrange(&self, window_count: usize, area: WindowGeometry<T>, num: &N) -> (tiles: Vec<
        WindowGeometry<T>,
    >)
        requires
            self.accepts(window_count as nat, area, *num),
        ensures
            tiles@.len() == window_count,
            self.arranges(window_count as nat, area, *num, tiles@),
    ;
}

/// The dwindle layout: every further window takes what is left of a split of
/// the remaining space, alternating between side by side and one above the
/// other.
#[derive(Clone, Copy, Debug)]
pub struct DwindleLayout {
    pub split_ratio: Double,
    pub inner_gap: u32,
}

impl DwindleLayout {
    /// How the layout divides an area.
    pub open spec fn division(self) -> Division {
        Division { ratio: self.split_ratio, gap: self.inner_gap }
    }

    /// What [`DwindleLayout::default`] returns.
    pub open spec fn default_spec() -> DwindleLayout {
        DwindleLayout { split_ratio: Double { bits: 0x3fe0_0000_0000_0000 }, inner_gap: 5 }
    }
}

impl Default for DwindleLayout {
    /// A ratio of one half and a gap of five pixels.
    fn default() -> (r: Self)
        ensures
            r == Self::default_spec(),
    {
        DwindleLayout { split_ratio: Double { bits: 0x3fe0_0000_0000_0000 }, inner_gap: 5 }
    }
}

/// `tiles` are the tiles of `n` windows that dwindle over `area`, the first
/// split being horizontal or not.
pub open spec fn dwindles<N: Numerics>(
    n: nat,
    area: Rect,
    horizontal: bool,
    by: Division,
    num: N,
    tiles: Seq<Rect>,
) -> bool
    decreases n,
{
    if n == 0 {
        tiles.len() == 0
    } else if n == 1 {
        tiles == seq![area]
    } else {
        &&& tiles.len() == n
        &&& exists|cut: i64|
            {
                &&& #[trigger] cuts(num, by, area, horizontal, cut)
                &&& tiles[0] == area.first_part(horizontal, cut as int)
                &&& dwindles(
                    (n - 1) as nat,
                    area.second_part(horizontal, cut as int, by.gap as int),
                    !horizontal,
                    by,
                    num,
                    tiles.drop_first(),
                )
            }
    }
}

impl DwindleLayout {
    /// Appends the tiles of `n` windows that dwindle over `area`.
    fn arrange_rest<N: Numerics>(
        &self,
        n: usize,
        area: WindowGeometry<i64>,
        horizontal: bool,
        num: &N,
        out: &mut Vec<WindowGeometry<i64>>,
    )
        requires
            splits_in_range(*num),
            area@.within(room(n as int)),
        ensures
            old(out)@.is_prefix_of(final(out)@),
            final(out)@.len() == old(out)@.len() + n,
            dwindles(
                n as nat,
                area@,
                horizontal,
                self.division(),
                *num,
                rects(final(out)@.skip(old(out)@.len() as int)),
            ),
        decreases n,
    {
        if n == 0 {
            return;
        }
        if n == 1 {
            out.push(area);
            assert(rects(out@.skip(old(out)@.len() as int)) =~= seq![area@]);
            return;
        }
        let extent: i64 = if horizontal {
            area.width
        } else {
            area.height
        };
        let cut: i64 = num.split(self.split_ratio, self.inner_gap, extent);
        let gap: i64 = self.inner_gap as i64;
        proof {
            laws::lemma_room(n as int);
        }
        let (current, next) = divide(area, horizontal, cut, gap);
        out.push(current);
        let ghost mid = out@;
        self.arrange_rest(n - 1, next, !horizontal, num, out);
        proof {
            let from = old(out)@.len() as int;
            let tiles = rects(out@.skip(from));
            assert(out@[from] == mid[from]);
            assert(tiles[0] == current@);
            assert(tiles.drop_first() =~= rects(out@.skip(mid.len() as int)));
            assert(cuts(*num, self.division(), area@, horizontal, cut));
        }
    }
}

impl<N: Numerics> LayoutEngine<N, i64> for DwindleLayout {
    open spec fn accepts(&self, window_count: nat, area: WindowGeometry<i64>, num: N) -> bool {
        &&& window_count <= MAX_TILES
        &&& area@.within(MAX_EXTENT as int)
        &&& splits_in_range(num)
    }

    open spec fn arranges(
        &self,
        window_count: nat,
        area: WindowGeometry<i64>,
        num: N,
        tiles: Seq<WindowGeometry<i64>>,
    ) -> bool {
        dwindles(window_count, area@, true, self.division(), num, rects(tiles))
    }

    fn arrange(&self, window_count: usize, area: WindowGeometry<i64>, num: &N) -> (tiles: Vec<
        WindowGeometry<i64>,
    >) {
        let mut tiles: Vec<WindowGeometry<i64>> = Vec::with_capacity(window_count);
        proof {
            laws::lemma_room_at_start(window_count as int);
        }
        self.arrange_rest(window_count, area, true, num, &mut tiles);
        assert(tiles@.skip(0) =~= tiles@);
        tiles
    }
}

/// The master-stack layout: one large window on the left, the others stacked on
/// the right.
#[derive(Clone, Copy, Debug)]
pub struct MasterStackLayout {
    pub master_ratio: Double,
}

impl MasterStackLayout {
    /// What [`MasterStackLayout::default`] returns.
    pub open spec fn default_spec() -> MasterStackLayout {
        MasterStackLayout { master_ratio: Double { bits: 0x3fe1_9999_9999_999a } }
    }
}

impl Default for MasterStackLayout {
    /// A master column that takes 0.55 of the width.
    fn default() -> (r: Self)
        ensures
            r == Self::default_spec(),
    {
        MasterStackLayout { master_ratio: Double { bits: 0x3fe1_9999_9999_999a } }
    }
}

/// The columns of a master-stack arrangement.
#[derive(Clone, Copy, Debug)]
pub struct Columns {
    pub master_width: Double,
    pub stack_x: Double,
    pub stack_width: Double,
}

/// One row of the stack.
#[derive(Clone, Copy, Debug)]
pub struct Row {
    pub y: Double,
    pub height: Double,
}

impl<N: Numerics> LayoutEngine<N, Double> for MasterStackLayout {
    open spec fn accepts(&self, window_count: nat, area: WindowGeometry<Double>, num: N) -> bool {
        true
    }

    open spec fn arranges(
        &self,
        window_count: nat,
        area: WindowGeometry<Double>,
        num: N,
        tiles: Seq<WindowGeometry<Double>>,
    ) -> bool {
        if window_count <= 1 {
            tiles == Seq::new(window_count, |i: int| area)
        } else {
            exists|c: Columns|
                {
                    &&& #[trigger] call_ensures(N::columns, (&num, area, self.master_ratio), c)
                    &&& tiles[0] == (WindowGeometry { width: c.master_width, ..area })
                    &&& forall|i: usize|
                        0 <= i < window_count - 1 ==> {
                            let tile = #[trigger] tiles[i + 1];
                            &&& tile.x == c.stack_x
                            &&& tile.width == c.stack_width
                            &&& call_ensures(
                                N::row,
                                (&num, area, i, (window_count - 1) as usize),
                                Row { y: tile.y, height: tile.height },
                            )
                        }
                }
        }
    }

    fn arrange(&self, window_count: usize, area: WindowGeometry<Double>, num: &N) -> (tiles: Vec<
        WindowGeometry<Double>,
    >) {
        let mut tiles: Vec<WindowGeometry<Double>> = Vec::with_capacity(window_count);
        if window_count <= 1 {
            if window_count == 1 {
                tiles.push(area);
            }
            assert(tiles@ =~= Seq::new(window_count as nat, |i: int| area));
            return tiles;
        }
        let c = num.columns(area, self.master_ratio);
        tiles.push(
            WindowGeometry { x: area.x, y: area.y, width: c.master_width, height: area.height },
        );
        let rows: usize = window_count - 1;
        let mut i: usize = 0;
        while i < rows
            invariant
                rows == window_count - 1,
                0 <= i <= rows,
                tiles@.len() == i + 1,
                tiles@[0] == (WindowGeometry { width: c.master_width, ..area }),
                forall|j: usize|
                    0 <= j < i ==> {
                        let tile = #[trigger] tiles@[j + 1];
                        &&& tile.x == c.stack_x
                        &&& tile.width == c.stack_width
                        &&& call_ensures(
                            N::row,
                            (num, area, j, rows),
                            Row { y: tile.y, height: tile.height },
                        )
                    },
            decreases rows - i,
        {
            let r = num.row(area, i, rows);
            tiles.push(
                WindowGeometry { x: c.stack_x, y: r.y, width: c.stack_width, height: r.height },
            );
            i = i + 1;
        }
        tiles
    }
}

} // verus!
