//! The screen, and what status bars and docks leave of it for windows.

use crate::layout::{Rect, WindowGeometry, MAX_EXTENT};
use crate::scalar::half;
use vstd::prelude::*;

verus! {

/// A surface that is attached to the screen rather than a window, such as a
/// status bar: where it is placed, if it is, and how large its content is.
#[derive(Clone, Copy, Debug, PartialEq, Eq, Structural)]
pub struct LayerBox {
    pub geometry: Option<WindowGeometry<i32>>,
    pub buffer_width: i32,
    pub buffer_height: i32,
}

/// The first output: its size, if it has one, and the surfaces on its top and
/// bottom layers.
pub struct Screen {
    pub output: Option<(i32, i32)>,
    pub top: Vec<LayerBox>,
    pub bottom: Vec<LayerBox>,
}

/// An edge of the screen.
#[derive(Clone, Copy, Debug, PartialEq, Eq, Structural)]
pub enum Edge {
    Top,
    Bottom,
    Left,
    Right,
}

impl LayerBox {
    /// How thick the surface is, seen from an edge.
    pub open spec fn thickness(self, edge: Edge) -> int {
        match edge {
            Edge::Top | Edge::Bottom => self.buffer_height as int,
            Edge::Left | Edge::Right => self.buffer_width as int,
        }
    }

    /// Whether the surface is placed at an edge of a screen of the given size.
    pub open spec fn touches(self, edge: Edge, size: (i32, i32)) -> bool {
        match self.geometry {
            None => false,
            Some(g) => match edge {
                Edge::Top => g.y <= 0,
                Edge::Bottom => g.y + g.height >= size.1 - 1,
                Edge::Left => g.x <= 0,
                Edge::Right => g.x + g.width >= size.0 - 1,
            },
        }
    }

    /// What the surface takes from an edge: its thickness if it is a bar at that
    /// edge. A surface of 200 pixels or more is no bar.
    pub open spec fn takes(self, edge: Edge, size: (i32, i32)) -> int {
        let t = self.thickness(edge);
        if 0 < t < 200 && self.touches(edge, size) {
            t
        } else {
            0
        }
    }

    fn amount(&self, edge: Edge, size: (i32, i32)) -> (r: i64)
        ensures
            r == self.takes(edge, size),
    {
        let thickness: i64 = match edge {
            Edge::Top | Edge::Bottom => self.buffer_height as i64,
            Edge::Left | Edge::Right => self.buffer_width as i64,
        };
        let touches: bool = match &self.geometry {
            None => false,
            Some(g) => match edge {
                Edge::Top => g.y <= 0,
                Edge::Bottom => g.y as i64 + g.height as i64 >= size.1 as i64 - 1,
                Edge::Left => g.x <= 0,
                Edge::Right => g.x as i64 + g.width as i64 >= size.0 as i64 - 1,
            },
        };
        if 0 < thickness && thickness < 200 && touches {
            thickness
        } else {
            0
        }
    }
}

/// What the surfaces of a layer take from an edge: as much as the thickest of
/// them.
pub open spec fn taken(layers: Seq<LayerBox>, edge: Edge, size: (i32, i32)) -> int
    decreases layers.len(),
{
    if layers.len() == 0 {
        0
    } else {
        let rest = taken(layers.drop_last(), edge, size);
        let last = layers.last().takes(edge, size);
        if last > rest {
            last
        } else {
            rest
        }
    }
}

fn reserved(layers: &Vec<LayerBox>, edge: Edge, size: (i32, i32)) -> (r: i64)
    ensures
        r == taken(layers@, edge, size),
        0 <= r < 200,
{
    let mut most: i64 = 0;
    let mut i: usize = 0;
    while i < layers.len()
        invariant
            0 <= i <= layers.len(),
            most == taken(layers@.take(i as int), edge, size),
            0 <= most < 200,
        decreases layers.len() - i,
    {
        let amount: i64 = layers[i].amount(edge, size);
        proof {
            let more = layers@.take(i + 1);
            assert(more.drop_last() =~= layers@.take(i as int));
            assert(more.last() == layers@[i as int]);
        }
        if amount > most {
            most = amount;
        }
        i = i + 1;
    }
    assert(layers@.take(i as int) =~= layers@);
    most
}

impl Screen {
    /// The size of the output, or a common one if there is none.
    pub open spec fn size(self) -> (i32, i32) {
        match self.output {
            Some(size) => size,
            None => (2560, 1600),
        }
    }

    /// The size that has the point in its middle at which new windows appear.
    pub open spec fn entry_size(self) -> (i32, i32) {
        match self.output {
            Some(size) => size,
            None => (1280, 800),
        }
    }

    /// The area for windows: the screen less the bars at its edges and a gap all
    /// around.
    pub open spec fn usable(self, gap: u32) -> Rect {
        let size = self.size();
        let (w, h) = (size.0 as int, size.1 as int);
        let top = taken(self.top@, Edge::Top, size);
        let bottom = taken(self.bottom@, Edge::Bottom, size);
        let left = taken(self.top@, Edge::Left, size);
        let right = taken(self.top@, Edge::Right, size);
        Rect {
            x: gap + left,
            y: gap + top,
            width: w - 2 * gap - left - right,
            height: h - 2 * gap - top - bottom,
        }
    }

    /// The whole screen.
    pub open spec fn full(self) -> WindowGeometry<i64> {
        WindowGeometry {
            x: 0,
            y: 0,
            width: self.size().0 as i64,
            height: self.size().1 as i64,
        }
    }

    fn measure(&self) -> (r: (i32, i32))
        ensures
            r == self.size(),
    {
        match self.output {
            Some(size) => size,
            None => (2560, 1600),
        }
    }

    /// The area for windows.
    pub fn usable_area(&self, gap: u32) -> (area: WindowGeometry<i64>)
        ensures
            area@ == self.usable(gap),
            area@.within(MAX_EXTENT as int),
    {
        let size = self.measure();
        let top: i64 = reserved(&self.top, Edge::Top, size);
        let bottom: i64 = reserved(&self.bottom, Edge::Bottom, size);
        let left: i64 = reserved(&self.top, Edge::Left, size);
        let right: i64 = reserved(&self.top, Edge::Right, size);
        let gap: i64 = gap as i64;
        WindowGeometry {
            x: gap + left,
            y: gap + top,
            width: size.0 as i64 - 2 * gap - left - right,
            height: size.1 as i64 - 2 * gap - top - bottom,
        }
    }

    /// The whole screen, for a window that fills it.
    pub fn output_full_area(&self) -> (area: WindowGeometry<i64>)
        ensures
            area == self.full(),
    {
        let size = self.measure();
        WindowGeometry { x: 0, y: 0, width: size.0 as i64, height: size.1 as i64 }
    }

    /// The middle of the output about which new windows appear.
    pub open spec fn middle(self) -> (i32, i32) {
        (half(self.entry_size().0 as int) as i32, half(self.entry_size().1 as int) as i32)
    }

    /// The size of the output about whose middle new windows appear.
    pub fn entry_output(&self) -> (r: (i32, i32))
        ensures
            r == self.entry_size(),
    {
        match self.output {
            Some(size) => size,
            None => (1280, 800),
        }
    }

    /// The point at which a new window is put first: the middle of the output.
    pub fn entry_point(&self) -> (r: (i32, i32))
        ensures
            r == self.middle(),
    {
        let size = self.entry_output();
        (size.0 / 2, size.1 / 2)
    }

    /// The size that is suggested to a surface on a layer: the output, and at
    /// least one pixel.
    pub fn layer_size(&self) -> (r: (i32, i32))
        ensures
            r == (match self.output {
                Some(size) => (
                    if size.0 > 1 { size.0 } else { 1 },
                    if size.1 > 1 { size.1 } else { 1 },
                ),
                None => (1920i32, 1080i32),
            }),
    {
        match self.output {
            Some(size) => (
                if size.0 > 1 { size.0 } else { 1 },
                if size.1 > 1 { size.1 } else { 1 },
            ),
            None => (1920, 1080),
        }
    }
}

/// What a layer takes from an edge is at least what each of its surfaces takes.
pub proof fn lemma_taken(layers: Seq<LayerBox>, edge: Edge, size: (i32, i32), i: int)
    requires
        0 <= i < layers.len(),
    ensures
        0 <= layers[i].takes(edge, size) <= taken(layers, edge, size),
    decreases layers.len(),
{
    if i < layers.len() - 1 {
        lemma_taken(layers.drop_last(), edge, size, i);
        assert(layers.drop_last()[i] == layers[i]);
    } else if layers.len() > 1 {
        lemma_taken(layers.drop_last(), edge, size, 0);
    }
}

/// Windows stay clear of every bar at an edge, and a gap away from it.
pub proof fn law_bars_stay_clear(screen: Screen, gap: u32, i: int)
    ensures
        0 <= i < screen.top@.len() ==> {
            let bar = screen.top@[i];
            let area = screen.usable(gap);
            &&& area.x >= gap + bar.takes(Edge::Left, screen.size())
            &&& area.y >= gap + bar.takes(Edge::Top, screen.size())
            &&& area.x + area.width <= screen.size().0 - gap - bar.takes(Edge::Right, screen.size())
        },
        0 <= i < screen.bottom@.len() ==> {
            let bar = screen.bottom@[i];
            let area = screen.usable(gap);
            area.y + area.height <= screen.size().1 - gap - bar.takes(Edge::Bottom, screen.size())
        },
{
    let size = screen.size();
    if 0 <= i < screen.top@.len() {
        lemma_taken(screen.top@, Edge::Left, size, i);
        lemma_taken(screen.top@, Edge::Top, size, i);
        lemma_taken(screen.top@, Edge::Right, size, i);
    }
    if 0 <= i < screen.bottom@.len() {
        lemma_taken(screen.bottom@, Edge::Bottom, size, i);
    }
}

/// Without bars the area is the whole screen less the gap on every side.
pub proof fn law_no_bars(screen: Screen, gap: u32)
    requires
        screen.top@.len() == 0,
        screen.bottom@.len() == 0,
    ensures
        screen.usable(gap) == (Rect {
            x: gap as int,
            y: gap as int,
            width: screen.size().0 - 2 * gap,
            height: screen.size().1 - 2 * gap,
        }),
{
}

/// A surface of a layer with the thickness of a bar takes that much from the edge that it
/// is placed at.
pub open spec fn bars(layers: Seq<LayerBox>, edge: Edge, size: (i32, i32), i: int) -> bool {
    &&& 0 <= i < layers.len()
    &&& layers[i].geometry is Some
    &&& match edge {
        Edge::Top => layers[i].geometry->0.y <= 0 && 0 < layers[i].buffer_height < 200,
        Edge::Bottom => layers[i].geometry->0.y + layers[i].geometry->0.height >= size.1 - 1 && 0
            < layers[i].buffer_height < 200,
        Edge::Left => layers[i].geometry->0.x <= 0 && 0 < layers[i].buffer_width < 200,
        Edge::Right => layers[i].geometry->0.x + layers[i].geometry->0.width >= size.0 - 1 && 0
            < layers[i].buffer_width < 200,
    }
}

/// The area for windows ends a gap away from every bar: from those of the top layer at the
/// top, at the left and at the right, and from those of the bottom layer at the bottom. It
/// ends nowhere else: at each edge it is a gap away from a bar, or from the edge.
pub proof fn law_area_ends_at_bars(screen: Screen, gap: u32, size: (i32, i32), i: int)
    requires
        screen.output == Some(size),
    ensures
        ({
            let area = screen.usable(gap);
            let (top, bottom) = (screen.top@, screen.bottom@);
            &&& bars(top, Edge::Top, size, i) ==> area.y >= top[i].buffer_height + gap
            &&& bars(top, Edge::Left, size, i) ==> area.x >= top[i].buffer_width + gap
            &&& bars(top, Edge::Right, size, i) ==> area.x + area.width <= size.0
                - top[i].buffer_width - gap
            &&& bars(bottom, Edge::Bottom, size, i) ==> area.y + area.height <= size.1
                - bottom[i].buffer_height - gap
            &&& area.y == gap || exists|k: int| #[trigger]
                bars(top, Edge::Top, size, k) && area.y == top[k].buffer_height + gap
            &&& area.x == gap || exists|k: int| #[trigger]
                bars(top, Edge::Left, size, k) && area.x == top[k].buffer_width + gap
            &&& area.x + area.width == size.0 - gap || exists|k: int| #[trigger]
                bars(top, Edge::Right, size, k) && area.x + area.width == size.0
                    - top[k].buffer_width - gap
            &&& area.y + area.height == size.1 - gap || exists|k: int| #[trigger]
                bars(bottom, Edge::Bottom, size, k) && area.y + area.height == size.1
                    - bottom[k].buffer_height - gap
        }),
{
    let (top, bottom) = (screen.top@, screen.bottom@);
    if 0 <= i < top.len() {
        lemma_taken(top, Edge::Top, size, i);
        lemma_taken(top, Edge::Left, size, i);
        lemma_taken(top, Edge::Right, size, i);
    }
    if 0 <= i < bottom.len() {
        lemma_taken(bottom, Edge::Bottom, size, i);
    }
    lemma_taken_by(top, Edge::Top, size);
    lemma_taken_by(top, Edge::Left, size);
    lemma_taken_by(top, Edge::Right, size);
    lemma_taken_by(bottom, Edge::Bottom, size);
}

/// What a layer takes from an edge is nothing, or what one of its surfaces takes.
proof fn lemma_taken_by(layers: Seq<LayerBox>, edge: Edge, size: (i32, i32))
    ensures
        taken(layers, edge, size) == 0 || exists|k: int| #[trigger]
            bars(layers, edge, size, k) && taken(layers, edge, size) == match edge {
                Edge::Top | Edge::Bottom => layers[k].buffer_height as int,
                Edge::Left | Edge::Right => layers[k].buffer_width as int,
            },
    decreases layers.len(),
{
    if layers.len() > 0 {
        let head = layers.drop_last();
        lemma_taken_by(head, edge, size);
        let last = layers.len() - 1;
        if taken(layers, edge, size) == taken(head, edge, size) {
            if taken(head, edge, size) != 0 {
                let k = choose|k: int| #[trigger]
                    bars(head, edge, size, k) && taken(head, edge, size) == match edge {
                        Edge::Top | Edge::Bottom => head[k].buffer_height as int,
                        Edge::Left | Edge::Right => head[k].buffer_width as int,
                    };
                assert(layers[k] == head[k]);
                assert(bars(layers, edge, size, k));
            }
        } else {
            assert(layers[last] == layers.last());
            assert(bars(layers, edge, size, last));
        }
    }
}

/// A window that fills the screen has the whole output, from its corner.
pub proof fn law_full_is_output(screen: Screen, size: (i32, i32))
    requires
        screen.output == Some(size),
    ensures
        screen.full().x == 0,
        screen.full().y == 0,
        screen.full().width == size.0,
        screen.full().height == size.1,
{
}

} // verus!
