//! The persistent dwindle tree: the split structure of the tiled windows of a
//! workspace, one leaf per window.

use super::{cuts, divide, laws, rects, room, splits_in_range, Division, Rect, WindowGeometry, MAX_EXTENT,
    MAX_TILES};
use crate::numerics::Numerics;
use crate::scalar::Double;
use vstd::prelude::*;

verus! {

/// A node of the layout tree.
pub enum LayoutNode {
    Leaf,
    Split { horizontal: bool, left: Box<LayoutNode>, right: Box<LayoutNode> },
}

/// The number of leaves of a node.
pub open spec fn leaves(node: LayoutNode) -> nat
    decreases node,
{
    match node {
        LayoutNode::Leaf => 1,
        LayoutNode::Split { horizontal, left, right } => leaves(*left) + leaves(*right),
    }
}

/// The node behind an optional pointer.
pub open spec fn opt_node(node: Option<Box<LayoutNode>>) -> Option<LayoutNode> {
    match node {
        None => None,
        Some(boxed) => Some(*boxed),
    }
}

/// The number of leaves of a tree, which may be empty.
pub open spec fn leaf_count(shape: Option<LayoutNode>) -> nat {
    match shape {
        None => 0,
        Some(node) => leaves(node),
    }
}

/// `node` with its rightmost leaf split in two.
pub open spec fn grown(node: LayoutNode, horizontal: bool) -> LayoutNode
    decreases node,
{
    match node {
        LayoutNode::Leaf => LayoutNode::Split {
            horizontal,
            left: Box::new(LayoutNode::Leaf),
            right: Box::new(LayoutNode::Leaf),
        },
        LayoutNode::Split { horizontal: h, left, right } => LayoutNode::Split {
            horizontal: h,
            left,
            right: Box::new(grown(*right, horizontal)),
        },
    }
}

/// `node` without its leaf number `idx`, counted from the left: the sibling of
/// that leaf takes the place of their split. Nothing is left of a single leaf.
pub open spec fn pruned(node: LayoutNode, idx: int) -> Option<LayoutNode>
    decreases node,
{
    match node {
        LayoutNode::Leaf => if idx == 0 {
            None
        } else {
            Some(node)
        },
        LayoutNode::Split { horizontal, left, right } => if idx < leaves(*left) {
            match pruned(*left, idx) {
                None => Some(*right),
                Some(l) => Some(LayoutNode::Split { horizontal, left: Box::new(l), right }),
            }
        } else {
            match pruned(*right, idx - leaves(*left)) {
                None => Some(*left),
                Some(r) => Some(LayoutNode::Split { horizontal, left, right: Box::new(r) }),
            }
        },
    }
}

/// A tree after one window more: the first window gets the whole area, and every
/// further one splits the rightmost leaf, side by side when the number of
/// windows was odd and one above the other when it was even.
pub open spec fn inserted(shape: Option<LayoutNode>) -> Option<LayoutNode> {
    match shape {
        None => Some(LayoutNode::Leaf),
        Some(node) => Some(grown(node, leaves(node) % 2 == 1)),
    }
}

/// A tree after leaf number `idx` has gone. A number past the last leaf changes
/// nothing.
pub open spec fn removed(shape: Option<LayoutNode>, idx: int) -> Option<LayoutNode> {
    match shape {
        None => None,
        Some(node) => if 0 <= idx < leaves(node) {
            pruned(node, idx)
        } else {
            shape
        },
    }
}

/// `tiles` are the tiles of the leaves of `node` over `area`, from the left.
pub open spec fn node_tiles<N: Numerics>(
    node: LayoutNode,
    area: Rect,
    by: Division,
    num: N,
    tiles: Seq<Rect>,
) -> bool
    decreases node,
{
    match node {
        LayoutNode::Leaf => tiles == seq![area],
        LayoutNode::Split { horizontal, left, right } => {
            &&& tiles.len() == leaves(node)
            &&& exists|cut: i64|
                {
                    &&& #[trigger] cuts(num, by, area, horizontal, cut)
                    &&& node_tiles(
                        *left,
                        area.first_part(horizontal, cut as int),
                        by,
                        num,
                        tiles.take(leaves(*left) as int),
                    )
                    &&& node_tiles(
                        *right,
                        area.second_part(horizontal, cut as int, by.gap as int),
                        by,
                        num,
                        tiles.skip(leaves(*left) as int),
                    )
                }
        },
    }
}

/// `tiles` are the tiles of a tree over `area`; an empty tree has none.
pub open spec fn tree_tiles<N: Numerics>(
    shape: Option<LayoutNode>,
    area: Rect,
    by: Division,
    num: N,
    tiles: Seq<Rect>,
) -> bool {
    match shape {
        None => tiles.len() == 0,
        Some(node) => node_tiles(node, area, by, num, tiles),
    }
}

/// Splits the rightmost leaf of `node`.
pub fn split_deepest_right(node: Box<LayoutNode>, horizontal: bool) -> (r: Box<LayoutNode>)
    ensures
        *r == grown(*node, horizontal),
    decreases node,
{
    match *node {
        LayoutNode::Leaf => Box::new(
            LayoutNode::Split {
                horizontal,
                left: Box::new(LayoutNode::Leaf),
                right: Box::new(LayoutNode::Leaf),
            },
        ),
        LayoutNode::Split { horizontal: h, left, right } => Box::new(
            LayoutNode::Split { horizontal: h, left, right: split_deepest_right(right, horizontal) },
        ),
    }
}

/// Removes the leaf of `node` at which the running `counter` reaches `idx`,
/// unless a leaf is already `done`.
pub fn remove_node(
    node: Box<LayoutNode>,
    idx: usize,
    counter: &mut usize,
    done: &mut bool,
) -> (r: Option<Box<LayoutNode>>)
    requires
        !*old(done) ==> *old(counter) + leaves(*node) <= usize::MAX,
    ensures
        *old(done) ==> *final(done) && *final(counter) == *old(counter) && r == Some(node),
        !*old(done) && *old(counter) <= idx < *old(counter) + leaves(*node) ==> {
            &&& *final(done)
            &&& *final(counter) == idx
            &&& opt_node(r) == pruned(*node, idx - *old(counter))
        },
        !*old(done) && !(*old(counter) <= idx < *old(counter) + leaves(*node)) ==> {
            &&& !*final(done)
            &&& *final(counter) == *old(counter) + leaves(*node)
            &&& r == Some(node)
        },
    decreases node,
{
    if *done {
        return Some(node);
    }
    match *node {
        LayoutNode::Leaf => {
            if *counter == idx {
                *done = true;
                return None;
            }
            *counter = *counter + 1;
            Some(Box::new(LayoutNode::Leaf))
        },
        LayoutNode::Split { horizontal, left, right } => {
            match remove_node(left, idx, counter, done) {
                None => Some(right),
                Some(new_left) => match remove_node(right, idx, counter, done) {
                    None => Some(new_left),
                    Some(new_right) => Some(
                        Box::new(LayoutNode::Split { horizontal, left: new_left, right: new_right }),
                    ),
                },
            }
        },
    }
}

/// Appends the tiles of the leaves of `node` over `area`.
pub fn arrange_node<N: Numerics>(
    node: &LayoutNode,
    area: WindowGeometry<i64>,
    by: Division,
    num: &N,
    out: &mut Vec<WindowGeometry<i64>>,
)
    requires
        splits_in_range(*num),
        area@.within(room(leaves(*node) as int)),
    ensures
        old(out)@.is_prefix_of(final(out)@),
        final(out)@.len() == old(out)@.len() + leaves(*node),
        node_tiles(
            *node,
            area@,
            by,
            *num,
            rects(final(out)@.skip(old(out)@.len() as int)),
        ),
    decreases node,
{
    match node {
        LayoutNode::Leaf => {
            out.push(area);
            assert(rects(out@.skip(old(out)@.len() as int)) =~= seq![area@]);
        },
        LayoutNode::Split { horizontal, left, right } => {
            let horizontal = *horizontal;
            let extent: i64 = if horizontal {
                area.width
            } else {
                area.height
            };
            let cut: i64 = num.split(by.ratio, by.gap, extent);
            proof {
                laws::lemma_leaves_positive(**left);
                laws::lemma_leaves_positive(**right);
                laws::lemma_room(leaves(*node) as int);
                laws::lemma_room_shrinks(leaves(**left) as int, leaves(*node) - 1);
                laws::lemma_room_shrinks(leaves(**right) as int, leaves(*node) - 1);
            }
            let (first, second) = divide(area, horizontal, cut, by.gap as i64);
            arrange_node(left, first, by, num, out);
            let ghost mid = out@;
            arrange_node(right, second, by, num, out);
            proof {
                let from = old(out)@.len() as int;
                let n = leaves(**left) as int;
                let tiles = rects(out@.skip(from));
                assert(tiles.take(n) =~= rects(mid.skip(from)));
                assert(tiles.skip(n) =~= rects(out@.skip(mid.len() as int)));
                assert(cuts(*num, by, area@, horizontal, cut));
            }
        },
    }
}

/// The layout tree of one workspace.
pub struct LayoutTree {
    root: Option<Box<LayoutNode>>,
    split_ratio: Double,
    inner_gap: u32,
    len: usize,
}

/// What a layout tree stands for.
pub struct TreeView {
    pub shape: Option<LayoutNode>,
    pub split_ratio: Double,
    pub inner_gap: u32,
}

impl TreeView {
    /// The number of leaves.
    pub open spec fn count(self) -> nat {
        leaf_count(self.shape)
    }

    /// How the tree divides an area.
    pub open spec fn division(self) -> Division {
        Division { ratio: self.split_ratio, gap: self.inner_gap }
    }

    /// The tree with one leaf more.
    pub open spec fn inserted(self) -> TreeView {
        TreeView { shape: inserted(self.shape), ..self }
    }

    /// The tree without leaf number `idx`.
    pub open spec fn removed(self, idx: int) -> TreeView {
        TreeView { shape: removed(self.shape, idx), ..self }
    }

    /// `tiles` are the tiles of the tree over `area`.
    pub open spec fn tiles<N: Numerics>(self, area: Rect, num: N, tiles: Seq<Rect>) -> bool {
        tree_tiles(self.shape, area, self.division(), num, tiles)
    }
}

impl View for LayoutTree {
    type V = TreeView;

    closed spec fn view(&self) -> TreeView {
        TreeView {
            shape: opt_node(self.root),
            split_ratio: self.split_ratio,
            inner_gap: self.inner_gap,
        }
    }
}

impl LayoutTree {
    /// The stored length is the number of leaves.
    pub closed spec fn wf(self) -> bool {
        self.len == self@.count()
    }

    /// An empty tree.
    pub fn new(split_ratio: Double, inner_gap: u32) -> (tree: Self)
        ensures
            tree.wf(),
            tree@ == (TreeView { shape: None, split_ratio, inner_gap }),
    {
        LayoutTree { root: None, split_ratio, inner_gap, len: 0 }
    }

    /// The number of leaves.
    pub fn len(&self) -> (n: usize)
        requires
            self.wf(),
        ensures
            n == self@.count(),
    {
        self.len
    }

    /// The ratio of the splits.
    pub fn split_ratio(&self) -> (r: Double)
        ensures
            r == self@.split_ratio,
    {
        self.split_ratio
    }

    /// Gives all splits another ratio.
    pub fn set_split_ratio(&mut self, ratio: Double)
        ensures
            old(self).wf() ==> final(self).wf(),
            final(self)@ == (TreeView { split_ratio: ratio, ..old(self)@ }),
    {
        self.split_ratio = ratio;
    }

    /// The gap that the tree was made with.
    pub fn inner_gap(&self) -> (r: u32)
        ensures
            r == self@.inner_gap,
    {
        self.inner_gap
    }

    /// Adds the leaf of one more window, at the right end.
    pub fn insert(&mut self)
        requires
            old(self).wf(),
            old(self)@.count() < usize::MAX,
        ensures
            final(self).wf(),
            final(self)@ == old(self)@.inserted(),
    {
        proof {
            laws::law_insert_adds_one(self@.shape);
        }
        let horizontal = self.len % 2 == 1;
        self.len = self.len + 1;
        self.root = Some(
            match self.root.take() {
                None => Box::new(LayoutNode::Leaf),
                Some(root) => split_deepest_right(root, horizontal),
            },
        );
    }

    /// Removes leaf number `idx`. A number past the last leaf changes nothing.
    pub fn remove(&mut self, idx: usize)
        requires
            old(self).wf(),
        ensures
            final(self).wf(),
            final(self)@ == old(self)@.removed(idx as int),
    {
        proof {
            laws::law_remove_takes_one(self@.shape, idx as int);
        }
        if let Some(root) = self.root.take() {
            let mut counter: usize = 0;
            let mut done = false;
            self.root = remove_node(root, idx, &mut counter, &mut done);
            if done {
                self.len = self.len - 1;
            }
        }
    }

    /// Computes the tile of every leaf over `area`.
    pub fn arrange<N: Numerics>(&self, area: WindowGeometry<i64>, num: &N) -> (tiles: Vec<
        WindowGeometry<i64>,
    >)
        requires
            self.wf(),
            self@.count() <= MAX_TILES,
            area@.within(MAX_EXTENT as int),
            splits_in_range(*num),
        ensures
            tiles@.len() == self@.count(),
            self@.tiles(area@, *num, rects(tiles@)),
    {
        let mut tiles: Vec<WindowGeometry<i64>> = Vec::with_capacity(self.len);
        if let Some(root) = &self.root {
            proof {
                laws::lemma_room_at_start(leaves(**root) as int);
            }
            let by = Division { ratio: self.split_ratio, gap: self.inner_gap };
            arrange_node(root, area, by, num, &mut tiles);
            assert(tiles@.skip(0) =~= tiles@);
        }
        tiles
    }
}

} // verus!
