//! Where the leaves of a layout tree are: the turns that lead from the root to each.

use super::laws::{all_proper, inside, law_remove_takes_one, law_tiles_inside,
    lemma_first_cut, lemma_leaves_positive, lemma_split_cut};
use super::tree::{
    grown, inserted, leaf_count, leaves, node_tiles, pruned, removed, tree_tiles, LayoutNode,
    TreeView,
};
use super::{cuts, dwindles, rects, Columns, Division, DwindleLayout, LayoutEngine,
    MasterStackLayout, Rect, Row, WindowGeometry};
use crate::scalar::Double;
use crate::numerics::Numerics;
use vstd::prelude::*;

verus! {

/// A turn on the way to a leaf: the direction of a split, and the side of it that the
/// leaf is on.
pub struct Turn {
    pub horizontal: bool,
    pub second: bool,
}

/// The paths of a side of a split, seen from the split.
pub open spec fn through(turn: Turn, paths: Seq<Seq<Turn>>) -> Seq<Seq<Turn>> {
    Seq::new(paths.len(), |i: int| seq![turn] + paths[i])
}

/// The turns that lead to each leaf of a node, from the left.
pub open spec fn node_paths(node: LayoutNode) -> Seq<Seq<Turn>>
    decreases node,
{
    match node {
        LayoutNode::Leaf => seq![Seq::<Turn>::empty()],
        LayoutNode::Split { horizontal, left, right } => through(
            Turn { horizontal, second: false },
            node_paths(*left),
        ) + through(Turn { horizontal, second: true }, node_paths(*right)),
    }
}

/// The turns that lead to each leaf of a tree, from the left.
pub open spec fn paths(shape: Option<LayoutNode>) -> Seq<Seq<Turn>> {
    match shape {
        None => Seq::empty(),
        Some(node) => node_paths(node),
    }
}

/// Whether a path goes through the split that the path `gone` ends at.
pub open spec fn beside(path: Seq<Turn>, gone: Seq<Turn>) -> bool {
    path.len() >= gone.len() && path.take(gone.len() - 1) == gone.take(gone.len() - 1)
}

/// A path without its turn number `d`.
pub open spec fn shortcut(path: Seq<Turn>, d: int) -> Seq<Turn> {
    path.take(d) + path.skip(d + 1)
}

/// There is a path for every leaf.
pub proof fn law_path_per_leaf(shape: Option<LayoutNode>)
    ensures
        paths(shape).len() == leaf_count(shape),
    decreases leaf_count(shape),
{
    if let Some(node) = shape {
        if let LayoutNode::Split { horizontal, left, right } = node {
            lemma_leaves_positive(*left);
            lemma_leaves_positive(*right);
            law_path_per_leaf(Some(*left));
            law_path_per_leaf(Some(*right));
        }
    }
}

/// Trees in which the same turns lead to the leaves are the same.
pub proof fn law_paths_tell_trees(a: Option<LayoutNode>, b: Option<LayoutNode>)
    requires
        paths(a) == paths(b),
    ensures
        a == b,
{
    law_path_per_leaf(a);
    law_path_per_leaf(b);
    if let Some(m) = a {
        lemma_leaves_positive(m);
    }
    if let Some(n) = b {
        lemma_leaves_positive(n);
    }
    if a is Some && b is Some {
        lemma_paths_tell_nodes(a->0, b->0);
    }
}

proof fn lemma_paths_tell_nodes(a: LayoutNode, b: LayoutNode)
    requires
        node_paths(a) == node_paths(b),
    ensures
        a == b,
    decreases a,
{
    let p = node_paths(a);
    law_path_per_leaf(Some(a));
    law_path_per_leaf(Some(b));
    match (a, b) {
        (LayoutNode::Leaf, LayoutNode::Leaf) => {},
        (LayoutNode::Split { .. }, LayoutNode::Leaf) => {
            lemma_split_paths(a);
            assert(p[0].len() == 0);
        },
        (LayoutNode::Leaf, LayoutNode::Split { .. }) => {
            lemma_split_paths(b);
            assert(p[0].len() == 0);
        },
        (
            LayoutNode::Split { horizontal: h, left, right },
            LayoutNode::Split { horizontal: g, left: l, right: r },
        ) => {
            lemma_split_paths(a);
            lemma_split_paths(b);
            let n = leaves(*left) as int;
            let m = leaves(*l) as int;
            lemma_leaves_positive(*left);
            lemma_leaves_positive(*l);
            lemma_leaves_positive(*right);
            lemma_leaves_positive(*r);
            assert(p[0][0].horizontal == h);
            assert(p[0][0].horizontal == g);
            if n < m {
                assert(p[n][0].second);
            } else if m < n {
                assert(p[m][0].second);
            }
            assert(node_paths(*left) =~= node_paths(*l)) by {
                assert forall|i: int| 0 <= i < n implies node_paths(*left)[i] == node_paths(
                    *l,
                )[i] by {
                    assert(p[i].drop_first() == node_paths(*left)[i]);
                    assert(p[i].drop_first() == node_paths(*l)[i]);
                }
            }
            assert(node_paths(*right) =~= node_paths(*r)) by {
                assert forall|i: int| 0 <= i < leaves(*right) implies node_paths(*right)[i]
                    == node_paths(*r)[i] by {
                    assert(p[i + n].drop_first() == node_paths(*right)[i]);
                    assert(p[i + n].drop_first() == node_paths(*r)[i]);
                }
            }
            lemma_paths_tell_nodes(*left, *l);
            lemma_paths_tell_nodes(*right, *r);
        },
    }
}

/// The paths of a split are those of its sides, behind one turn.
proof fn lemma_split_paths(node: LayoutNode)
    requires
        node is Split,
    ensures
        node_paths(node).len() == leaves(node),
        node_paths(*node->left).len() == leaves(*node->left),
        node_paths(*node->right).len() == leaves(*node->right),
        forall|i: int|
            0 <= i < leaves(*node->left) ==> {
                let path = #[trigger] node_paths(node)[i];
                &&& path == seq![Turn { horizontal: node->horizontal, second: false }]
                    + node_paths(*node->left)[i]
                &&& path.len() == node_paths(*node->left)[i].len() + 1
                &&& path[0] == (Turn { horizontal: node->horizontal, second: false })
                &&& path.drop_first() == node_paths(*node->left)[i]
            },
        forall|i: int|
            leaves(*node->left) <= i < leaves(node) ==> {
                let path = #[trigger] node_paths(node)[i];
                let rest = node_paths(*node->right)[i - leaves(*node->left)];
                &&& path == seq![Turn { horizontal: node->horizontal, second: true }] + rest
                &&& path.len() == rest.len() + 1
                &&& path[0] == (Turn { horizontal: node->horizontal, second: true })
                &&& path.drop_first() == rest
            },
{
    law_path_per_leaf(Some(node));
    law_path_per_leaf(Some(*node->left));
    law_path_per_leaf(Some(*node->right));
    let n = leaves(*node->left) as int;
    assert forall|i: int| 0 <= i < leaves(node) implies (#[trigger] node_paths(
        node,
    )[i]).drop_first() == (if i < n {
        node_paths(*node->left)[i]
    } else {
        node_paths(*node->right)[i - n]
    }) by {
        assert(node_paths(node)[i].drop_first() =~= (if i < n {
            node_paths(*node->left)[i]
        } else {
            node_paths(*node->right)[i - n]
        }));
    }
}

/// Taking turn number `d` out behind a first turn is taking turn `d + 1` out.
proof fn lemma_shortcut_behind(turn: Turn, path: Seq<Turn>, d: int)
    requires
        0 <= d < path.len(),
    ensures
        shortcut(seq![turn] + path, d + 1) == seq![turn] + shortcut(path, d),
{
    assert(shortcut(seq![turn] + path, d + 1) =~= seq![turn] + shortcut(path, d));
}

/// Whether a path goes through a split does not depend on the turns before it.
proof fn lemma_beside_behind(turn: Turn, path: Seq<Turn>, gone: Seq<Turn>)
    requires
        gone.len() >= 1,
    ensures
        beside(seq![turn] + path, seq![turn] + gone) <==> beside(path, gone),
{
    let (p, g) = (seq![turn] + path, seq![turn] + gone);
    let d = gone.len() - 1;
    if beside(path, gone) {
        assert(p.take(d + 1) =~= seq![turn] + path.take(d));
        assert(g.take(d + 1) =~= seq![turn] + gone.take(d));
    }
    if beside(p, g) {
        assert(path.take(d) =~= p.take(d + 1).drop_first());
        assert(gone.take(d) =~= g.take(d + 1).drop_first());
    }
}

/// When a leaf goes, its split goes with it and nothing else: the leaves on the other
/// side of that split are reached without the turn at it, and every other leaf by the
/// turns that led to it before. So every other split keeps its direction and both of
/// its sides.
pub proof fn law_removal_drops_one_turn(shape: Option<LayoutNode>, idx: int, k: int)
    requires
        0 <= idx < leaf_count(shape),
        0 <= k < leaf_count(shape),
        k != idx,
    ensures
        ({
            let gone = paths(shape)[idx];
            let path = paths(shape)[k];
            let rest = paths(removed(shape, idx));
            &&& rest.len() == leaf_count(shape) - 1
            &&& gone.len() >= 1
            &&& rest[if k < idx {
                k
            } else {
                k - 1
            }] == if beside(path, gone) {
                shortcut(path, gone.len() - 1)
            } else {
                path
            }
        }),
    decreases leaf_count(shape),
{
    law_path_per_leaf(shape);
    law_remove_takes_one(shape, idx);
    law_path_per_leaf(removed(shape, idx));
    let node = shape->0;
    if let LayoutNode::Split { horizontal, left, right } = node {
        let n = leaves(*left) as int;
        let (one, two) = (Turn { horizontal, second: false }, Turn { horizontal, second: true });
        lemma_leaves_positive(*left);
        lemma_leaves_positive(*right);
        lemma_split_paths(node);
        let gone = node_paths(node)[idx];
        let path = node_paths(node)[k];
        let side = if idx < n {
            *left
        } else {
            *right
        };
        let at = if idx < n {
            idx
        } else {
            idx - n
        };
        let lost = node_paths(side)[at];
        law_path_per_leaf(Some(side));
        law_remove_takes_one(Some(side), at);
        if leaves(side) == 1 {
            assert(side is Leaf) by {
                if let LayoutNode::Split { left: a, right: b, .. } = side {
                    lemma_leaves_positive(*a);
                    lemma_leaves_positive(*b);
                }
            }
            assert(lost.len() == 0);
            assert(gone.len() == 1);
            assert(path.take(0) =~= gone.take(0));
            assert(beside(path, gone));
            assert(shortcut(path, 0) =~= path.drop_first());
        } else {
            let kept = removed(Some(side), at)->0;
            let after = removed(shape, idx)->0;
            lemma_split_paths(after);
            if (idx < n) == (k < n) {
                let j = if idx < n {
                    k
                } else {
                    k - n
                };
                law_removal_drops_one_turn(Some(side), at, j);
                let turn = if idx < n {
                    one
                } else {
                    two
                };
                lemma_beside_behind(turn, node_paths(side)[j], lost);
                if beside(node_paths(side)[j], lost) {
                    lemma_shortcut_behind(turn, node_paths(side)[j], lost.len() - 1);
                }
            } else {
                let j = if idx < n {
                    k - n
                } else {
                    k
                };
                law_removal_drops_one_turn(Some(side), at, if at == 0 {
                    1
                } else {
                    0
                });
                assert(gone.len() >= 2);
                assert(!beside(path, gone)) by {
                    if beside(path, gone) {
                        assert(path.take(gone.len() - 1)[0] == path[0]);
                        assert(gone.take(gone.len() - 1)[0] == gone[0]);
                    }
                }
            }
        }
    }
}

/// When a leaf goes that is one whole side of a split, the other side takes the place
/// of the split unchanged: its tiles over an area are those of the tree that is left.
pub proof fn law_sibling_takes_place<N: Numerics>(
    horizontal: bool,
    sibling: LayoutNode,
    leaf_first: bool,
    area: Rect,
    by: Division,
    num: N,
    tiles: Seq<Rect>,
)
    ensures
        ({
            let (first, second) = if leaf_first {
                (LayoutNode::Leaf, sibling)
            } else {
                (sibling, LayoutNode::Leaf)
            };
            let node = LayoutNode::Split {
                horizontal,
                left: Box::new(first),
                right: Box::new(second),
            };
            let idx = if leaf_first {
                0
            } else {
                leaf_count(Some(sibling)) as int
            };
            &&& removed(Some(node), idx) == Some(sibling)
            &&& tree_tiles(removed(Some(node), idx), area, by, num, tiles) <==> node_tiles(
                sibling,
                area,
                by,
                num,
                tiles,
            )
        }),
{
    lemma_leaves_positive(sibling);
    reveal_with_fuel(leaves, 2);
    reveal_with_fuel(pruned, 2);
}

/// When a leaf goes out of a side of a split that has more leaves, the split stays, and
/// so does its other side.
pub proof fn law_other_side_stays(node: LayoutNode, idx: int)
    requires
        node is Split,
        0 <= idx < leaves(node),
        leaves(if idx < leaves(*node->left) {
            *node->left
        } else {
            *node->right
        }) >= 2,
    ensures
        removed(Some(node), idx) matches Some(rest) && {
            &&& rest is Split
            &&& rest->horizontal == node->horizontal
            &&& idx < leaves(*node->left) ==> rest->right == node->right && Some(*rest->left)
                == removed(Some(*node->left), idx)
            &&& idx >= leaves(*node->left) ==> rest->left == node->left && Some(*rest->right)
                == removed(Some(*node->right), idx - leaves(*node->left))
        },
{
    let n = leaves(*node->left) as int;
    if idx < n {
        law_remove_takes_one(Some(*node->left), idx);
    } else {
        law_remove_takes_one(Some(*node->right), idx - n);
    }
}

/// A leaf that is inserted is the last one, beside what was the last leaf: both are
/// where that leaf was, on the two sides of a new split, side by side if the number of
/// leaves was odd and one above the other if it was even. All other leaves stay.
pub proof fn law_insertion_adds_one_turn(shape: Option<LayoutNode>, k: int)
    ensures
        ({
            let was = paths(shape);
            let is = paths(inserted(shape));
            let n = was.len() as int;
            &&& is.len() == n + 1
            &&& n == 0 ==> is[0] == Seq::<Turn>::empty()
            &&& 0 <= k < n - 1 ==> is[k] == was[k]
            &&& n > 0 ==> is[n - 1] == was[n - 1].push(
                Turn { horizontal: n % 2 == 1, second: false },
            ) && is[n] == was[n - 1].push(Turn { horizontal: n % 2 == 1, second: true })
        }),
{
    law_path_per_leaf(shape);
    if let Some(node) = shape {
        lemma_grown_paths(node, leaves(node) % 2 == 1, k);
    }
}

proof fn lemma_grown_paths(node: LayoutNode, horizontal: bool, k: int)
    ensures
        ({
            let was = node_paths(node);
            let is = node_paths(grown(node, horizontal));
            let n = was.len() as int;
            &&& is.len() == n + 1
            &&& n >= 1
            &&& 0 <= k < n - 1 ==> is[k] == was[k]
            &&& is[n - 1] == was[n - 1].push(Turn { horizontal, second: false })
            &&& is[n] == was[n - 1].push(Turn { horizontal, second: true })
        }),
    decreases node,
{
    let after = grown(node, horizontal);
    lemma_split_paths(after);
    match node {
        LayoutNode::Leaf => {
            reveal_with_fuel(node_paths, 2);
            reveal_with_fuel(leaves, 2);
            let is = node_paths(after);
            assert(node_paths(LayoutNode::Leaf)[0] =~= Seq::<Turn>::empty());
            assert(is[0] =~= node_paths(node)[0].push(Turn { horizontal, second: false }));
            assert(is[1] =~= node_paths(node)[0].push(Turn { horizontal, second: true }));
        },
        LayoutNode::Split { horizontal: h, left, right } => {
            lemma_split_paths(node);
            lemma_leaves_positive(*right);
            let n = leaves(*left) as int;
            let m = leaves(node) as int;
            lemma_grown_paths(*right, horizontal, k - n);
            law_path_per_leaf(Some(grown(*right, horizontal)));
            let (was, is) = (node_paths(node), node_paths(after));
            assert(is[m - 1] =~= was[m - 1].push(Turn { horizontal, second: false }));
            assert(is[m] =~= was[m - 1].push(Turn { horizontal, second: true }));
        },
    }
}

/// A split divides its area side by side or one above the other: there is a cut,
/// answered for that side of the area, such that the tiles of one side of the split lie
/// before the cut and those of the other behind the cut and the gap. This needs that no
/// tile has a negative side.
pub proof fn law_split_divides<N: Numerics>(
    node: LayoutNode,
    area: Rect,
    by: Division,
    num: N,
    tiles: Seq<Rect>,
) -> (cut: i64)
    requires
        node is Split,
        node_tiles(node, area, by, num, tiles),
        all_proper(tiles),
    ensures
        node->horizontal ==> {
            &&& call_ensures(N::split, (&num, by.ratio, by.gap, area.width as i64), cut)
            &&& forall|k: int|
                0 <= k < leaves(*node->left) ==> inside(
                    #[trigger] tiles[k],
                    (Rect { x: area.x, y: area.y, width: cut as int, height: area.height }),
                )
            &&& forall|k: int|
                leaves(*node->left) <= k < tiles.len() ==> inside(
                    #[trigger] tiles[k],
                    (Rect {
                        x: area.x + cut + by.gap,
                        y: area.y,
                        width: area.width - cut - by.gap,
                        height: area.height,
                    }),
                )
        },
        !node->horizontal ==> {
            &&& call_ensures(N::split, (&num, by.ratio, by.gap, area.height as i64), cut)
            &&& forall|k: int|
                0 <= k < leaves(*node->left) ==> inside(
                    #[trigger] tiles[k],
                    (Rect { x: area.x, y: area.y, width: area.width, height: cut as int }),
                )
            &&& forall|k: int|
                leaves(*node->left) <= k < tiles.len() ==> inside(
                    #[trigger] tiles[k],
                    (Rect {
                        x: area.x,
                        y: area.y + cut + by.gap,
                        width: area.width,
                        height: area.height - cut - by.gap,
                    }),
                )
        },
{
    let (cut, n) = lemma_split_cut(node, area, by, num, tiles);
    let first = area.first_part(node->horizontal, cut as int);
    let second = area.second_part(node->horizontal, cut as int, by.gap as int);
    law_tiles_inside(*node->left, first, by, num, tiles.take(n));
    law_tiles_inside(*node->right, second, by, num, tiles.skip(n));
    assert forall|k: int| 0 <= k < n implies inside(#[trigger] tiles[k], first) by {
        assert(tiles[k] == tiles.take(n)[k]);
    }
    assert forall|k: int| n <= k < tiles.len() implies inside(#[trigger] tiles[k], second) by {
        assert(tiles[k] == tiles.skip(n)[k - n]);
    }
    cut
}

/// Of two or more windows that dwindle, the first has one side of the area up to the
/// cut that is answered for it and all of the other side, and the others dwindle over
/// what is left behind the cut and the gap, in the other direction.
pub proof fn law_first_window_large<N: Numerics>(
    n: nat,
    area: Rect,
    horizontal: bool,
    by: Division,
    num: N,
    tiles: Seq<Rect>,
) -> (cut: i64)
    requires
        n >= 2,
        dwindles(n, area, horizontal, by, num, tiles),
    ensures
        tiles.len() == n,
        horizontal ==> {
            &&& call_ensures(N::split, (&num, by.ratio, by.gap, area.width as i64), cut)
            &&& tiles[0] == (Rect { x: area.x, y: area.y, width: cut as int, height: area.height })
            &&& dwindles(
                (n - 1) as nat,
                (Rect {
                    x: area.x + cut + by.gap,
                    y: area.y,
                    width: area.width - cut - by.gap,
                    height: area.height,
                }),
                false,
                by,
                num,
                tiles.drop_first(),
            )
        },
        !horizontal ==> {
            &&& call_ensures(N::split, (&num, by.ratio, by.gap, area.height as i64), cut)
            &&& tiles[0] == (Rect { x: area.x, y: area.y, width: area.width, height: cut as int })
            &&& dwindles(
                (n - 1) as nat,
                (Rect {
                    x: area.x,
                    y: area.y + cut + by.gap,
                    width: area.width,
                    height: area.height - cut - by.gap,
                }),
                true,
                by,
                num,
                tiles.drop_first(),
            )
        },
{
    let cut = lemma_first_cut(n, area, horizontal, by, num, tiles);
    assert(cuts(num, by, area, horizontal, cut));
    cut
}

/// Windows that dwindle start side by side: the first one has the whole height, and the
/// second one starts right of it, a gap away, at the top.
pub proof fn law_dwindle_starts_side_by_side<N: Numerics>(
    layout: DwindleLayout,
    n: nat,
    area: WindowGeometry<i64>,
    num: N,
    tiles: Seq<WindowGeometry<i64>>,
)
    requires
        n >= 2,
        layout.arranges(n, area, num, tiles),
    ensures
        tiles.len() == n,
        tiles[0].x == area.x,
        tiles[0].y == area.y,
        tiles[0].height == area.height,
        tiles[1].x == area.x + tiles[0].width + layout.inner_gap,
        tiles[1].y == area.y,
        n == 2 ==> tiles[1].height == area.height && tiles[1].x + tiles[1].width == area.x
            + area.width,
        call_ensures(
            N::split,
            (&num, layout.split_ratio, layout.inner_gap, area.width),
            tiles[0].width,
        ),
{
    let list = rects(tiles);
    let cut = law_first_window_large(n, area@, true, layout.division(), num, list);
    assert(list[0] == tiles[0]@);
    assert(list[1] == tiles[1]@);
    let rest = list.drop_first();
    assert(rest[0] == list[1]);
    if n > 2 {
        law_first_window_large(
            (n - 1) as nat,
            area@.second_part(true, cut as int, layout.inner_gap as int),
            false,
            layout.division(),
            num,
            rest,
        );
    }
}

/// In a master-stack arrangement one window has the master column with the whole height, at
/// the left; all others are in the other column, one row each, in their order. One window
/// alone has the whole area.
pub proof fn law_master_and_stack<N: Numerics>(
    layout: MasterStackLayout,
    n: nat,
    area: WindowGeometry<Double>,
    num: N,
    tiles: Seq<WindowGeometry<Double>>,
) -> (columns: Columns)
    requires
        n <= usize::MAX,
        layout.arranges(n, area, num, tiles),
    ensures
        n == 0 ==> tiles.len() == 0,
        n == 1 ==> tiles == seq![area],
        n >= 2 ==> {
            &&& call_ensures(N::columns, (&num, area, layout.master_ratio), columns)
            &&& tiles[0].x == area.x
            &&& tiles[0].y == area.y
            &&& tiles[0].height == area.height
            &&& tiles[0].width == columns.master_width
            &&& forall|i: int|
                1 <= i < n ==> {
                    &&& (#[trigger] tiles[i]).x == columns.stack_x
                    &&& tiles[i].width == columns.stack_width
                    &&& call_ensures(
                        N::row,
                        (&num, area, (i - 1) as usize, (n - 1) as usize),
                        Row { y: tiles[i].y, height: tiles[i].height },
                    )
                }
        },
{
    if n >= 2 {
        let c = choose|c: Columns|
            {
                &&& #[trigger] call_ensures(N::columns, (&num, area, layout.master_ratio), c)
                &&& tiles[0] == (WindowGeometry { width: c.master_width, ..area })
                &&& forall|i: usize|
                    0 <= i < n - 1 ==> {
                        let tile = #[trigger] tiles[i + 1];
                        &&& tile.x == c.stack_x
                        &&& tile.width == c.stack_width
                        &&& call_ensures(
                            N::row,
                            (&num, area, i, (n - 1) as usize),
                            Row { y: tile.y, height: tile.height },
                        )
                    }
            };
        assert forall|i: int| 1 <= i < n implies {
            &&& (#[trigger] tiles[i]).x == c.stack_x
            &&& tiles[i].width == c.stack_width
            &&& call_ensures(
                N::row,
                (&num, area, (i - 1) as usize, (n - 1) as usize),
                Row { y: tiles[i].y, height: tiles[i].height },
            )
        } by {
            let k = (i - 1) as usize;
            assert(tiles[k + 1] == tiles[i]);
        }
        c
    } else {
        assert(n == 1 ==> tiles =~= seq![area]);
        arbitrary()
    }
}

/// A tree divides by its own ratio and leaves its own gap: where its first split is side by
/// side, the tiles behind the cut start that gap right of it, and where it is not, below it.
/// This needs that no tile has a negative side.
pub proof fn law_tree_divides_by_own<N: Numerics>(
    tree: TreeView,
    area: Rect,
    num: N,
    tiles: Seq<Rect>,
) -> (cut: i64)
    requires
        tree.shape matches Some(node) && node is Split,
        tree.tiles(area, num, tiles),
        all_proper(tiles),
    ensures
        ({
            let node = tree.shape->0;
            let n = leaves(*node->left) as int;
            let side = if node->horizontal {
                area.width
            } else {
                area.height
            };
            &&& call_ensures(
                N::split,
                (&num, tree.split_ratio, tree.inner_gap, side as i64),
                cut,
            )
            &&& forall|k: int|
                0 <= k < n ==> if node->horizontal {
                    (#[trigger] tiles[k]).x + tiles[k].width <= area.x + cut
                } else {
                    tiles[k].y + tiles[k].height <= area.y + cut
                }
            &&& forall|k: int|
                n <= k < tiles.len() ==> if node->horizontal {
                    (#[trigger] tiles[k]).x >= area.x + cut + tree.inner_gap
                } else {
                    tiles[k].y >= area.y + cut + tree.inner_gap
                }
        }),
{
    law_split_divides(tree.shape->0, area, tree.division(), num, tiles)
}

} // verus!
