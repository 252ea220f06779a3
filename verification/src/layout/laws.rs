//! What holds of every arrangement.

use super::tree::{
    grown, inserted, leaf_count, leaves, node_tiles, pruned, removed, tree_tiles, LayoutNode,
};
use super::{cuts, dwindles, room, Division, Rect, MAX_EXTENT, MAX_TILES};
use crate::numerics::{splits_steadily, Numerics};
use vstd::prelude::*;

verus! {

/// A split leaves room for the splits after it.
pub(super) proof fn lemma_room(n: int)
    requires
        n >= 1,
    ensures
        room(n) + MAX_EXTENT + u32::MAX == room(n - 1),
        room(n) <= room(0),
{
    assert(n * (MAX_EXTENT + u32::MAX) == (n - 1) * (MAX_EXTENT + u32::MAX) + (MAX_EXTENT
        + u32::MAX)) by (nonlinear_arith);
    assert(n * (MAX_EXTENT + u32::MAX) >= 0) by (nonlinear_arith)
        requires
            n >= 1,
    ;
}

/// An area within [`MAX_EXTENT`] has room for as many splits as an arrangement
/// can have.
pub(super) proof fn lemma_room_at_start(n: int)
    requires
        0 <= n <= MAX_TILES,
    ensures
        MAX_EXTENT <= room(n),
{
    assert(n * (MAX_EXTENT + u32::MAX) <= MAX_TILES * (MAX_EXTENT + u32::MAX)) by (nonlinear_arith)
        requires
            n <= MAX_TILES,
    ;
}

/// Fewer splits need less room.
pub(super) proof fn lemma_room_shrinks(n: int, m: int)
    requires
        n <= m,
    ensures
        room(m) <= room(n),
{
    assert(n * (MAX_EXTENT + u32::MAX) <= m * (MAX_EXTENT + u32::MAX)) by (nonlinear_arith)
        requires
            n <= m,
    ;
}

/// Every node has a leaf.
pub proof fn lemma_leaves_positive(node: LayoutNode)
    ensures
        leaves(node) >= 1,
    decreases node,
{
    match node {
        LayoutNode::Leaf => {},
        LayoutNode::Split { horizontal, left, right } => {
            lemma_leaves_positive(*left);
        },
    }
}

proof fn lemma_grown(node: LayoutNode, horizontal: bool)
    ensures
        leaves(grown(node, horizontal)) == leaves(node) + 1,
        pruned(grown(node, horizontal), leaves(node) as int) == Some(node),
    decreases node,
{
    match node {
        LayoutNode::Leaf => {
            reveal_with_fuel(leaves, 2);
            reveal_with_fuel(pruned, 2);
        },
        LayoutNode::Split { horizontal: h, left, right } => {
            lemma_leaves_positive(*right);
            lemma_grown(*right, horizontal);
        },
    }
}

proof fn lemma_pruned(node: LayoutNode, idx: int)
    requires
        0 <= idx < leaves(node),
    ensures
        leaf_count(pruned(node, idx)) == leaves(node) - 1,
    decreases node,
{
    match node {
        LayoutNode::Leaf => {},
        LayoutNode::Split { horizontal, left, right } => {
            lemma_leaves_positive(*left);
            lemma_leaves_positive(*right);
            if idx < leaves(*left) {
                lemma_pruned(*left, idx);
            } else {
                lemma_pruned(*right, idx - leaves(*left));
            }
        },
    }
}

/// An insertion adds one leaf.
pub proof fn law_insert_adds_one(shape: Option<LayoutNode>)
    ensures
        leaf_count(inserted(shape)) == leaf_count(shape) + 1,
{
    if let Some(node) = shape {
        lemma_grown(node, leaves(node) % 2 == 1);
    }
}

/// A removal takes one leaf away, if there is a leaf with that number.
pub proof fn law_remove_takes_one(shape: Option<LayoutNode>, idx: int)
    requires
        0 <= idx,
    ensures
        leaf_count(removed(shape, idx)) == if idx < leaf_count(shape) {
            leaf_count(shape) - 1
        } else {
            leaf_count(shape) as int
        },
{
    if let Some(node) = shape {
        if idx < leaves(node) {
            lemma_pruned(node, idx);
        }
    }
}

/// Removing the leaf that was inserted last restores the tree.
pub proof fn law_remove_undoes_insert(shape: Option<LayoutNode>)
    ensures
        removed(inserted(shape), leaf_count(shape) as int) == shape,
{
    if let Some(node) = shape {
        lemma_grown(node, leaves(node) % 2 == 1);
    }
}

/// No tile has a negative side.
pub open spec fn all_proper(tiles: Seq<Rect>) -> bool {
    forall|i: int| 0 <= i < tiles.len() ==> (#[trigger] tiles[i]).width >= 0 && tiles[i].height >= 0
}

/// `inner` lies within `outer`.
pub open spec fn inside(inner: Rect, outer: Rect) -> bool {
    &&& outer.x <= inner.x
    &&& outer.y <= inner.y
    &&& inner.x + inner.width <= outer.x + outer.width
    &&& inner.y + inner.height <= outer.y + outer.height
}

/// `a` lies wholly to the left of `b` or wholly above it, with at least `gap`
/// between them.
pub open spec fn before(a: Rect, b: Rect, gap: int) -> bool {
    a.x + a.width + gap <= b.x || a.y + a.height + gap <= b.y
}

/// The pixel at (`px`, `py`) belongs to `area`.
pub open spec fn covers(area: Rect, px: int, py: int) -> bool {
    area.x <= px < area.x + area.width && area.y <= py < area.y + area.height
}

/// A tree that arranges into proper tiles arranges a proper area.
proof fn lemma_area_proper<N: Numerics>(
    node: LayoutNode,
    area: Rect,
    by: Division,
    num: N,
    tiles: Seq<Rect>,
)
    requires
        node_tiles(node, area, by, num, tiles),
        all_proper(tiles),
    ensures
        area.width >= 0,
        area.height >= 0,
    decreases node,
{
    match node {
        LayoutNode::Leaf => {
            assert(tiles[0] == area);
        },
        LayoutNode::Split { horizontal, left, right } => {
            let (cut, n) = lemma_split_cut(node, area, by, num, tiles);
            lemma_area_proper(
                *left,
                area.first_part(horizontal, cut as int),
                by,
                num,
                tiles.take(n),
            );
            lemma_area_proper(
                *right,
                area.second_part(horizontal, cut as int, by.gap as int),
                by,
                num,
                tiles.skip(n),
            );
        },
    }
}

/// There is a tile for every leaf.
pub proof fn law_tile_per_leaf<N: Numerics>(
    node: LayoutNode,
    area: Rect,
    by: Division,
    num: N,
    tiles: Seq<Rect>,
)
    requires
        node_tiles(node, area, by, num, tiles),
    ensures
        tiles.len() == leaves(node),
{
}

/// Every tile lies within the area that is arranged, as long as no tile has a
/// negative side.
pub proof fn law_tiles_inside<N: Numerics>(
    node: LayoutNode,
    area: Rect,
    by: Division,
    num: N,
    tiles: Seq<Rect>,
)
    requires
        node_tiles(node, area, by, num, tiles),
        all_proper(tiles),
    ensures
        forall|i: int| 0 <= i < tiles.len() ==> inside(#[trigger] tiles[i], area),
    decreases node,
{
    match node {
        LayoutNode::Leaf => {},
        LayoutNode::Split { horizontal, left, right } => {
            let (cut, n) = lemma_split_cut(node, area, by, num, tiles);
            let first = area.first_part(horizontal, cut as int);
            let second = area.second_part(horizontal, cut as int, by.gap as int);
            lemma_area_proper(*left, first, by, num, tiles.take(n));
            lemma_area_proper(*right, second, by, num, tiles.skip(n));
            law_tiles_inside(*left, first, by, num, tiles.take(n));
            law_tiles_inside(*right, second, by, num, tiles.skip(n));
            assert forall|i: int| 0 <= i < tiles.len() implies inside(#[trigger] tiles[i], area) by {
                if i < n {
                    assert(tiles[i] == tiles.take(n)[i]);
                } else {
                    assert(tiles[i] == tiles.skip(n)[i - n]);
                }
            }
        },
    }
}

/// No two tiles overlap, and the gap lies between them: of any two, the one that
/// comes first in the tree is left of the other or above it. This needs that no
/// tile has a negative side.
pub proof fn law_tiles_apart<N: Numerics>(
    node: LayoutNode,
    area: Rect,
    by: Division,
    num: N,
    tiles: Seq<Rect>,
)
    requires
        node_tiles(node, area, by, num, tiles),
        all_proper(tiles),
    ensures
        forall|i: int, j: int|
            0 <= i < j < tiles.len() ==> before(
                #[trigger] tiles[i],
                #[trigger] tiles[j],
                by.gap as int,
            ),
    decreases node,
{
    match node {
        LayoutNode::Leaf => {},
        LayoutNode::Split { horizontal, left, right } => {
            let (cut, n) = lemma_split_cut(node, area, by, num, tiles);
            let first = area.first_part(horizontal, cut as int);
            let second = area.second_part(horizontal, cut as int, by.gap as int);
            law_tiles_inside(*left, first, by, num, tiles.take(n));
            law_tiles_inside(*right, second, by, num, tiles.skip(n));
            law_tiles_apart(*left, first, by, num, tiles.take(n));
            law_tiles_apart(*right, second, by, num, tiles.skip(n));
            assert forall|i: int, j: int| 0 <= i < j < tiles.len() implies before(
                #[trigger] tiles[i],
                #[trigger] tiles[j],
                by.gap as int,
            ) by {
                if j < n {
                    assert(tiles[i] == tiles.take(n)[i]);
                    assert(tiles[j] == tiles.take(n)[j]);
                } else if i >= n {
                    assert(tiles[i] == tiles.skip(n)[i - n]);
                    assert(tiles[j] == tiles.skip(n)[j - n]);
                } else {
                    assert(tiles[i] == tiles.take(n)[i]);
                    assert(tiles[j] == tiles.skip(n)[j - n]);
                }
            }
        },
    }
}

/// Without a gap the tiles fill the area: every pixel of it belongs to a tile.
pub proof fn law_gapless_tiles_fill<N: Numerics>(
    node: LayoutNode,
    area: Rect,
    by: Division,
    num: N,
    tiles: Seq<Rect>,
    px: int,
    py: int,
)
    requires
        by.gap == 0,
        node_tiles(node, area, by, num, tiles),
        all_proper(tiles),
        covers(area, px, py),
    ensures
        exists|i: int| 0 <= i < tiles.len() && covers(#[trigger] tiles[i], px, py),
    decreases node,
{
    match node {
        LayoutNode::Leaf => {
            assert(covers(tiles[0], px, py));
        },
        LayoutNode::Split { horizontal, left, right } => {
            let (cut, n) = lemma_split_cut(node, area, by, num, tiles);
            let first = area.first_part(horizontal, cut as int);
            let second = area.second_part(horizontal, cut as int, 0);
            if covers(first, px, py) {
                law_gapless_tiles_fill(*left, first, by, num, tiles.take(n), px, py);
                let i = choose|i: int|
                    0 <= i < tiles.take(n).len() && covers(#[trigger] tiles.take(n)[i], px, py);
                assert(covers(tiles[i], px, py));
            } else {
                law_gapless_tiles_fill(*right, second, by, num, tiles.skip(n), px, py);
                let i = choose|i: int|
                    0 <= i < tiles.skip(n).len() && covers(#[trigger] tiles.skip(n)[i], px, py);
                assert(covers(tiles[i + n], px, py));
            }
        },
    }
}

/// One window more takes its tile from the last tile alone: all the others stay
/// where they are, whatever the cut of the last tile is.
pub proof fn law_insert_splits_last_tile<N: Numerics>(
    node: LayoutNode,
    horizontal: bool,
    area: Rect,
    by: Division,
    num: N,
    tiles: Seq<Rect>,
    cut: i64,
)
    requires
        node_tiles(node, area, by, num, tiles),
        cuts(num, by, tiles.last(), horizontal, cut),
    ensures
        node_tiles(
            grown(node, horizontal),
            area,
            by,
            num,
            tiles.drop_last().push(tiles.last().first_part(horizontal, cut as int)).push(
                tiles.last().second_part(horizontal, cut as int, by.gap as int),
            ),
        ),
    decreases node,
{
    let last = tiles.last();
    let first = last.first_part(horizontal, cut as int);
    let second = last.second_part(horizontal, cut as int, by.gap as int);
    let more = tiles.drop_last().push(first).push(second);
    lemma_grown(node, horizontal);
    match node {
        LayoutNode::Leaf => {
            reveal_with_fuel(node_tiles, 2);
            reveal_with_fuel(leaves, 2);
            assert(last == area);
            assert(more.take(1) =~= seq![first]);
            assert(more.skip(1) =~= seq![second]);
        },
        LayoutNode::Split { horizontal: h, left, right } => {
            let (c, n) = lemma_split_cut(node, area, by, num, tiles);
            let rest = tiles.skip(n);
            assert(rest.last() == last);
            law_insert_splits_last_tile(
                *right,
                horizontal,
                area.second_part(h, c as int, by.gap as int),
                by,
                num,
                rest,
                cut,
            );
            assert(more.take(n) =~= tiles.take(n));
            assert(more.skip(n) =~= rest.drop_last().push(first).push(second));
            assert(cuts(num, by, area, h, c));
        },
    }
}

/// The cut that a split node was arranged with.
pub(super) proof fn lemma_split_cut<N: Numerics>(
    node: LayoutNode,
    area: Rect,
    by: Division,
    num: N,
    tiles: Seq<Rect>,
) -> (r: (i64, int))
    requires
        node is Split,
        node_tiles(node, area, by, num, tiles),
    ensures
        r.1 == leaves(*node->left),
        0 < r.1 < tiles.len(),
        cuts(num, by, area, node->horizontal, r.0),
        node_tiles(
            *node->left,
            area.first_part(node->horizontal, r.0 as int),
            by,
            num,
            tiles.take(r.1),
        ),
        node_tiles(
            *node->right,
            area.second_part(node->horizontal, r.0 as int, by.gap as int),
            by,
            num,
            tiles.skip(r.1),
        ),
        all_proper(tiles) ==> all_proper(tiles.take(r.1)) && all_proper(tiles.skip(r.1)),
{
    let horizontal = node->horizontal;
    let n = leaves(*node->left) as int;
    let cut = choose|cut: i64|
        {
            &&& #[trigger] cuts(num, by, area, horizontal, cut)
            &&& node_tiles(
                *node->left,
                area.first_part(horizontal, cut as int),
                by,
                num,
                tiles.take(n),
            )
            &&& node_tiles(
                *node->right,
                area.second_part(horizontal, cut as int, by.gap as int),
                by,
                num,
                tiles.skip(n),
            )
        };
    lemma_leaves_positive(*node->left);
    lemma_leaves_positive(*node->right);
    (cut, n)
}

/// The tree of `n` windows that were only ever inserted.
pub open spec fn after_inserts(n: nat) -> Option<LayoutNode>
    decreases n,
{
    if n == 0 {
        None
    } else {
        inserted(after_inserts((n - 1) as nat))
    }
}

/// A chain of splits with a leaf on every left side, alternating in direction.
pub open spec fn spine(n: nat, horizontal: bool) -> LayoutNode
    decreases n,
{
    if n <= 1 {
        LayoutNode::Leaf
    } else {
        LayoutNode::Split {
            horizontal,
            left: Box::new(LayoutNode::Leaf),
            right: Box::new(spine((n - 1) as nat, !horizontal)),
        }
    }
}

proof fn lemma_spine(n: nat, horizontal: bool)
    requires
        n >= 1,
    ensures
        leaves(spine(n, horizontal)) == n,
        grown(spine(n, horizontal), if n % 2 == 1 { horizontal } else { !horizontal }) == spine(
            n + 1,
            horizontal,
        ),
    decreases n,
{
    reveal_with_fuel(leaves, 2);
    if n == 1 {
        reveal_with_fuel(spine, 3);
    } else {
        lemma_spine((n - 1) as nat, !horizontal);
    }
}

proof fn lemma_after_inserts(n: nat)
    requires
        n >= 1,
    ensures
        after_inserts(n) == Some(spine(n, true)),
    decreases n,
{
    reveal_with_fuel(after_inserts, 2);
    if n > 1 {
        lemma_after_inserts((n - 1) as nat);
        lemma_spine((n - 1) as nat, true);
    }
}

proof fn lemma_spine_dwindles<N: Numerics>(
    n: nat,
    horizontal: bool,
    area: Rect,
    by: Division,
    num: N,
    tiles: Seq<Rect>,
)
    requires
        n >= 1,
    ensures
        node_tiles(spine(n, horizontal), area, by, num, tiles) <==> dwindles(
            n,
            area,
            horizontal,
            by,
            num,
            tiles,
        ),
    decreases n,
{
    if n > 1 {
        lemma_spine(n, horizontal);
        let m = (n - 1) as nat;
        let node = spine(n, horizontal);
        if tiles.len() == n {
            assert(tiles.skip(1) =~= tiles.drop_first());
            if node_tiles(node, area, by, num, tiles) {
                let (cut, k) = lemma_split_cut(node, area, by, num, tiles);
                let first = area.first_part(horizontal, cut as int);
                let second = area.second_part(horizontal, cut as int, by.gap as int);
                assert(leaves(LayoutNode::Leaf) == 1);
                assert(k == 1);
                assert(tiles.take(1) == seq![first]);
                assert(tiles[0] == tiles.take(1)[0]);
                lemma_spine_dwindles(m, !horizontal, second, by, num, tiles.drop_first());
            }
            if dwindles(n, area, horizontal, by, num, tiles) {
                let cut = choose|cut: i64|
                    {
                        &&& #[trigger] cuts(num, by, area, horizontal, cut)
                        &&& tiles[0] == area.first_part(horizontal, cut as int)
                        &&& dwindles(
                            m,
                            area.second_part(horizontal, cut as int, by.gap as int),
                            !horizontal,
                            by,
                            num,
                            tiles.drop_first(),
                        )
                    };
                let first = area.first_part(horizontal, cut as int);
                let second = area.second_part(horizontal, cut as int, by.gap as int);
                lemma_spine_dwindles(m, !horizontal, second, by, num, tiles.drop_first());
                assert(leaves(LayoutNode::Leaf) == 1);
                assert(tiles.take(1) =~= seq![first]);
                assert(node_tiles(LayoutNode::Leaf, first, by, num, tiles.take(1)));
                assert(cuts(num, by, area, horizontal, cut));
            }
        }
    }
}

/// Windows that were only ever added are arranged by their tree as the dwindle
/// layout arranges that many windows.
pub proof fn law_inserts_dwindle<N: Numerics>(
    n: nat,
    area: Rect,
    by: Division,
    num: N,
    tiles: Seq<Rect>,
)
    ensures
        tree_tiles(after_inserts(n), area, by, num, tiles) <==> dwindles(
            n,
            area,
            true,
            by,
            num,
            tiles,
        ),
{
    if n > 0 {
        lemma_after_inserts(n);
        lemma_spine_dwindles(n, true, area, by, num, tiles);
    }
}

/// Dwindling tiles lie within the area and do not overlap, with the gap between
/// them, as long as none has a negative side.
pub proof fn law_dwindle_tiles<N: Numerics>(
    n: nat,
    area: Rect,
    horizontal: bool,
    by: Division,
    num: N,
    tiles: Seq<Rect>,
)
    requires
        dwindles(n, area, horizontal, by, num, tiles),
        all_proper(tiles),
    ensures
        tiles.len() == n,
        forall|i: int| 0 <= i < tiles.len() ==> inside(#[trigger] tiles[i], area),
        forall|i: int, j: int|
            0 <= i < j < tiles.len() ==> before(
                #[trigger] tiles[i],
                #[trigger] tiles[j],
                by.gap as int,
            ),
{
    if n > 0 {
        lemma_spine_dwindles(n, horizontal, area, by, num, tiles);
        law_tiles_inside(spine(n, horizontal), area, by, num, tiles);
        law_tiles_apart(spine(n, horizontal), area, by, num, tiles);
    }
}

/// A node is arranged in one way only, as long as cuts are answered steadily.
pub proof fn law_same_tiles<N: Numerics>(
    node: LayoutNode,
    area: Rect,
    by: Division,
    num: N,
    a: Seq<Rect>,
    b: Seq<Rect>,
)
    requires
        splits_steadily(num),
        node_tiles(node, area, by, num, a),
        node_tiles(node, area, by, num, b),
    ensures
        a == b,
    decreases node,
{
    if let LayoutNode::Split { horizontal, left, right } = node {
        let (cut, n) = lemma_split_cut(node, area, by, num, a);
        let (other, _) = lemma_split_cut(node, area, by, num, b);
        assert(cut == other);
        let first = area.first_part(horizontal, cut as int);
        let second = area.second_part(horizontal, cut as int, by.gap as int);
        law_same_tiles(*left, first, by, num, a.take(n), b.take(n));
        law_same_tiles(*right, second, by, num, a.skip(n), b.skip(n));
        assert(a =~= a.take(n) + a.skip(n));
        assert(b =~= b.take(n) + b.skip(n));
    }
}

/// The tree of windows that were only ever added has the very tiles of the dwindle
/// layout, as long as cuts are answered steadily.
pub proof fn law_inserts_same_as_dwindle<N: Numerics>(
    n: nat,
    area: Rect,
    by: Division,
    num: N,
    a: Seq<Rect>,
    b: Seq<Rect>,
)
    requires
        splits_steadily(num),
        tree_tiles(after_inserts(n), area, by, num, a),
        dwindles(n, area, true, by, num, b),
    ensures
        a == b,
{
    law_inserts_dwindle(n, area, by, num, b);
    if n > 0 {
        lemma_after_inserts(n);
        law_same_tiles(spine(n, true), area, by, num, a, b);
    } else {
        assert(a =~= b);
    }
}

/// No window has no tile, and a single window has the whole area.
pub proof fn law_dwindle_few<N: Numerics>(
    n: nat,
    area: Rect,
    horizontal: bool,
    by: Division,
    num: N,
    tiles: Seq<Rect>,
)
    requires
        n <= 1,
        dwindles(n, area, horizontal, by, num, tiles),
    ensures
        tiles == Seq::new(n, |i: int| area),
{
    assert(tiles =~= Seq::new(n, |i: int| area));
}

/// The direction of split number `n` of a dwindle, given that of the first.
pub open spec fn direction(n: nat, horizontal: bool) -> bool {
    if n % 2 == 1 {
        horizontal
    } else {
        !horizontal
    }
}

/// One window more takes its place from the last one: every tile but the last stays
/// where it is, as long as cuts are answered steadily, and the last is divided in two.
pub proof fn law_dwindle_one_more<N: Numerics>(
    n: nat,
    area: Rect,
    horizontal: bool,
    by: Division,
    num: N,
    few: Seq<Rect>,
    more: Seq<Rect>,
)
    requires
        n >= 1,
        splits_steadily(num),
        dwindles(n, area, horizontal, by, num, few),
        dwindles(n + 1, area, horizontal, by, num, more),
    ensures
        more.take(n - 1) == few.take(n - 1),
        exists|cut: i64|
            {
                &&& #[trigger] cuts(num, by, few[n - 1], direction(n, horizontal), cut)
                &&& more[n - 1] == few[n - 1].first_part(direction(n, horizontal), cut as int)
                &&& more[n as int] == few[n - 1].second_part(
                    direction(n, horizontal),
                    cut as int,
                    by.gap as int,
                )
            },
    decreases n,
{
    let h = direction(n, horizontal);
    let cut = choose|cut: i64|
        {
            &&& #[trigger] cuts(num, by, area, horizontal, cut)
            &&& more[0] == area.first_part(horizontal, cut as int)
            &&& dwindles(
                n,
                area.second_part(horizontal, cut as int, by.gap as int),
                !horizontal,
                by,
                num,
                more.drop_first(),
            )
        };
    let rest = area.second_part(horizontal, cut as int, by.gap as int);
    if n == 1 {
        assert(few[0] == area);
        assert(more.drop_first() == seq![rest]);
        assert(more.drop_first()[0] == more[1]);
        assert(cuts(num, by, few[n - 1], h, cut));
        assert(more.take(0) =~= few.take(0));
    } else {
        let other = choose|other: i64|
            {
                &&& #[trigger] cuts(num, by, area, horizontal, other)
                &&& few[0] == area.first_part(horizontal, other as int)
                &&& dwindles(
                    (n - 1) as nat,
                    area.second_part(horizontal, other as int, by.gap as int),
                    !horizontal,
                    by,
                    num,
                    few.drop_first(),
                )
            };
        assert(cut == other);
        let (f, m) = (few.drop_first(), more.drop_first());
        law_dwindle_one_more((n - 1) as nat, rest, !horizontal, by, num, f, m);
        assert(f[n - 2] == few[n - 1]);
        assert(m[n - 2] == more[n - 1]);
        assert(m[n - 1] == more[n as int]);
        assert forall|i: int| 0 <= i < n - 1 implies #[trigger] more[i] == few[i] by {
            if i > 0 {
                assert(m.take(n - 2)[i - 1] == f.take(n - 2)[i - 1]);
                assert(m[i - 1] == more[i] && f[i - 1] == few[i]);
            }
        }
        assert(more.take(n - 1) =~= few.take(n - 1));
        let last = choose|last: i64|
            {
                &&& #[trigger] cuts(num, by, f[n - 2], h, last)
                &&& m[n - 2] == f[n - 2].first_part(h, last as int)
                &&& m[n - 1] == f[n - 2].second_part(h, last as int, by.gap as int)
            };
        assert(cuts(num, by, few[n - 1], h, last));
    }
}

/// Tiles with the last one divided in two.
pub open spec fn last_divided(tiles: Seq<Rect>, horizontal: bool, cut: i64, gap: int) -> Seq<Rect> {
    let last = tiles.last();
    tiles.drop_last().push(last.first_part(horizontal, cut as int)).push(
        last.second_part(horizontal, cut as int, gap),
    )
}

/// Whatever is answered for the cuts, the arrangements of one window more are those of
/// the windows before, with the last tile divided in two and every other tile where it
/// is.
pub proof fn law_dwindle_divides_last<N: Numerics>(
    n: nat,
    area: Rect,
    horizontal: bool,
    by: Division,
    num: N,
    more: Seq<Rect>,
)
    requires
        n >= 1,
    ensures
        dwindles(n + 1, area, horizontal, by, num, more) <==> exists|few: Seq<Rect>, cut: i64|
            {
                &&& dwindles(n, area, horizontal, by, num, few)
                &&& #[trigger] cuts(num, by, few.last(), direction(n, horizontal), cut)
                &&& more == last_divided(few, direction(n, horizontal), cut, by.gap as int)
            },
{
    if dwindles(n + 1, area, horizontal, by, num, more) {
        let (few, cut) = lemma_last_undivided(n, area, horizontal, by, num, more);
        assert(cuts(num, by, few.last(), direction(n, horizontal), cut));
    }
    if exists|few: Seq<Rect>, cut: i64|
        {
            &&& dwindles(n, area, horizontal, by, num, few)
            &&& #[trigger] cuts(num, by, few.last(), direction(n, horizontal), cut)
            &&& more == last_divided(few, direction(n, horizontal), cut, by.gap as int)
        } {
        let (few, cut) = choose|few: Seq<Rect>, cut: i64|
            {
                &&& dwindles(n, area, horizontal, by, num, few)
                &&& #[trigger] cuts(num, by, few.last(), direction(n, horizontal), cut)
                &&& more == last_divided(few, direction(n, horizontal), cut, by.gap as int)
            };
        lemma_last_divided(n, area, horizontal, by, num, few, cut);
    }
}

/// The cut of the first split of a dwindle.
pub(super) proof fn lemma_first_cut<N: Numerics>(
    n: nat,
    area: Rect,
    horizontal: bool,
    by: Division,
    num: N,
    tiles: Seq<Rect>,
) -> (cut: i64)
    requires
        n >= 2,
        dwindles(n, area, horizontal, by, num, tiles),
    ensures
        cuts(num, by, area, horizontal, cut),
        tiles.len() == n,
        tiles[0] == area.first_part(horizontal, cut as int),
        dwindles(
            (n - 1) as nat,
            area.second_part(horizontal, cut as int, by.gap as int),
            !horizontal,
            by,
            num,
            tiles.drop_first(),
        ),
{
    choose|cut: i64|
        {
            &&& #[trigger] cuts(num, by, area, horizontal, cut)
            &&& tiles[0] == area.first_part(horizontal, cut as int)
            &&& dwindles(
                (n - 1) as nat,
                area.second_part(horizontal, cut as int, by.gap as int),
                !horizontal,
                by,
                num,
                tiles.drop_first(),
            )
        }
}

proof fn lemma_last_undivided<N: Numerics>(
    n: nat,
    area: Rect,
    horizontal: bool,
    by: Division,
    num: N,
    more: Seq<Rect>,
) -> (r: (Seq<Rect>, i64))
    requires
        n >= 1,
        dwindles(n + 1, area, horizontal, by, num, more),
    ensures
        r.0.len() == n,
        dwindles(n, area, horizontal, by, num, r.0),
        cuts(num, by, r.0.last(), direction(n, horizontal), r.1),
        more == last_divided(r.0, direction(n, horizontal), r.1, by.gap as int),
    decreases n,
{
    let cut = lemma_first_cut(n + 1, area, horizontal, by, num, more);
    let rest = area.second_part(horizontal, cut as int, by.gap as int);
    let tail = more.drop_first();
    if n == 1 {
        let few = seq![area];
        assert(tail == seq![rest]);
        assert(tail[0] == more[1]);
        assert(more =~= last_divided(few, horizontal, cut, by.gap as int));
        (few, cut)
    } else {
        let m = (n - 1) as nat;
        let (f, c) = lemma_last_undivided(m, rest, !horizontal, by, num, tail);
        let few = seq![more[0]] + f;
        let h = direction(n, horizontal);
        assert(direction(m, !horizontal) == h);
        assert(few.drop_first() =~= f);
        assert(few.last() == f.last());
        assert(few[0] == more[0]);
        assert(cuts(num, by, area, horizontal, cut));
        assert(dwindles(n, area, horizontal, by, num, few));
        let whole = last_divided(few, h, c, by.gap as int);
        assert forall|i: int| 0 <= i < n + 1 implies #[trigger] more[i] == whole[i] by {
            if i > 0 {
                assert(more[i] == tail[i - 1]);
                if i < n - 1 {
                    assert(whole[i] == f[i - 1]);
                }
            }
        }
        assert(more =~= whole);
        (few, c)
    }
}

proof fn lemma_last_divided<N: Numerics>(
    n: nat,
    area: Rect,
    horizontal: bool,
    by: Division,
    num: N,
    few: Seq<Rect>,
    cut: i64,
)
    requires
        n >= 1,
        dwindles(n, area, horizontal, by, num, few),
        cuts(num, by, few.last(), direction(n, horizontal), cut),
    ensures
        dwindles(
            n + 1,
            area,
            horizontal,
            by,
            num,
            last_divided(few, direction(n, horizontal), cut, by.gap as int),
        ),
    decreases n,
{
    let h = direction(n, horizontal);
    let more = last_divided(few, h, cut, by.gap as int);
    if n == 1 {
        assert(few.last() == area);
        assert(more.drop_first() =~= seq![area.second_part(h, cut as int, by.gap as int)]);
        assert(cuts(num, by, area, horizontal, cut));
        assert(dwindles(
            1,
            area.second_part(h, cut as int, by.gap as int),
            !horizontal,
            by,
            num,
            more.drop_first(),
        ));
    } else {
        let first = lemma_first_cut(n, area, horizontal, by, num, few);
        let rest = area.second_part(horizontal, first as int, by.gap as int);
        let f = few.drop_first();
        let m = (n - 1) as nat;
        assert(direction(m, !horizontal) == h);
        assert(f.len() == m);
        assert(f.last() == few.last());
        lemma_last_divided(m, rest, !horizontal, by, num, f, cut);
        assert(more.drop_first() =~= last_divided(f, h, cut, by.gap as int));
        assert(more[0] == few[0]);
        assert(cuts(num, by, area, horizontal, first));
    }
}

/// One step in the life of a tree.
pub enum TreeStep {
    Insert,
    Remove(nat),
}

/// A tree after a step.
pub open spec fn stepped(shape: Option<LayoutNode>, step: TreeStep) -> Option<LayoutNode> {
    match step {
        TreeStep::Insert => inserted(shape),
        TreeStep::Remove(idx) => removed(shape, idx as int),
    }
}

/// A tree after several steps, from an empty one.
pub open spec fn grown_by(steps: Seq<TreeStep>) -> Option<LayoutNode>
    decreases steps.len(),
{
    if steps.len() == 0 {
        None
    } else {
        stepped(grown_by(steps.drop_last()), steps.last())
    }
}

/// How many of the steps inserted a leaf.
pub open spec fn insertions(steps: Seq<TreeStep>) -> int
    decreases steps.len(),
{
    if steps.len() == 0 {
        0
    } else {
        insertions(steps.drop_last()) + if steps.last() is Insert {
            1int
        } else {
            0
        }
    }
}

/// How many of the steps removed a leaf: those with a number that a leaf had.
pub open spec fn removals(steps: Seq<TreeStep>) -> int
    decreases steps.len(),
{
    if steps.len() == 0 {
        0
    } else {
        removals(steps.drop_last()) + match steps.last() {
            TreeStep::Insert => 0int,
            TreeStep::Remove(idx) => if idx < leaf_count(grown_by(steps.drop_last())) {
                1
            } else {
                0
            },
        }
    }
}

/// However a tree has come about, it has as many leaves as were inserted and not
/// removed again, and as many tiles.
pub proof fn law_leaves_add_up<N: Numerics>(
    steps: Seq<TreeStep>,
    area: Rect,
    by: Division,
    num: N,
    tiles: Seq<Rect>,
)
    requires
        tree_tiles(grown_by(steps), area, by, num, tiles),
    ensures
        leaf_count(grown_by(steps)) == insertions(steps) - removals(steps),
        tiles.len() == leaf_count(grown_by(steps)),
{
    lemma_leaves_add_up(steps);
}

proof fn lemma_leaves_add_up(steps: Seq<TreeStep>)
    ensures
        leaf_count(grown_by(steps)) == insertions(steps) - removals(steps),
    decreases steps.len(),
{
    if steps.len() > 0 {
        let before = grown_by(steps.drop_last());
        lemma_leaves_add_up(steps.drop_last());
        match steps.last() {
            TreeStep::Insert => {
                law_insert_adds_one(before);
            },
            TreeStep::Remove(idx) => {
                law_remove_takes_one(before, idx as int);
            },
        }
    }
}

} // verus!
