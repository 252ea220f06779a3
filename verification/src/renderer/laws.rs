//! What holds of every scene.

use super::scene::{
    box_of, dot_count, dots, level_items, lock_rects, lower_items, not_fullscreen, on_level,
    solids, upper_items, LayerSurface, Level, SceneInput, SceneItem, SolidRect, WindowBox,
};
use crate::compositor::floating::{
    law_stacking_complete, lemma_has, stacks, windows_of, FloatingWindow,
};
use crate::compositor::state::StateView;
use crate::lists::lemma_filter_members;
use crate::numerics::Numerics;
use vstd::prelude::*;

verus! {

/// A window that fills the screen is painted last, above all others, and once.
pub proof fn law_fullscreen_on_top(state: StateView, mapped: Seq<u64>, order: Seq<u64>, window: u64)
    requires
        state.draws(mapped, order),
        state.fullscreen_window == Some(window),
    ensures
        order.len() > 0,
        order.last() == window,
        forall|i: int| 0 <= i < order.len() - 1 ==> #[trigger] order[i] != window,
{
    let stack = choose|stack: Seq<FloatingWindow>|
        {
            &&& #[trigger] stacks(state.floating.entries, stack)
            &&& order == mapped.filter(state.gets_tile()) + windows_of(stack).filter(
                not_fullscreen(state.fullscreen_window),
            ) + seq![window]
        };
    let tiles = mapped.filter(state.gets_tile());
    let floats = windows_of(stack).filter(not_fullscreen(state.fullscreen_window));
    assert forall|i: int| 0 <= i < order.len() - 1 implies #[trigger] order[i] != window by {
        if i < tiles.len() {
            mapped.lemma_filter_pred(state.gets_tile(), i);
            assert(order[i] == tiles[i]);
        } else {
            windows_of(stack).lemma_filter_pred(
                not_fullscreen(state.fullscreen_window),
                i - tiles.len(),
            );
            assert(order[i] == floats[i - tiles.len()]);
        }
    }
}

/// Every floating window is painted after every tiled one, unless it fills the
/// screen.
pub proof fn law_floating_above_tiled(
    state: StateView,
    mapped: Seq<u64>,
    order: Seq<u64>,
    i: int,
    j: int,
)
    requires
        state.draws(mapped, order),
        0 <= i < order.len(),
        0 <= j < order.len(),
        state.floating.has(order[i]),
        !state.floating.has(order[j]),
        state.fullscreen_window != Some(order[i]),
        state.fullscreen_window != Some(order[j]),
    ensures
        j < i,
{
    let fs = state.fullscreen_window;
    let stack = choose|stack: Seq<FloatingWindow>|
        {
            &&& #[trigger] stacks(state.floating.entries, stack)
            &&& order == mapped.filter(state.gets_tile()) + windows_of(stack).filter(
                not_fullscreen(fs),
            ) + (match fs {
                Some(w) => seq![w],
                None => Seq::<u64>::empty(),
            })
        };
    let tiles = mapped.filter(state.gets_tile());
    let floats = windows_of(stack).filter(not_fullscreen(fs));
    if i < tiles.len() {
        mapped.lemma_filter_pred(state.gets_tile(), i);
        assert(order[i] == tiles[i]);
    }
    if j >= tiles.len() {
        if j < tiles.len() + floats.len() {
            let w = floats[j - tiles.len()];
            assert(order[j] == w);
            lemma_filter_members(windows_of(stack), not_fullscreen(fs));
            assert(floats.contains(w));
            assert(windows_of(stack).contains(w));
            lemma_stacked_floats(state, stack, w);
        } else {
            assert(order[j] == fs->0);
        }
    }
}

/// How high a window is: one that fills the screen above those that float, and these
/// above the others.
pub open spec fn height(state: StateView, window: u64) -> int {
    if state.fullscreen_window == Some(window) {
        2
    } else if state.floating.has(window) {
        1
    } else {
        0
    }
}

pub(super) proof fn lemma_windows_items_add(
    state: StateView,
    a: Seq<u64>,
    b: Seq<u64>,
    boxes: Seq<WindowBox>,
    shaders: bool,
)
    ensures
        state.windows_items(a + b, boxes, shaders) == state.windows_items(a, boxes, shaders)
            + state.windows_items(b, boxes, shaders),
    decreases b.len(),
{
    if b.len() == 0 {
        assert(a + b =~= a);
        assert(state.windows_items(a + b, boxes, shaders) =~= state.windows_items(
            a,
            boxes,
            shaders,
        ) + state.windows_items(b, boxes, shaders));
    } else {
        lemma_windows_items_add(state, a, b.drop_last(), boxes, shaders);
        assert((a + b).drop_last() =~= a + b.drop_last());
        assert(state.windows_items(a + b, boxes, shaders) =~= state.windows_items(
            a,
            boxes,
            shaders,
        ) + state.windows_items(b, boxes, shaders));
    }
}

proof fn lemma_box_of(boxes: Seq<WindowBox>, window: u64)
    ensures
        box_of(boxes, window) matches Some(b) ==> b.window == window,
    decreases boxes.len(),
{
    if boxes.len() > 0 {
        lemma_box_of(boxes.drop_first(), window);
    }
}

/// The window that an item belongs to.
pub open spec fn owner(item: SceneItem) -> Option<u64> {
    match item {
        SceneItem::Window { window, .. } => Some(window),
        SceneItem::Shadow { window, .. } => Some(window),
        _ => None,
    }
}

pub(super) proof fn lemma_windows_items_owned(
    state: StateView,
    order: Seq<u64>,
    boxes: Seq<WindowBox>,
    shaders: bool,
    i: int,
)
    requires
        0 <= i < state.windows_items(order, boxes, shaders).len(),
    ensures
        owner(state.windows_items(order, boxes, shaders)[i]) matches Some(w) && order.contains(w),
    decreases order.len(),
{
    let items = state.windows_items(order, boxes, shaders);
    if order.len() > 0 {
        let head = order.drop_last();
        let before = state.windows_items(head, boxes, shaders);
        if i < before.len() {
            lemma_windows_items_owned(state, head, boxes, shaders, i);
            let w = owner(items[i])->0;
            assert(items[i] == before[i]);
            let k = choose|k: int| 0 <= k < head.len() && head[k] == w;
            assert(order[k] == w);
        } else {
            lemma_box_of(boxes, order.last());
            assert(order[order.len() - 1] == order.last());
        }
    }
}

/// The item of a higher window or of its shadow is in front of that of a lower one:
/// a window that fills the screen is in front of all others, and the floating ones
/// are in front of the tiled ones.
pub proof fn law_higher_in_front<N: Numerics>(
    state: StateView,
    view: SceneInput,
    num: N,
    items: Seq<SceneItem>,
    i: int,
    j: int,
)
    requires
        state.scene(view, num, items),
        0 <= i < items.len(),
        0 <= j < items.len(),
        owner(items[i]) is Some,
        owner(items[j]) is Some,
        height(state, owner(items[i])->0) > height(state, owner(items[j])->0),
    ensures
        i < j,
{
    if !state.locked {
        let (border, painted) = choose|border: Seq<SolidRect>, painted: Seq<u64>|
            {
                &&& #[trigger] state.focus_borders(view.focus, view.at, num, border)
                &&& #[trigger] state.draws(view.mapped@, painted)
                &&& items == state.above_windows(view, border) + state.windows_items(
                    painted.reverse(),
                    view.boxes@,
                    view.shaders,
                ) + lower_items(view.layers@)
            };
        let above = state.above_windows(view, border);
        let lower = lower_items(view.layers@);
        let drawn = state.windows_items(painted.reverse(), view.boxes@, view.shaders);
        lemma_drawn_by_height(state, view, painted, i - above.len(), j - above.len());
        assert(forall|k: int| 0 <= k < above.len() ==> owner(#[trigger] above[k]) is None);
        assert(forall|k: int| 0 <= k < lower.len() ==> owner(#[trigger] lower[k]) is None);
        if i < above.len() {
            assert(items[i] == above[i]);
        } else if i < above.len() + drawn.len() {
            assert(items[i] == drawn[i - above.len()]);
        } else {
            assert(items[i] == lower[i - above.len() - drawn.len()]);
        }
        if j < above.len() {
            assert(items[j] == above[j]);
        } else if j < above.len() + drawn.len() {
            assert(items[j] == drawn[j - above.len()]);
        } else {
            assert(items[j] == lower[j - above.len() - drawn.len()]);
        }
    }
}

proof fn lemma_drawn_by_height(
    state: StateView,
    view: SceneInput,
    painted: Seq<u64>,
    i: int,
    j: int,
)
    requires
        state.draws(view.mapped@, painted),
    ensures
        ({
            let drawn = state.windows_items(painted.reverse(), view.boxes@, view.shaders);
            0 <= i < drawn.len() && 0 <= j < drawn.len() && height(state, owner(drawn[i])->0)
                > height(state, owner(drawn[j])->0) ==> i < j
        }),
{
    let fs = state.fullscreen_window;
    let stack = choose|stack: Seq<FloatingWindow>|
        {
            &&& #[trigger] stacks(state.floating.entries, stack)
            &&& painted == view.mapped@.filter(state.gets_tile()) + windows_of(stack).filter(
                not_fullscreen(fs),
            ) + (match fs {
                Some(w) => seq![w],
                None => Seq::<u64>::empty(),
            })
        };
    let tiles = view.mapped@.filter(state.gets_tile());
    let floats = windows_of(stack).filter(not_fullscreen(fs));
    let filling = match fs {
        Some(w) => seq![w],
        None => Seq::<u64>::empty(),
    };
    let (boxes, shaders) = (view.boxes@, view.shaders);
    let (a, b, c) = (filling, floats.reverse(), tiles.reverse());
    assert(painted.reverse() =~= a + b + c);
    lemma_windows_items_add(state, a + b, c, boxes, shaders);
    lemma_windows_items_add(state, a, b, boxes, shaders);
    let drawn = state.windows_items(painted.reverse(), boxes, shaders);
    let (first, second, third) = (
        state.windows_items(a, boxes, shaders),
        state.windows_items(b, boxes, shaders),
        state.windows_items(c, boxes, shaders),
    );
    assert(drawn == first + second + third);
    assert forall|k: int| 0 <= k < drawn.len() implies height(
        state,
        owner(#[trigger] drawn[k])->0,
    ) == (if k < first.len() {
        2int
    } else if k < first.len() + second.len() {
        1
    } else {
        0
    }) by {
        if k < first.len() {
            lemma_windows_items_owned(state, a, boxes, shaders, k);
            assert(drawn[k] == first[k]);
        } else if k < first.len() + second.len() {
            let m = k - first.len();
            lemma_windows_items_owned(state, b, boxes, shaders, m);
            assert(drawn[k] == second[m]);
            let w = owner(drawn[k])->0;
            let n = choose|n: int| 0 <= n < b.len() && b[n] == w;
            assert(floats[floats.len() - 1 - n] == w);
            assert(floats.contains(w));
            lemma_filter_members(windows_of(stack), not_fullscreen(fs));
            assert(windows_of(stack).contains(w));
            lemma_stacked_floats(state, stack, w);
        } else {
            let m = k - first.len() - second.len();
            lemma_windows_items_owned(state, c, boxes, shaders, m);
            assert(drawn[k] == third[m]);
            let w = owner(drawn[k])->0;
            let n = choose|n: int| 0 <= n < c.len() && c[n] == w;
            assert(tiles[tiles.len() - 1 - n] == w);
            assert(tiles.contains(w));
            lemma_filter_members(view.mapped@, state.gets_tile());
        }
    }
}

/// Every window that is painted is on the screen, floats or fills the screen.
pub(super) proof fn lemma_drawn(state: StateView, mapped: Seq<u64>, order: Seq<u64>, i: int)
    requires
        state.draws(mapped, order),
        0 <= i < order.len(),
    ensures
        mapped.contains(order[i]) || state.floating.has(order[i]) || state.fullscreen_window
            == Some(order[i]),
{
    let fs = state.fullscreen_window;
    let filling = match fs {
        Some(w) => seq![w],
        None => Seq::<u64>::empty(),
    };
    let stack = choose|stack: Seq<FloatingWindow>|
        {
            &&& #[trigger] stacks(state.floating.entries, stack)
            &&& order == mapped.filter(state.gets_tile()) + windows_of(stack).filter(
                not_fullscreen(fs),
            ) + filling
        };
    let tiles = mapped.filter(state.gets_tile());
    let floats = windows_of(stack).filter(not_fullscreen(fs));
    lemma_filter_members(mapped, state.gets_tile());
    lemma_filter_members(windows_of(stack), not_fullscreen(fs));
    if i < tiles.len() {
        assert(order[i] == tiles[i]);
        assert(tiles.contains(order[i]));
    } else if i < tiles.len() + floats.len() {
        assert(order[i] == floats[i - tiles.len()]);
        assert(floats.contains(order[i]));
        lemma_stacked_floats(state, stack, order[i]);
    } else {
        assert(order[i] == filling[i - tiles.len() - floats.len()]);
    }
}

pub(super) proof fn lemma_stacked_floats(state: StateView, stack: Seq<FloatingWindow>, window: u64)
    requires
        stacks(state.floating.entries, stack),
        windows_of(stack).contains(window),
    ensures
        state.floating.has(window),
{
    let k = choose|k: int| 0 <= k < windows_of(stack).len() && windows_of(stack)[k] == window;
    law_stacking_complete(state.floating.entries, stack);
    assert(stack.contains(stack[k]));
    assert(state.floating.entries.contains(stack[k]));
    lemma_has(state.floating, window);
}

/// Every surface on the overlay or top layer is in front of every window, and every
/// one on the bottom or background layer behind.
pub proof fn law_windows_between_layers<N: Numerics>(
    state: StateView,
    view: SceneInput,
    num: N,
    items: Seq<SceneItem>,
    surface: u64,
    upper: bool,
    i: int,
    j: int,
)
    requires
        state.scene(view, num, items),
        0 <= i < items.len(),
        0 <= j < items.len(),
        items[i] matches SceneItem::Layer { surface: s, .. } && s == surface,
        owner(items[j]) is Some,
        forall|k: int|
            0 <= k < view.layers@.len() && (#[trigger] view.layers@[k]).surface == surface ==> upper
                == (view.layers@[k].level is Overlay || view.layers@[k].level is Top),
    ensures
        upper ==> i < j,
        !upper ==> j < i,
{
    if !state.locked {
        let (border, painted) = choose|border: Seq<SolidRect>, painted: Seq<u64>|
            {
                &&& #[trigger] state.focus_borders(view.focus, view.at, num, border)
                &&& #[trigger] state.draws(view.mapped@, painted)
                &&& items == state.above_windows(view, border) + state.windows_items(
                    painted.reverse(),
                    view.boxes@,
                    view.shaders,
                ) + lower_items(view.layers@)
            };
        let above = state.above_windows(view, border);
        let lower = lower_items(view.layers@);
        let drawn = state.windows_items(painted.reverse(), view.boxes@, view.shaders);
        let layers = view.layers@;
        lemma_level_items(layers, Level::Overlay);
        lemma_level_items(layers, Level::Top);
        lemma_level_items(layers, Level::Bottom);
        lemma_level_items(layers, Level::Background);
        let start = above.len() - solids(border).len() - upper_items(layers).len();
        assert(forall|k: int| 0 <= k < above.len() ==> owner(#[trigger] above[k]) is None);
        assert(forall|k: int| 0 <= k < lower.len() ==> owner(#[trigger] lower[k]) is None);
        if j < above.len() {
            assert(items[j] == above[j]);
        } else if j >= above.len() + drawn.len() {
            assert(items[j] == lower[j - above.len() - drawn.len()]);
        }
        if i < above.len() {
            assert(items[i] == above[i]);
            if start <= i < start + upper_items(layers).len() {
                assert(above[i] == upper_items(layers)[i - start]);
                let one = level_items(layers, Level::Overlay);
                let two = level_items(layers, Level::Top);
                if i - start < one.len() {
                    assert(above[i] == one[i - start]);
                } else {
                    assert(above[i] == two[i - start - one.len()]);
                }
            }
        } else if i < above.len() + drawn.len() {
            lemma_windows_items_owned(
                state,
                painted.reverse(),
                view.boxes@,
                view.shaders,
                i - above.len(),
            );
            assert(items[i] == drawn[i - above.len()]);
        } else {
            let m = i - above.len() - drawn.len();
            assert(items[i] == lower[m]);
            let one = level_items(layers, Level::Bottom);
            let two = level_items(layers, Level::Background);
            if m < one.len() {
                assert(lower[m] == one[m]);
            } else {
                assert(lower[m] == two[m - one.len()]);
            }
        }
    }
}

pub(super) proof fn lemma_level_items(layers: Seq<LayerSurface>, level: Level)
    ensures
        forall|i: int|
            0 <= i < level_items(layers, level).len() ==> exists|k: int|
                0 <= k < layers.len() && (#[trigger] layers[k]).level == level && layers[k].item()
                    == #[trigger] level_items(layers, level)[i],
{
    let here = on_level(level);
    let kept = layers.filter(here);
    assert forall|i: int| 0 <= i < level_items(layers, level).len() implies exists|k: int|
        0 <= k < layers.len() && (#[trigger] layers[k]).level == level && layers[k].item()
            == #[trigger] level_items(layers, level)[i] by {
        layers.lemma_filter_pred(here, i);
        assert(kept.contains(kept[i]));
        layers.lemma_filter_contains_rev(here, kept[i]);
        let k = choose|k: int| 0 <= k < layers.len() && layers[k] == kept[i];
        assert(layers[k].item() == level_items(layers, level)[i]);
    }
}

/// While the screen is locked nothing but the lock screen is drawn: no window, no
/// layer and no pointer.
pub proof fn law_lock_hides_all<N: Numerics>(
    state: StateView,
    view: SceneInput,
    num: N,
    items: Seq<SceneItem>,
)
    requires
        state.locked,
        state.scene(view, num, items),
    ensures
        forall|i: int| 0 <= i < items.len() ==> #[trigger] items[i] is Solid,
{
}

/// The lock screen shows how much has been typed, up to a limit, and nothing else
/// of the password.
pub proof fn law_lock_shows_length_only(
    size: (i32, i32),
    a: Seq<char>,
    b: Seq<char>,
    wrong: bool,
)
    requires
        dot_count(a.len()) == dot_count(b.len()),
    ensures
        lock_rects(size, a.len(), wrong) == lock_rects(size, b.len(), wrong),
        lock_rects(size, a.len(), wrong).len() == 3 + dot_count(a.len()) + if wrong {
            1int
        } else {
            0
        },
{
    assert(dots(size, a.len()) =~= dots(size, b.len()));
}

} // verus!
