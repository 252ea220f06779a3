//! Where things are drawn, and what lies in front of what.

use super::laws::{lemma_level_items, lemma_stacked_floats, lemma_windows_items_add,
    lemma_windows_items_owned, owner};
use super::scene::{
    border_fits, box_of, glow, level_items, lock_rects, lower_items, not_fullscreen, on_level,
    ring, solids, upper_items, LayerSurface, Level, SceneInput, SceneItem, SolidRect, WindowBox,
};
use crate::compositor::floating::{
    law_each_once, law_stacking_complete, lemma_slot, slot, stacks, windows_of, FloatingWindow,
};
use crate::compositor::state::StateView;
use crate::lists::{lemma_filter_members, lemma_filter_once, lemma_filter_place};
use crate::numerics::Numerics;
use crate::scalar::{Color, Single};
use vstd::prelude::*;

verus! {

/// What an unlocked scene is made of.
proof fn lemma_parts<N: Numerics>(
    state: StateView,
    view: SceneInput,
    num: N,
    items: Seq<SceneItem>,
) -> (r: (Seq<SolidRect>, Seq<u64>))
    requires
        !state.locked,
        state.scene(view, num, items),
    ensures
        state.focus_borders(view.focus, view.at, num, r.0),
        state.draws(view.mapped@, r.1),
        items == state.above_windows(view, r.0) + state.windows_items(
            r.1.reverse(),
            view.boxes@,
            view.shaders,
        ) + lower_items(view.layers@),
{
    choose|border: Seq<SolidRect>, painted: Seq<u64>|
        {
            &&& #[trigger] state.focus_borders(view.focus, view.at, num, border)
            &&& #[trigger] state.draws(view.mapped@, painted)
            &&& items == state.above_windows(view, border) + state.windows_items(
                painted.reverse(),
                view.boxes@,
                view.shaders,
            ) + lower_items(view.layers@)
        }
}

/// The pixel at (`px`, `py`) belongs to a rectangle.
pub open spec fn paints(rect: SolidRect, px: int, py: int) -> bool {
    rect.x <= px < rect.x + rect.width && rect.y <= py < rect.y + rect.height
}

/// How many items come before the border: the pointer, the popup and the upper layers.
pub open spec fn border_start(state: StateView, view: SceneInput) -> int {
    (if view.cursor {
        1int
    } else {
        0
    }) + (if state.ime_popup is Some && view.popup is Some {
        1int
    } else {
        0
    }) + upper_items(view.layers@).len()
}

/// Where the parts of an unlocked scene start.
proof fn lemma_sections<N: Numerics>(
    state: StateView,
    view: SceneInput,
    num: N,
    items: Seq<SceneItem>,
) -> (r: (Seq<SolidRect>, Seq<u64>))
    requires
        !state.locked,
        state.scene(view, num, items),
    ensures
        state.focus_borders(view.focus, view.at, num, r.0),
        state.draws(view.mapped@, r.1),
        ({
            let start = border_start(state, view);
            let drawn = state.windows_items(r.1.reverse(), view.boxes@, view.shaders);
            let lower = lower_items(view.layers@);
            let upper = upper_items(view.layers@);
            &&& items.len() == start + r.0.len() + drawn.len() + lower.len()
            &&& view.cursor ==> items[0] == SceneItem::Cursor
            &&& forall|i: int|
                start - upper.len() <= i < start ==> #[trigger] items[i] == upper[i - start
                    + upper.len()]
            &&& forall|i: int|
                0 <= i < start ==> !((#[trigger] items[i]) is Solid) && owner(items[i]) is None
            &&& forall|i: int|
                0 <= i < r.0.len() ==> items[start + i] == SceneItem::Solid(#[trigger] r.0[i])
            &&& forall|i: int|
                0 <= i < drawn.len() ==> items[start + r.0.len() + i] == #[trigger] drawn[i]
            &&& forall|i: int|
                0 <= i < lower.len() ==> items[start + r.0.len() + drawn.len() + i]
                    == #[trigger] lower[i]
            &&& forall|i: int|
                start + r.0.len() <= i < items.len() ==> !((#[trigger] items[i]) is Solid) && !(
                items[i] is Cursor) && !(items[i] is InputPopup)
        }),
{
    let (border, painted) = lemma_parts(state, view, num, items);
    let above = state.above_windows(view, border);
    let drawn = state.windows_items(painted.reverse(), view.boxes@, view.shaders);
    let lower = lower_items(view.layers@);
    let upper = upper_items(view.layers@);
    let start = border_start(state, view);
    assert(above.len() == start + border.len());
    assert forall|i: int| start + border.len() <= i < items.len() implies !(
    (#[trigger] items[i]) is Solid) && !(items[i] is Cursor) && !(items[i] is InputPopup) by {
        if i < above.len() + drawn.len() {
            lemma_windows_items_owned(
                state,
                painted.reverse(),
                view.boxes@,
                view.shaders,
                i - above.len(),
            );
            assert(items[i] == drawn[i - above.len()]);
        } else {
            assert(items[i] == lower[i - above.len() - drawn.len()]);
        }
    }
    assert forall|i: int| 0 <= i < border.len() implies items[start + i] == SceneItem::Solid(
        #[trigger] border[i],
    ) by {
        assert(above[start + i] == solids(border)[i]);
    }
    assert forall|i: int| start - upper.len() <= i < start implies #[trigger] items[i]
        == upper[i - start + upper.len()] by {
        assert(above[i] == upper[i - start + upper.len()]);
    }
    (border, painted)
}

/// The border of the window that has the keyboard is three rings around that window, one
/// pixel thick and one, two and three pixels away from it, the outermost first, in the
/// colour of the settings and ever fainter outwards. It is all that there is of solid
/// rectangles, right in front of the windows, and it hides no pixel of the window.
pub proof fn law_border_around_focus<N: Numerics>(
    state: StateView,
    view: SceneInput,
    num: N,
    items: Seq<SceneItem>,
    corner: (i32, i32),
    k: int,
)
    requires
        !state.locked,
        state.scene(view, num, items),
        view.focus matches Some(surface) && state.by_surface.contains_key(surface),
        view.at.location == Some(corner),
        border_fits(corner, view.at.size),
        1 <= k <= 3,
    ensures
        ({
            let (x, y) = (corner.0 as int, corner.1 as int);
            let (w, h) = (view.at.size.0 as int, view.at.size.1 as int);
            let start = border_start(state, view);
            let first = start + 4 * (3 - k);
            let wanted = state.config.general.active_border_color;
            &&& start + 12 <= items.len()
            &&& forall|i: int|
                0 <= i < items.len() ==> ((#[trigger] items[i]) is Solid <==> start <= i < start
                    + 12)
            &&& items[first] matches SceneItem::Solid(top) && {
                &&& top.x == x - k
                &&& top.y == y - k
                &&& top.width == w + 2 * k
                &&& top.height == 1
                &&& top.color.red == wanted.red
                &&& top.color.green == wanted.green
                &&& top.color.blue == wanted.blue
                &&& call_ensures(
                    N::faded,
                    (
                        &num,
                        wanted.alpha,
                        Single {
                            bits: if k == 3 {
                                0x3e4c_cccd
                            } else if k == 2 {
                                0x3f00_0000
                            } else {
                                0x3f80_0000
                            },
                        },
                    ),
                    top.color.alpha,
                )
            }
            &&& items[first + 1] matches SceneItem::Solid(bottom) && {
                &&& bottom.x == x - k
                &&& bottom.y == y + h + k - 1
                &&& bottom.width == w + 2 * k
                &&& bottom.height == 1
                &&& items[first] == SceneItem::Solid(SolidRect { y: items[first]->Solid_0.y, ..bottom })
            }
            &&& items[first + 2] matches SceneItem::Solid(left) && {
                &&& left.x == x - k
                &&& left.y == y - k + 1
                &&& left.width == 1
                &&& left.height == h + 2 * k - 2
                &&& left.color == items[first]->Solid_0.color
            }
            &&& items[first + 3] matches SceneItem::Solid(right) && {
                &&& right.x == x + w + k - 1
                &&& right.y == y - k + 1
                &&& right.width == 1
                &&& right.height == h + 2 * k - 2
                &&& right.color == items[first]->Solid_0.color
            }
            &&& forall|e: int, px: int, py: int|
                first <= e < first + 4 && x <= px < x + w && y <= py < y + h ==> !(
                #[trigger] paints(items[e]->Solid_0, px, py))
        }),
{
    let (border, painted) = lemma_sections(state, view, num, items);
    let start = border_start(state, view);
    let first = start + 4 * (3 - k);
    let color = state.config.general.active_border_color;
    assert forall|i: int| 0 <= i < items.len() implies ((#[trigger] items[i]) is Solid <==> start
        <= i < start + 12) by {
        if start <= i < start + 12 {
            assert(items[start + (i - start)] == SceneItem::Solid(border[i - start]));
        }
    }
    let g = 3 - k;
    let alpha = choose|alpha: Single| #[trigger]
        call_ensures(N::faded, (&num, color.alpha, glow(g)), alpha) && border.subrange(
            4 * g,
            4 * g + 4,
        ) == ring(corner, view.at.size, 3 - g, Color { alpha, ..color });
    let part = border.subrange(4 * g, 4 * g + 4);
    assert forall|e: int| first <= e < first + 4 implies #[trigger] items[e] == SceneItem::Solid(
        part[e - first],
    ) by {
        assert(items[start + (e - start)] == SceneItem::Solid(border[e - start]));
        assert(part[e - first] == border[e - start]);
    }
    assert(items[first] == SceneItem::Solid(part[0]));
    assert(items[first + 1] == SceneItem::Solid(part[1]));
    assert(items[first + 2] == SceneItem::Solid(part[2]));
    assert(items[first + 3] == SceneItem::Solid(part[3]));
}

/// Without a window on the screen that has the keyboard there is no border.
pub proof fn law_no_focus_no_border<N: Numerics>(
    state: StateView,
    view: SceneInput,
    num: N,
    items: Seq<SceneItem>,
)
    requires
        !state.locked,
        state.scene(view, num, items),
        view.at.location is None || (view.focus matches Some(surface)
            ==> !state.by_surface.contains_key(surface)),
    ensures
        forall|i: int| 0 <= i < items.len() ==> !((#[trigger] items[i]) is Solid),
{
    let (border, painted) = lemma_sections(state, view, num, items);
    assert(border.len() == 0);
}

/// The pointer is in front of everything and there is one of it, or none at all. The
/// popup of the input method is next, below the line of text that it belongs to, if the
/// input method shows one that is alive.
pub proof fn law_pointer_and_popup_in_front<N: Numerics>(
    state: StateView,
    view: SceneInput,
    num: N,
    items: Seq<SceneItem>,
)
    requires
        !state.locked,
        state.scene(view, num, items),
    ensures
        view.cursor ==> items.len() > 0 && items[0] == SceneItem::Cursor,
        forall|i: int|
            0 <= i < items.len() && (#[trigger] items[i]) is Cursor ==> view.cursor && i == 0,
        state.ime_popup is Some ==> (view.popup matches Some(p) ==> {
            let at = if view.cursor {
                1int
            } else {
                0
            };
            &&& at < items.len()
            &&& items[at] is InputPopup
            &&& items[at]->InputPopup_x == p.x
            &&& i32::MIN <= p.y + p.line_height + 4 <= i32::MAX ==> items[at]->InputPopup_y == p.y
                + p.line_height + 4
        }),
        state.ime_popup is None || view.popup is None ==> forall|i: int|
            0 <= i < items.len() ==> !((#[trigger] items[i]) is InputPopup),
{
    let (border, painted) = lemma_sections(state, view, num, items);
    let (b, p) = lemma_parts(state, view, num, items);
    let above = state.above_windows(view, b);
    let upper = upper_items(view.layers@);
    let start = border_start(state, view);
    assert forall|i: int| 0 <= i < items.len() && i >= start implies !(
    (#[trigger] items[i]) is Cursor) && !(items[i] is InputPopup) by {
        if i < start + border.len() {
            assert(items[start + (i - start)] == SceneItem::Solid(border[i - start]));
        }
    }
    assert forall|i: int| start - upper.len() <= i < start implies (#[trigger] items[i]) is Layer by {
        assert(items[i] == upper[i - start + upper.len()]);
    }
    assert forall|i: int| 0 <= i < start - upper.len() implies #[trigger] items[i]
        == above[i] by {}
}

/// Every window that is drawn is drawn where it is on the screen, its buffer moved so
/// that the content starts there; its corners are rounded if the settings say so and
/// effects can be drawn. Every shadow lies around its window, with the same reach on
/// every side, right behind it. This needs that the numbers are within the range of
/// coordinates.
pub proof fn law_windows_drawn_in_place<N: Numerics>(
    state: StateView,
    view: SceneInput,
    num: N,
    items: Seq<SceneItem>,
    i: int,
) -> (b: WindowBox)
    requires
        !state.locked,
        state.scene(view, num, items),
        0 <= i < items.len(),
        items[i] is Window || items[i] is Shadow,
    ensures
        view.boxes@.contains(b),
        items[i] matches SceneItem::Window { window, x, y, rounded } ==> {
            &&& window == b.window
            &&& rounded == (view.shaders && state.config.decoration.rounding > 0)
            &&& b.location matches Some(corner) ==> {
                &&& i32::MIN <= corner.0 - b.content.0 <= i32::MAX ==> x == corner.0 - b.content.0
                &&& i32::MIN <= corner.1 - b.content.1 <= i32::MAX ==> y == corner.1 - b.content.1
            }
        },
        items[i] matches SceneItem::Shadow { window, x, y, width, height, size_w, size_h } ==> {
            let range = state.config.decoration.shadow_range as int;
            let (w, h) = if state.fullscreen_window == Some(window) && b.target is Some {
                b.target->0
            } else {
                b.size
            };
            &&& window == b.window
            &&& view.shaders
            &&& state.config.decoration.shadow_enabled
            &&& size_w == w
            &&& size_h == h
            &&& w > 0 && h > 0
            &&& w + 2 * range <= i32::MAX ==> width == w + 2 * range
            &&& h + 2 * range <= i32::MAX ==> height == h + 2 * range
            &&& b.location matches Some(corner) ==> {
                &&& i32::MIN <= corner.0 - range ==> x == corner.0 - range
                &&& i32::MIN <= corner.1 - range ==> y == corner.1 - range
            }
            &&& i > 0 && items[i - 1] is Window && items[i - 1]->Window_window == window
        },
{
    let (border, painted) = lemma_sections(state, view, num, items);
    let start = border_start(state, view);
    let drawn = state.windows_items(painted.reverse(), view.boxes@, view.shaders);
    let lower = lower_items(view.layers@);
    let from = start + border.len();
    assert(from <= i < from + drawn.len()) by {
        if start <= i < from {
            assert(items[start + (i - start)] == SceneItem::Solid(border[i - start]));
        }
        if i >= from + drawn.len() {
            let m = i - from - drawn.len();
            assert(items[from + drawn.len() + m] == lower[m]);
        }
    }
    assert(items[from + (i - from)] == drawn[i - from]);
    let b = lemma_drawn_box(state, painted.reverse(), view.boxes@, view.shaders, i - from);
    if items[i] is Shadow {
        assert(items[from + (i - 1 - from)] == drawn[i - 1 - from]);
    }
    b
}

/// Every item of a window comes from its box.
proof fn lemma_drawn_box(
    state: StateView,
    order: Seq<u64>,
    boxes: Seq<WindowBox>,
    shaders: bool,
    i: int,
) -> (b: WindowBox)
    requires
        0 <= i < state.windows_items(order, boxes, shaders).len(),
    ensures
        boxes.contains(b),
        ({
            let items = state.windows_items(order, boxes, shaders);
            ||| items[i] == state.window_items(b, shaders)[0]
            ||| i > 0 && state.window_items(b, shaders).len() == 2 && items[i]
                == state.window_items(b, shaders)[1] && items[i - 1] == state.window_items(
                b,
                shaders,
            )[0]
        }),
    decreases order.len(),
{
    let items = state.windows_items(order, boxes, shaders);
    let head = state.windows_items(order.drop_last(), boxes, shaders);
    if i < head.len() {
        let b = lemma_drawn_box(state, order.drop_last(), boxes, shaders, i);
        assert(items[i] == head[i]);
        if i > 0 {
            assert(items[i - 1] == head[i - 1]);
        }
        b
    } else {
        let b = box_of(boxes, order.last())->0;
        lemma_box_member(boxes, order.last());
        let own = state.window_items(b, shaders);
        assert(items[i] == own[i - head.len()]);
        if i - head.len() == 1 {
            assert(items[i - 1] == own[0]);
        }
        b
    }
}

proof fn lemma_box_member(boxes: Seq<WindowBox>, window: u64)
    ensures
        match box_of(boxes, window) {
            Some(b) => boxes.contains(b) && b.window == window,
            None => forall|k: int|
                0 <= k < boxes.len() ==> (#[trigger] boxes[k]).window != window,
        },
    decreases boxes.len(),
{
    if boxes.len() > 0 {
        let rest = boxes.drop_first();
        lemma_box_member(rest, window);
        if boxes[0].window == window {
            assert(boxes.contains(boxes[0]));
        } else {
            match box_of(boxes, window) {
                Some(b) => {
                    let k = choose|k: int| 0 <= k < rest.len() && rest[k] == b;
                    assert(boxes[k + 1] == b);
                },
                None => {
                    assert forall|k: int| 0 <= k < boxes.len() implies (
                    #[trigger] boxes[k]).window != window by {
                        if k > 0 {
                            assert(boxes[k] == rest[k - 1]);
                        }
                    }
                },
            }
        }
    }
}

/// Where the items of one of the windows are among those of all.
proof fn lemma_item_of(
    state: StateView,
    order: Seq<u64>,
    boxes: Seq<WindowBox>,
    shaders: bool,
    n: int,
) -> (i: int)
    requires
        0 <= n < order.len(),
        box_of(boxes, order[n]) is Some,
    ensures
        i == state.windows_items(order.take(n), boxes, shaders).len(),
        0 <= i < state.windows_items(order, boxes, shaders).len(),
        state.windows_items(order, boxes, shaders)[i] is Window,
        state.windows_items(order, boxes, shaders)[i]->Window_window == order[n],
        i + state.window_items(box_of(boxes, order[n])->0, shaders).len() <= state.windows_items(
            order,
            boxes,
            shaders,
        ).len(),
{
    let head = order.take(n);
    let tail = order.skip(n + 1);
    let own = seq![order[n]];
    assert(order =~= head + own + tail);
    lemma_windows_items_add(state, head + own, tail, boxes, shaders);
    lemma_windows_items_add(state, head, own, boxes, shaders);
    assert(own.drop_last() =~= Seq::<u64>::empty());
    reveal_with_fuel(StateView::windows_items, 2);
    lemma_box_member(boxes, order[n]);
    let b = box_of(boxes, order[n])->0;
    let i = state.windows_items(head, boxes, shaders).len() as int;
    assert(state.windows_items(own, boxes, shaders) =~= state.window_items(b, shaders));
    assert(state.windows_items(order, boxes, shaders)[i] == state.window_items(b, shaders)[0]);
    i
}

/// Every window on the screen of which something is known is drawn, and so is every
/// floating one and the one that fills the screen.
pub proof fn law_every_window_drawn<N: Numerics>(
    state: StateView,
    view: SceneInput,
    num: N,
    items: Seq<SceneItem>,
    k: int,
) -> (i: int)
    requires
        !state.locked,
        state.scene(view, num, items),
        0 <= k < view.boxes@.len(),
        ({
            let w = view.boxes@[k].window;
            view.mapped@.contains(w) || state.floating.has(w) || state.fullscreen_window == Some(w)
        }),
    ensures
        0 <= i < items.len(),
        items[i] matches SceneItem::Window { window, .. } && window == view.boxes@[k].window,
{
    let w = view.boxes@[k].window;
    let (border, painted) = lemma_sections(state, view, num, items);
    let from = border_start(state, view) + border.len();
    let fs = state.fullscreen_window;
    let filling = match fs {
        Some(w) => seq![w],
        None => Seq::<u64>::empty(),
    };
    let stack = choose|stack: Seq<FloatingWindow>|
        {
            &&& #[trigger] stacks(state.floating.entries, stack)
            &&& painted == view.mapped@.filter(state.gets_tile()) + windows_of(stack).filter(
                not_fullscreen(fs),
            ) + filling
        };
    let tiles = view.mapped@.filter(state.gets_tile());
    let floats = windows_of(stack).filter(not_fullscreen(fs));
    assert(painted.contains(w)) by {
        if fs == Some(w) {
            assert(painted[(tiles.len() + floats.len()) as int] == w);
        } else if state.floating.has(w) {
            lemma_slot(state.floating.entries, w);
            let s = slot(state.floating.entries, w);
            let entry = state.floating.entries[s];
            law_stacking_complete(state.floating.entries, stack);
            assert(state.floating.entries.contains(entry));
            assert(stack.contains(entry));
            let m = choose|m: int| 0 <= m < stack.len() && stack[m] == entry;
            assert(windows_of(stack)[m] == w);
            assert(windows_of(stack).contains(w));
            lemma_filter_members(windows_of(stack), not_fullscreen(fs));
            assert(floats.contains(w));
            let m = choose|m: int| 0 <= m < floats.len() && floats[m] == w;
            assert(painted[tiles.len() + m] == w);
        } else {
            lemma_filter_members(view.mapped@, state.gets_tile());
            assert(tiles.contains(w));
            let m = choose|m: int| 0 <= m < tiles.len() && tiles[m] == w;
            assert(painted[m] == w);
        }
    }
    let m = choose|m: int| 0 <= m < painted.len() && painted[m] == w;
    let order = painted.reverse();
    assert(order[painted.len() - 1 - m] == w);
    lemma_box_member(view.boxes@, w);
    let i = lemma_item_of(state, order, view.boxes@, view.shaders, painted.len() - 1 - m);
    let drawn = state.windows_items(order, view.boxes@, view.shaders);
    assert(items[from + i] == drawn[i]);
    from + i
}

/// Of two floating windows that do not fill the screen, the higher one is in front of
/// the lower one.
pub proof fn law_floating_windows_by_height<N: Numerics>(
    state: StateView,
    view: SceneInput,
    num: N,
    items: Seq<SceneItem>,
    a: int,
    b: int,
    i: int,
    j: int,
)
    requires
        !state.locked,
        state.scene(view, num, items),
        state.floating.distinct(),
        0 <= a < state.floating.entries.len(),
        0 <= b < state.floating.entries.len(),
        state.floating.entries[a].z < state.floating.entries[b].z,
        state.fullscreen_window != Some(state.floating.entries[a].window),
        state.fullscreen_window != Some(state.floating.entries[b].window),
        0 <= i < items.len(),
        0 <= j < items.len(),
        owner(items[i]) == Some(state.floating.entries[a].window),
        owner(items[j]) == Some(state.floating.entries[b].window),
    ensures
        j < i,
{
    let (border, painted) = lemma_sections(state, view, num, items);
    let from = border_start(state, view) + border.len();
    let fs = state.fullscreen_window;
    let filling = match fs {
        Some(w) => seq![w],
        None => Seq::<u64>::empty(),
    };
    let stack = choose|stack: Seq<FloatingWindow>|
        {
            &&& #[trigger] stacks(state.floating.entries, stack)
            &&& painted == view.mapped@.filter(state.gets_tile()) + windows_of(stack).filter(
                not_fullscreen(fs),
            ) + filling
        };
    let tiles = view.mapped@.filter(state.gets_tile());
    let floats = windows_of(stack).filter(not_fullscreen(fs));
    let (low, high) = (state.floating.entries[a], state.floating.entries[b]);
    law_each_once(state.floating, stack);
    law_stacking_complete(state.floating.entries, stack);
    assert(state.floating.entries.contains(low) && state.floating.entries.contains(high));
    assert(stack.contains(low) && stack.contains(high));
    let p = choose|p: int| 0 <= p < stack.len() && stack[p] == low;
    let q = choose|q: int| 0 <= q < stack.len() && stack[q] == high;
    assert(p < q) by {
        if q < p {
            assert(stack[q].z < stack[p].z);
        }
    }
    let windows = windows_of(stack);
    assert(windows[p] == low.window && windows[q] == high.window);
    assert(windows.no_duplicates());
    // Both are painted once, the lower one earlier.
    let (s, t) = lemma_filter_order(windows, not_fullscreen(fs), p, q);
    lemma_painted_once(state, view, painted, stack, tiles.len() + s);
    lemma_painted_once(state, view, painted, stack, tiles.len() + t);
    lemma_scene_order(
        state,
        view,
        num,
        items,
        border,
        painted,
        tiles.len() + s,
        tiles.len() + t,
        i,
        j,
    );
}

/// Entries that pass keep their order.
proof fn lemma_filter_order(
    list: Seq<u64>,
    p: spec_fn(u64) -> bool,
    i: int,
    j: int,
) -> (r: (int, int))
    requires
        0 <= i < j < list.len(),
        p(list[i]),
        p(list[j]),
    ensures
        0 <= r.0 < r.1 < list.filter(p).len(),
        list.filter(p)[r.0] == list[i],
        list.filter(p)[r.1] == list[j],
{
    lemma_filter_place(list, p, i);
    lemma_filter_place(list, p, j);
    lemma_filter_place(list.take(j), p, i);
    assert(list.take(j).take(i) =~= list.take(i));
    (list.take(i).filter(p).len() as int, list.take(j).filter(p).len() as int)
}

/// A floating window that does not fill the screen is painted once.
proof fn lemma_painted_once(
    state: StateView,
    view: SceneInput,
    painted: Seq<u64>,
    stack: Seq<FloatingWindow>,
    n: int,
)
    requires
        stacks(state.floating.entries, stack),
        windows_of(stack).no_duplicates(),
        ({
            let tiles = view.mapped@.filter(state.gets_tile());
            let floats = windows_of(stack).filter(not_fullscreen(state.fullscreen_window));
            &&& painted == tiles + floats + (match state.fullscreen_window {
                Some(w) => seq![w],
                None => Seq::<u64>::empty(),
            })
            &&& tiles.len() <= n < tiles.len() + floats.len()
        }),
    ensures
        forall|m: int| 0 <= m < painted.len() && #[trigger] painted[m] == painted[n] ==> m == n,
{
    let fs = state.fullscreen_window;
    let tiles = view.mapped@.filter(state.gets_tile());
    let floats = windows_of(stack).filter(not_fullscreen(fs));
    let w = painted[n];
    assert(w == floats[n - tiles.len()]);
    lemma_filter_once(windows_of(stack), not_fullscreen(fs));
    lemma_filter_members(windows_of(stack), not_fullscreen(fs));
    assert(floats.contains(w));
    lemma_stacked_floats(state, stack, w);
    assert forall|m: int| 0 <= m < painted.len() && #[trigger] painted[m] == w implies m == n by {
        if m < tiles.len() {
            view.mapped@.lemma_filter_pred(state.gets_tile(), m);
            assert(painted[m] == tiles[m]);
        } else if m < tiles.len() + floats.len() {
            assert(painted[m] == floats[m - tiles.len()]);
        } else {
            assert(painted[m] == fs->0);
        }
    }
}

/// Of two windows that are painted once, the one painted later is in front.
proof fn lemma_scene_order<N: Numerics>(
    state: StateView,
    view: SceneInput,
    num: N,
    items: Seq<SceneItem>,
    border: Seq<SolidRect>,
    painted: Seq<u64>,
    m: int,
    n: int,
    i: int,
    j: int,
)
    requires
        ({
            let from = border_start(state, view) + border.len();
            let drawn = state.windows_items(painted.reverse(), view.boxes@, view.shaders);
            let lower = lower_items(view.layers@);
            &&& items.len() == from + drawn.len() + lower.len()
            &&& forall|k: int|
                0 <= k < from ==> owner(#[trigger] items[k]) is None
            &&& forall|k: int| 0 <= k < drawn.len() ==> items[from + k] == #[trigger] drawn[k]
            &&& forall|k: int|
                0 <= k < lower.len() ==> items[from + drawn.len() + k] == #[trigger] lower[k]
        }),
        0 <= m < n < painted.len(),
        forall|k: int| 0 <= k < painted.len() && #[trigger] painted[k] == painted[m] ==> k == m,
        forall|k: int| 0 <= k < painted.len() && #[trigger] painted[k] == painted[n] ==> k == n,
        0 <= i < items.len(),
        0 <= j < items.len(),
        owner(items[i]) == Some(painted[m]),
        owner(items[j]) == Some(painted[n]),
    ensures
        j < i,
{
    let from = border_start(state, view) + border.len();
    let (boxes, shaders) = (view.boxes@, view.shaders);
    let order = painted.reverse();
    let drawn = state.windows_items(order, boxes, shaders);
    let lower = lower_items(view.layers@);
    assert forall|k: int| 0 <= k < items.len() && owner(#[trigger] items[k]) is Some implies from
        <= k < from + drawn.len() by {
        if k >= from + drawn.len() {
            let l = k - from - drawn.len();
            assert(items[from + drawn.len() + l] == lower[l]);
        }
    }
    let (p, q) = (i - from, j - from);
    assert(items[from + p] == drawn[p]);
    assert(items[from + q] == drawn[q]);
    // In front come the items of the windows painted after number m.
    let c = painted.len() - n;
    let (front, back) = (order.take(c), order.skip(c));
    assert(order =~= front + back);
    lemma_windows_items_add(state, front, back, boxes, shaders);
    let first = state.windows_items(front, boxes, shaders);
    let second = state.windows_items(back, boxes, shaders);
    if q >= first.len() {
        lemma_windows_items_owned(state, back, boxes, shaders, q - first.len());
        assert(drawn[q] == second[q - first.len()]);
        let x = choose|x: int| 0 <= x < back.len() && back[x] == painted[n];
        assert(order[c + x] == painted[painted.len() - 1 - c - x]);
        assert(painted[painted.len() - 1 - c - x] == painted[n]);
    }
    if p < first.len() {
        lemma_windows_items_owned(state, front, boxes, shaders, p);
        assert(drawn[p] == first[p]);
        let x = choose|x: int| 0 <= x < front.len() && front[x] == painted[m];
        assert(order[x] == painted[painted.len() - 1 - x]);
        assert(painted[painted.len() - 1 - x] == painted[m]);
    }
}

/// Every surface on a layer is drawn where it is, at the origin if it has no place, and
/// nothing is drawn as such a surface that is none.
pub proof fn law_layers_drawn_in_place<N: Numerics>(
    state: StateView,
    view: SceneInput,
    num: N,
    items: Seq<SceneItem>,
    k: int,
)
    requires
        !state.locked,
        state.scene(view, num, items),
    ensures
        0 <= k < view.layers@.len() ==> exists|i: int|
            {
                &&& 0 <= i < items.len()
                &&& #[trigger] items[i] == (SceneItem::Layer {
                    surface: view.layers@[k].surface,
                    x: match view.layers@[k].location {
                        Some(at) => at.0,
                        None => 0,
                    },
                    y: match view.layers@[k].location {
                        Some(at) => at.1,
                        None => 0,
                    },
                })
            },
        forall|i: int|
            0 <= i < items.len() ==> ((#[trigger] items[i]) matches SceneItem::Layer {
                surface,
                ..
            } ==> exists|l: int|
                0 <= l < view.layers@.len() && (#[trigger] view.layers@[l]).surface == surface),
{
    let layers = view.layers@;
    let (border, painted) = lemma_sections(state, view, num, items);
    let start = border_start(state, view);
    let from = start + border.len();
    let drawn = state.windows_items(painted.reverse(), view.boxes@, view.shaders);
    let upper = upper_items(layers);
    let lower = lower_items(layers);
    let overlay = level_items(layers, Level::Overlay);
    let top = level_items(layers, Level::Top);
    let bottom = level_items(layers, Level::Bottom);
    let background = level_items(layers, Level::Background);
    if 0 <= k < layers.len() {
        let level = layers[k].level;
        let n = lemma_on_level(layers, level, k);
        let own = layers[k].item();
        let i = match level {
            Level::Overlay => start - upper.len() + n,
            Level::Top => start - upper.len() + overlay.len() + n,
            Level::Bottom => from + drawn.len() + n,
            Level::Background => from + drawn.len() + bottom.len() + n,
        };
        if level is Overlay || level is Top {
            assert(items[i] == upper[i - start + upper.len()]);
        } else {
            let l = i - from - drawn.len();
            assert(items[from + drawn.len() + l] == lower[l]);
        }
        assert(items[i] == own);
    }
    lemma_level_items(layers, Level::Overlay);
    lemma_level_items(layers, Level::Top);
    lemma_level_items(layers, Level::Bottom);
    lemma_level_items(layers, Level::Background);
    assert forall|i: int| 0 <= i < items.len() implies ((#[trigger] items[i]) matches SceneItem::Layer {
        surface,
        ..
    } ==> exists|l: int|
        0 <= l < layers.len() && (#[trigger] layers[l]).surface == surface) by {
        if items[i] is Layer {
            if i < start - upper.len() {
                let (b, p) = lemma_parts(state, view, num, items);
                assert(items[i] == state.above_windows(view, b)[i]);
            } else if i < start {
                assert(items[i] == upper[i - start + upper.len()]);
                let n = i - start + upper.len();
                if n < overlay.len() {
                    assert(upper[n] == overlay[n]);
                } else {
                    assert(upper[n] == top[n - overlay.len()]);
                }
            } else if i < from {
                assert(items[start + (i - start)] == SceneItem::Solid(border[i - start]));
            } else if i < from + drawn.len() {
                lemma_windows_items_owned(
                    state,
                    painted.reverse(),
                    view.boxes@,
                    view.shaders,
                    i - from,
                );
                assert(items[from + (i - from)] == drawn[i - from]);
            } else {
                let n = i - from - drawn.len();
                assert(items[from + drawn.len() + n] == lower[n]);
                if n < bottom.len() {
                    assert(lower[n] == bottom[n]);
                } else {
                    assert(lower[n] == background[n - bottom.len()]);
                }
            }
        }
    }
}

/// A surface is among those of its layer.
proof fn lemma_on_level(layers: Seq<LayerSurface>, level: Level, k: int) -> (n: int)
    requires
        0 <= k < layers.len(),
        layers[k].level == level,
    ensures
        0 <= n < level_items(layers, level).len(),
        level_items(layers, level)[n] == layers[k].item(),
{
    let here = on_level(level);
    layers.lemma_filter_contains(here, k);
    let kept = layers.filter(here);
    assert(kept.contains(layers[k]));
    choose|n: int| 0 <= n < kept.len() && kept[n] == layers[k]
}

/// The lock screen: the background fills the screen behind everything; in front of it the
/// box for the password is in the middle, a bar is above it and, after a wrong password
/// only, one below it, both in the middle; and there is a dot for each character that was
/// typed, up to twenty, side by side at equal distances in the middle of the box.
pub proof fn law_lock_screen_centred(size: (i32, i32), typed: nat, wrong: bool, i: int)
    requires
        size.0 >= 500,
        size.1 >= 200,
    ensures
        ({
            let rects = lock_rects(size, typed, wrong);
            let n = if typed < 20 {
                typed as int
            } else {
                20
            };
            let last = rects.len() - 1;
            &&& rects.len() == n + if wrong {
                4int
            } else {
                3
            }
            &&& rects[last].x == 0 && rects[last].y == 0
            &&& rects[last].width == size.0 && rects[last].height == size.1
            &&& rects[0].width == 500 && rects[0].height == 80
            &&& size.0 - 1 <= 2 * rects[0].x + rects[0].width <= size.0
            &&& size.1 - 1 <= 2 * rects[0].y + rects[0].height <= size.1
            &&& rects[1].width == 200 && rects[1].height == 6
            &&& size.0 - 1 <= 2 * rects[1].x + rects[1].width <= size.0
            &&& rects[1].y == rects[0].y - 30
            &&& wrong ==> {
                &&& rects[n + 2].width == 400 && rects[n + 2].height == 6
                &&& size.0 - 1 <= 2 * rects[n + 2].x + rects[n + 2].width <= size.0
                &&& rects[n + 2].y == rects[0].y + rects[0].height + 15
            }
            &&& 0 <= i < n ==> {
                &&& rects[i + 2].width == 14 && rects[i + 2].height == 14
                &&& rects[i + 2].y == rects[0].y + 33
                &&& size.0 - 1 <= rects[i + 2].x + rects[n + 1 - i].x + 24 <= size.0
                &&& i > 0 ==> rects[i + 2].x == rects[i + 1].x + 24
            }
        }),
{
}

/// While the screen is locked, what is drawn last fills the whole output, and in front of
/// it are the box, the bar above it, a dot for each character typed, up to twenty, and a
/// bar more while the lock screen says that a password was wrong.
pub proof fn law_lock_scene_fills<N: Numerics>(
    state: StateView,
    view: SceneInput,
    num: N,
    items: Seq<SceneItem>,
)
    requires
        state.locked,
        state.scene(view, num, items),
    ensures
        items.len() == 3 + (if state.password_input.len() < 20 {
            state.password_input.len() as int
        } else {
            20
        }) + (if state.password_error is Some {
            1int
        } else {
            0
        }),
        items.last() matches SceneItem::Solid(back) && {
            &&& back.x == 0
            &&& back.y == 0
            &&& view.output matches Some(size) ==> back.width == size.0 && back.height == size.1
            &&& view.output is None ==> back.width == 3840 && back.height == 2160
        },
{
}

/// Of two tiled windows the one that came to the screen later is in front of the other. No
/// window may be on the screen twice.
pub proof fn law_tiled_windows_by_order<N: Numerics>(
    state: StateView,
    view: SceneInput,
    num: N,
    items: Seq<SceneItem>,
    a: int,
    b: int,
    i: int,
    j: int,
)
    requires
        !state.locked,
        state.scene(view, num, items),
        view.mapped@.no_duplicates(),
        0 <= a < b < view.mapped@.len(),
        !state.floating.has(view.mapped@[a]),
        !state.floating.has(view.mapped@[b]),
        state.fullscreen_window != Some(view.mapped@[a]),
        state.fullscreen_window != Some(view.mapped@[b]),
        0 <= i < items.len(),
        0 <= j < items.len(),
        owner(items[i]) == Some(view.mapped@[a]),
        owner(items[j]) == Some(view.mapped@[b]),
    ensures
        j < i,
{
    let (border, painted) = lemma_sections(state, view, num, items);
    let (s, t) = lemma_filter_order(view.mapped@, state.gets_tile(), a, b);
    lemma_tile_painted_once(state, view, painted, s);
    lemma_tile_painted_once(state, view, painted, t);
    lemma_scene_order(state, view, num, items, border, painted, s, t, i, j);
}

/// A tiled window is painted once.
proof fn lemma_tile_painted_once(state: StateView, view: SceneInput, painted: Seq<u64>, n: int)
    requires
        state.draws(view.mapped@, painted),
        view.mapped@.no_duplicates(),
        0 <= n < view.mapped@.filter(state.gets_tile()).len(),
    ensures
        painted[n] == view.mapped@.filter(state.gets_tile())[n],
        n < painted.len(),
        forall|m: int| 0 <= m < painted.len() && #[trigger] painted[m] == painted[n] ==> m == n,
{
    let fs = state.fullscreen_window;
    let tiles = view.mapped@.filter(state.gets_tile());
    let stack = choose|stack: Seq<FloatingWindow>|
        {
            &&& #[trigger] stacks(state.floating.entries, stack)
            &&& painted == tiles + windows_of(stack).filter(not_fullscreen(fs)) + (match fs {
                Some(w) => seq![w],
                None => Seq::<u64>::empty(),
            })
        };
    let floats = windows_of(stack).filter(not_fullscreen(fs));
    let w = tiles[n];
    view.mapped@.lemma_filter_pred(state.gets_tile(), n);
    lemma_filter_once(view.mapped@, state.gets_tile());
    lemma_filter_members(windows_of(stack), not_fullscreen(fs));
    assert forall|m: int| 0 <= m < painted.len() && #[trigger] painted[m] == w implies m == n by {
        if m < tiles.len() {
            assert(painted[m] == tiles[m]);
        } else if m < tiles.len() + floats.len() {
            assert(painted[m] == floats[m - tiles.len()]);
            assert(floats.contains(w));
            lemma_stacked_floats(state, stack, w);
        } else {
            assert(painted[m] == fs->0);
        }
    }
}

/// The layers lie above each other: every surface of the overlay layer is in front of every
/// one of the top layer, and every one of the bottom layer in front of every one of the
/// background. Of two surfaces on the same layer the one that is listed first is in front.
#[verifier::rlimit(40)]
pub proof fn law_layers_in_order<N: Numerics>(
    state: StateView,
    view: SceneInput,
    num: N,
    items: Seq<SceneItem>,
    a: int,
    b: int,
) -> (r: (int, int))
    requires
        !state.locked,
        state.scene(view, num, items),
        0 <= a < view.layers@.len(),
        0 <= b < view.layers@.len(),
        ({
            let (high, low) = (view.layers@[a].level, view.layers@[b].level);
            ||| high == low && a < b
            ||| high is Overlay && low !is Overlay
            ||| high is Top && (low is Bottom || low is Background)
            ||| high is Bottom && low is Background
        }),
    ensures
        0 <= r.0 < r.1 < items.len(),
        items[r.0] == view.layers@[a].item(),
        items[r.1] == view.layers@[b].item(),
{
    let layers = view.layers@;
    let (border, painted) = lemma_sections(state, view, num, items);
    let start = border_start(state, view);
    let from = start + border.len();
    let drawn = state.windows_items(painted.reverse(), view.boxes@, view.shaders);
    let upper = upper_items(layers);
    let lower = lower_items(layers);
    let overlay = level_items(layers, Level::Overlay).len();
    let bottom = level_items(layers, Level::Bottom).len();
    let (high, low) = (layers[a].level, layers[b].level);
    let m = lemma_place_on_level(layers, a);
    let n = lemma_place_on_level(layers, b);
    if high == low {
        lemma_level_order(layers, a, b);
    }
    let i = match high {
        Level::Overlay => start - upper.len() + m,
        Level::Top => start - upper.len() + overlay + m,
        Level::Bottom => from + drawn.len() + m,
        Level::Background => from + drawn.len() + bottom + m,
    };
    let j = match low {
        Level::Overlay => start - upper.len() + n,
        Level::Top => start - upper.len() + overlay + n,
        Level::Bottom => from + drawn.len() + n,
        Level::Background => from + drawn.len() + bottom + n,
    };
    if high is Overlay || high is Top {
        assert(items[i] == upper[i - start + upper.len()]);
    } else {
        let l = i - from - drawn.len();
        assert(items[from + drawn.len() + l] == lower[l]);
    }
    if low is Overlay || low is Top {
        assert(items[j] == upper[j - start + upper.len()]);
    } else {
        let l = j - from - drawn.len();
        assert(items[from + drawn.len() + l] == lower[l]);
    }
    (i, j)
}

/// Where a surface is among those of its layer: behind those of the layer listed before it.
spec fn place_on_level(layers: Seq<LayerSurface>, k: int) -> int {
    layers.take(k).filter(on_level(layers[k].level)).len() as int
}

proof fn lemma_place_on_level(layers: Seq<LayerSurface>, k: int) -> (n: int)
    requires
        0 <= k < layers.len(),
    ensures
        n == place_on_level(layers, k),
        0 <= n < level_items(layers, layers[k].level).len(),
        level_items(layers, layers[k].level)[n] == layers[k].item(),
    decreases layers.len(),
{
    reveal(Seq::filter);
    let here = on_level(layers[k].level);
    let shorter = layers.drop_last();
    if k == layers.len() - 1 {
        assert(layers.take(k) =~= shorter);
    } else {
        lemma_place_on_level(shorter, k);
        assert(shorter.take(k) =~= layers.take(k));
        assert(shorter[k] == layers[k]);
        let n = place_on_level(layers, k);
        assert(shorter.filter(here)[n].item() == layers[k].item());
        assert(layers.filter(here)[n] == shorter.filter(here)[n]);
    }
    place_on_level(layers, k)
}

proof fn lemma_level_order(layers: Seq<LayerSurface>, a: int, b: int)
    requires
        0 <= a < b < layers.len(),
        layers[a].level == layers[b].level,
    ensures
        place_on_level(layers, a) < place_on_level(layers, b),
{
    lemma_fewer_before(layers, on_level(layers[a].level), a, b);
}

proof fn lemma_fewer_before(
    layers: Seq<LayerSurface>,
    here: spec_fn(LayerSurface) -> bool,
    a: int,
    b: int,
)
    requires
        0 <= a < b <= layers.len(),
        here(layers[a]),
    ensures
        layers.take(a).filter(here).len() < layers.take(b).filter(here).len(),
    decreases b,
{
    reveal(Seq::filter);
    assert(layers.take(b).drop_last() =~= layers.take(b - 1));
    assert(layers.take(b).last() == layers[b - 1]);
    if a < b - 1 {
        lemma_fewer_before(layers, here, a, b - 1);
    }
}

/// Windows, popups and shadows of common sizes can always be drawn: a scene fits as long as
/// every coordinate is within five hundred million pixels of the origin, and no side is
/// negative or longer than that.
pub proof fn law_common_scenes_fit(state: StateView, view: SceneInput)
    requires
        view.output matches Some(size) ==> size.0 >= 0 && size.1 >= 0,
        view.popup matches Some(p) ==> -500_000_000 <= p.y <= 500_000_000 && 0 <= p.line_height
            <= 500_000_000,
        0 <= view.at.size.0 <= 500_000_000,
        0 <= view.at.size.1 <= 500_000_000,
        view.at.location matches Some(at) ==> -500_000_000 <= at.0 <= 500_000_000 && -500_000_000
            <= at.1 <= 500_000_000,
        state.config.decoration.shadow_range <= 500_000_000,
        forall|i: int|
            0 <= i < view.boxes@.len() ==> {
                let b = #[trigger] view.boxes@[i];
                &&& b.location matches Some(at) ==> -500_000_000 <= at.0 <= 500_000_000
                    && -500_000_000 <= at.1 <= 500_000_000
                &&& -500_000_000 <= b.content.0 <= 500_000_000
                &&& -500_000_000 <= b.content.1 <= 500_000_000
                &&& b.size.0 <= 500_000_000
                &&& b.size.1 <= 500_000_000
                &&& b.target matches Some(size) ==> size.0 <= 500_000_000 && size.1
                    <= 500_000_000
            },
    ensures
        view.fits(state),
{
}

} // verus!
