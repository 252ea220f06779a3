//! What single calls come to, and what several calls in a row do.

use crate::auth::{answers, begin, AuthNext};
use crate::backend::{refresh_millihertz, ScreenMode};
use crate::compositor::floating::{
    law_added_on_top, law_raise_moves_nothing, law_raised_on_top, stacks, FloatingManager,
    FloatingWindow,
};
use crate::compositor::orders::{
    law_drag_follows_pointer, law_fullscreen_orders, law_leave_fullscreen_orders, law_open_orders,
    law_put_there_at_once, law_switch_orders, law_unlock_orders,
};
use crate::compositor::outcomes::{law_close_takes_own_leaf, law_cycle_neighbours,
    law_float_takes_own_leaf, law_outer_gap_kept, law_send_moves_own_leaf, law_swap_neighbours};
use crate::compositor::screen::Screen;
use crate::compositor::state::{Effect, FullscreenPhase, LingxiState, Placement, StateView};
use crate::compositor::windows::OnScreen;
use crate::config::{bound_views, LingxiConfig, ParsedKeyBind};
use crate::input::keys::{check_configurable_keybind, filter_key, first_pressed, Action,
    KeyOutcome, Modifiers};
use crate::input::pointer::{scroll_axis, Scroll, ScrollOut};
use crate::input::presses::{asks_for, is_display_key, is_moving_key, law_binding_asks_for_press,
    law_other_presses_forwarded};
use crate::layout::laws::{law_remove_takes_one, law_remove_undoes_insert};
use crate::layout::paths::{
    beside, law_insertion_adds_one_turn, law_path_per_leaf, law_removal_drops_one_turn, paths,
    shortcut, Turn,
};
use crate::layout::tree::{leaf_count, removed, LayoutTree};
use crate::layout::WindowGeometry;
use crate::numerics::Numerics;
use crate::renderer::laws::{law_floating_above_tiled, law_fullscreen_on_top};
use crate::renderer::placement::{border_start, law_border_around_focus};
use crate::renderer::scene::{border_fits, popups_and_window, SceneInput, SceneItem};
use crate::scalar::Double;
use vstd::prelude::*;

verus! {

/// Removing a leaf from a tree takes one leaf and its split away: every other leaf is
/// reached by the turns that led to it, less the turn at that split for those on its other
/// side. The ratio and the gap stay. A number past the last leaf changes nothing.
pub proof fn law_tree_remove(tree: &mut LayoutTree, idx: usize, k: int)
    requires
        call_ensures(LayoutTree::remove, (tree, idx), ()),
    ensures
        ({
            let was = paths(old(tree)@.shape);
            let is = paths(final(tree)@.shape);
            &&& idx < was.len() ==> is.len() == was.len() - 1
            &&& idx < was.len() && 0 <= k < was.len() && k != idx ==> is[if k < idx {
                k
            } else {
                k - 1
            }] == if beside(was[k], was[idx as int]) {
                shortcut(was[k], was[idx as int].len() - 1)
            } else {
                was[k]
            }
            &&& idx >= was.len() ==> final(tree)@.shape == old(tree)@.shape
        }),
        final(tree)@.split_ratio == old(tree)@.split_ratio,
        final(tree)@.inner_gap == old(tree)@.inner_gap,
{
    let shape = old(tree)@.shape;
    law_path_per_leaf(shape);
    law_path_per_leaf(final(tree)@.shape);
    law_remove_takes_one(shape, idx as int);
    if idx < leaf_count(shape) && 0 <= k < leaf_count(shape) && k != idx {
        law_removal_drops_one_turn(shape, idx as int, k);
    }
}

/// Inserting a leaf into a tree splits the last leaf and nothing else, side by side if the
/// number of leaves was odd and one above the other if it was even. The ratio and the gap
/// stay.
pub proof fn law_tree_insert(tree: &mut LayoutTree, k: int)
    requires
        call_ensures(LayoutTree::insert, (tree,), ()),
    ensures
        ({
            let was = paths(old(tree)@.shape);
            let is = paths(final(tree)@.shape);
            let n = was.len() as int;
            &&& is.len() == n + 1
            &&& 0 <= k < n - 1 ==> is[k] == was[k]
            &&& n > 0 ==> is[n - 1] == was[n - 1].push(
                Turn { horizontal: n % 2 == 1, second: false },
            ) && is[n] == was[n - 1].push(Turn { horizontal: n % 2 == 1, second: true })
        }),
        final(tree)@.split_ratio == old(tree)@.split_ratio,
        final(tree)@.inner_gap == old(tree)@.inner_gap,
{
    law_insertion_adds_one_turn(old(tree)@.shape, k);
}

/// Inserting a leaf and removing the last one gives the tree back.
pub proof fn law_tree_insert_then_remove(first: &mut LayoutTree, second: &mut LayoutTree, n: usize)
    requires
        call_ensures(LayoutTree::insert, (first,), ()),
        old(second)@ == final(first)@,
        n == leaf_count(old(first)@.shape),
        call_ensures(LayoutTree::remove, (second, n), ()),
    ensures
        final(second)@ == old(first)@,
{
    law_remove_undoes_insert(old(first)@.shape);
}

/// A tree has as many leaves as tiles, and keeps the ratio that it is given.
pub proof fn law_tree_set_ratio(tree: &mut LayoutTree, ratio: Double)
    requires
        call_ensures(LayoutTree::set_split_ratio, (tree, ratio), ()),
    ensures
        final(tree)@.split_ratio == ratio,
        final(tree)@.shape == old(tree)@.shape,
        final(tree)@.inner_gap == old(tree)@.inner_gap,
{
}

/// Making a tiled window float takes its own leaf out of the tree of its workspace, and no
/// other.
pub proof fn law_call_toggle_floating<N: Numerics>(
    state: &mut LingxiState,
    surface: u64,
    i: int,
    screen: Screen,
    now: u64,
    num: N,
    effects: Vec<Effect>,
)
    requires
        old(state).wf(),
        old(state)@.floating.has_room(),
        old(state)@.workspaces[old(state)@.active].no_duplicates(),
        0 <= i < old(state)@.workspaces[old(state)@.active].len(),
        old(state)@.owns(surface, old(state)@.workspaces[old(state)@.active][i]),
        !old(state)@.floating.has(old(state)@.workspaces[old(state)@.active][i]),
        call_ensures(
            LingxiState::toggle_floating::<N>,
            (state, Some(surface), &screen, now, &num),
            effects,
        ),
    ensures
        ({
            let (was, is) = (old(state)@, final(state)@);
            &&& is.trees[was.active].shape == removed(
                was.trees[was.active].shape,
                was.rank(was.active, i),
            )
            &&& is.workspaces == was.workspaces
            &&& forall|n: int|
                0 <= n < was.trees.len() && n != was.active ==> #[trigger] is.trees[n]
                    == was.trees[n]
        }),
{
    law_float_takes_own_leaf(
        old(state)@,
        surface,
        i,
        screen,
        now,
        num,
        final(state)@,
        effects@,
    );
}

/// Swapping exchanges the window that has the keyboard with the next one, or with the one
/// before it, and moves no other.
pub proof fn law_call_swap_focused<N: Numerics>(
    state: &mut LingxiState,
    forward: bool,
    surface: u64,
    i: int,
    screen: Screen,
    now: u64,
    num: N,
    effects: Vec<Effect>,
)
    requires
        old(state).wf(),
        old(state)@.workspaces[old(state)@.active].no_duplicates(),
        old(state)@.workspaces[old(state)@.active].len() >= 2,
        0 <= i < old(state)@.workspaces[old(state)@.active].len(),
        old(state)@.owns(surface, old(state)@.workspaces[old(state)@.active][i]),
        call_ensures(
            LingxiState::swap_focused::<N>,
            (state, forward, Some(surface), &screen, now, &num),
            effects,
        ),
    ensures
        ({
            let was = old(state)@.workspaces[old(state)@.active];
            let is = final(state)@.workspaces[old(state)@.active];
            let n = was.len() as int;
            let j = if forward {
                (i + 1) % n
            } else {
                (i + n - 1) % n
            };
            is == was.update(i, was[j]).update(j, was[i])
        }),
        final(state)@.trees == old(state)@.trees,
{
    law_swap_neighbours(
        old(state)@,
        forward,
        surface,
        i,
        screen,
        now,
        num,
        final(state)@,
        effects@,
    );
}

/// Sending a window to another workspace moves it and its own leaf to the end there.
pub proof fn law_call_move_to_workspace<N: Numerics>(
    state: &mut LingxiState,
    target: usize,
    surface: u64,
    i: int,
    screen: Screen,
    now: u64,
    num: N,
    effects: Vec<Effect>,
)
    requires
        old(state).wf(),
        target < old(state)@.workspaces.len(),
        target != old(state)@.active,
        old(state)@.workspaces[old(state)@.active].no_duplicates(),
        0 <= i < old(state)@.workspaces[old(state)@.active].len(),
        old(state)@.owns(surface, old(state)@.workspaces[old(state)@.active][i]),
        call_ensures(
            LingxiState::move_to_workspace::<N>,
            (state, target, Some(surface), &screen, now, &num),
            effects,
        ),
    ensures
        ({
            let (was, is) = (old(state)@, final(state)@);
            let w = was.workspaces[was.active][i];
            &&& is.workspaces[was.active] == was.workspaces[was.active].remove(i)
            &&& is.workspaces[target as int] == was.workspaces[target as int].push(w)
            &&& !was.floating.has(w) ==> is.trees[was.active].shape == removed(
                was.trees[was.active].shape,
                was.rank(was.active, i),
            )
            &&& effects@[0] == Effect::Withdraw(w)
        }),
{
    law_send_moves_own_leaf(
        old(state)@,
        target as int,
        surface,
        i,
        screen,
        now,
        num,
        final(state)@,
        effects@,
    );
}

/// The keyboard goes to the next window on the screen, or to the one before.
pub proof fn law_call_cycle_focus(
    state: &mut LingxiState,
    forward: bool,
    mapped: Vec<u64>,
    surface: u64,
    i: int,
    effects: Vec<Effect>,
)
    requires
        mapped@.no_duplicates(),
        0 <= i < mapped@.len(),
        old(state)@.owns(surface, mapped@[i]),
        call_ensures(LingxiState::cycle_focus, (state, forward, &mapped, Some(surface)), effects),
    ensures
        effects@.len() == 1,
        effects@[0] == Effect::Focus(
            Some(
                mapped@[if forward {
                    (i + 1) % (mapped@.len() as int)
                } else {
                    (i + mapped@.len() - 1) % (mapped@.len() as int)
                }],
            ),
        ),
{
    law_cycle_neighbours(
        old(state)@,
        forward,
        mapped@,
        surface,
        i,
        final(state)@,
        effects@,
    );
}

/// A new window is the last one of the active workspace and gets the keyboard; when its
/// surface is destroyed, the workspace is as it was before.
pub proof fn law_window_comes_and_goes<N: Numerics>(
    first: &mut LingxiState,
    second: &mut LingxiState,
    window: u64,
    surface: u64,
    screen: Screen,
    now: u64,
    later: u64,
    num: N,
    opened: Vec<Effect>,
    closed: Vec<Effect>,
)
    requires
        old(first).wf(),
        old(first)@.workspaces[old(first)@.active].no_duplicates(),
        !old(first)@.workspaces[old(first)@.active].contains(window),
        !old(first)@.floating.has(window),
        old(first)@.trees[old(first)@.active].count() == old(first)@.rank(
            old(first)@.active,
            old(first)@.workspaces[old(first)@.active].len() as int,
        ),
        call_ensures(
            LingxiState::new_toplevel::<N>,
            (first, window, surface, &screen, now, &num),
            opened,
        ),
        old(second)@ == final(first)@,
        call_ensures(
            LingxiState::toplevel_destroyed::<N>,
            (second, surface, &screen, later, &num),
            closed,
        ),
    ensures
        final(first)@.workspaces[old(first)@.active] == old(first)@.workspaces[old(
            first,
        )@.active].push(window),
        opened@.last() == Effect::Focus(Some(window)),
        closed@[0] == Effect::Withdraw(window),
        final(second)@.workspaces[old(first)@.active] == old(first)@.workspaces[old(first)@.active],
        final(second)@.trees[old(first)@.active] == old(first)@.trees[old(first)@.active],
{
    let was = old(first)@;
    let mid = final(first)@;
    let list = was.workspaces[was.active];
    let n = list.len() as int;
    law_open_orders(was, window, surface, screen, now, num, mid, opened@);
    let longer = mid.workspaces[was.active];
    assert(longer == list.push(window));
    assert(longer.no_duplicates()) by {
        assert forall|a: int, b: int|
            0 <= a < longer.len() && 0 <= b < longer.len() && a != b implies longer[a]
            != longer[b] by {
            if a < n {
                assert(list.contains(list[a]));
            }
            if b < n {
                assert(list.contains(list[b]));
            }
        }
    }
    law_close_takes_own_leaf(
        mid,
        surface,
        window,
        screen,
        later,
        num,
        final(second)@,
        closed@,
        was.active,
        n,
    );
    lemma_same_rank(was, mid, n);
    law_remove_undoes_insert(was.trees[was.active].shape);
    assert(longer.remove(n) =~= list);
}

/// Windows further back do not change how many before a place are tiled.
proof fn lemma_same_rank(a: StateView, b: StateView, i: int)
    requires
        a.active == b.active,
        a.floating == b.floating,
        i <= a.workspaces[a.active].len(),
        i <= b.workspaces[a.active].len(),
        forall|k: int|
            0 <= k < i ==> #[trigger] a.workspaces[a.active][k] == b.workspaces[a.active][k],
    ensures
        a.rank(a.active, i) == b.rank(a.active, i),
    decreases i,
{
    if i > 0 {
        lemma_same_rank(a, b, i - 1);
        assert(a.workspaces[a.active][i - 1] == b.workspaces[a.active][i - 1]);
    }
}

/// A binding is found only if it asks for exactly the modifiers that are held down and for
/// the pressed key; without such a binding nothing is done.
pub proof fn law_call_check_keybind(
    modifiers: Modifiers,
    syms: Vec<u32>,
    binds: Vec<(ParsedKeyBind, String, Option<String>)>,
    r: Option<Action>,
)
    requires
        call_ensures(check_configurable_keybind, (modifiers, &syms, &binds), r),
    ensures
        r is Some ==> exists|i: int|
            {
                &&& 0 <= i < binds@.len()
                &&& (#[trigger] binds@[i]).0.logo == modifiers.logo
                &&& binds@[i].0.shift == modifiers.shift
                &&& binds@[i].0.ctrl == modifiers.ctrl
                &&& binds@[i].0.alt == modifiers.alt
                &&& syms@.contains(binds@[i].0.keysym)
            },
{
    let views = bound_views(binds@);
    law_binding_asks_for_press(views, modifiers, syms@);
    if r is Some {
        let bound = first_pressed(views, modifiers, syms@)->0;
        let i = choose|i: int|
            {
                &&& 0 <= i < views.len()
                &&& #[trigger] views[i] == bound
                &&& asks_for(bound, modifiers, syms@)
            };
        let k = choose|k: int| 0 <= k < syms@.len() && #[trigger] syms@[k] == bound.0.keysym;
        assert(binds@[i].0 == bound.0);
        assert(syms@.contains(binds@[i].0.keysym));
    }
}

/// A press that differs from every binding in a modifier or in the key goes to the client.
pub proof fn law_call_filter_key(
    modifiers: Modifiers,
    sym: u32,
    syms: Vec<u32>,
    binds: Vec<(ParsedKeyBind, String, Option<String>)>,
    outcome: KeyOutcome,
)
    requires
        !is_display_key(sym),
        !is_moving_key(modifiers, sym),
        forall|j: int|
            0 <= j < binds@.len() ==> {
                ||| (#[trigger] binds@[j]).0.logo != modifiers.logo
                ||| binds@[j].0.shift != modifiers.shift
                ||| binds@[j].0.ctrl != modifiers.ctrl
                ||| binds@[j].0.alt != modifiers.alt
                ||| !syms@.contains(binds@[j].0.keysym)
            },
        call_ensures(filter_key, (true, modifiers, sym, &syms, &binds), outcome),
    ensures
        outcome is Forward,
{
    let views = bound_views(binds@);
    assert forall|j: int| 0 <= j < views.len() implies {
        ||| (#[trigger] views[j]).0.logo != modifiers.logo
        ||| views[j].0.shift != modifiers.shift
        ||| views[j].0.ctrl != modifiers.ctrl
        ||| views[j].0.alt != modifiers.alt
        ||| !syms@.contains(views[j].0.keysym)
    } by {
        assert(views[j].0 == binds@[j].0);
    }
    law_other_presses_forwarded(true, modifiers, sym, syms@, views, outcome);
}

/// The border that a scene shows lies around the window that has the keyboard.
pub proof fn law_call_build_scene<N: Numerics>(
    state: LingxiState,
    view: SceneInput,
    num: N,
    items: Vec<SceneItem>,
    corner: (i32, i32),
    k: int,
)
    requires
        !state.locked,
        view.focus matches Some(surface) && state@.by_surface.contains_key(surface),
        view.at.location == Some(corner),
        border_fits(corner, view.at.size),
        1 <= k <= 3,
        call_ensures(LingxiState::build_scene::<N>, (&state, &view, &num), items),
    ensures
        ({
            let first = border_start(state@, view) + 4 * (3 - k);
            &&& items@[first] matches SceneItem::Solid(top) && {
                &&& top.x == corner.0 - k
                &&& top.y == corner.1 - k
                &&& top.width == view.at.size.0 + 2 * k
                &&& top.height == 1
            }
            &&& items@[first + 3] matches SceneItem::Solid(right) && {
                &&& right.x == corner.0 + view.at.size.0 + k - 1
                &&& right.y == corner.1 - k + 1
                &&& right.width == 1
                &&& right.height == view.at.size.1 + 2 * k - 2
            }
        }),
{
    law_border_around_focus(state@, view, num, items@, corner, k);
}

/// A drag keeps the point at which the window is held under the pointer: what the pointer
/// was away from the corner of the window when the drag started, it is away from it after
/// every motion. Letting go ends the drag.
pub proof fn law_drag_holds_point<N: Numerics>(
    start: &mut LingxiState,
    motion: &mut LingxiState,
    update: &mut LingxiState,
    end: &mut LingxiState,
    window: u64,
    corner: (i32, i32),
    size: (i32, i32),
    x: Double,
    y: Double,
    num: N,
    effects: Vec<Effect>,
)
    requires
        call_ensures(
            LingxiState::start_drag::<N>,
            (start, window, OnScreen { location: Some(corner), size }, &num),
            (),
        ),
        old(motion)@ == final(start)@,
        call_ensures(LingxiState::pointer_moved, (motion, x, y), ()),
        old(update)@ == final(motion)@,
        call_ensures(LingxiState::update_drag::<N>, (update, &num), effects),
        old(end)@ == final(update)@,
        call_ensures(LingxiState::end_drag, (end,), ()),
        old(start)@.floating.has(window),
    ensures
        effects@.len() == 1,
        effects@[0] matches Effect::Move(moved, geo) && {
            &&& moved == window
            &&& final(update)@.floating.geo(window) == Some(geo)
            &&& exists|a: Double, b: Double, dx: Double, dy: Double|
                {
                    &&& #[trigger] call_ensures(N::double, (&num, corner.0 as i64), a)
                    &&& #[trigger] call_ensures(N::double, (&num, corner.1 as i64), b)
                    &&& #[trigger] call_ensures(
                        N::minus,
                        (&num, old(start)@.pointer_location.0, a),
                        dx,
                    )
                    &&& #[trigger] call_ensures(
                        N::minus,
                        (&num, old(start)@.pointer_location.1, b),
                        dy,
                    )
                    &&& call_ensures(N::minus, (&num, x, dx), geo.x)
                    &&& call_ensures(N::minus, (&num, y, dy), geo.y)
                }
        },
        final(end)@.drag_window is None,
        final(end)@.floating == final(update)@.floating,
        final(end)@.workspaces == old(start)@.workspaces,
        final(end)@.trees == old(start)@.trees,
{
    law_drag_follows_pointer(
        old(update)@,
        window,
        num,
        final(update)@,
        effects@,
        window,
    );
}

/// A surface that asks for the keyboard for itself alone gets it, and no other does; the
/// commit of the window that is to fill the screen is the answer that full screen waits
/// for. Nothing else changes but that a frame is drawn.
pub proof fn law_call_commit(
    state: &mut LingxiState,
    surface: u64,
    exclusive: bool,
    effects: Vec<Effect>,
)
    requires
        call_ensures(LingxiState::commit, (state, surface, exclusive), effects),
    ensures
        exclusive ==> effects@.len() == 1 && effects@[0] == Effect::FocusSurface(surface),
        !exclusive ==> effects@.len() == 0,
        final(state)@.needs_render,
        final(state)@.fs_phase == (if old(state)@.fs_phase is Pending
            && old(state)@.fullscreen_window is Some && old(state)@.owns(
            surface,
            old(state)@.fullscreen_window->0,
        ) {
            FullscreenPhase::Active
        } else {
            old(state)@.fs_phase
        }),
        final(state)@ == (StateView {
            fs_phase: final(state)@.fs_phase,
            needs_render: true,
            ..old(state)@
        }),
{
}

/// When a surface on a layer goes that has the keyboard, the first window of the active
/// workspace gets it, if there is one; when another goes, nobody does.
pub proof fn law_call_layer_destroyed(
    state: &mut LingxiState,
    surface: u64,
    focus: Option<u64>,
    effects: Vec<Effect>,
)
    requires
        call_ensures(LingxiState::layer_destroyed, (state, surface, focus), effects),
    ensures
        focus != Some(surface) ==> effects@.len() == 0,
        focus == Some(surface) ==> effects@.len() == 1 && effects@[0] == Effect::Focus(
            if old(state)@.workspaces[old(state)@.active].len() > 0 {
                Some(old(state)@.workspaces[old(state)@.active][0])
            } else {
                None
            },
        ),
        final(state)@ == (StateView { needs_render: true, ..old(state)@ }),
{
}

/// A popup of the input method is shown until it is dismissed.
pub proof fn law_popup_comes_and_goes(
    first: &mut LingxiState,
    second: &mut LingxiState,
    surface: u64,
)
    requires
        call_ensures(LingxiState::new_ime_popup, (first, surface), ()),
        old(second)@ == final(first)@,
        call_ensures(LingxiState::dismiss_ime_popup, (second,), ()),
    ensures
        final(first)@.ime_popup == Some(surface),
        final(second)@.ime_popup is None,
        final(first)@.needs_render,
        final(second)@ == (StateView { ime_popup: None, needs_render: true, ..old(first)@ }),
{
}

/// Locking takes every window off the screen and forgets what was typed and the popup of
/// the input method; the right password then brings every window of the active workspace
/// back, and nothing that was typed stays. A wrong one leaves the screen locked.
pub proof fn law_lock_and_password<N: Numerics>(
    first: &mut LingxiState,
    second: &mut LingxiState,
    mapped: Vec<u64>,
    right: bool,
    screen: Screen,
    now: u64,
    num: N,
    locking: Vec<Effect>,
    effects: Vec<Effect>,
)
    requires
        call_ensures(LingxiState::lock, (first, &mapped), locking),
        old(second)@ == final(first)@,
        call_ensures(
            LingxiState::password_verified::<N>,
            (second, right, &screen, now, &num),
            effects,
        ),
    ensures
        final(first)@.locked,
        final(first)@.ime_popup is None,
        final(first)@.password_input.len() == 0,
        final(first)@.password_error is None,
        locking@.len() == mapped@.len(),
        forall|i: int|
            0 <= i < mapped@.len() ==> #[trigger] locking@[i] == Effect::Withdraw(mapped@[i]),
        final(second)@.locked == !right,
        final(second)@.password_input.len() == 0,
        final(second)@.workspaces == old(first)@.workspaces,
        final(second)@.trees == old(first)@.trees,
        !right ==> effects@.len() == 0 && final(second)@.password_error == Some(
            "Password incorrect"@,
        ) && final(second)@.password_error_at == now,
        right ==> effects@.len() == 2 * old(first)@.workspaces[old(first)@.active].len() + 1
            && final(second)@.password_error is None,
{
    if right {
        law_unlock_orders(old(second)@, screen, now, num, final(second)@, effects@);
    }
}

/// What the lock screen says of a wrong password is taken back after three seconds, and not
/// before.
pub proof fn law_call_expire_error(state: &mut LingxiState, now: u64)
    requires
        call_ensures(LingxiState::expire_password_error, (state, now), ()),
    ensures
        now >= old(state)@.password_error_at + 3_000_000_000
            ==> final(state)@.password_error is None,
        now < old(state)@.password_error_at + 3_000_000_000 ==> final(state)@ == old(state)@,
        old(state)@.password_error is None ==> final(state)@ == old(state)@,
        final(state)@.password_input == old(state)@.password_input,
        final(state)@.locked == old(state)@.locked,
{
}

/// A button that is pressed gives the keyboard to the window under the pointer, or to none;
/// one that is let go changes nothing.
pub proof fn law_call_pointer_button(
    state: LingxiState,
    pressed: bool,
    under: Option<u64>,
    effects: Vec<Effect>,
)
    requires
        call_ensures(LingxiState::pointer_button, (&state, pressed, under), effects),
    ensures
        pressed ==> effects@.len() == 1 && effects@[0] == Effect::Focus(under),
        !pressed ==> effects@.len() == 0,
{
}

/// A relative motion keeps the pointer on the output: each coordinate is bounded by the last
/// pixel of its own side.
pub proof fn law_call_pointer_target<N: Numerics>(
    state: LingxiState,
    delta: (Double, Double),
    size: (i32, i32),
    num: N,
    r: (Double, Double),
)
    requires
        size.0 >= 1,
        size.1 >= 1,
        call_ensures(LingxiState::pointer_target::<N>, (&state, delta, Some(size), &num), r),
    ensures
        call_ensures(
            N::bounded,
            (&num, state@.pointer_location.0, delta.0, (size.0 - 1) as i32),
            r.0,
        ),
        call_ensures(
            N::bounded,
            (&num, state@.pointer_location.1, delta.1, (size.1 - 1) as i32),
            r.1,
        ),
{
}

/// What is passed on of a scroll is the amount as it is, unless it is negligible, and the
/// notches without their fraction, unless there are none; neither depends on the other.
pub proof fn law_call_scroll_axis<N: Numerics>(scroll: Scroll, num: N, out: ScrollOut)
    requires
        call_ensures(scroll_axis::<N>, (scroll, &num), out),
    ensures
        scroll.amount is None ==> out.value is None,
        out.value is Some ==> out.value == scroll.amount && call_ensures(
            N::negligible,
            (&num, scroll.amount->0),
            false,
        ),
        scroll.amount is Some && out.value is None ==> call_ensures(
            N::negligible,
            (&num, scroll.amount->0),
            true,
        ),
        scroll.v120 is None ==> out.v120 is None,
        out.v120 matches Some(n) ==> scroll.v120 is Some && call_ensures(
            N::truncated,
            (&num, scroll.v120->0),
            n,
        ) && call_ensures(N::is_zero, (&num, scroll.v120->0), false),
        scroll.v120 is Some && out.v120 is None ==> call_ensures(
            N::is_zero,
            (&num, scroll.v120->0),
            true,
        ),
{
}

/// The window of a surface is where it is on the screen, in the size that its client has
/// made it; a surface without a window is nowhere.
pub proof fn law_call_parent_geometry(
    state: LingxiState,
    parent: u64,
    corner: (i32, i32),
    size: (i32, i32),
    r: WindowGeometry<i32>,
)
    requires
        call_ensures(
            LingxiState::parent_geometry,
            (&state, parent, OnScreen { location: Some(corner), size }),
            r,
        ),
    ensures
        state@.by_surface.contains_key(parent) ==> r.x == corner.0 && r.y == corner.1 && r.width
            == size.0 && r.height == size.1,
        !state@.by_surface.contains_key(parent) ==> r.x == 0 && r.y == 0 && r.width == 0
            && r.height == 0,
{
}

/// A window that is raised is the highest of the floating ones, and none of them moves. A
/// window that does not float cannot be raised.
pub proof fn law_call_raise_window(
    state: &mut LingxiState,
    window: u64,
    order: Seq<FloatingWindow>,
    other: u64,
)
    requires
        old(state).wf(),
        old(state)@.floating.has_room(),
        call_ensures(LingxiState::raise_window, (state, window), ()),
        stacks(final(state)@.floating.entries, order),
    ensures
        old(state)@.floating.has(window) ==> order.len() > 0 && order.last().window == window,
        !old(state)@.floating.has(window) ==> final(state)@ == old(state)@,
        final(state)@.floating.geo(other) == old(state)@.floating.geo(other),
        final(state)@.workspaces == old(state)@.workspaces,
        final(state)@.trees == old(state)@.trees,
{
    law_raise_moves_nothing(old(state)@.floating, window, other);
    if old(state)@.floating.has(window) {
        law_raised_on_top(old(state)@.floating, window, order);
    }
}

/// A floating window that is put at a place is there at once, and its client is asked for
/// the size only if that is wanted.
pub proof fn law_call_set_floating_geo(
    state: &mut LingxiState,
    window: u64,
    geo: WindowGeometry<Double>,
    reconfigure: bool,
    effects: Vec<Effect>,
    other: u64,
)
    requires
        call_ensures(
            LingxiState::set_floating_geo,
            (state, window, geo, reconfigure),
            effects,
        ),
    ensures
        final(state)@.floating.geo(window) == Some(geo),
        other != window ==> final(state)@.floating.geo(other) == old(state)@.floating.geo(other),
        !final(state)@.animations.windows.contains_key(window),
        effects@.len() == if reconfigure {
            2int
        } else {
            1
        },
        effects@[0] == Effect::Move(window, geo),
        reconfigure ==> effects@[1] == Effect::Configure(window, Placement::Free(geo)),
        final(state)@.workspaces == old(state)@.workspaces,
        final(state)@.trees == old(state)@.trees,
{
    law_put_there_at_once(old(state)@, window, geo, other);
}

/// A window that is added to the floating ones is the highest of them, at the place given.
pub proof fn law_call_add_floating(
    floating: &mut FloatingManager,
    window: u64,
    geo: WindowGeometry<Double>,
    order: Seq<FloatingWindow>,
)
    requires
        old(floating).wf(),
        old(floating)@.has_room(),
        call_ensures(FloatingManager::add, (floating, window, geo), ()),
        stacks(final(floating)@.entries, order),
    ensures
        order.len() > 0,
        order.last().window == window,
        order.last().geo == geo,
{
    law_added_on_top(old(floating)@, window, geo, order);
}

/// At the start there are five workspaces, all of them empty and the first one active; no
/// window floats or fills the screen, the screen is not locked, and the trees divide as the
/// settings say.
pub proof fn law_call_new(config: LingxiConfig, r: LingxiState, n: int)
    requires
        call_ensures(LingxiState::new, (config,), r),
    ensures
        r@.workspaces.len() == 5,
        r@.trees.len() == 5,
        0 <= n < 5 ==> {
            &&& r@.workspaces[n].len() == 0
            &&& r@.trees[n].shape is None
            &&& r@.trees[n].split_ratio == config.layout.split_ratio
            &&& r@.trees[n].inner_gap == config.general.gaps_inner
        },
        r@.layout.split_ratio == config.layout.split_ratio,
        r@.layout.inner_gap == config.general.gaps_inner,
        r@.active == 0,
        r@.floating.entries.len() == 0,
        r@.fullscreen_window is None,
        r@.fs_phase is Off,
        !r@.locked,
        r@.password_input.len() == 0,
        r@.drag_window is None,
        r@.ime_popup is None,
        r@.config == config,
        r@.needs_render,
{
}

/// Windows are painted from the lowest to the highest and listed in a scene the other way
/// round: the one that fills the screen is painted last and listed first, and floating
/// windows are painted after tiled ones and listed before them.
pub proof fn law_call_draw_orders(
    state: LingxiState,
    mapped: Vec<u64>,
    painted: Vec<u64>,
    listed: Vec<u64>,
    i: int,
    j: int,
)
    requires
        call_ensures(LingxiState::draw_order, (&state, &mapped), painted),
        call_ensures(LingxiState::front_to_back, (&state, &mapped), listed),
    ensures
        state@.fullscreen_window is Some ==> {
            &&& painted@.len() > 0 && Some(painted@.last()) == state@.fullscreen_window
            &&& listed@.len() > 0 && Some(listed@[0]) == state@.fullscreen_window
        },
        0 <= i < painted@.len() && 0 <= j < painted@.len() && state@.floating.has(painted@[i])
            && !state@.floating.has(painted@[j]) && state@.fullscreen_window != Some(painted@[i])
            && state@.fullscreen_window != Some(painted@[j]) ==> j < i,
        0 <= i < listed@.len() && 0 <= j < listed@.len() && state@.floating.has(listed@[i])
            && !state@.floating.has(listed@[j]) && state@.fullscreen_window != Some(listed@[i])
            && state@.fullscreen_window != Some(listed@[j]) ==> i < j,
{
    let (m, p, l) = (mapped@, painted@, listed@.reverse());
    if let Some(w) = state@.fullscreen_window {
        law_fullscreen_on_top(state@, m, p, w);
        law_fullscreen_on_top(state@, m, l, w);
    }
    if 0 <= i < p.len() && 0 <= j < p.len() && state@.floating.has(p[i]) && !state@.floating.has(
        p[j],
    ) && state@.fullscreen_window != Some(p[i]) && state@.fullscreen_window != Some(p[j]) {
        law_floating_above_tiled(state@, m, p, i, j);
    }
    if 0 <= i < l.len() && 0 <= j < l.len() && state@.floating.has(listed@[i])
        && !state@.floating.has(listed@[j]) && state@.fullscreen_window != Some(listed@[i])
        && state@.fullscreen_window != Some(listed@[j]) {
        law_floating_above_tiled(state@, m, l, l.len() - 1 - i, l.len() - 1 - j);
    }
}

/// Of the surfaces of a window all but the last one are popups.
pub proof fn law_call_popups_and_window(surfaces: usize, r: (usize, bool))
    requires
        call_ensures(popups_and_window, (surfaces,), r),
    ensures
        r.0 + (if r.1 {
            1int
        } else {
            0
        }) == surfaces,
        r.1 == (surfaces > 0),
{
}

/// Only questions whose answer is hidden are answered with the password, each question for
/// itself; and a password with a null character is refused before anything is asked.
pub proof fn law_call_auth_answers(
    styles: Vec<i32>,
    r: Vec<bool>,
    i: int,
    password: &str,
    next: AuthNext,
)
    requires
        call_ensures(answers, (&styles,), r),
        call_ensures(begin, (password,), next),
    ensures
        r@.len() == styles@.len(),
        0 <= i < styles@.len() ==> r@[i] == (styles@[i] == 1),
        next is Ask <==> !password@.contains('\0'),
        next matches AuthNext::Ask(call) ==> call is Start,
        next matches AuthNext::Finish { end_session, result } ==> !end_session && result is Err,
{
}

/// A rate of at most two million hertz is told in thousandths.
pub proof fn law_call_refresh(mode: ScreenMode, r: i32)
    requires
        mode.refresh_hz <= 2_000_000,
        call_ensures(refresh_millihertz, (mode,), r),
    ensures
        r == 1000 * mode.refresh_hz,
{
}

/// The suggested size of a surface on a layer is that of the output, and new windows start in
/// its middle.
pub proof fn law_call_screen_sizes(screen: Screen, size: (i32, i32), layer: (i32, i32), point: (i32, i32))
    requires
        screen.output == Some(size),
        size.0 >= 1,
        size.1 >= 1,
        call_ensures(Screen::layer_size, (&screen,), layer),
        call_ensures(Screen::entry_point, (&screen,), point),
    ensures
        layer == size,
        size.0 - 1 <= 2 * point.0 <= size.0,
        size.1 - 1 <= 2 * point.1 <= size.1,
{
}

/// Going to another workspace makes it the active one and gives the keyboard to its first
/// window; a number past the last workspace, or that of the active one, changes nothing.
pub proof fn law_call_switch_workspace<N: Numerics>(
    state: &mut LingxiState,
    target: usize,
    mapped: Vec<u64>,
    screen: Screen,
    now: u64,
    num: N,
    effects: Vec<Effect>,
)
    requires
        call_ensures(
            LingxiState::switch_workspace::<N>,
            (state, target, &mapped, &screen, now, &num),
            effects,
        ),
    ensures
        target >= old(state)@.workspaces.len() || target == old(state)@.active ==> final(state)@
            == old(state)@ && effects@.len() == 0,
        target < old(state)@.workspaces.len() && target != old(state)@.active ==> {
            let list = old(state)@.workspaces[target as int];
            &&& final(state)@.active == target
            &&& final(state)@.workspaces == old(state)@.workspaces
            &&& final(state)@.trees == old(state)@.trees
            &&& list.len() > 0 ==> effects@.len() > 0 && effects@.last() == Effect::Focus(
                Some(list[0]),
            )
            &&& forall|i: int|
                0 <= i < mapped@.len() ==> #[trigger] effects@[i] == Effect::Withdraw(mapped@[i])
        },
{
    if target < old(state)@.workspaces.len() && target != old(state)@.active {
        law_switch_orders(
            old(state)@,
            target as int,
            mapped@,
            screen,
            now,
            num,
            final(state)@,
            effects@,
        );
    }
}

/// Switching full screen asks the client of the window that has the keyboard first: to fill
/// the screen, or to do so no longer if it does.
pub proof fn law_call_toggle_fullscreen<N: Numerics>(
    state: &mut LingxiState,
    surface: u64,
    i: int,
    at: OnScreen,
    screen: Screen,
    now: u64,
    num: N,
    effects: Vec<Effect>,
)
    requires
        0 <= i < old(state)@.workspaces[old(state)@.active].len(),
        old(state)@.owns(surface, old(state)@.workspaces[old(state)@.active][i]),
        call_ensures(
            LingxiState::toggle_fullscreen::<N>,
            (state, Some(surface), at, &screen, now, &num),
            effects,
        ),
    ensures
        ({
            let w = old(state)@.workspaces[old(state)@.active][i];
            if old(state)@.fullscreen_window == Some(w) {
                &&& final(state)@.fullscreen_window is None
                &&& effects@[0] == Effect::Fullscreen(w, false)
            } else {
                &&& final(state)@.fullscreen_window == Some(w)
                &&& effects@[0] == Effect::Fullscreen(w, true)
                &&& effects@[i + 1] matches Effect::Configure(asked, Placement::Tile(place))
                    && asked == w && place.x == 0 && place.y == 0
            }
        }),
{
    let w = old(state)@.workspaces[old(state)@.active][i];
    if old(state)@.fullscreen_window == Some(w) {
        law_leave_fullscreen_orders(
            old(state)@,
            Some(surface),
            at,
            screen,
            now,
            num,
            final(state)@,
            effects@,
        );
    } else {
        law_fullscreen_orders(
            old(state)@,
            surface,
            i,
            at,
            screen,
            now,
            num,
            final(state)@,
            effects@,
        );
    }
}

/// The area for windows that the state tells keeps the outer gap of its settings.
pub proof fn law_call_usable_area(
    state: LingxiState,
    screen: Screen,
    size: (i32, i32),
    area: WindowGeometry<i64>,
)
    requires
        screen.output == Some(size),
        call_ensures(LingxiState::usable_area, (&state, &screen), area),
    ensures
        area.x >= state.config.general.gaps_outer,
        area.y >= state.config.general.gaps_outer,
        area.x + area.width <= size.0 - state.config.general.gaps_outer,
        area.y + area.height <= size.1 - state.config.general.gaps_outer,
{
    law_outer_gap_kept(state@, screen, size);
}

} // verus!
