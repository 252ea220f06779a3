//! What each operation asks of the outside, and in what order.

use super::floating::law_set_then_geo;
use super::laws::law_relayout_moves_only;
use super::outcomes::{law_relayout_places, lemma_rank};
use super::screen::Screen;
use super::state::{realizes, realizes_all, Effect, FullscreenPhase, Placement, StateView};
use super::window::{law_retarget_keeps_windows, law_retarget_reaches, AnimatedRect,
    AnimationsView};
use super::windows::OnScreen;
use crate::layout::tree::inserted;
use crate::layout::{rects, WindowGeometry};
use crate::numerics::Numerics;
use crate::scalar::Double;
use vstd::prelude::*;

verus! {

/// A new window is put on the screen in the middle of the output and gets the keyboard
/// last; in between every window of the workspace is asked for the size of its place,
/// the new one after all others. It is at the end of the workspace and of the tree, and
/// its surface is known to be its own.
pub proof fn law_open_orders<N: Numerics>(
    state: StateView,
    window: u64,
    surface: u64,
    screen: Screen,
    now: u64,
    num: N,
    next: StateView,
    effects: Seq<Effect>,
)
    requires
        state.workspaces.len() == state.trees.len(),
        0 <= state.active < state.workspaces.len(),
        state.opens(window, surface, screen, now, num, next, effects),
    ensures
        effects.len() == state.workspaces[state.active].len() + 3,
        screen.output matches Some(size) ==> size.0 >= 0 && size.1 >= 0 ==> effects[0] == (
        Effect::Show {
            window,
            x: (size.0 / 2) as i32,
            y: (size.1 / 2) as i32,
            activate: true,
        }),
        screen.output is None ==> effects[0] == (Effect::Show {
            window,
            x: 640,
            y: 400,
            activate: true,
        }),
        effects.last() == Effect::Focus(Some(window)),
        forall|i: int|
            1 <= i < effects.len() - 1 ==> (#[trigger] effects[i]) is Configure
                && effects[i]->Configure_0 == next.workspaces[state.active][i - 1],
        next.workspaces == state.workspaces.update(
            state.active,
            state.workspaces[state.active].push(window),
        ),
        next.trees.len() == state.trees.len(),
        next.trees[state.active].shape == inserted(state.trees[state.active].shape),
        next.trees[state.active].division() == state.trees[state.active].division(),
        forall|n: int|
            0 <= n < state.trees.len() && n != state.active ==> #[trigger] next.trees[n]
                == state.trees[n],
        next.by_surface == state.by_surface.insert(surface, window),
        next.animations.windows.contains_key(window),
        next.active == state.active,
        next.floating == state.floating,
        next.fullscreen_window == state.fullscreen_window,
        next.needs_render,
{
    let joined = state.joined(window, surface);
    let (tiles, entered, laid) = choose|
        tiles: Seq<WindowGeometry<i64>>,
        entered: AnimationsView,
        laid: Seq<Effect>,
    |
        {
            &&& #[trigger] joined.trees[joined.active].tiles(
                joined.area(screen),
                num,
                rects(tiles),
            )
            &&& #[trigger] joined.animations.enters(
                window,
                joined.target(screen, tiles, state.current().len() as int),
                screen.entry_size(),
                now,
                num,
                entered,
            )
            &&& #[trigger] (StateView { animations: entered, ..joined }).moves_to(
                screen,
                tiles,
                now,
                num,
                next,
                laid,
            )
            &&& effects == seq![
                Effect::Show {
                    window,
                    x: screen.middle().0,
                    y: screen.middle().1,
                    activate: true,
                },
            ] + laid + seq![Effect::Focus(Some(window))]
        };
    let started = StateView { animations: entered, ..joined };
    let goals = choose|goals: Seq<(u64, AnimatedRect)>|
        {
            &&& #[trigger] realizes_all(num, started.targets(screen, tiles), goals)
            &&& started.animations.retargets_all(goals, now, num, next.animations)
        };
    law_retarget_keeps_windows(entered, goals, now, num, next.animations);
    assert(entered.windows.contains_key(window));
    assert(next.animations.windows.dom().contains(window));
    assert forall|i: int| 1 <= i < effects.len() - 1 implies (#[trigger] effects[i]) is Configure
        && effects[i]->Configure_0 == next.workspaces[state.active][i - 1] by {
        assert(effects[i] == laid[i - 1]);
    }
}

/// Asking a window to fill the screen is the first order; then every window of the
/// workspace is asked for the size of its place, and that of the window that is to fill
/// the screen is the whole screen. Full screen awaits the answer of the client, and
/// where the window was is remembered.
pub proof fn law_fullscreen_orders<N: Numerics>(
    state: StateView,
    surface: u64,
    i: int,
    at: OnScreen,
    screen: Screen,
    now: u64,
    num: N,
    next: StateView,
    effects: Seq<Effect>,
)
    requires
        0 <= i < state.workspaces[state.active].len(),
        state.owns(surface, state.workspaces[state.active][i]),
        state.fullscreen_window != Some(state.workspaces[state.active][i]),
        state.toggles_fullscreen(Some(surface), at, screen, now, num, next, effects),
    ensures
        ({
            let w = state.workspaces[state.active][i];
            &&& effects.len() == state.workspaces[state.active].len() + 1
            &&& effects[0] == Effect::Fullscreen(w, true)
            &&& effects[i + 1] matches Effect::Configure(asked, Placement::Tile(place)) && {
                &&& asked == w
                &&& place.x == 0
                &&& place.y == 0
                &&& screen.output matches Some(size) ==> place.width == size.0 && place.height
                    == size.1
                &&& screen.output is None ==> place.width == 2560 && place.height == 1600
            }
            &&& next.fullscreen_window == Some(w)
            &&& next.fs_phase matches FullscreenPhase::Pending { since, fallback_geo } && {
                &&& since == now
                &&& state.floating.has(w) ==> state.floating.geo(w) == Some(fallback_geo)
                &&& !state.floating.has(w) ==> (at.location matches Some(corner) ==> call_ensures(
                    N::double,
                    (&num, corner.0 as i64),
                    fallback_geo.x,
                ) && call_ensures(N::double, (&num, corner.1 as i64), fallback_geo.y))
                &&& !state.floating.has(w) && state.animations.windows.contains_key(w)
                    ==> fallback_geo.width == state.animations.windows[w].target.width
                    && fallback_geo.height == state.animations.windows[w].target.height
                &&& !state.floating.has(w) && !state.animations.windows.contains_key(w)
                    ==> call_ensures(N::double, (&num, at.size.0 as i64), fallback_geo.width)
                    && call_ensures(N::double, (&num, at.size.1 as i64), fallback_geo.height)
            }
        }),
        next.workspaces == state.workspaces,
        next.trees == state.trees,
        next.floating == state.floating,
{
    let w = state.workspaces[state.active][i];
    let laid = effects.drop_first();
    let geo = choose|geo: WindowGeometry<Double>|
        {
            &&& #[trigger] state.measures(w, at, num, geo)
            &&& state.entering_fullscreen(w, now, geo).lays_out(screen, now, num, next, laid)
        };
    let turned = state.entering_fullscreen(w, now, geo);
    law_relayout_moves_only(turned, screen, now, num, next, laid);
    law_relayout_places(turned, screen, now, num, next, laid);
    assert(laid[i] == effects[i + 1]);
}

/// A window that fills the screen and is to do so no longer is told so first, and goes
/// back to the place that it has among the others. Without a window that has the
/// keyboard nothing happens.
pub proof fn law_leave_fullscreen_orders<N: Numerics>(
    state: StateView,
    focus: Option<u64>,
    at: OnScreen,
    screen: Screen,
    now: u64,
    num: N,
    next: StateView,
    effects: Seq<Effect>,
)
    requires
        state.toggles_fullscreen(focus, at, screen, now, num, next, effects),
    ensures
        (focus matches Some(surface) && state.by_surface.contains_key(surface)
            && state.fullscreen_window == Some(state.by_surface[surface])) ==> {
            &&& effects.len() == state.workspaces[state.active].len() + 1
            &&& state.fullscreen_window matches Some(w) && effects[0] == Effect::Fullscreen(
                w,
                false,
            )
            &&& next.fullscreen_window is None
            &&& next.fs_phase == FullscreenPhase::Off
            &&& (StateView {
                fullscreen_window: None,
                fs_phase: FullscreenPhase::Off,
                ..state
            }).lays_out(screen, now, num, next, effects.drop_first())
        },
        (focus matches Some(surface) ==> !state.by_surface.contains_key(surface)) ==> next == state
            && effects.len() == 0,
{
    if let Some(surface) = focus {
        if state.by_surface.contains_key(surface) && state.fullscreen_window == Some(
            state.by_surface[surface],
        ) {
            let laid = effects.drop_first();
            let turned = state.leaving_fullscreen();
            law_relayout_moves_only(turned, screen, now, num, next, laid);
        }
    }
}

/// Going to another workspace takes every window off the screen, in their order, puts
/// the windows of that workspace on it, in theirs, and gives the keyboard to the first
/// of them. The windows that were on the screen are no longer moving, unless they are
/// tiled on that workspace. Nothing else of the state changes.
pub proof fn law_switch_orders<N: Numerics>(
    state: StateView,
    target: int,
    mapped: Seq<u64>,
    screen: Screen,
    now: u64,
    num: N,
    next: StateView,
    effects: Seq<Effect>,
)
    requires
        0 <= target < state.workspaces.len(),
        target != state.active,
        state.switches(target, mapped, screen, now, num, next, effects),
    ensures
        ({
            let list = state.workspaces[target];
            &&& effects.len() == mapped.len() + (if list.len() > 0 {
                list.len() + 1
            } else {
                0
            })
            &&& forall|i: int|
                0 <= i < mapped.len() ==> #[trigger] effects[i] == Effect::Withdraw(mapped[i])
            &&& forall|i: int|
                0 <= i < list.len() ==> effects[mapped.len() + i] == (Effect::Show {
                    window: #[trigger] list[i],
                    x: 0,
                    y: 0,
                    activate: false,
                })
            &&& list.len() > 0 ==> effects.last() == Effect::Focus(Some(list[0]))
        }),
        next.active == target,
        next.needs_render,
        next == (StateView {
            active: target,
            needs_render: true,
            animations: next.animations,
            ..state
        }),
        forall|w: u64|
            mapped.contains(w) && !(state.workspaces[target].contains(w) && !state.floating.has(w))
                ==> !#[trigger] next.animations.windows.contains_key(w),
        forall|w: u64|
            !mapped.contains(w) && !(state.workspaces[target].contains(w)
                && !state.floating.has(w)) ==> {
                &&& #[trigger] next.animations.windows.contains_key(w)
                    == state.animations.windows.contains_key(w)
                &&& next.animations.windows.contains_key(w) ==> next.animations.windows[w]
                    == state.animations.windows[w]
            },
{
    let list = state.workspaces[target];
    let rest = state.animations.without_all(mapped);
    let tiled = state.tiled(target);
    crate::lists::lemma_filter_members(list, state.floating.tiled());
    assert forall|i: int| 0 <= i < list.len() implies effects[mapped.len() + i] == (Effect::Show {
        window: #[trigger] list[i],
        x: 0,
        y: 0,
        activate: false,
    }) by {}
    assert forall|w: u64| !tiled.contains(w) implies {
        &&& mapped.contains(w) ==> !#[trigger] next.animations.windows.contains_key(w)
        &&& !mapped.contains(w) ==> next.animations.windows.contains_key(w)
            == state.animations.windows.contains_key(w)
        &&& !mapped.contains(w) && next.animations.windows.contains_key(w)
            ==> next.animations.windows[w] == state.animations.windows[w]
    } by {
        lemma_without_all(state.animations, mapped, w);
        if list.len() > 0 {
            let tiles = choose|tiles: Seq<WindowGeometry<i64>>|
                {
                    &&& #[trigger] state.trees[target].tiles(
                        state.area(screen),
                        num,
                        rects(tiles),
                    )
                    &&& rest.enters_all(
                        tiled,
                        tiles,
                        screen.entry_size(),
                        now,
                        num,
                        next.animations,
                    )
                };
            lemma_enters_all_others(
                rest,
                tiled,
                tiles,
                screen.entry_size(),
                now,
                num,
                next.animations,
                w,
            );
        }
    }
}

/// A number past the last workspace, or that of the active one, leads nowhere.
pub proof fn law_switch_nowhere<N: Numerics>(
    state: StateView,
    target: int,
    mapped: Seq<u64>,
    screen: Screen,
    now: u64,
    num: N,
    next: StateView,
    effects: Seq<Effect>,
)
    requires
        target >= state.workspaces.len() || target == state.active,
        state.switches(target, mapped, screen, now, num, next, effects),
    ensures
        next == state,
        effects.len() == 0,
{
}

proof fn lemma_without_all(state: AnimationsView, windows: Seq<u64>, w: u64)
    ensures
        windows.contains(w) ==> !state.without_all(windows).windows.contains_key(w),
        !windows.contains(w) ==> {
            &&& state.without_all(windows).windows.contains_key(w) == state.windows.contains_key(w)
            &&& state.windows.contains_key(w) ==> state.without_all(windows).windows[w]
                == state.windows[w]
        },
        state.without_all(windows).duration == state.duration,
        state.without_all(windows).curve == state.curve,
    decreases windows.len(),
{
    if windows.len() > 0 {
        let head = windows.drop_last();
        lemma_without_all(state, head, w);
        assert(windows.contains(w) <==> head.contains(w) || w == windows.last()) by {
            if head.contains(w) {
                let k = choose|k: int| 0 <= k < head.len() && head[k] == w;
                assert(windows[k] == w);
            }
            if w == windows.last() {
                assert(windows[windows.len() - 1] == w);
            }
            if windows.contains(w) && w != windows.last() {
                let k = choose|k: int| 0 <= k < windows.len() && windows[k] == w;
                assert(head[k] == w);
            }
        }
    }
}

/// Windows that fly in leave the animation of every other window as it is.
proof fn lemma_enters_all_others<N: Numerics>(
    state: AnimationsView,
    windows: Seq<u64>,
    tiles: Seq<WindowGeometry<i64>>,
    output: (i32, i32),
    now: u64,
    num: N,
    next: AnimationsView,
    w: u64,
)
    requires
        state.enters_all(windows, tiles, output, now, num, next),
        !windows.contains(w),
    ensures
        next.windows.contains_key(w) == state.windows.contains_key(w),
        next.windows.contains_key(w) ==> next.windows[w] == state.windows[w],
    decreases windows.len(),
{
    if windows.len() > 0 {
        let head = windows.drop_last();
        let mid = choose|mid: AnimationsView|
            {
                &&& state.enters_all(head, tiles, output, now, num, mid)
                &&& #[trigger] mid.enters(
                    windows.last(),
                    Placement::Tile(tiles[windows.len() - 1]),
                    output,
                    now,
                    num,
                    next,
                )
            };
        assert(!head.contains(w)) by {
            if head.contains(w) {
                let k = choose|k: int| 0 <= k < head.len() && head[k] == w;
                assert(windows[k] == w);
            }
        }
        assert(windows[windows.len() - 1] != w);
        lemma_enters_all_others(state, head, tiles, output, now, num, mid, w);
    }
}

/// On the workspace that is gone to, every tiled window flies in to its own tile, the
/// one with as many tiles before it as there are tiled windows before it, from about the
/// middle of the output. No window may be on the workspace twice.
pub proof fn law_switch_flies_in<N: Numerics>(
    state: StateView,
    target: int,
    mapped: Seq<u64>,
    screen: Screen,
    now: u64,
    num: N,
    next: StateView,
    effects: Seq<Effect>,
    i: int,
) -> (tiles: Seq<WindowGeometry<i64>>)
    requires
        0 <= target < state.workspaces.len(),
        target != state.active,
        state.workspaces[target].no_duplicates(),
        state.switches(target, mapped, screen, now, num, next, effects),
        0 <= i < state.workspaces[target].len(),
        !state.floating.has(state.workspaces[target][i]),
    ensures
        state.trees[target].tiles(state.area(screen), num, rects(tiles)),
        ({
            let w = state.workspaces[target][i];
            let tile = tiles[state.rank(target, i)];
            let goal = next.animations.windows[w].target;
            &&& next.animations.windows.contains_key(w)
            &&& call_ensures(N::double, (&num, tile.x), goal.x)
            &&& call_ensures(N::double, (&num, tile.y), goal.y)
            &&& call_ensures(N::double, (&num, tile.width), goal.width)
            &&& call_ensures(N::double, (&num, tile.height), goal.height)
            &&& call_ensures(
                N::entry,
                (
                    &num,
                    goal,
                    match screen.output {
                        Some(size) => size,
                        None => (1280i32, 800i32),
                    },
                ),
                next.animations.windows[w].current,
            )
        }),
{
    let w = state.workspaces[target][i];
    let rest = state.animations.without_all(mapped);
    let tiled = state.tiled(target);
    let tiles = choose|tiles: Seq<WindowGeometry<i64>>|
        {
            &&& #[trigger] state.trees[target].tiles(state.area(screen), num, rects(tiles))
            &&& rest.enters_all(tiled, tiles, screen.entry_size(), now, num, next.animations)
        };
    lemma_rank(state, target, i);
    crate::lists::lemma_filter_place(state.workspaces[target], state.floating.tiled(), i);
    crate::lists::lemma_filter_once(state.workspaces[target], state.floating.tiled());
    lemma_enters_all(
        rest,
        tiled,
        tiles,
        screen.entry_size(),
        now,
        num,
        next.animations,
        state.rank(target, i),
    );
    tiles
}

proof fn lemma_enters_all<N: Numerics>(
    state: AnimationsView,
    windows: Seq<u64>,
    tiles: Seq<WindowGeometry<i64>>,
    output: (i32, i32),
    now: u64,
    num: N,
    next: AnimationsView,
    k: int,
)
    requires
        windows.no_duplicates(),
        state.enters_all(windows, tiles, output, now, num, next),
        0 <= k < windows.len(),
    ensures
        next.windows.contains_key(windows[k]),
        realizes(num, Placement::Tile(tiles[k]), next.windows[windows[k]].target),
        call_ensures(
            N::entry,
            (&num, next.windows[windows[k]].target, output),
            next.windows[windows[k]].current,
        ),
    decreases windows.len(),
{
    let head = windows.drop_last();
    let mid = choose|mid: AnimationsView|
        {
            &&& state.enters_all(head, tiles, output, now, num, mid)
            &&& #[trigger] mid.enters(
                windows.last(),
                Placement::Tile(tiles[windows.len() - 1]),
                output,
                now,
                num,
                next,
            )
        };
    if k < windows.len() - 1 {
        lemma_enters_all(state, head, tiles, output, now, num, mid, k);
        assert(head[k] == windows[k]);
        assert(windows[k] != windows[windows.len() - 1]);
    }
}

/// Unlocking puts every window of the active workspace on the screen again, in their
/// order, then asks each for the size of its place, and gives the keyboard to the first
/// of them, or to none if there is none.
pub proof fn law_unlock_orders<N: Numerics>(
    state: StateView,
    screen: Screen,
    now: u64,
    num: N,
    next: StateView,
    effects: Seq<Effect>,
)
    requires
        state.unlocks(screen, now, num, next, effects),
    ensures
        ({
            let list = state.workspaces[state.active];
            let n = list.len() as int;
            &&& effects.len() == 2 * n + 1
            &&& forall|i: int|
                0 <= i < n ==> {
                    &&& effects[i] == (Effect::Show {
                        window: #[trigger] list[i],
                        x: 0,
                        y: 0,
                        activate: true,
                    })
                    &&& effects[n + i] is Configure
                    &&& effects[n + i]->Configure_0 == list[i]
                }
            &&& effects[2 * n] == Effect::Focus(
                if n > 0 {
                    Some(list[0])
                } else {
                    None
                },
            )
        }),
        !next.locked,
        next.password_input.len() == 0,
        next.password_error is None,
        next.needs_render,
        next.workspaces == state.workspaces,
        next.trees == state.trees,
        next.floating == state.floating,
        next.active == state.active,
        next.fullscreen_window == state.fullscreen_window,
{
    let list = state.current();
    let n = list.len() as int;
    let (laid, placed) = choose|laid: Seq<Effect>, placed: StateView|
        {
            &&& #[trigger] state.released().lays_out(screen, now, num, placed, laid)
            &&& next == (StateView { needs_render: true, ..placed })
            &&& effects == super::workspaces::shows(state.current(), true) + laid + seq![
                Effect::Focus(state.first_window()),
            ]
        };
    law_relayout_moves_only(state.released(), screen, now, num, placed, laid);
    law_relayout_places(state.released(), screen, now, num, placed, laid);
    assert forall|i: int| 0 <= i < n implies {
        &&& effects[i] == (Effect::Show { window: #[trigger] list[i], x: 0, y: 0, activate: true })
        &&& effects[n + i] is Configure
        &&& effects[n + i]->Configure_0 == list[i]
    } by {
        assert(effects[n + i] == laid[i]);
    }
}

/// A window that is dragged goes where the pointer has gone: its corner is the pointer
/// less the point at which it is held. It keeps its size, its height among the floating
/// windows and its workspace, it is put there at once, and no other floating window
/// moves. If no floating window is dragged, nothing happens.
pub proof fn law_drag_follows_pointer<N: Numerics>(
    state: StateView,
    window: u64,
    num: N,
    next: StateView,
    effects: Seq<Effect>,
    other: u64,
)
    requires
        state.drags(num, next, effects),
    ensures
        state.drag_window == Some(window) && state.floating.has(window) ==> {
            &&& effects.len() == 1
            &&& effects[0] matches Effect::Move(moved, geo) && {
                &&& moved == window
                &&& next.floating.geo(window) == Some(geo)
                &&& call_ensures(
                    N::minus,
                    (&num, state.pointer_location.0, state.drag_offset.0),
                    geo.x,
                )
                &&& call_ensures(
                    N::minus,
                    (&num, state.pointer_location.1, state.drag_offset.1),
                    geo.y,
                )
                &&& state.floating.geo(window) matches Some(was) && geo.width == was.width
                    && geo.height == was.height
            }
            &&& other != window ==> next.floating.geo(other) == state.floating.geo(other)
            &&& !next.animations.windows.contains_key(window)
            &&& next.needs_render
        },
        state.drag_window is None || !state.floating.has(state.drag_window->0) ==> next == state
            && effects.len() == 0,
        next.workspaces == state.workspaces,
        next.trees == state.trees,
        next.drag_window == state.drag_window,
        next.drag_offset == state.drag_offset,
        next.pointer_location == state.pointer_location,
{
    if state.drag_window == Some(window) && state.floating.has(window) {
        let geo = effects[0]->Move_1;
        law_set_then_geo(state.floating, window, geo, window);
        law_set_then_geo(state.floating, window, geo, other);
    }
}

/// Moving the floating window that has the keyboard adds the steps to its corner, and
/// resizing it adds them to its sides, which stay at least 200 and 150 pixels long. No
/// other floating window changes. A window that does not float is neither moved nor
/// resized.
pub proof fn law_steps_move_and_resize<N: Numerics>(
    state: StateView,
    surface: u64,
    window: u64,
    dx: Double,
    dy: Double,
    num: N,
    next: StateView,
    effects: Seq<Effect>,
    other: u64,
)
    requires
        state.owns(surface, window),
    ensures
        state.moves_floating(Some(surface), dx, dy, num, next, effects) ==> match state.floating.geo(
            window,
        ) {
            Some(was) => {
                &&& effects.len() == 1
                &&& effects[0] matches Effect::Move(moved, geo) && {
                    &&& moved == window
                    &&& next.floating.geo(window) == Some(geo)
                    &&& call_ensures(N::plus, (&num, was.x, dx), geo.x)
                    &&& call_ensures(N::plus, (&num, was.y, dy), geo.y)
                    &&& geo.width == was.width
                    &&& geo.height == was.height
                }
                &&& other != window ==> next.floating.geo(other) == state.floating.geo(other)
                &&& next.workspaces == state.workspaces
                &&& next.trees == state.trees
                &&& next.needs_render
            },
            None => next == state && effects.len() == 0,
        },
        state.resizes_floating(Some(surface), dx, dy, num, next, effects)
            ==> match state.floating.geo(window) {
            Some(was) => {
                &&& effects.len() == 2
                &&& effects[0] matches Effect::Move(moved, geo) && {
                    &&& moved == window
                    &&& effects[1] == Effect::Configure(window, Placement::Free(geo))
                    &&& next.floating.geo(window) == Some(geo)
                    &&& call_ensures(N::resized, (&num, was.width, dx, 200u32), geo.width)
                    &&& call_ensures(N::resized, (&num, was.height, dy, 150u32), geo.height)
                    &&& geo.x == was.x
                    &&& geo.y == was.y
                }
                &&& other != window ==> next.floating.geo(other) == state.floating.geo(other)
                &&& next.workspaces == state.workspaces
                &&& next.trees == state.trees
                &&& next.needs_render
            },
            None => next == state && effects.len() == 0,
        },
{
    if state.floating.geo(window) is Some {
        let geo = effects[0]->Move_1;
        law_set_then_geo(state.floating, window, geo, window);
        law_set_then_geo(state.floating, window, geo, other);
    }
}

/// A frame puts every window that was moving where its animation has come to, each once,
/// and no other. A frame is drawn again once a window has come to rest.
pub proof fn law_frame_orders<N: Numerics>(
    state: StateView,
    now: u64,
    num: N,
    next: StateView,
    effects: Seq<Effect>,
    window: u64,
)
    requires
        state.ticks(now, num, next, effects),
    ensures
        forall|i: int|
            0 <= i < effects.len() ==> {
                &&& (#[trigger] effects[i]) is Animate
                &&& state.animations.windows.contains_key(effects[i]->Animate_0)
                &&& state.animations.windows[effects[i]->Animate_0].animating()
                &&& next.animations.windows[effects[i]->Animate_0].current == effects[i]->Animate_1
            },
        forall|i: int, j: int|
            0 <= i < j < effects.len() ==> (#[trigger] effects[i])->Animate_0 != (
            #[trigger] effects[j])->Animate_0,
        state.animations.windows.contains_key(window) && state.animations.windows[window].animating()
            ==> exists|i: int|
            0 <= i < effects.len() && (#[trigger] effects[i])->Animate_0 == window,
        state.animations.windows.contains_key(window)
            && state.animations.windows[window].animating()
            && !next.animations.windows[window].animating() ==> next.needs_render,
        next == (StateView {
            animations: next.animations,
            needs_render: next.needs_render,
            ..state
        }),
{
    if state.animations.active() {
        let updates = choose|updates: Seq<(u64, AnimatedRect)>| #[trigger]
            state.animations.moved(next.animations, updates) && effects == super::windows::animates(
                updates,
            );
        assert forall|i: int| 0 <= i < effects.len() implies #[trigger] effects[i]
            == Effect::Animate(updates[i].0, updates[i].1) by {}
        assert forall|i: int, j: int| 0 <= i < j < effects.len() implies (
        #[trigger] effects[i])->Animate_0 != (#[trigger] effects[j])->Animate_0 by {
            assert(updates[i].0 != updates[j].0);
        }
        if state.animations.windows.contains_key(window)
            && state.animations.windows[window].animating() {
            let i = choose|i: int| 0 <= i < updates.len() && (#[trigger] updates[i]).0 == window;
            assert(effects[i]->Animate_0 == window);
        }
    }
}

/// A new window flies in to its own place, the last one of the workspace, from about the
/// middle of the output. No window may be on the workspace twice.
pub proof fn law_open_flies_in<N: Numerics>(
    state: StateView,
    window: u64,
    surface: u64,
    screen: Screen,
    now: u64,
    num: N,
    next: StateView,
    effects: Seq<Effect>,
) -> (goal: AnimatedRect)
    requires
        0 <= state.active < state.workspaces.len(),
        state.workspaces[state.active].no_duplicates(),
        !state.workspaces[state.active].contains(window),
        state.opens(window, surface, screen, now, num, next, effects),
    ensures
        ({
            let is = next.animations.windows[window];
            let asked = effects[effects.len() - 2];
            &&& next.animations.windows.contains_key(window)
            &&& call_ensures(
                N::entry,
                (
                    &num,
                    goal,
                    match screen.output {
                        Some(size) => size,
                        None => (1280i32, 800i32),
                    },
                ),
                is.current,
            )
            &&& asked is Configure
            &&& asked->Configure_0 == window
            &&& match asked->Configure_1 {
                Placement::Tile(t) => {
                    &&& call_ensures(N::double, (&num, t.x), goal.x)
                    &&& call_ensures(N::double, (&num, t.y), goal.y)
                    &&& call_ensures(N::double, (&num, t.width), goal.width)
                    &&& call_ensures(N::double, (&num, t.height), goal.height)
                    &&& call_ensures(N::double, (&num, t.x), is.target.x)
                    &&& call_ensures(N::double, (&num, t.y), is.target.y)
                    &&& call_ensures(N::double, (&num, t.width), is.target.width)
                    &&& call_ensures(N::double, (&num, t.height), is.target.height)
                },
                Placement::Free(g) => {
                    &&& is.target.x == g.x
                    &&& is.target.y == g.y
                    &&& is.target.width == g.width
                    &&& is.target.height == g.height
                    &&& goal == is.target
                },
            }
        }),
{
    let n = state.current().len() as int;
    let joined = state.joined(window, surface);
    let (tiles, entered, laid) = choose|
        tiles: Seq<WindowGeometry<i64>>,
        entered: AnimationsView,
        laid: Seq<Effect>,
    |
        {
            &&& #[trigger] joined.trees[joined.active].tiles(
                joined.area(screen),
                num,
                rects(tiles),
            )
            &&& #[trigger] joined.animations.enters(
                window,
                joined.target(screen, tiles, n),
                screen.entry_size(),
                now,
                num,
                entered,
            )
            &&& #[trigger] (StateView { animations: entered, ..joined }).moves_to(
                screen,
                tiles,
                now,
                num,
                next,
                laid,
            )
            &&& effects == seq![
                Effect::Show {
                    window,
                    x: screen.middle().0,
                    y: screen.middle().1,
                    activate: true,
                },
            ] + laid + seq![Effect::Focus(Some(window))]
        };
    let place = joined.target(screen, tiles, n);
    let (goal, initial) = choose|goal: AnimatedRect, initial: AnimatedRect|
        {
            &&& #[trigger] realizes(num, place, goal)
            &&& #[trigger] call_ensures(N::entry, (&num, goal, screen.entry_size()), initial)
            &&& joined.animations.adds(window, goal, initial, now, num, entered)
        };
    let started = StateView { animations: entered, ..joined };
    let list = started.current();
    let targets = started.targets(screen, tiles);
    let goals = choose|goals: Seq<(u64, AnimatedRect)>|
        {
            &&& #[trigger] realizes_all(num, targets, goals)
            &&& entered.retargets_all(goals, now, num, next.animations)
        };
    assert(list[n] == window);
    assert forall|a: int, b: int| 0 <= a < b < goals.len() implies (#[trigger] goals[a]).0 != (
    #[trigger] goals[b]).0 by {
        assert(goals[a].0 == list[a]);
        assert(goals[b].0 == list[b]);
        if b == n {
            assert(state.current()[a] == list[a]);
            assert(state.current().contains(list[a]));
        }
    }
    assert(goals[n].0 == window);
    law_retarget_reaches(entered, goals, now, num, next.animations, n);
    lemma_current_kept(entered, goals, now, num, next.animations, window);
    assert(realizes(num, targets[n].1, goals[n].1));
    assert(started.target(screen, tiles, n) == place);
    assert(effects[effects.len() - 2] == laid[n]);
    goal
}

/// New targets leave every window where it is for now.
proof fn lemma_current_kept<N: Numerics>(
    state: AnimationsView,
    targets: Seq<(u64, AnimatedRect)>,
    now: u64,
    num: N,
    next: AnimationsView,
    window: u64,
)
    requires
        state.retargets_all(targets, now, num, next),
        state.windows.contains_key(window),
    ensures
        next.windows.contains_key(window),
        next.windows[window].current == state.windows[window].current,
    decreases targets.len(),
{
    if targets.len() > 0 {
        let mid = choose|mid: AnimationsView|
            state.retargets_all(targets.drop_last(), now, num, mid) && #[trigger] mid.retargets(
                targets.last().0,
                targets.last().1,
                now,
                num,
                next,
            );
        lemma_current_kept(state, targets.drop_last(), now, num, mid, window);
    }
}

/// A floating window that is put somewhere is there at once: it floats at that place and is
/// not moving. Every other floating window stays, and so do the lists and the trees.
pub proof fn law_put_there_at_once(
    state: StateView,
    window: u64,
    geo: WindowGeometry<Double>,
    other: u64,
)
    ensures
        ({
            let next = state.settled(window, geo);
            &&& next.floating.geo(window) == Some(geo)
            &&& !next.animations.windows.contains_key(window)
            &&& other != window ==> next.floating.geo(other) == state.floating.geo(other)
                && next.animations.windows.contains_key(other)
                == state.animations.windows.contains_key(other)
            &&& next.workspaces == state.workspaces
            &&& next.trees == state.trees
            &&& next.active == state.active
        }),
{
    law_set_then_geo(state.floating, window, geo, window);
    law_set_then_geo(state.floating, window, geo, other);
}

/// Only the answer of the client of the window that is to fill the screen ends the wait for
/// it; the commit of any other surface changes nothing about full screen.
pub proof fn law_commit_of_others(state: StateView, surface: u64)
    ensures
        !state.by_surface.contains_key(surface) ==> state.phase_after_commit(surface)
            == state.fs_phase,
        state.by_surface.contains_key(surface) && state.fullscreen_window != Some(
            state.by_surface[surface],
        ) ==> state.phase_after_commit(surface) == state.fs_phase,
        state.by_surface.contains_key(surface) && state.fullscreen_window == Some(
            state.by_surface[surface],
        ) && state.fs_phase is Pending ==> state.phase_after_commit(surface)
            == FullscreenPhase::Active,
        !(state.fs_phase is Pending) ==> state.phase_after_commit(surface) == state.fs_phase,
{
}

} // verus!
