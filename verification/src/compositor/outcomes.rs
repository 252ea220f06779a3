//! What each operation comes to: places in lists, leaves of trees, and orders given.

use super::floating::{lemma_added_has, lemma_removed_has};
use super::laws::{law_open_sound, law_relayout_moves_only};
use super::screen::Screen;
use super::state::{realizes, realizes_all, Effect, FullscreenPhase, Placement, StateView};
use super::window::{law_retarget_keeps_windows, law_retarget_reaches, parts, AnimatedRect};
use super::workspaces::neighbour;
use crate::layout::laws::law_remove_undoes_insert;
use crate::layout::tree::{inserted, removed};
use crate::layout::{rects, WindowGeometry};
use crate::lists::{lemma_filter_members, lemma_filter_once, lemma_filter_place,
    lemma_filter_same, lemma_index, lemma_without, without};
use crate::numerics::Numerics;
use crate::scalar::Double;
use vstd::prelude::*;

verus! {

impl StateView {
    /// The surface `surface` is that of the window `window`.
    pub open spec fn owns(self, surface: u64, window: u64) -> bool {
        self.by_surface.contains_key(surface) && self.by_surface[surface] == window
    }

    /// How many of the first `i` windows of a workspace do not float.
    pub open spec fn rank(self, workspace: int, i: int) -> int
        decreases i,
    {
        if i <= 0 {
            0
        } else {
            self.rank(workspace, i - 1) + if self.floating.has(self.workspaces[workspace][i - 1]) {
                0int
            } else {
                1
            }
        }
    }
}

/// The number of a tiled window among the tiled windows is the number of those before
/// it.
pub(super) proof fn lemma_rank(state: StateView, workspace: int, i: int)
    requires
        0 <= i <= state.workspaces[workspace].len(),
    ensures
        state.rank(workspace, i) == state.workspaces[workspace].take(i).filter(
            state.floating.tiled(),
        ).len(),
        workspace == state.active ==> state.rank(workspace, i) == state.tiles_before(i),
        i < state.workspaces[workspace].len() && state.workspaces[workspace].no_duplicates()
            && !state.floating.has(state.workspaces[workspace][i]) ==> state.slot_on(
            workspace,
            state.workspaces[workspace][i],
        ) == Some(state.rank(workspace, i)) && 0 <= state.rank(workspace, i) < state.tiled(
            workspace,
        ).len(),
    decreases i,
{
    reveal(Seq::filter);
    let list = state.workspaces[workspace];
    let tiled = state.floating.tiled();
    if i > 0 {
        lemma_rank(state, workspace, i - 1);
        assert(list.take(i).drop_last() =~= list.take(i - 1));
        assert(list.take(i).last() == list[i - 1]);
    }
    if i < list.len() && list.no_duplicates() && !state.floating.has(list[i]) {
        lemma_filter_place(list, tiled, i);
        lemma_filter_once(list, tiled);
        let slots = state.tiled(workspace);
        let k = state.rank(workspace, i);
        assert(slots[k] == list[i]);
        assert(slots.contains(list[i]));
        lemma_index(slots, list[i]);
    }
}

/// A window that floats has no number among the tiled ones.
proof fn lemma_floats_no_slot(state: StateView, workspace: int, window: u64)
    requires
        state.floating.has(window) || !state.workspaces[workspace].contains(window),
    ensures
        state.slot_on(workspace, window) is None,
{
    lemma_filter_members(state.workspaces[workspace], state.floating.tiled());
}

/// Taking a window out of a list that holds it once closes the gap and keeps the order.
proof fn lemma_without_is_remove(list: Seq<u64>, i: int)
    requires
        0 <= i < list.len(),
        list.no_duplicates(),
    ensures
        without(list, list[i]) == list.remove(i),
    decreases list.len(),
{
    reveal(Seq::filter);
    let shorter = list.drop_last();
    let w = list[i];
    if i == list.len() - 1 {
        assert(!shorter.contains(w)) by {
            if shorter.contains(w) {
                let k = choose|k: int| 0 <= k < shorter.len() && shorter[k] == w;
                assert(list[k] == list[i]);
            }
        }
        lemma_without(shorter, w);
        assert(list.remove(i) =~= shorter);
    } else {
        assert(shorter[i] == w);
        lemma_without_is_remove(shorter, i);
        assert(list.last() != w);
        assert(list.remove(i) =~= shorter.remove(i).push(list.last()));
    }
}

/// A window floats if and only if one of the entries is its own, and it is where that
/// entry says.
pub proof fn law_floats_by_entry(state: StateView, window: u64, i: int)
    requires
        state.floating.distinct(),
    ensures
        state.floating.has(window) <==> exists|k: int|
            0 <= k < state.floating.entries.len() && (#[trigger] state.floating.entries[k]).window
                == window,
        0 <= i < state.floating.entries.len() && state.floating.entries[i].window == window
            ==> state.floating.geo(window) == Some(state.floating.entries[i].geo),
{
    let entries = state.floating.entries;
    super::floating::lemma_slot(entries, window);
    let s = super::floating::slot(entries, window);
    if state.floating.has(window) {
        assert(entries[s].window == window);
    }
    if 0 <= i < entries.len() && entries[i].window == window {
        let windows = super::floating::windows_of(entries);
        assert(state.floating.has(window));
        assert(windows[i] == windows[s]);
    }
}

/// After windows have been sent to their places, each client has been asked for the size
/// of its own: the whole screen if its window fills the screen, where it floats if it
/// does, and else the tile of the tree with as many tiles before it as there are tiled
/// windows before it. A tiled window for which there is no tile gets the whole area.
pub proof fn law_relayout_places<N: Numerics>(
    state: StateView,
    screen: Screen,
    now: u64,
    num: N,
    next: StateView,
    effects: Seq<Effect>,
) -> (tiles: Seq<WindowGeometry<i64>>)
    requires
        state.lays_out(screen, now, num, next, effects),
    ensures
        effects.len() == state.workspaces[state.active].len(),
        effects.len() > 0 ==> next.needs_render && state.trees[state.active].tiles(
            state.area(screen),
            num,
            rects(tiles),
        ),
        forall|i: int|
            0 <= i < effects.len() ==> {
                let w = state.workspaces[state.active][i];
                let k = state.rank(state.active, i);
                &&& (#[trigger] effects[i]) is Configure
                &&& effects[i]->Configure_0 == w
                &&& state.fullscreen_window == Some(w) ==> (
                effects[i]->Configure_1 matches Placement::Tile(place) && {
                    &&& place.x == 0
                    &&& place.y == 0
                    &&& screen.output matches Some(size) ==> place.width == size.0 && place.height
                        == size.1
                    &&& screen.output is None ==> place.width == 2560 && place.height == 1600
                })
                &&& state.fullscreen_window != Some(w) && state.floating.has(w) ==> (
                effects[i]->Configure_1 matches Placement::Free(place) && state.floating.geo(w)
                    == Some(place))
                &&& state.fullscreen_window != Some(w) && !state.floating.has(w) && k < tiles.len()
                    ==> effects[i]->Configure_1 == Placement::Tile(tiles[k])
                &&& state.fullscreen_window != Some(w) && !state.floating.has(w) && k
                    >= tiles.len() ==> effects[i]->Configure_1 == Placement::Tile(
                    state.area(screen).geometry(),
                )
            },
{
    if state.workspaces[state.active].len() == 0 {
        Seq::empty()
    } else {
        let tiles = choose|tiles: Seq<WindowGeometry<i64>>|
            {
                &&& #[trigger] state.trees[state.active].tiles(
                    state.area(screen),
                    num,
                    rects(tiles),
                )
                &&& state.moves_to(screen, tiles, now, num, next, effects)
            };
        assert forall|i: int| 0 <= i < effects.len() implies state.rank(state.active, i)
            == state.tiles_before(i) && #[trigger] effects[i] == Effect::Configure(
            state.current()[i],
            state.target(screen, tiles, i),
        ) by {
            lemma_rank(state, state.active, i);
        }
        tiles
    }
}

/// After windows have been sent to their places, every one of them that is known to the
/// animations is on its way to the place that its client has been asked for, or was on
/// its way to one that was found to be near it. No window may be on the workspace twice.
pub proof fn law_relayout_moves_there<N: Numerics>(
    state: StateView,
    screen: Screen,
    now: u64,
    num: N,
    next: StateView,
    effects: Seq<Effect>,
    i: int,
) -> (goal: AnimatedRect)
    requires
        state.lays_out(screen, now, num, next, effects),
        state.workspaces[state.active].no_duplicates(),
        0 <= i < state.workspaces[state.active].len(),
        state.animations.windows.contains_key(state.workspaces[state.active][i]),
    ensures
        effects[i] is Configure,
        match effects[i]->Configure_1 {
            Placement::Tile(t) => {
                &&& call_ensures(N::double, (&num, t.x), goal.x)
                &&& call_ensures(N::double, (&num, t.y), goal.y)
                &&& call_ensures(N::double, (&num, t.width), goal.width)
                &&& call_ensures(N::double, (&num, t.height), goal.height)
            },
            Placement::Free(g) => {
                &&& goal.x == g.x
                &&& goal.y == g.y
                &&& goal.width == g.width
                &&& goal.height == g.height
            },
        },
        ({
            let w = state.workspaces[state.active][i];
            let (was, is) = (state.animations.windows[w], next.animations.windows[w]);
            &&& next.animations.windows.contains_key(w)
            &&& is.target == goal || (is == was && parts(num, was.target, goal, false))
        }),
{
    let list = state.current();
    let tiles = choose|tiles: Seq<WindowGeometry<i64>>|
        {
            &&& #[trigger] state.trees[state.active].tiles(state.area(screen), num, rects(tiles))
            &&& state.moves_to(screen, tiles, now, num, next, effects)
        };
    let targets = state.targets(screen, tiles);
    let goals = choose|goals: Seq<(u64, AnimatedRect)>|
        {
            &&& #[trigger] realizes_all(num, targets, goals)
            &&& state.animations.retargets_all(goals, now, num, next.animations)
        };
    assert forall|a: int, b: int| 0 <= a < b < goals.len() implies (#[trigger] goals[a]).0 != (
    #[trigger] goals[b]).0 by {
        assert(targets[a].0 == list[a]);
        assert(targets[b].0 == list[b]);
    }
    assert(goals[i].0 == list[i]);
    law_retarget_reaches(state.animations, goals, now, num, next.animations, i);
    assert(realizes(num, targets[i].1, goals[i].1));
    goals[i].1
}

/// Making a tiled window float takes its own leaf out of the tree of the active
/// workspace, the one with as many leaves before it as there are tiled windows before
/// the window. Every other tree stays, and so do the lists of windows. The window lies on
/// top of all floating ones then, in the middle of the area, and they stay where they
/// are.
pub proof fn law_float_takes_own_leaf<N: Numerics>(
    state: StateView,
    surface: u64,
    i: int,
    screen: Screen,
    now: u64,
    num: N,
    next: StateView,
    effects: Seq<Effect>,
)
    requires
        0 <= state.active < state.trees.len(),
        state.workspaces[state.active].no_duplicates(),
        0 <= i < state.workspaces[state.active].len(),
        state.owns(surface, state.workspaces[state.active][i]),
        !state.floating.has(state.workspaces[state.active][i]),
        state.floating.has_room(),
        state.toggles_floating(Some(surface), screen, now, num, next, effects),
    ensures
        next.workspaces == state.workspaces,
        next.active == state.active,
        next.trees.len() == state.trees.len(),
        next.trees[state.active].shape == removed(
            state.trees[state.active].shape,
            state.rank(state.active, i),
        ),
        next.trees[state.active].division() == state.trees[state.active].division(),
        forall|n: int|
            0 <= n < state.trees.len() && n != state.active ==> #[trigger] next.trees[n]
                == state.trees[n],
        next.floating.entries.len() == state.floating.entries.len() + 1,
        next.floating.entries.drop_last() == state.floating.entries,
        next.floating.entries.last().window == state.workspaces[state.active][i],
        next.floating.entries.last().z == state.floating.next_z,
        next.floating.next_z == state.floating.next_z + 1,
        call_ensures(
            N::centered,
            (&num, state.area(screen).geometry()),
            next.floating.entries.last().geo,
        ),
        next.fullscreen_window == state.fullscreen_window,
        next.by_surface == state.by_surface,
{
    let w = state.workspaces[state.active][i];
    let geo = choose|geo: WindowGeometry<Double>|
        {
            &&& #[trigger] call_ensures(N::centered, (&num, state.area(screen).geometry()), geo)
            &&& state.floated(w, geo).lays_out(screen, now, num, next, effects)
        };
    lemma_rank(state, state.active, i);
    law_relayout_moves_only(state.floated(w, geo), screen, now, num, next, effects);
    assert(next.floating.entries.drop_last() =~= state.floating.entries);
}

/// Putting a floating window back among the tiles adds a leaf at the end of the tree of
/// the active workspace and puts the window at the end of its list; the other windows
/// keep their order, and the other trees and lists stay.
pub proof fn law_sink_adds_last_leaf<N: Numerics>(
    state: StateView,
    surface: u64,
    i: int,
    screen: Screen,
    now: u64,
    num: N,
    next: StateView,
    effects: Seq<Effect>,
)
    requires
        0 <= state.active < state.trees.len(),
        state.trees.len() == state.workspaces.len(),
        state.workspaces[state.active].no_duplicates(),
        0 <= i < state.workspaces[state.active].len(),
        state.owns(surface, state.workspaces[state.active][i]),
        state.floating.has(state.workspaces[state.active][i]),
        state.toggles_floating(Some(surface), screen, now, num, next, effects),
    ensures
        next.workspaces.len() == state.workspaces.len(),
        next.workspaces[state.active] == state.workspaces[state.active].remove(i).push(
            state.workspaces[state.active][i],
        ),
        next.trees.len() == state.trees.len(),
        next.trees[state.active].shape == inserted(state.trees[state.active].shape),
        next.trees[state.active].division() == state.trees[state.active].division(),
        forall|n: int|
            0 <= n < state.trees.len() && n != state.active ==> (#[trigger] next.trees[n])
                == state.trees[n] && next.workspaces[n] == state.workspaces[n],
        !next.floating.has(state.workspaces[state.active][i]),
        forall|w: u64|
            w != state.workspaces[state.active][i] ==> (#[trigger] next.floating.has(w)
                <==> state.floating.has(w)),
        next.active == state.active,
        next.by_surface == state.by_surface,
{
    let w = state.workspaces[state.active][i];
    lemma_without_is_remove(state.current(), i);
    law_relayout_moves_only(state.sunk(w), screen, now, num, next, effects);
    assert forall|v: u64| #[trigger] next.floating.has(v) <==> state.floating.has(v) && v
        != w by {
        lemma_removed_has(state.floating, w, v);
    }
}

/// Without a window that has the keyboard, nothing starts to float and nothing ceases
/// to.
pub proof fn law_no_focus_no_float<N: Numerics>(
    state: StateView,
    focus: Option<u64>,
    screen: Screen,
    now: u64,
    num: N,
    next: StateView,
    effects: Seq<Effect>,
)
    requires
        focus matches Some(surface) ==> !state.by_surface.contains_key(surface),
        state.toggles_floating(focus, screen, now, num, next, effects),
    ensures
        next == state,
        effects.len() == 0,
{
}

/// Opening a window and then making it float gives back the tree of before, and every
/// other window the place that it would have had without the new one.
pub proof fn law_open_then_float<N: Numerics>(
    state: StateView,
    window: u64,
    surface: u64,
    screen: Screen,
    now: u64,
    later: u64,
    num: N,
    mid: StateView,
    first: Seq<Effect>,
    next: StateView,
    second: Seq<Effect>,
) -> (tiles: Seq<WindowGeometry<i64>>)
    requires
        state.sound(),
        forall|a: int|
            0 <= a < state.workspaces.len() ==> !(#[trigger] state.workspaces[a]).contains(window),
        !state.floating.has(window),
        state.floating.has_room(),
        state.opens(window, surface, screen, now, num, mid, first),
        mid.toggles_floating(Some(surface), screen, later, num, next, second),
    ensures
        next.trees == state.trees,
        next.workspaces == state.workspaces.update(
            state.active,
            state.workspaces[state.active].push(window),
        ),
        next.floating.has(window),
        state.trees[state.active].tiles(state.area(screen), num, rects(tiles)),
        second.len() == state.workspaces[state.active].len() + 1,
        forall|i: int|
            0 <= i < state.workspaces[state.active].len() ==> #[trigger] second[i]
                == Effect::Configure(
                state.workspaces[state.active][i],
                state.target(screen, tiles, i),
            ),
{
    let n = state.current().len() as int;
    let list = mid.workspaces[mid.active];
    law_open_sound(state, window, surface, screen, now, num, mid, first);
    assert(list[n] == window);
    assert(mid.workspaces[mid.active].no_duplicates());
    assert(mid.floating == state.floating);
    law_float_takes_own_leaf(mid, surface, n, screen, later, num, next, second);
    lemma_rank(mid, mid.active, n);
    law_remove_undoes_insert(state.trees[state.active].shape);
    assert(next.trees =~= state.trees);
    let geo = choose|geo: WindowGeometry<Double>|
        {
            &&& #[trigger] call_ensures(N::centered, (&num, mid.area(screen).geometry()), geo)
            &&& mid.floated(window, geo).lays_out(screen, later, num, next, second)
        };
    let floated = mid.floated(window, geo);
    let tiles = choose|tiles: Seq<WindowGeometry<i64>>|
        {
            &&& #[trigger] floated.trees[floated.active].tiles(
                floated.area(screen),
                num,
                rects(tiles),
            )
            &&& floated.moves_to(screen, tiles, later, num, next, second)
        };
    assert(next.trees == floated.trees);
    lemma_added_has(state.floating, window, geo, window);
    assert forall|i: int| 0 <= i < n implies #[trigger] second[i] == Effect::Configure(
        state.current()[i],
        state.target(screen, tiles, i),
    ) by {
        let w = state.current()[i];
        assert(floated.current()[i] == w);
        assert(w != window) by {
            if w == window {
                assert(state.workspaces[state.active].contains(window));
            }
        }
        lemma_added_geo(state, window, geo, w);
        assert(floated.current().take(i) =~= state.current().take(i));
        assert forall|v: u64| state.current().take(i).contains(v) implies (
        #[trigger] floated.floating.tiled()(v) == state.floating.tiled()(v)) by {
            let k = choose|k: int|
                0 <= k < state.current().take(i).len() && state.current().take(i)[k] == v;
            assert(state.current()[k] == v);
            assert(v != window) by {
                if v == window {
                    assert(state.workspaces[state.active].contains(window));
                }
            }
            lemma_added_has(state.floating, window, geo, v);
        }
        lemma_filter_same(
            state.current().take(i),
            floated.floating.tiled(),
            state.floating.tiled(),
        );
        assert(floated.target(screen, tiles, i) == state.target(screen, tiles, i));
        assert(second[i] == Effect::Configure(w, floated.target(screen, tiles, i)));
    }
    tiles
}

/// One more floating window leaves the places of the others.
proof fn lemma_added_geo(state: StateView, window: u64, geo: WindowGeometry<Double>, other: u64)
    requires
        other != window,
        !state.floating.has(window),
    ensures
        state.floating.added(window, geo).geo(other) == state.floating.geo(other),
{
    super::floating::law_set_then_geo(state.floating, window, geo, other);
}

/// The places next to one in a ring, by remainders.
proof fn lemma_neighbour(i: int, n: int)
    requires
        0 <= i < n,
    ensures
        neighbour(i, n, true) == (i + 1) % n,
        neighbour(i, n, false) == (i + n - 1) % n,
{
    if i + 1 < n {
        assert((i + 1) % n == i + 1) by (nonlinear_arith)
            requires
                0 <= i + 1 < n,
        ;
    } else {
        assert((i + 1) % n == 0) by (nonlinear_arith)
            requires
                i + 1 == n,
                n > 0,
        ;
    }
    if i == 0 {
        assert((i + n - 1) % n == n - 1) by (nonlinear_arith)
            requires
                i == 0,
                n > 0,
        ;
    } else {
        assert((i + n - 1) % n == i - 1) by (nonlinear_arith)
            requires
                0 < i < n,
        ;
    }
}

/// Swapping exchanges the window that has the keyboard with the one after it on the
/// active workspace, or with the one before it; the last one and the first one are next
/// to each other. Every other window keeps its place, and no tree changes. The windows
/// are taken off the screen and put on again in the new order.
pub proof fn law_swap_neighbours<N: Numerics>(
    state: StateView,
    forward: bool,
    surface: u64,
    i: int,
    screen: Screen,
    now: u64,
    num: N,
    next: StateView,
    effects: Seq<Effect>,
)
    requires
        0 <= state.active < state.workspaces.len(),
        state.workspaces[state.active].no_duplicates(),
        0 <= i < state.workspaces[state.active].len(),
        state.workspaces[state.active].len() >= 2,
        state.owns(surface, state.workspaces[state.active][i]),
        state.swaps(forward, Some(surface), screen, now, num, next, effects),
    ensures
        ({
            let was = state.workspaces[state.active];
            let is = next.workspaces[state.active];
            let n = was.len() as int;
            let j = if forward {
                (i + 1) % n
            } else {
                (i + n - 1) % n
            };
            &&& 0 <= j < n
            &&& j != i
            &&& is.len() == n
            &&& is[i] == was[j]
            &&& is[j] == was[i]
            &&& forall|k: int| 0 <= k < n && k != i && k != j ==> #[trigger] is[k] == was[k]
            &&& effects.len() == 3 * n
            &&& forall|k: int|
                0 <= k < n ==> {
                    &&& #[trigger] effects[k] == Effect::Withdraw(is[k])
                    &&& effects[n + k] == (Effect::Show {
                        window: is[k],
                        x: 0,
                        y: 0,
                        activate: false,
                    })
                    &&& effects[2 * n + k] is Configure
                    &&& effects[2 * n + k]->Configure_0 == is[k]
                }
        }),
        next.workspaces.len() == state.workspaces.len(),
        forall|n: int|
            0 <= n < state.workspaces.len() && n != state.active ==> #[trigger] next.workspaces[n]
                == state.workspaces[n],
        next.trees == state.trees,
        next.active == state.active,
        next.floating == state.floating,
        next.fullscreen_window == state.fullscreen_window,
{
    let list = state.current();
    let n = list.len() as int;
    let w = list[i];
    lemma_index(list, w);
    assert(list.contains(w));
    lemma_neighbour(i, n);
    let j = neighbour(i, n, forward);
    let mid = state.exchanged(i, j);
    let laid = effects.skip(2 * n);
    law_relayout_moves_only(mid, screen, now, num, next, laid);
    law_relayout_places(mid, screen, now, num, next, laid);
    let head = effects.take(2 * n);
    let is = mid.current();
    assert forall|k: int| 0 <= k < n implies {
        &&& #[trigger] effects[k] == Effect::Withdraw(is[k])
        &&& effects[n + k] == (Effect::Show { window: is[k], x: 0, y: 0, activate: false })
        &&& effects[2 * n + k] is Configure
        &&& effects[2 * n + k]->Configure_0 == is[k]
    } by {
        assert(head[k] == effects[k]);
        assert(head[n + k] == effects[n + k]);
        assert(laid[k] == effects[2 * n + k]);
    }
}

/// A window alone on its workspace is not swapped, nor is one that is on another, nor is
/// anything if no window has the keyboard.
pub proof fn law_nothing_to_swap<N: Numerics>(
    state: StateView,
    forward: bool,
    focus: Option<u64>,
    screen: Screen,
    now: u64,
    num: N,
    next: StateView,
    effects: Seq<Effect>,
)
    requires
        state.workspaces[state.active].len() < 2 || (focus matches Some(surface)
            ==> state.by_surface.contains_key(surface) ==> !state.workspaces[state.active].contains(
            state.by_surface[surface],
        )),
        state.swaps(forward, focus, screen, now, num, next, effects),
    ensures
        next == state,
        effects.len() == 0,
{
}

/// The keyboard goes to the window after the one that has it, or to the one before it;
/// the last one and the first one are next to each other. Nothing else changes but that
/// a frame is drawn.
pub proof fn law_cycle_neighbours(
    state: StateView,
    forward: bool,
    mapped: Seq<u64>,
    surface: u64,
    i: int,
    next: StateView,
    effects: Seq<Effect>,
)
    requires
        mapped.no_duplicates(),
        0 <= i < mapped.len(),
        state.owns(surface, mapped[i]),
        state.cycles(forward, mapped, Some(surface), next, effects),
    ensures
        effects.len() == 1,
        forward ==> effects[0] == Effect::Focus(Some(mapped[(i + 1) % (mapped.len() as int)])),
        !forward ==> effects[0] == Effect::Focus(
            Some(mapped[(i + mapped.len() - 1) % (mapped.len() as int)]),
        ),
        next == (StateView { needs_render: true, ..state }),
{
    let w = mapped[i];
    lemma_index(mapped, w);
    assert(mapped.contains(w));
    lemma_neighbour(i, mapped.len() as int);
}

/// If no window on the screen has the keyboard, the second one gets it, or the last one
/// when going backwards. A single window gets it in any case.
pub proof fn law_cycle_from_nowhere(
    state: StateView,
    forward: bool,
    mapped: Seq<u64>,
    focus: Option<u64>,
    next: StateView,
    effects: Seq<Effect>,
)
    requires
        focus matches Some(surface) ==> state.by_surface.contains_key(surface)
            ==> !mapped.contains(state.by_surface[surface]),
        state.cycles(forward, mapped, focus, next, effects),
    ensures
        mapped.len() == 0 ==> effects.len() == 0 && next == state,
        mapped.len() > 0 ==> effects.len() == 1 && effects[0] == Effect::Focus(
            Some(
                if mapped.len() == 1 {
                    mapped[0]
                } else if forward {
                    mapped[1]
                } else {
                    mapped[mapped.len() - 1]
                },
            ),
        ),
{
}

/// Sending a window to another workspace puts it at the end of that one; the others
/// keep their order. Its own leaf, the one with as many before it as there are tiled
/// windows before the window, goes out of the tree of the active workspace, and the tree
/// of the other gets a leaf at its end. A window that floats has no leaf, and changes no
/// tree. The window is taken off the screen, and those that are left go to their places.
pub proof fn law_send_moves_own_leaf<N: Numerics>(
    state: StateView,
    target: int,
    surface: u64,
    i: int,
    screen: Screen,
    now: u64,
    num: N,
    next: StateView,
    effects: Seq<Effect>,
)
    requires
        state.workspaces.len() == state.trees.len(),
        0 <= state.active < state.workspaces.len(),
        0 <= target < state.workspaces.len(),
        target != state.active,
        state.workspaces[state.active].no_duplicates(),
        0 <= i < state.workspaces[state.active].len(),
        state.owns(surface, state.workspaces[state.active][i]),
        state.sends(target, Some(surface), screen, now, num, next, effects),
    ensures
        ({
            let w = state.workspaces[state.active][i];
            let (from, to) = (state.trees[state.active], state.trees[target]);
            &&& next.workspaces.len() == state.workspaces.len()
            &&& next.workspaces[state.active] == state.workspaces[state.active].remove(i)
            &&& next.workspaces[target] == state.workspaces[target].push(w)
            &&& next.trees.len() == state.trees.len()
            &&& !state.floating.has(w) ==> next.trees[state.active].shape == removed(
                from.shape,
                state.rank(state.active, i),
            ) && next.trees[target].shape == inserted(to.shape)
            &&& next.trees[state.active].division() == from.division()
            &&& next.trees[target].division() == to.division()
            &&& state.floating.has(w) ==> next.trees == state.trees
            &&& forall|n: int|
                0 <= n < state.trees.len() && n != state.active && n != target ==> (
                #[trigger] next.trees[n]) == state.trees[n] && next.workspaces[n]
                    == state.workspaces[n]
            &&& effects.len() == state.workspaces[state.active].len()
            &&& effects[0] == Effect::Withdraw(w)
            &&& forall|k: int|
                1 <= k < effects.len() ==> (#[trigger] effects[k]) is Configure
                    && effects[k]->Configure_0 == next.workspaces[state.active][k - 1]
            &&& !next.animations.windows.contains_key(w)
        }),
        next.active == state.active,
        next.floating == state.floating,
        next.by_surface == state.by_surface,
        next.fullscreen_window == state.fullscreen_window,
{
    let w = state.workspaces[state.active][i];
    let sent = state.sent(w, target);
    let mid = StateView { animations: sent.animations.without(w), ..sent };
    let laid = effects.drop_first();
    lemma_without_is_remove(state.current(), i);
    lemma_rank(state, state.active, i);
    law_relayout_moves_only(mid, screen, now, num, next, laid);
    law_relayout_places(mid, screen, now, num, next, laid);
    lemma_relayout_knows(mid, screen, now, num, next, laid, w);
    assert forall|k: int| 1 <= k < effects.len() implies (#[trigger] effects[k]) is Configure
        && effects[k]->Configure_0 == next.workspaces[state.active][k - 1] by {
        assert(laid[k - 1] == effects[k]);
    }
}

/// Sending windows to their places makes no window known to the animations, and none
/// unknown.
proof fn lemma_relayout_knows<N: Numerics>(
    state: StateView,
    screen: Screen,
    now: u64,
    num: N,
    next: StateView,
    effects: Seq<Effect>,
    window: u64,
)
    requires
        state.lays_out(screen, now, num, next, effects),
    ensures
        next.animations.windows.contains_key(window) <==> state.animations.windows.contains_key(
            window,
        ),
{
    if state.current().len() > 0 {
        let tiles = choose|tiles: Seq<WindowGeometry<i64>>|
            {
                &&& #[trigger] state.trees[state.active].tiles(
                    state.area(screen),
                    num,
                    rects(tiles),
                )
                &&& state.moves_to(screen, tiles, now, num, next, effects)
            };
        let goals = choose|goals: Seq<(u64, AnimatedRect)>|
            {
                &&& #[trigger] realizes_all(num, state.targets(screen, tiles), goals)
                &&& state.animations.retargets_all(goals, now, num, next.animations)
            };
        law_retarget_keeps_windows(state.animations, goals, now, num, next.animations);
        assert(next.animations.windows.dom().contains(window)
            == state.animations.windows.dom().contains(window));
    }
}

/// Without a window that has the keyboard, or a workspace with the number, nothing is
/// sent. A window that is sent to the active workspace goes to its end, and the last
/// leaf is its own then.
pub proof fn law_send_here<N: Numerics>(
    state: StateView,
    target: int,
    focus: Option<u64>,
    i: int,
    screen: Screen,
    now: u64,
    num: N,
    next: StateView,
    effects: Seq<Effect>,
)
    requires
        state.workspaces.len() == state.trees.len(),
        0 <= state.active < state.workspaces.len(),
        0 <= target,
        state.workspaces[state.active].no_duplicates(),
        state.sends(target, focus, screen, now, num, next, effects),
    ensures
        target >= state.workspaces.len() ==> next == state && effects.len() == 0,
        (focus matches Some(surface) ==> !state.by_surface.contains_key(surface)) ==> next == state
            && effects.len() == 0,
        target == state.active && 0 <= i < state.workspaces[state.active].len() && (
        focus matches Some(surface) && state.owns(surface, state.workspaces[state.active][i]))
            ==> {
            let w = state.workspaces[state.active][i];
            &&& effects.len() == 0
            &&& next.workspaces == state.workspaces.update(
                state.active,
                state.workspaces[state.active].remove(i).push(w),
            )
            &&& state.floating.has(w) ==> next.trees == state.trees
            &&& !state.floating.has(w) ==> next.trees[state.active].shape == inserted(
                removed(state.trees[state.active].shape, state.rank(state.active, i)),
            )
        },
{
    if 0 <= i < state.workspaces[state.active].len() {
        lemma_without_is_remove(state.current(), i);
        lemma_rank(state, state.active, i);
        assert(state.sent(state.current()[i], state.active).workspaces =~= state.workspaces.update(
            state.active,
            state.current().remove(i).push(state.current()[i]),
        ));
    }
}

/// A window that is closed goes out of its workspace, where the others keep their order,
/// and its own leaf, the one with as many before it as there are tiled windows before
/// the window, goes out of the tree. Workspaces that it is not on keep their windows and
/// their trees. Its surface is forgotten, and no other.
pub proof fn law_close_takes_own_leaf<N: Numerics>(
    state: StateView,
    surface: u64,
    window: u64,
    screen: Screen,
    now: u64,
    num: N,
    next: StateView,
    effects: Seq<Effect>,
    n: int,
    i: int,
)
    requires
        state.workspaces.len() == state.trees.len(),
        0 <= state.active < state.workspaces.len(),
        0 <= n < state.workspaces.len(),
        state.workspaces[n].no_duplicates(),
        state.owns(surface, window),
        state.closes(surface, screen, now, num, next, effects),
    ensures
        0 <= i < state.workspaces[n].len() && state.workspaces[n][i] == window ==> {
            &&& next.workspaces[n] == state.workspaces[n].remove(i)
            &&& !state.floating.has(window) ==> next.trees[n].shape == removed(
                state.trees[n].shape,
                state.rank(n, i),
            )
            &&& state.floating.has(window) ==> next.trees[n] == state.trees[n]
        },
        !state.workspaces[n].contains(window) ==> next.workspaces[n] == state.workspaces[n]
            && next.trees[n] == state.trees[n],
        next.trees[n].division() == state.trees[n].division(),
        next.workspaces.len() == state.workspaces.len(),
        next.trees.len() == state.trees.len(),
        next.by_surface == state.by_surface.remove(surface),
        next.active == state.active,
        state.fullscreen_window == Some(window) ==> next.fullscreen_window is None
            && next.fs_phase == FullscreenPhase::Off,
        state.fullscreen_window != Some(window) ==> next.fullscreen_window
            == state.fullscreen_window && next.fs_phase == state.fs_phase,
        forall|w: u64| #[trigger]
            next.floating.has(w) <==> state.floating.has(w) && w != window,
        effects.len() == next.workspaces[state.active].len() + 1,
        effects[0] == Effect::Withdraw(window),
        !next.animations.windows.contains_key(window),
{
    let bereft = state.bereft(window, surface);
    let laid = effects.drop_first();
    law_relayout_moves_only(bereft, screen, now, num, next, laid);
    law_relayout_places(bereft, screen, now, num, next, laid);
    lemma_relayout_knows(bereft, screen, now, num, next, laid, window);
    lemma_without(state.workspaces[n], window);
    if 0 <= i < state.workspaces[n].len() && state.workspaces[n][i] == window {
        lemma_without_is_remove(state.workspaces[n], i);
        lemma_rank(state, n, i);
        if state.floating.has(window) {
            lemma_floats_no_slot(state, n, window);
        }
    }
    if !state.workspaces[n].contains(window) {
        lemma_floats_no_slot(state, n, window);
    }
    assert forall|w: u64| #[trigger] next.floating.has(w) <==> state.floating.has(w) && w
        != window by {
        lemma_removed_has(state.floating, window, w);
    }
}

/// A surface without a window can go without a trace.
pub proof fn law_close_unknown<N: Numerics>(
    state: StateView,
    surface: u64,
    screen: Screen,
    now: u64,
    num: N,
    next: StateView,
    effects: Seq<Effect>,
)
    requires
        !state.by_surface.contains_key(surface),
        state.closes(surface, screen, now, num, next, effects),
    ensures
        next == state,
        effects.len() == 0,
{
}

/// The area for windows keeps the outer gap of the settings from the edges of the output.
pub proof fn law_outer_gap_kept(state: StateView, screen: Screen, size: (i32, i32))
    requires
        screen.output == Some(size),
    ensures
        ({
            let gap = state.config.general.gaps_outer as int;
            let area = state.area(screen);
            &&& area.x >= gap
            &&& area.y >= gap
            &&& area.x + area.width <= size.0 - gap
            &&& area.y + area.height <= size.1 - gap
            &&& screen.top@.len() == 0 && screen.bottom@.len() == 0 ==> {
                &&& area.x == gap
                &&& area.y == gap
                &&& area.width == size.0 - 2 * gap
                &&& area.height == size.1 - 2 * gap
            }
        }),
{
    super::screen::law_area_ends_at_bars(screen, state.config.general.gaps_outer, size, 0);
}

} // verus!
