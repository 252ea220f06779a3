//! What holds of the state throughout.

use super::floating::{law_stays_distinct, lemma_added_has, lemma_placed_has, lemma_removed_has};
use super::screen::Screen;
use super::state::{Effect, Placement, StateView, NUM_WORKSPACES};
use super::windows::OnScreen;
use super::workspaces::{neighbour, swapped};
use crate::layout::laws::{after_inserts, all_proper, before, inside, law_insert_adds_one,
    law_inserts_dwindle, law_remove_takes_one, law_tiles_apart, law_tiles_inside};
use crate::layout::{dwindles, rects, WindowGeometry};
use crate::lists::{index, lemma_filter_members, lemma_filter_once, lemma_filter_place,
    lemma_filter_same, lemma_filter_twice, lemma_filter_update, lemma_index, lemma_without,
    other_than, without};
use crate::numerics::Numerics;
use crate::scalar::Double;
use vstd::prelude::*;

verus! {

/// No window is in a list twice, and none in two lists.
pub open spec fn once(lists: Seq<Seq<u64>>) -> bool {
    &&& forall|a: int| 0 <= a < lists.len() ==> (#[trigger] lists[a]).no_duplicates()
    &&& forall|a: int, b: int, w: u64|
        0 <= a < lists.len() && 0 <= b < lists.len() && a != b && #[trigger] lists[a].contains(w)
            ==> !#[trigger] lists[b].contains(w)
}

impl StateView {
    /// There is a workspace and a tree for every number, and one is active.
    pub open spec fn shaped(self) -> bool {
        &&& self.workspaces.len() == NUM_WORKSPACES
        &&& self.trees.len() == NUM_WORKSPACES
        &&& 0 <= self.active < NUM_WORKSPACES
    }

    /// No window is on a workspace twice, and none on two workspaces.
    pub open spec fn windows_once(self) -> bool {
        once(self.workspaces)
    }

    /// The layout tree of every workspace has a leaf for each tiled window.
    pub open spec fn trees_match(self) -> bool {
        forall|n: int|
            0 <= n < self.workspaces.len() ==> (#[trigger] self.trees[n]).count() == self.tiled(
                n,
            ).len()
    }

    /// Every layout tree divides as the layout does.
    pub open spec fn trees_agree(self) -> bool {
        forall|n: int|
            0 <= n < self.trees.len() ==> (#[trigger] self.trees[n]).division()
                == self.layout.division()
    }

    /// The client of a window that is to fill the screen has been asked, and without
    /// such a window there is no full screen.
    pub open spec fn fullscreen_asked(self) -> bool {
        self.fullscreen_window is Some <==> self.fs_phase !is Off
    }

    /// A window is on no workspace but the active one.
    pub open spec fn nowhere_else(self, window: u64) -> bool {
        forall|a: int|
            0 <= a < self.workspaces.len() && a != self.active ==> !(
            #[trigger] self.workspaces[a]).contains(window)
    }

    /// Windows are once where they are, trees match, full screen is asked for, and no
    /// window floats twice.
    pub open spec fn sound(self) -> bool {
        &&& self.shaped()
        &&& self.windows_once()
        &&& self.trees_match()
        &&& self.trees_agree()
        &&& self.fullscreen_asked()
        &&& self.floating.distinct()
    }
}

/// Sending windows to their places changes neither the workspaces nor their
/// trees, nor which windows float or fill the screen.
pub proof fn law_relayout_moves_only<N: Numerics>(
    state: StateView,
    screen: Screen,
    now: u64,
    num: N,
    next: StateView,
    effects: Seq<Effect>,
)
    requires
        state.lays_out(screen, now, num, next, effects),
    ensures
        next.workspaces == state.workspaces,
        next.trees == state.trees,
        next.active == state.active,
        next.floating == state.floating,
        next.fullscreen_window == state.fullscreen_window,
        next.fs_phase == state.fs_phase,
        next.by_surface == state.by_surface,
        next.locked == state.locked,
        effects.len() == state.current().len(),
        state.sound() ==> next.sound(),
{
    assert forall|n: int| state.workspaces == next.workspaces && state.floating
        == next.floating implies state.tiled(n) == #[trigger] next.tiled(n) by {}
}

/// What is left of the tiled windows when one of them starts to float.
proof fn lemma_floated_tiled(state: StateView, window: u64, geo: WindowGeometry<Double>, n: int)
    requires
        state.shaped(),
        state.windows_once(),
        !state.floating.has(window),
        state.nowhere_else(window),
        0 <= n < NUM_WORKSPACES,
    ensures
        state.floated(window, geo).tiled(n).len() == state.tiled(n).len() - (if n == state.active
            && state.tiled_slot(window) is Some {
            1int
        } else {
            0
        }),
        state.tiled_slot(window) matches Some(slot) ==> 0 <= slot < state.tiled(
            state.active,
        ).len(),
{
    let after = state.floated(window, geo);
    let list = state.workspaces[n];
    let was = state.floating.tiled();
    let is = after.floating.tiled();
    let other = other_than(window);
    assert forall|w: u64| list.contains(w) implies (#[trigger] is(w) <==> was(w) && other(w)) by {
        lemma_added_has(state.floating, window, geo, w);
    }
    lemma_filter_twice(list, was, other, is);
    assert(without(state.tiled(n), window) == after.tiled(n));
    lemma_filter_members(list, was);
    assert(list.no_duplicates());
    lemma_filter_once(list, was);
    lemma_without(state.tiled(n), window);
    lemma_filter_members(state.current(), was);
    lemma_index(state.tiled(state.active), window);
    if n != state.active {
        assert(!state.workspaces[n].contains(window));
    }
}

/// What is left of the tiled windows when a floating one is put back among them.
proof fn lemma_sunk_tiled(state: StateView, window: u64, n: int)
    requires
        state.shaped(),
        state.windows_once(),
        state.floating.has(window),
        state.nowhere_else(window),
        0 <= n < NUM_WORKSPACES,
    ensures
        state.sunk(window).tiled(n).len() == state.tiled(n).len() + (if n == state.active {
            1int
        } else {
            0
        }),
{
    let after = state.sunk(window);
    let list = state.workspaces[n];
    let was = state.floating.tiled();
    let is = after.floating.tiled();
    let other = other_than(window);
    assert forall|w: u64| #[trigger] is(w) <==> was(w) || w == window by {
        lemma_removed_has(state.floating, window, w);
    }
    if n == state.active {
        lemma_filter_twice(list, other, is, was);
        reveal(Seq::filter);
        let rest = without(list, window);
        assert(after.workspaces[n] == rest.push(window));
        assert(rest.push(window).drop_last() =~= rest);
        assert(is(window));
    } else {
        assert(!state.workspaces[n].contains(window));
        lemma_filter_same(list, was, is);
    }
}

proof fn lemma_floated_sound(state: StateView, window: u64, geo: WindowGeometry<Double>)
    requires
        state.sound(),
        !state.floating.has(window),
        state.nowhere_else(window),
    ensures
        state.floated(window, geo).sound(),
{
    law_stays_distinct(state.floating, window, geo);
    let after = state.floated(window, geo);
    assert forall|n: int| 0 <= n < after.workspaces.len() implies (
    #[trigger] after.trees[n]).count() == after.tiled(n).len() by {
        lemma_floated_tiled(state, window, geo, n);
        assert(state.trees[n].count() == state.tiled(n).len());
        if n == state.active {
            if let Some(slot) = state.tiled_slot(window) {
                law_remove_takes_one(state.trees[n].shape, slot);
            }
        }
    }
}

proof fn lemma_sunk_sound(state: StateView, window: u64)
    requires
        state.sound(),
        state.floating.has(window),
        state.nowhere_else(window),
    ensures
        state.sunk(window).sound(),
        state.sunk(window).current().last() == window,
{
    law_stays_distinct(state.floating, window, arbitrary());
    let after = state.sunk(window);
    assert forall|n: int| 0 <= n < after.workspaces.len() implies (
    #[trigger] after.trees[n]).count() == after.tiled(n).len() by {
        lemma_sunk_tiled(state, window, n);
        assert(state.trees[n].count() == state.tiled(n).len());
        if n == state.active {
            law_insert_adds_one(state.trees[n].shape);
        }
    }
    lemma_moved_once(state, window, state.active);
    let gone = state.workspaces.update(state.active, without(state.current(), window));
    assert(after.workspaces =~= gone.update(state.active, gone[state.active].push(window)));
}

/// Taking a window out of the active workspace and putting it at the end of one
/// keeps every window where it is once.
proof fn lemma_moved_once(state: StateView, window: u64, target: int)
    requires
        state.shaped(),
        state.windows_once(),
        state.nowhere_else(window),
        0 <= target < NUM_WORKSPACES,
    ensures
        ({
            let gone = state.workspaces.update(
                state.active,
                without(state.current(), window),
            );
            once(gone.update(target, gone[target].push(window)))
        }),
{
    let gone = state.workspaces.update(state.active, without(state.current(), window));
    let after = gone.update(target, gone[target].push(window));
    let other = other_than(window);
    lemma_filter_members(state.current(), other);
    assert(state.workspaces[state.active].no_duplicates());
    lemma_filter_once(state.current(), other);
    lemma_without(state.current(), window);
    assert forall|a: int| 0 <= a < gone.len() implies !(#[trigger] gone[a]).contains(window)
        && gone[a].no_duplicates() && (forall|w: u64| #[trigger]
        gone[a].contains(w) ==> state.workspaces[a].contains(w)) by {
        if a != state.active {
            assert(!state.workspaces[a].contains(window));
            assert(state.workspaces[a].no_duplicates());
        }
    }
    let at = gone[target];
    assert forall|w: u64| #[trigger] at.push(window).contains(w) <==> at.contains(w) || w
        == window by {
        if at.contains(w) {
            let k = choose|k: int| 0 <= k < at.len() && at[k] == w;
            assert(at.push(window)[k] == w);
        }
        if w == window {
            assert(at.push(window)[at.len() as int] == w);
        }
        if at.push(window).contains(w) && w != window {
            let k = choose|k: int| 0 <= k < at.push(window).len() && at.push(window)[k] == w;
            assert(at[k] == w);
        }
    }
    assert(at.push(window).no_duplicates()) by {
        assert(!at.contains(window));
        assert forall|i: int, j: int|
            0 <= i < at.push(window).len() && 0 <= j < at.push(window).len() && i != j implies at.push(
            window,
        )[i] != at.push(window)[j] by {
            if i < at.len() {
                assert(at.contains(at[i]));
            }
            if j < at.len() {
                assert(at.contains(at[j]));
            }
        }
    }
    assert forall|a: int, b: int, w: u64|
        0 <= a < after.len() && 0 <= b < after.len() && a != b
            && #[trigger] after[a].contains(
            w,
        ) implies !#[trigger] after[b].contains(w) by {
        assert(!gone[a].contains(window));
        assert(!gone[b].contains(window));
        if a == target {
            assert(at.push(window).contains(w));
        }
        if b == target && after[b].contains(w) {
            assert(at.push(window).contains(w));
        }
        if w != window {
            assert(gone[a].contains(w));
            assert(state.workspaces[a].contains(w));
            assert(!state.workspaces[b].contains(w));
        }
    }
}

/// Switching between floating and tiled keeps the state sound: in particular the
/// tree of the workspace gains or loses exactly the leaf of the window. The
/// window may be on no other workspace.
pub proof fn law_toggle_floating_sound<N: Numerics>(
    state: StateView,
    focus: Option<u64>,
    screen: Screen,
    now: u64,
    num: N,
    next: StateView,
    effects: Seq<Effect>,
)
    requires
        state.sound(),
        state.toggles_floating(focus, screen, now, num, next, effects),
        state.focused(focus) matches Some(w) ==> state.nowhere_else(w),
    ensures
        next.sound(),
        state.focused(focus) matches Some(w) ==> next.floating.has(w) == !state.floating.has(w),
{
    if let Some(w) = state.focused(focus) {
        if state.floating.has(w) {
            lemma_sunk_sound(state, w);
            lemma_removed_has(state.floating, w, w);
            law_relayout_moves_only(state.sunk(w), screen, now, num, next, effects);
        } else {
            let geo = choose|geo: WindowGeometry<Double>|
                {
                    &&& #[trigger] call_ensures(
                        N::centered,
                        (&num, state.area(screen).geometry()),
                        geo,
                    )
                    &&& state.floated(w, geo).lays_out(screen, now, num, next, effects)
                };
            lemma_floated_sound(state, w, geo);
            lemma_added_has(state.floating, w, geo, w);
            law_relayout_moves_only(state.floated(w, geo), screen, now, num, next, effects);
        }
    }
}

/// Sending a window to another workspace keeps the state sound: the leaf of a
/// tiled window goes with it. The window may be on no workspace but the active one,
/// and is on the other one only afterwards, at its end.
pub proof fn law_send_sound<N: Numerics>(
    state: StateView,
    target: int,
    focus: Option<u64>,
    screen: Screen,
    now: u64,
    num: N,
    next: StateView,
    effects: Seq<Effect>,
)
    requires
        state.sound(),
        0 <= target,
        state.sends(target, focus, screen, now, num, next, effects),
        state.focused(focus) matches Some(w) ==> state.nowhere_else(w),
    ensures
        next.sound(),
        target < NUM_WORKSPACES ==> (state.focused(focus) matches Some(w) ==> {
            &&& next.workspaces[target].last() == w
            &&& target != state.active ==> !next.workspaces[state.active].contains(w)
            &&& next.floating.has(w) == state.floating.has(w)
        }),
{
    if target < state.workspaces.len() {
        if let Some(w) = state.focused(focus) {
            let sent = state.sent(w, target);
            lemma_sent_sound(state, w, target);
            lemma_without(state.current(), w);
            if target != state.active {
                let mid = StateView { animations: sent.animations.without(w), ..sent };
                assert(mid.sound()) by {
                    assert forall|n: int| 0 <= n < mid.workspaces.len() implies (
                    #[trigger] mid.trees[n]).count() == mid.tiled(n).len() by {
                        assert(sent.trees[n].count() == sent.tiled(n).len());
                    }
                }
                law_relayout_moves_only(mid, screen, now, num, next, effects.drop_first());
            }
        }
    }
}

proof fn lemma_sent_sound(state: StateView, window: u64, target: int)
    requires
        state.sound(),
        0 <= target < NUM_WORKSPACES,
        state.nowhere_else(window),
    ensures
        state.sent(window, target).sound(),
{
    let after = state.sent(window, target);
    let tiled = state.floating.tiled();
    let other = other_than(window);
    let gone = state.workspaces.update(state.active, without(state.current(), window));
    let floats = state.floating.has(window);
    lemma_moved_once(state, window, target);
    assert(state.workspaces[state.active].no_duplicates());
    lemma_filter_once(state.current(), tiled);
    lemma_filter_members(state.current(), tiled);
    lemma_without(state.tiled(state.active), window);
    lemma_index(state.tiled(state.active), window);
    // What is left of the tiled windows where the window was.
    assert(gone[state.active].filter(tiled) == without(state.tiled(state.active), window)) by {
        let both = |w: u64| tiled(w) && other(w);
        lemma_filter_twice(state.current(), tiled, other, both);
        lemma_filter_twice(state.current(), other, tiled, both);
    }
    assert forall|n: int| 0 <= n < after.workspaces.len() implies (
    #[trigger] after.trees[n]).count() == after.tiled(n).len() by {
        reveal(Seq::filter);
        assert(state.trees[n].count() == state.tiled(n).len());
        assert(state.trees[state.active].count() == state.tiled(state.active).len());
        let pruned = match state.tiled_slot(window) {
            Some(slot) => state.trees.update(
                state.active,
                state.trees[state.active].removed(slot),
            ),
            None => state.trees,
        };
        if !floats {
            if let Some(slot) = state.tiled_slot(window) {
                law_remove_takes_one(state.trees[state.active].shape, slot);
            }
            law_insert_adds_one(pruned[target].shape);
            assert(pruned[n].count() == gone[n].filter(tiled).len());
        } else {
            assert(gone[n].filter(tiled).len() == state.tiled(n).len());
        }
        if n == target {
            assert(after.workspaces[n] == gone[n].push(window));
            assert(gone[n].push(window).drop_last() =~= gone[n]);
        } else {
            assert(after.workspaces[n] == gone[n]);
        }
    }
}

/// Swapping two windows keeps the state sound.
pub proof fn law_swap_sound<N: Numerics>(
    state: StateView,
    forward: bool,
    focus: Option<u64>,
    screen: Screen,
    now: u64,
    num: N,
    next: StateView,
    effects: Seq<Effect>,
)
    requires
        state.sound(),
        state.swaps(forward, focus, screen, now, num, next, effects),
    ensures
        next.sound(),
{
    let n = state.current().len() as int;
    if let Some(i) = state.focus_index(focus, state.current()) {
        if n >= 2 {
            let j = neighbour(i, n, forward);
            lemma_index(state.current(), state.focused(focus)->0);
            lemma_exchanged_sound(state, i, j);
            law_relayout_moves_only(
                state.exchanged(i, j),
                screen,
                now,
                num,
                next,
                effects.skip(2 * n),
            );
        }
    }
}

proof fn lemma_exchanged_sound(state: StateView, i: int, j: int)
    requires
        state.sound(),
        0 <= i < state.current().len(),
        0 <= j < state.current().len(),
    ensures
        state.exchanged(i, j).sound(),
{
    let after = state.exchanged(i, j);
    let list = state.current();
    let tiled = state.floating.tiled();
    assert(state.workspaces[state.active].no_duplicates());
    assert forall|n: int| 0 <= n < after.workspaces.len() implies (
    #[trigger] after.trees[n]).count() == after.tiled(n).len() by {
        assert(state.trees[n].count() == state.tiled(n).len());
        if n == state.active {
            lemma_filter_update(list, tiled, i, list[j]);
            lemma_filter_update(list.update(i, list[j]), tiled, j, list[i]);
        }
    }
    let swap = swapped(list, i, j);
    assert forall|w: u64| #[trigger] swap.contains(w) <==> list.contains(w) by {
        if list.contains(w) {
            let k = choose|k: int| 0 <= k < list.len() && list[k] == w;
            let l = if k == i {
                j
            } else if k == j {
                i
            } else {
                k
            };
            assert(swap[l] == w);
        }
        if swap.contains(w) {
            let k = choose|k: int| 0 <= k < swap.len() && swap[k] == w;
            let l = if k == i {
                j
            } else if k == j {
                i
            } else {
                k
            };
            assert(list[l] == w);
        }
    }
    assert(swap.no_duplicates());
    assert forall|a: int, b: int, w: u64|
        0 <= a < after.workspaces.len() && 0 <= b < after.workspaces.len() && a != b
            && #[trigger] after.workspaces[a].contains(
            w,
        ) implies !#[trigger] after.workspaces[b].contains(w) by {
        assert(state.workspaces[a].contains(w));
        assert(!state.workspaces[b].contains(w));
    }
}

/// Going to another workspace keeps the state sound, and leaves every workspace
/// as it was.
pub proof fn law_switch_sound<N: Numerics>(
    state: StateView,
    target: int,
    mapped: Seq<u64>,
    screen: Screen,
    now: u64,
    num: N,
    next: StateView,
    effects: Seq<Effect>,
)
    requires
        state.sound(),
        0 <= target,
        state.switches(target, mapped, screen, now, num, next, effects),
    ensures
        next.sound(),
        next.workspaces == state.workspaces,
        next.trees == state.trees,
        next.floating == state.floating,
        next.active == if target < NUM_WORKSPACES {
            target
        } else {
            state.active
        },
{
    assert forall|n: int| state.workspaces == next.workspaces && state.floating
        == next.floating implies state.tiled(n) == #[trigger] next.tiled(n) by {}
}

/// While the state is sound, every workspace can be gone to.
pub proof fn law_sound_can_switch(state: StateView, target: int)
    requires
        state.sound(),
    ensures
        state.can_switch(target),
{
    if 0 <= target < state.workspaces.len() {
        assert(state.trees[target].count() == state.tiled(target).len());
    }
}

/// Switching full screen keeps the state sound. The window that has the keyboard
/// fills the screen, or does so no longer.
pub proof fn law_toggle_fullscreen_sound<N: Numerics>(
    state: StateView,
    focus: Option<u64>,
    at: OnScreen,
    screen: Screen,
    now: u64,
    num: N,
    next: StateView,
    effects: Seq<Effect>,
)
    requires
        state.sound(),
        state.toggles_fullscreen(focus, at, screen, now, num, next, effects),
    ensures
        next.sound(),
        next.by_surface == state.by_surface,
        state.focused(focus) matches Some(w) ==> if state.fullscreen_window == Some(w) {
            next.fullscreen_window is None && next.fs_phase is Off
        } else {
            next.fullscreen_window == Some(w) && next.fs_phase is Pending
        },
{
    if let Some(w) = state.focused(focus) {
        let rest = effects.drop_first();
        let turned = if state.fullscreen_window == Some(w) {
            state.leaving_fullscreen()
        } else {
            let geo = choose|geo: WindowGeometry<Double>|
                {
                    &&& #[trigger] state.measures(w, at, num, geo)
                    &&& state.entering_fullscreen(w, now, geo).lays_out(
                        screen,
                        now,
                        num,
                        next,
                        rest,
                    )
                };
            state.entering_fullscreen(w, now, geo)
        };
        lemma_same_lists_sound(state, turned);
        law_relayout_moves_only(turned, screen, now, num, next, rest);
    }
}

/// Switching full screen twice for the same window leaves full screen.
pub proof fn law_toggle_fullscreen_twice<N: Numerics>(
    state: StateView,
    focus: Option<u64>,
    at: OnScreen,
    screen: Screen,
    now: u64,
    num: N,
    mid: StateView,
    first: Seq<Effect>,
    later_at: OnScreen,
    later_screen: Screen,
    later: u64,
    next: StateView,
    second: Seq<Effect>,
)
    requires
        state.sound(),
        state.focused(focus) is Some,
        state.fullscreen_window != state.focused(focus),
        state.toggles_fullscreen(focus, at, screen, now, num, mid, first),
        mid.toggles_fullscreen(focus, later_at, later_screen, later, num, next, second),
    ensures
        mid.fullscreen_window == state.focused(focus),
        mid.fs_phase is Pending,
        next.fullscreen_window is None,
        next.fs_phase is Off,
{
    law_toggle_fullscreen_sound(state, focus, at, screen, now, num, mid, first);
    law_toggle_fullscreen_sound(mid, focus, later_at, later_screen, later, num, next, second);
}

/// What changes no list, no tree and no floating window keeps the state sound.
pub proof fn lemma_same_lists_sound(state: StateView, other: StateView)
    requires
        state.sound(),
        other.workspaces == state.workspaces,
        other.trees == state.trees,
        other.layout == state.layout,
        other.floating == state.floating,
        other.active == state.active,
        other.fullscreen_asked(),
    ensures
        other.sound(),
{
    assert forall|n: int| 0 <= n < other.workspaces.len() implies (
    #[trigger] other.trees[n]).count() == other.tiled(n).len() by {
        assert(state.trees[n].count() == state.tiled(n).len());
    }
}

/// The answer of a client turns a request for full screen into full screen, and
/// nothing else does. The state stays sound.
pub proof fn law_commit_answers(state: StateView, surface: u64)
    requires
        state.fullscreen_asked(),
    ensures
        state.phase_after_commit(surface) != state.fs_phase <==> {
            &&& state.fs_phase is Pending
            &&& state.fullscreen_window is Some
            &&& state.focused(Some(surface)) == state.fullscreen_window
        },
        state.phase_after_commit(surface) != state.fs_phase ==> state.phase_after_commit(surface)
            is Active,
        state.sound() ==> (StateView {
            fs_phase: state.phase_after_commit(surface),
            needs_render: true,
            ..state
        }).sound(),
{
    if state.sound() {
        lemma_same_lists_sound(
            state,
            StateView {
                fs_phase: state.phase_after_commit(surface),
                needs_render: true,
                ..state
            },
        );
    }
}

/// Every tiled window gets the tile with its number among the tiled windows, unless
/// it fills the screen: then it keeps that tile, and gets the whole screen.
pub proof fn law_tile_by_number(
    state: StateView,
    screen: Screen,
    tiles: Seq<WindowGeometry<i64>>,
    i: int,
)
    requires
        state.sound(),
        tiles.len() == state.tiled(state.active).len(),
        0 <= i < state.current().len(),
        !state.floating.has(state.current()[i]),
    ensures
        state.tiled_slot(state.current()[i]) == Some(state.tiles_before(i) as int),
        state.tiles_before(i) < tiles.len(),
        state.targets(screen, tiles)[i] == (
            state.current()[i],
            Placement::Tile(
                if state.fullscreen_window == Some(state.current()[i]) {
                    screen.full()
                } else {
                    tiles[state.tiles_before(i) as int]
                },
            ),
        ),
{
    let list = state.current();
    let w = list[i];
    let tiled = state.floating.tiled();
    lemma_filter_place(list, tiled, i);
    let k = state.tiles_before(i) as int;
    assert(state.tiled(state.active)[k] == w);
    assert(state.tiled(state.active).contains(w));
    assert(state.workspaces[state.active].no_duplicates());
    lemma_filter_once(list, tiled);
    lemma_index(state.tiled(state.active), w);
    super::floating::lemma_slot(state.floating.entries, w);
}

/// A window that fills the screen takes no place from the others: all of them are
/// where they would be without it.
pub proof fn law_fullscreen_moves_no_other(
    state: StateView,
    screen: Screen,
    tiles: Seq<WindowGeometry<i64>>,
    i: int,
)
    requires
        0 <= i < state.current().len(),
        state.fullscreen_window != Some(state.current()[i]),
    ensures
        state.targets(screen, tiles)[i] == (StateView {
            fullscreen_window: None,
            ..state
        }).targets(screen, tiles)[i],
{
}

/// No two tiled windows overlap: of any two, the one that comes first on the
/// workspace is left of the other or above it, the gap lies between them, and
/// both lie within the area. This holds of windows that do not fill the screen,
/// while no tile has a negative side.
pub proof fn law_tiled_windows_apart<N: Numerics>(
    state: StateView,
    screen: Screen,
    num: N,
    tiles: Seq<WindowGeometry<i64>>,
    i: int,
    j: int,
)
    requires
        state.sound(),
        state.trees[state.active].tiles(state.area(screen), num, rects(tiles)),
        all_proper(rects(tiles)),
        0 <= i < j < state.current().len(),
        !state.floating.has(state.current()[i]),
        !state.floating.has(state.current()[j]),
        state.fullscreen_window != Some(state.current()[i]),
        state.fullscreen_window != Some(state.current()[j]),
    ensures
        state.targets(screen, tiles)[i].1 matches Placement::Tile(a) && state.targets(
            screen,
            tiles,
        )[j].1 matches Placement::Tile(b) && {
            &&& before(a@, b@, state.trees[state.active].inner_gap as int)
            &&& inside(a@, state.area(screen))
            &&& inside(b@, state.area(screen))
        },
{
    let tree = state.trees[state.active];
    let area = state.area(screen);
    assert(tree.count() == state.tiled(state.active).len());
    assert(rects(tiles).len() == tree.count());
    law_tile_by_number(state, screen, tiles, i);
    law_tile_by_number(state, screen, tiles, j);
    let (k, l) = (state.tiles_before(i) as int, state.tiles_before(j) as int);
    assert(k < l) by {
        let list = state.current();
        lemma_filter_place(list.take(j), state.floating.tiled(), i);
        assert(list.take(j).take(i) =~= list.take(i));
    }
    let node = tree.shape->0;
    law_tiles_apart(node, area, tree.division(), num, rects(tiles));
    law_tiles_inside(node, area, tree.division(), num, rects(tiles));
    assert(before(rects(tiles)[k], rects(tiles)[l], tree.inner_gap as int));
    assert(inside(rects(tiles)[k], area));
    assert(inside(rects(tiles)[l], area));
}

/// Swapping forwards and then backwards, or the other way round, puts both windows
/// back where they were. The window that has the keyboard must be on the workspace
/// no more than once.
pub proof fn law_swap_undone<N: Numerics>(
    state: StateView,
    focus: Option<u64>,
    forward: bool,
    screen: Screen,
    now: u64,
    num: N,
    mid: StateView,
    first: Seq<Effect>,
    later_screen: Screen,
    later: u64,
    next: StateView,
    second: Seq<Effect>,
)
    requires
        state.shaped(),
        forall|i: int, j: int|
            0 <= i < j < state.current().len() && Some(#[trigger] state.current()[i])
                == state.focused(focus) ==> #[trigger] state.current()[j] != state.current()[i],
        state.swaps(forward, focus, screen, now, num, mid, first),
        mid.swaps(!forward, focus, later_screen, later, num, next, second),
    ensures
        next.workspaces == state.workspaces,
        next.active == state.active,
        next.by_surface == state.by_surface,
{
    let list = state.current();
    let n = list.len() as int;
    if n >= 2 {
        if let Some(i) = state.focus_index(focus, list) {
            let w = state.focused(focus)->0;
            lemma_index(list, w);
            let j = neighbour(i, n, forward);
            let turned = state.exchanged(i, j);
            law_relayout_moves_only(turned, screen, now, num, mid, first.skip(2 * n));
            let after = swapped(list, i, j);
            assert(mid.current() == after);
            assert(after[j] == w);
            assert forall|k: int| 0 <= k < n && k != j implies after[k] != w by {
                if k == i {
                    if i < j {
                        assert(list[i] == w);
                        assert(list[j] != list[i]);
                    } else {
                        assert(list[j] != w);
                    }
                } else if i < k {
                    assert(Some(list[i]) == state.focused(focus));
                    assert(list[k] != list[i]);
                }
            }
            lemma_index(after, w);
            assert(after.contains(w));
            assert(index(after, w) == j);
            assert(mid.focus_index(focus, after) == Some(j));
            assert(neighbour(j, n, !forward) == i);
            let back = mid.exchanged(j, i);
            law_relayout_moves_only(back, later_screen, later, num, next, second.skip(2 * n));
            assert(swapped(after, j, i) =~= list);
            assert(back.workspaces =~= state.workspaces);
        }
    }
}

/// Giving the keyboard to the next window and then to the one before it gives it
/// back, or the other way round.
pub proof fn law_cycle_back(
    state: StateView,
    mapped: Seq<u64>,
    first: u64,
    second: u64,
    forward: bool,
)
    requires
        mapped.no_duplicates(),
        state.focused(Some(first)) is Some,
        mapped.contains(state.focused(Some(first))->0),
        state.focused(Some(second)) == Some(state.next_focus(forward, mapped, Some(first))),
    ensures
        state.next_focus(!forward, mapped, Some(second)) == state.focused(Some(first))->0,
{
    let w = state.focused(Some(first))->0;
    let v = state.focused(Some(second))->0;
    let n = mapped.len() as int;
    lemma_index(mapped, w);
    let i = index(mapped, w);
    let j = neighbour(i, n, forward);
    assert(mapped[j] == v);
    lemma_index(mapped, v);
    assert(index(mapped, v) == j);
    assert(neighbour(j, n, !forward) == i);
}

/// The place in a ring of `len` after `k` steps forward.
pub open spec fn steps(i: int, len: int, k: nat) -> int
    decreases k,
{
    if k == 0 {
        i
    } else {
        neighbour(steps(i, len, (k - 1) as nat), len, true)
    }
}

/// Going on from window to window reaches every one of them, and comes back after
/// as many steps as there are windows.
pub proof fn law_cycle_reaches_all(i: int, len: int, j: int)
    requires
        0 <= i < len,
        0 <= j < len,
    ensures
        steps(i, len, (if j >= i { j - i } else { j - i + len }) as nat) == j,
        steps(i, len, len as nat) == i,
{
    if j >= i {
        lemma_steps(i, len, (j - i) as nat);
    } else {
        lemma_steps(i, len, (j - i + len) as nat);
    }
    lemma_steps(i, len, len as nat);
}

proof fn lemma_steps(i: int, len: int, k: nat)
    requires
        0 <= i < len,
        k <= len,
    ensures
        steps(i, len, k) == if i + k < len {
            i + k
        } else {
            i + k - len
        },
    decreases k,
{
    if k > 0 {
        lemma_steps(i, len, (k - 1) as nat);
    }
}

/// A window that is dragged keeps its size, and no other floating window moves.
pub proof fn law_drag_keeps_size<N: Numerics>(
    state: StateView,
    num: N,
    next: StateView,
    effects: Seq<Effect>,
    other: u64,
)
    requires
        state.drags(num, next, effects),
    ensures
        state.drag_window matches Some(w) ==> match state.floating.geo(w) {
            Some(geo) => next.floating.geo(w) matches Some(moved) && moved.width == geo.width
                && moved.height == geo.height,
            None => next.floating.geo(w) is None,
        },
        Some(other) != state.drag_window ==> next.floating.geo(other) == state.floating.geo(other),
        next.workspaces == state.workspaces,
        next.trees == state.trees,
{
    if let Some(w) = state.drag_window {
        if let Some(geo) = state.floating.geo(w) {
            let moved = effects[0]->Move_1;
            super::floating::law_set_then_geo(state.floating, w, moved, w);
            super::floating::law_set_then_geo(state.floating, w, moved, other);
        }
    }
}

/// Nothing that was typed outlasts a lock, and an unlock brings back the
/// workspaces as they were, sound if they were.
pub proof fn law_unlock_restores<N: Numerics>(
    state: StateView,
    screen: Screen,
    now: u64,
    num: N,
    next: StateView,
    effects: Seq<Effect>,
)
    requires
        state.secured().unlocks(screen, now, num, next, effects),
    ensures
        state.secured().locked,
        state.secured().password_input.len() == 0,
        !next.locked,
        next.password_input.len() == 0,
        next.password_error is None,
        next.workspaces == state.workspaces,
        next.trees == state.trees,
        next.floating == state.floating,
        next.active == state.active,
        state.sound() ==> state.secured().sound() && next.sound(),
{
    if state.sound() {
        lemma_same_lists_sound(state, state.secured());
        lemma_same_lists_sound(state, state.secured().released());
    }
    let (laid, placed) = choose|laid: Seq<Effect>, placed: StateView|
        #[trigger] state.secured().released().lays_out(screen, now, num, placed, laid)
            && next == (StateView { needs_render: true, ..placed });
    law_relayout_moves_only(state.secured().released(), screen, now, num, placed, laid);
    if state.sound() {
        lemma_same_lists_sound(state, next);
    }
}

/// A new window keeps the state sound: it is the last one of the active workspace,
/// every window is still where it is once, and its leaf is the last one of the tree,
/// which has one leaf more. The window must be on no workspace yet, and not float.
pub proof fn law_open_sound<N: Numerics>(
    state: StateView,
    window: u64,
    surface: u64,
    screen: Screen,
    now: u64,
    num: N,
    next: StateView,
    effects: Seq<Effect>,
)
    requires
        state.sound(),
        forall|a: int|
            0 <= a < state.workspaces.len() ==> !(#[trigger] state.workspaces[a]).contains(window),
        !state.floating.has(window),
        state.opens(window, surface, screen, now, num, next, effects),
    ensures
        next.sound(),
        next.current() == state.current().push(window),
        next.trees[next.active].count() == state.trees[state.active].count() + 1,
        next.tiled_slot(window) == Some(state.trees[state.active].count() as int),
        next.focused(Some(surface)) == Some(window),
{
    let list = state.current();
    let longer = list.push(window);
    let joined = state.joined(window, surface);
    let tiled = state.floating.tiled();
    assert(!state.workspaces[state.active].contains(window));
    assert(state.workspaces[state.active].no_duplicates());
    assert forall|w: u64| #[trigger] longer.contains(w) <==> list.contains(w) || w == window by {
        if list.contains(w) {
            let k = choose|k: int| 0 <= k < list.len() && list[k] == w;
            assert(longer[k] == w);
        }
        if w == window {
            assert(longer[list.len() as int] == w);
        }
        if longer.contains(w) && w != window {
            let k = choose|k: int| 0 <= k < longer.len() && longer[k] == w;
            assert(list[k] == w);
        }
    }
    assert(next.workspaces =~= state.workspaces.update(state.active, longer));
    assert(longer.no_duplicates()) by {
        assert forall|i: int, j: int|
            0 <= i < longer.len() && 0 <= j < longer.len() && i != j implies longer[i]
            != longer[j] by {
            if i < list.len() {
                assert(list.contains(list[i]));
            }
            if j < list.len() {
                assert(list.contains(list[j]));
            }
        }
    }
    assert forall|a: int, b: int, w: u64|
        0 <= a < next.workspaces.len() && 0 <= b < next.workspaces.len() && a != b
            && #[trigger] next.workspaces[a].contains(
            w,
        ) implies !#[trigger] next.workspaces[b].contains(w) by {
        assert(!state.workspaces[a].contains(window));
        assert(!state.workspaces[b].contains(window));
        if w != window {
            assert(state.workspaces[a].contains(w));
            assert(!state.workspaces[b].contains(w));
        }
    }
    assert(next.trees =~= joined.trees);
    assert(longer.filter(tiled) == list.filter(tiled).push(window)) by {
        reveal(Seq::filter);
        assert(longer.drop_last() =~= list);
        assert(tiled(window));
    }
    assert(state.trees[state.active].count() == state.tiled(state.active).len());
    law_insert_adds_one(state.trees[state.active].shape);
    assert forall|n: int| 0 <= n < next.workspaces.len() implies (
    #[trigger] next.trees[n]).count() == next.tiled(n).len() by {
        assert(state.trees[n].count() == state.tiled(n).len());
    }
    let slots = next.tiled(next.active);
    assert(slots[list.filter(tiled).len() as int] == window);
    lemma_filter_once(longer, tiled);
    lemma_index(slots, window);
}

/// Windows that were only ever opened on a workspace lie as the layout arranges them: the
/// tree is then that of so many insertions, one more with the window that opens now, and
/// its tiles are those of the layout, with the split ratio that the layout has.
pub proof fn law_opened_windows_dwindle<N: Numerics>(
    state: StateView,
    n: nat,
    window: u64,
    surface: u64,
    screen: Screen,
    now: u64,
    num: N,
    next: StateView,
    effects: Seq<Effect>,
    tiles: Seq<WindowGeometry<i64>>,
)
    requires
        state.sound(),
        state.trees[state.active].shape == after_inserts(n),
        state.opens(window, surface, screen, now, num, next, effects),
    ensures
        next.trees[next.active].shape == after_inserts(n + 1),
        next.trees[next.active].tiles(next.area(screen), num, rects(tiles)) <==> dwindles(
            n + 1,
            next.area(screen),
            true,
            next.layout.division(),
            num,
            rects(tiles),
        ),
{
    let tree = next.trees[next.active];
    assert(tree == state.trees[state.active].inserted());
    assert(state.trees[state.active].division() == state.layout.division());
    law_inserts_dwindle(n + 1, next.area(screen), tree.division(), num, rects(tiles));
}

/// Closing any window keeps the state sound: the window is on no workspace any more,
/// does not float and does not fill the screen, and its leaf has gone with it.
pub proof fn law_close_sound<N: Numerics>(
    state: StateView,
    surface: u64,
    screen: Screen,
    now: u64,
    num: N,
    next: StateView,
    effects: Seq<Effect>,
)
    requires
        state.sound(),
        state.closes(surface, screen, now, num, next, effects),
    ensures
        next.sound(),
        !next.by_surface.contains_key(surface),
        state.focused(Some(surface)) matches Some(gone) ==> {
            &&& forall|a: int|
                0 <= a < next.workspaces.len() ==> !(#[trigger] next.workspaces[a]).contains(gone)
            &&& !next.floating.has(gone)
            &&& next.fullscreen_window != Some(gone)
        },
{
    if state.by_surface.contains_key(surface) {
        let gone = state.by_surface[surface];
        let other = other_than(gone);
        let bereft = state.bereft(gone, surface);
        assert forall|a: int| 0 <= a < bereft.workspaces.len() implies (
        #[trigger] bereft.workspaces[a]).no_duplicates() && !bereft.workspaces[a].contains(gone)
            && (forall|w: u64| #[trigger]
            bereft.workspaces[a].contains(w) ==> state.workspaces[a].contains(w)) by {
            assert(state.workspaces[a].no_duplicates());
            lemma_filter_once(state.workspaces[a], other);
            lemma_filter_members(state.workspaces[a], other);
        }
        assert forall|a: int, b: int, w: u64|
            0 <= a < bereft.workspaces.len() && 0 <= b < bereft.workspaces.len() && a != b
                && #[trigger] bereft.workspaces[a].contains(
                w,
            ) implies !#[trigger] bereft.workspaces[b].contains(w) by {
            assert(state.workspaces[a].contains(w));
            assert(!state.workspaces[b].contains(w));
        }
        law_stays_distinct(state.floating, gone, arbitrary());
        lemma_removed_has(state.floating, gone, gone);
        assert forall|n: int| 0 <= n < bereft.workspaces.len() implies (
        #[trigger] bereft.trees[n]).count() == bereft.tiled(n).len() by {
            lemma_bereft_tiled(state, gone, surface, n);
        }
        law_relayout_moves_only(bereft, screen, now, num, next, effects.drop_first());
    }
}

/// What is left of the leaves and of the tiled windows when a window has gone.
proof fn lemma_bereft_tiled(state: StateView, gone: u64, surface: u64, n: int)
    requires
        state.sound(),
        0 <= n < NUM_WORKSPACES,
    ensures
        ({
            let bereft = state.bereft(gone, surface);
            &&& bereft.tiled(n) == without(state.tiled(n), gone)
            &&& bereft.trees[n].count() == bereft.tiled(n).len()
        }),
{
    let bereft = state.bereft(gone, surface);
    let list = state.workspaces[n];
    let was = state.floating.tiled();
    let is = bereft.floating.tiled();
    let other = other_than(gone);
    let both = |w: u64| was(w) && other(w);
    assert(state.trees[n].count() == state.tiled(n).len());
    assert forall|w: u64| #[trigger] is(w) <==> was(w) || w == gone by {
        lemma_removed_has(state.floating, gone, w);
    }
    lemma_filter_twice(list, other, is, both);
    lemma_filter_twice(list, was, other, both);
    assert(state.workspaces[n].no_duplicates());
    lemma_filter_once(list, was);
    lemma_without(state.tiled(n), gone);
    lemma_index(state.tiled(n), gone);
    if let Some(slot) = state.slot_on(n, gone) {
        law_remove_takes_one(state.trees[n].shape, slot);
    }
}

/// A frame, a drag, and moving or resizing a floating window keep the state sound.
pub proof fn law_movement_sound<N: Numerics>(
    state: StateView,
    now: u64,
    num: N,
    focus: Option<u64>,
    dx: Double,
    dy: Double,
    next: StateView,
    effects: Seq<Effect>,
)
    requires
        state.sound(),
        ({
            ||| state.ticks(now, num, next, effects)
            ||| state.drags(num, next, effects)
            ||| state.moves_floating(focus, dx, dy, num, next, effects)
            ||| state.resizes_floating(focus, dx, dy, num, next, effects)
        }),
    ensures
        next.sound(),
{
    if state.ticks(now, num, next, effects) {
        lemma_same_lists_sound(state, next);
    } else {
        let window = if state.drags(num, next, effects) {
            state.drag_window
        } else {
            state.focused(focus)
        };
        if next != state {
            let w = window->0;
            let geo = effects[0]->Move_1;
            lemma_placed_sound(state, w, geo, next);
        }
    }
}

proof fn lemma_placed_sound(
    state: StateView,
    window: u64,
    geo: WindowGeometry<Double>,
    next: StateView,
)
    requires
        state.sound(),
        state.floating.has(window),
        next.floating == state.floating.placed(window, geo),
        next.workspaces == state.workspaces,
        next.trees == state.trees,
        next.layout == state.layout,
        next.active == state.active,
        next.fullscreen_asked(),
    ensures
        next.sound(),
{
    law_stays_distinct(state.floating, window, geo);
    let was = state.floating.tiled();
    let is = next.floating.tiled();
    assert forall|w: u64| #[trigger] is(w) == was(w) by {
        lemma_placed_has(state.floating, window, geo, w);
    }
    assert forall|n: int| 0 <= n < next.workspaces.len() implies (
    #[trigger] next.trees[n]).count() == next.tiled(n).len() by {
        assert(state.trees[n].count() == state.tiled(n).len());
        lemma_filter_same(state.workspaces[n], is, was);
    }
}

} // verus!
