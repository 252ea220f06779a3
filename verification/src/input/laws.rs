//! What actions keep.

use super::actions::{spells_delta, Surroundings};
use super::keys::Action;
use crate::compositor::laws::{
    law_movement_sound, law_relayout_moves_only, law_send_sound, law_sound_can_switch,
    law_swap_sound, law_switch_sound,
    law_toggle_floating_sound, law_toggle_fullscreen_sound, lemma_same_lists_sound,
};
use crate::compositor::outcomes::law_relayout_places;
use crate::compositor::screen::Screen;
use crate::compositor::state::{Effect, StateView};
use crate::layout::MAX_TILES;
use crate::numerics::Numerics;
use crate::scalar::Double;
use crate::text::{texts, words};
use vstd::prelude::*;

verus! {

/// Every action keeps the state sound: each window where it is once, a leaf of the
/// layout tree for each tiled window. A window that is made to float or tiled, or sent
/// to another workspace, may be on no workspace but the active one.
pub proof fn law_actions_sound<N: Numerics>(
    state: StateView,
    action: Action,
    around: Surroundings,
    num: N,
    next: StateView,
    effects: Seq<Effect>,
)
    requires
        state.sound(),
        state.executes(action, around, num, next, effects),
        action is ToggleFloating || action is MoveToWorkspace ==> (state.focused(
            around.focus,
        ) matches Some(w) ==> state.nowhere_else(w)),
    ensures
        next.sound(),
{
    let (focus, screen, now) = (around.focus, around.screen, around.now);
    match action {
        Action::SwapNext => {
            law_swap_sound(state, true, focus, screen, now, num, next, effects);
        },
        Action::SwapPrev => {
            law_swap_sound(state, false, focus, screen, now, num, next, effects);
        },
        Action::ToggleFullscreen => {
            law_toggle_fullscreen_sound(state, focus, around.at, screen, now, num, next, effects);
        },
        Action::ToggleFloating => {
            law_toggle_floating_sound(state, focus, screen, now, num, next, effects);
        },
        Action::MoveFloating(dx, dy) => {
            law_movement_sound(state, now, num, focus, dx, dy, next, effects);
        },
        Action::ResizeRatio(text) => {
            let (delta, ratio) = choose|delta: Double, ratio: Double|
                {
                    &&& #[trigger] spells_delta(num, text, delta)
                    &&& #[trigger] call_ensures(
                        N::adjusted,
                        (&num, state.layout.split_ratio, delta),
                        ratio,
                    )
                    &&& state.divided(ratio).lays_out(screen, now, num, next, effects)
                };
            lemma_divided_sound(state, ratio);
            law_relayout_moves_only(state.divided(ratio), screen, now, num, next, effects);
        },
        Action::Workspace(n) => {
            law_switch_sound(state, n as int, around.mapped@, screen, now, num, next, effects);
        },
        Action::MoveToWorkspace(n) => {
            law_send_sound(state, n as int, focus, screen, now, num, next, effects);
        },
        _ => {
            lemma_same_lists_sound(state, next);
        },
    }
}

/// Another split ratio keeps the state sound.
proof fn lemma_divided_sound(state: StateView, ratio: Double)
    requires
        state.sound(),
    ensures
        state.divided(ratio).sound(),
{
    let next = state.divided(ratio);
    assert forall|n: int| 0 <= n < next.workspaces.len() implies (
    #[trigger] next.trees[n]).count() == next.tiled(n).len() by {
        assert(state.trees[n].count() == state.tiled(n).len());
    }
}

/// A change of the split ratio takes effect: the tree of every workspace divides by the
/// ratio that is answered, and so does the layout. No tree gains or loses a leaf.
pub proof fn law_ratio_takes_effect<N: Numerics>(
    state: StateView,
    text: String,
    screen: Screen,
    now: u64,
    num: N,
    next: StateView,
    effects: Seq<Effect>,
)
    requires
        state.resizes_ratio(text, screen, now, num, next, effects),
    ensures
        exists|delta: Double| #[trigger]
            spells_delta(num, text, delta) && call_ensures(
                N::adjusted,
                (&num, state.layout.split_ratio, delta),
                next.layout.split_ratio,
            ),
        next.trees.len() == state.trees.len(),
        forall|n: int|
            0 <= n < next.trees.len() ==> {
                &&& (#[trigger] next.trees[n]).split_ratio == next.layout.split_ratio
                &&& next.trees[n].shape == state.trees[n].shape
            },
{
    let (delta, ratio) = choose|delta: Double, ratio: Double|
        {
            &&& #[trigger] spells_delta(num, text, delta)
            &&& #[trigger] call_ensures(
                N::adjusted,
                (&num, state.layout.split_ratio, delta),
                ratio,
            )
            &&& state.divided(ratio).lays_out(screen, now, num, next, effects)
        };
    law_relayout_moves_only(state.divided(ratio), screen, now, num, next, effects);
    assert(next.layout == state.divided(ratio).layout);
    assert(spells_delta(num, text, delta));
}

/// Every action does what its name says, forwards or backwards, to the workspace with its
/// number, for the window that has the keyboard. A window is asked to close only if it has
/// the keyboard and is on the screen.
pub proof fn law_actions_by_name<N: Numerics>(
    state: StateView,
    action: Action,
    around: Surroundings,
    num: N,
    next: StateView,
    effects: Seq<Effect>,
)
    requires
        state.executes(action, around, num, next, effects),
    ensures
        match action {
            Action::Exec(command) => next == state && (effects.len() == 0 <==> words(
                command@,
            ).len() == 0) && (effects.len() > 0 ==> effects.len() == 1 && (
            effects[0] matches Effect::Spawn(parts) && texts(parts@) == words(command@))),
            Action::CloseWindow => next == state && effects == (if around.focus matches Some(
                surface,
            ) && state.by_surface.contains_key(surface) && around.mapped@.contains(
                state.by_surface[surface],
            ) {
                seq![Effect::Close(state.by_surface[around.focus->0])]
            } else {
                Seq::<Effect>::empty()
            }),
            Action::Quit => next == state && effects == seq![Effect::Quit],
            Action::FocusNext => state.cycles(true, around.mapped@, around.focus, next, effects),
            Action::FocusPrev => state.cycles(false, around.mapped@, around.focus, next, effects),
            Action::SwapNext => state.swaps(
                true,
                around.focus,
                around.screen,
                around.now,
                num,
                next,
                effects,
            ),
            Action::SwapPrev => state.swaps(
                false,
                around.focus,
                around.screen,
                around.now,
                num,
                next,
                effects,
            ),
            Action::ToggleFullscreen => state.toggles_fullscreen(
                around.focus,
                around.at,
                around.screen,
                around.now,
                num,
                next,
                effects,
            ),
            Action::ToggleFloating => state.toggles_floating(
                around.focus,
                around.screen,
                around.now,
                num,
                next,
                effects,
            ),
            Action::MoveFloating(dx, dy) => state.moves_floating(
                around.focus,
                dx,
                dy,
                num,
                next,
                effects,
            ),
            Action::ResizeRatio(text) => state.resizes_ratio(
                text,
                around.screen,
                around.now,
                num,
                next,
                effects,
            ),
            Action::Workspace(n) => state.switches(
                n as int,
                around.mapped@,
                around.screen,
                around.now,
                num,
                next,
                effects,
            ),
            Action::MoveToWorkspace(n) => state.sends(
                n as int,
                around.focus,
                around.screen,
                around.now,
                num,
                next,
                effects,
            ),
            Action::Lock => {
                &&& next.locked
                &&& next.password_input.len() == 0
                &&& next.password_error is None
                &&& next.needs_render
                &&& next == (StateView {
                    locked: true,
                    password_input: next.password_input,
                    password_error: None,
                    needs_render: true,
                    ..state
                })
                &&& effects.len() == around.mapped@.len()
                &&& forall|i: int|
                    0 <= i < effects.len() ==> #[trigger] effects[i] == Effect::Withdraw(
                        around.mapped@[i],
                    )
            },
        },
{
}

/// The split ratio changes by the number that the text spells out, or by 0.05 if it spells
/// out none, within its limits; it is the same for the layout and for every tree. Then the
/// windows of the active workspace are asked for the sizes of their places.
pub proof fn law_ratio_by_text<N: Numerics>(
    state: StateView,
    text: String,
    screen: Screen,
    now: u64,
    num: N,
    next: StateView,
    effects: Seq<Effect>,
) -> (delta: Double)
    requires
        state.resizes_ratio(text, screen, now, num, next, effects),
    ensures
        call_ensures(N::number, (&num, text), Some(delta)) || (call_ensures(
            N::number,
            (&num, text),
            None::<Double>,
        ) && delta.bits == 0x3fa9_9999_9999_999a),
        call_ensures(
            N::adjusted,
            (&num, state.layout.split_ratio, delta),
            next.layout.split_ratio,
        ),
        next.layout.inner_gap == state.layout.inner_gap,
        forall|n: int|
            0 <= n < state.trees.len() ==> {
                &&& (#[trigger] next.trees[n]).split_ratio == next.layout.split_ratio
                &&& next.trees[n].inner_gap == state.trees[n].inner_gap
                &&& next.trees[n].shape == state.trees[n].shape
            },
        next.workspaces == state.workspaces,
        next.active == state.active,
        effects.len() == state.workspaces[state.active].len(),
        forall|i: int|
            0 <= i < effects.len() ==> (#[trigger] effects[i]) is Configure
                && effects[i]->Configure_0 == state.workspaces[state.active][i],
{
    let (delta, ratio) = choose|delta: Double, ratio: Double|
        {
            &&& #[trigger] spells_delta(num, text, delta)
            &&& #[trigger] call_ensures(
                N::adjusted,
                (&num, state.layout.split_ratio, delta),
                ratio,
            )
            &&& state.divided(ratio).lays_out(screen, now, num, next, effects)
        };
    let divided = state.divided(ratio);
    law_relayout_moves_only(divided, screen, now, num, next, effects);
    law_relayout_places(divided, screen, now, num, next, effects);
    assert(next.layout == divided.layout);
    delta
}

/// While the state is sound, every action can be executed as long as no tree is full and
/// one more window can be put on top; actions that lay nothing out always can.
pub proof fn law_sound_can_execute(state: StateView, action: Action)
    ensures
        state.sound() && state.floating.next_z < usize::MAX && (forall|n: int|
            0 <= n < state.trees.len() ==> (#[trigger] state.trees[n]).count() < MAX_TILES)
            ==> state.can_execute(action),
        action is Exec || action is CloseWindow || action is Quit || action is FocusNext
            || action is FocusPrev || action is MoveFloating || action is Lock
            ==> state.can_execute(action),
{
    if state.sound() {
        if let Action::Workspace(n) = action {
            law_sound_can_switch(state, n as int);
        }
    }
}

} // verus!
