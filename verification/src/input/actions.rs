//! What an action does.

use super::keys::Action;
use crate::compositor::screen::Screen;
use crate::compositor::state::{Effect, LingxiState, StateView, NUM_WORKSPACES};
use crate::compositor::windows::OnScreen;
use crate::compositor::workspaces::withdraws;
use crate::layout::tree::TreeView;
use crate::layout::{splits_in_range, DwindleLayout, MAX_TILES};
use crate::numerics::Numerics;
use crate::scalar::Double;
use crate::text::{split_words, texts, words};
use vstd::prelude::*;

verus! {

/// The bits of the change of the split ratio that stands for one that cannot be
/// read: 0.05.
pub const DEFAULT_DELTA: u64 = 0x3fa9_9999_9999_999a;

/// `delta` is the change of the split ratio that a text spells out.
pub open spec fn spells_delta<N: Numerics>(num: N, text: String, delta: Double) -> bool {
    ||| call_ensures(N::number, (&num, text), Some(delta))
    ||| call_ensures(N::number, (&num, text), None::<Double>) && delta == (Double {
        bits: DEFAULT_DELTA,
    })
}

/// `effects` run a command line: its words, unless it has none.
pub open spec fn spawns(command: Seq<char>, effects: Seq<Effect>) -> bool {
    if words(command).len() == 0 {
        effects == Seq::<Effect>::empty()
    } else {
        &&& effects.len() == 1
        &&& effects[0] matches Effect::Spawn(parts) && texts(parts@) == words(command)
    }
}

/// What is known of the screen when an action is executed: the surface that has
/// the keyboard, where its window is, and the windows on the screen.
pub struct Surroundings {
    pub focus: Option<u64>,
    pub at: OnScreen,
    pub mapped: Vec<u64>,
    pub screen: Screen,
    pub now: u64,
}

impl StateView {
    /// The state with another split ratio: the layout has it, and every layout tree.
    pub open spec fn divided(self, ratio: Double) -> StateView {
        StateView {
            layout: DwindleLayout { split_ratio: ratio, ..self.layout },
            trees: self.trees.map_values(|t: TreeView| TreeView { split_ratio: ratio, ..t }),
            ..self
        }
    }

    /// `next` and `effects` are what comes of a change of the split ratio: all splits
    /// get the new ratio, and the windows go to their places.
    pub open spec fn resizes_ratio<N: Numerics>(
        self,
        text: String,
        screen: Screen,
        now: u64,
        num: N,
        next: StateView,
        effects: Seq<Effect>,
    ) -> bool {
        exists|delta: Double, ratio: Double|
            {
                &&& #[trigger] spells_delta(num, text, delta)
                &&& #[trigger] call_ensures(
                    N::adjusted,
                    (&num, self.layout.split_ratio, delta),
                    ratio,
                )
                &&& self.divided(ratio).lays_out(screen, now, num, next, effects)
            }
    }

    /// An action can be executed within the range of what the state can hold. One that
    /// lays windows out needs trees that can be arranged, one that adds a leaf needs room
    /// for it, one that makes a window float needs a place on top of the others, and a
    /// workspace that is gone to has a leaf for each tiled window.
    pub open spec fn can_execute(self, action: Action) -> bool {
        match action {
            Action::SwapNext | Action::SwapPrev | Action::ToggleFullscreen
            | Action::ResizeRatio(_) => self.arrangeable(0),
            Action::ToggleFloating => self.arrangeable(1) && self.floating.has_room(),
            Action::Workspace(n) => self.arrangeable(0) && self.can_switch(n as int),
            Action::MoveToWorkspace(_) => self.arrangeable(1),
            _ => true,
        }
    }

    /// `next` and `effects` are what comes of an action.
    pub open spec fn executes<N: Numerics>(
        self,
        action: Action,
        around: Surroundings,
        num: N,
        next: StateView,
        effects: Seq<Effect>,
    ) -> bool {
        let (focus, at, mapped, screen, now) = (
            around.focus,
            around.at,
            around.mapped@,
            around.screen,
            around.now,
        );
        match action {
            Action::Exec(command) => next == self && spawns(command@, effects),
            Action::CloseWindow => {
                &&& next == self
                &&& effects == (match self.focused(focus) {
                    Some(w) if mapped.contains(w) => seq![Effect::Close(w)],
                    _ => Seq::<Effect>::empty(),
                })
            },
            Action::Quit => next == self && effects == seq![Effect::Quit],
            Action::FocusNext => self.cycles(true, mapped, focus, next, effects),
            Action::FocusPrev => self.cycles(false, mapped, focus, next, effects),
            Action::SwapNext => self.swaps(true, focus, screen, now, num, next, effects),
            Action::SwapPrev => self.swaps(false, focus, screen, now, num, next, effects),
            Action::ToggleFullscreen => self.toggles_fullscreen(
                focus,
                at,
                screen,
                now,
                num,
                next,
                effects,
            ),
            Action::ToggleFloating => self.toggles_floating(
                focus,
                screen,
                now,
                num,
                next,
                effects,
            ),
            Action::MoveFloating(dx, dy) => self.moves_floating(
                focus,
                dx,
                dy,
                num,
                next,
                effects,
            ),
            Action::ResizeRatio(text) => self.resizes_ratio(
                text,
                screen,
                now,
                num,
                next,
                effects,
            ),
            Action::Workspace(n) => self.switches(
                n as int,
                mapped,
                screen,
                now,
                num,
                next,
                effects,
            ),
            Action::MoveToWorkspace(n) => self.sends(
                n as int,
                focus,
                screen,
                now,
                num,
                next,
                effects,
            ),
            Action::Lock => next == self.secured() && effects == withdraws(mapped),
        }
    }
}

/// What a command line runs.
pub fn spawn_command(command: &str) -> (effects: Vec<Effect>)
    ensures
        spawns(command@, effects@),
{
    let parts = split_words(command);
    let mut effects: Vec<Effect> = Vec::new();
    assert(parts@.len() == texts(parts@).len());
    if parts.len() == 0 {
        return effects;
    }
    effects.push(Effect::Spawn(parts));
    effects
}

/// The directory of the session's sockets that a started program is told of.
pub fn runtime_dir(variable: Option<String>) -> (r: String)
    ensures
        r@ == (match variable {
            Some(text) => text@,
            None => "/run/user/1000"@,
        }),
{
    match variable {
        Some(text) => text,
        None => "/run/user/1000".to_owned(),
    }
}

/// The name of the display that a started program is told of.
pub fn display_name(variable: Option<String>) -> (r: String)
    ensures
        r@ == (match variable {
            Some(text) => text@,
            None => "wayland-0"@,
        }),
{
    match variable {
        Some(text) => text,
        None => "wayland-0".to_owned(),
    }
}

impl LingxiState {
    fn resize_ratio<N: Numerics>(
        &mut self,
        text: String,
        screen: &Screen,
        now: u64,
        num: &N,
    ) -> (effects: Vec<Effect>)
        requires
            old(self).wf(),
            old(self)@.arrangeable(0),
            splits_in_range(*num),
        ensures
            final(self).wf(),
            old(self)@.resizes_ratio(text, *screen, now, *num, final(self)@, effects@),
    {
        let ghost before = self@;
        let delta = match num.number(text) {
            Some(delta) => delta,
            None => Double { bits: DEFAULT_DELTA },
        };
        let ratio = num.adjusted(self.layout.split_ratio, delta);
        self.layout.split_ratio = ratio;
        let mut i: usize = 0;
        while i < NUM_WORKSPACES
            invariant
                0 <= i <= NUM_WORKSPACES,
                self.wf(),
                before.trees.len() == NUM_WORKSPACES,
                self@ == (StateView {
                    layout: before.divided(ratio).layout,
                    trees: self@.trees,
                    ..before
                }),
                forall|k: int|
                    0 <= k < i ==> #[trigger] self@.trees[k] == before.divided(ratio).trees[k],
                forall|k: int|
                    i <= k < NUM_WORKSPACES ==> #[trigger] self@.trees[k] == before.trees[k],
            decreases NUM_WORKSPACES - i,
        {
            let ghost earlier = self@.trees;
            assert(earlier[i as int] == self.layout_trees@[i as int]@);
            self.layout_trees[i].set_split_ratio(ratio);
            assert(self@.trees =~= earlier.update(
                i as int,
                before.divided(ratio).trees[i as int],
            ));
            i = i + 1;
        }
        proof {
            assert(spells_delta(*num, text, delta));
            assert(call_ensures(N::adjusted, (num, before.layout.split_ratio, delta), ratio));
            assert(self@.trees =~= before.divided(ratio).trees);
            assert(self@ =~= before.divided(ratio));
            assert forall|k: int| 0 <= k < self@.trees.len() implies (
            #[trigger] self@.trees[k]).count() <= MAX_TILES by {
                assert(before.trees[k].count() <= MAX_TILES);
            }
        }
        self.relayout(screen, now, num)
    }

    /// Whether an action can be executed.
    pub fn can_execute(&self, action: &Action) -> (r: bool)
        requires
            self.wf(),
        ensures
            r == self@.can_execute(*action),
    {
        match action {
            Action::SwapNext | Action::SwapPrev | Action::ToggleFullscreen
            | Action::ResizeRatio(_) => self.has_room(0),
            Action::ToggleFloating => self.has_room(1) && self.floating.has_room(),
            Action::Workspace(n) => self.has_room(0) && self.can_switch(*n),
            Action::MoveToWorkspace(_) => self.has_room(1),
            _ => true,
        }
    }

    /// Executes an action.
    pub fn execute_action<N: Numerics>(
        &mut self,
        action: Action,
        around: &Surroundings,
        num: &N,
    ) -> (effects: Vec<Effect>)
        requires
            old(self).wf(),
            old(self)@.can_execute(action),
            splits_in_range(*num),
        ensures
            final(self).wf(),
            old(self)@.executes(action, *around, *num, final(self)@, effects@),
    {
        match action {
            Action::Exec(command) => spawn_command(command.as_str()),
            Action::CloseWindow => self.close_focused_window(&around.mapped, around.focus),
            Action::Quit => {
                let mut effects: Vec<Effect> = Vec::new();
                effects.push(Effect::Quit);
                effects
            },
            Action::FocusNext => self.cycle_focus(true, &around.mapped, around.focus),
            Action::FocusPrev => self.cycle_focus(false, &around.mapped, around.focus),
            Action::SwapNext => self.swap_focused(
                true,
                around.focus,
                &around.screen,
                around.now,
                num,
            ),
            Action::SwapPrev => self.swap_focused(
                false,
                around.focus,
                &around.screen,
                around.now,
                num,
            ),
            Action::ToggleFullscreen => self.toggle_fullscreen(
                around.focus,
                around.at,
                &around.screen,
                around.now,
                num,
            ),
            Action::ToggleFloating => self.toggle_floating(
                around.focus,
                &around.screen,
                around.now,
                num,
            ),
            Action::MoveFloating(dx, dy) => self.move_floating_focused(around.focus, dx, dy, num),
            Action::ResizeRatio(text) => self.resize_ratio(
                text,
                &around.screen,
                around.now,
                num,
            ),
            Action::Workspace(n) => self.switch_workspace(
                n,
                &around.mapped,
                &around.screen,
                around.now,
                num,
            ),
            Action::MoveToWorkspace(n) => self.move_to_workspace(
                n,
                around.focus,
                &around.screen,
                around.now,
                num,
            ),
            Action::Lock => self.lock_screen(&around.mapped),
        }
    }
}

} // verus!
