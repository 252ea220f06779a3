//! Workspaces, and the order of the windows on them.

use super::screen::Screen;
use super::state::{realizes, rect_of, Effect, LingxiState, Placement, StateView,
    NUM_WORKSPACES};
use super::window::{AnimatedRect, AnimationsView};
use crate::layout::laws::{law_insert_adds_one, law_remove_takes_one};
use crate::layout::{rects, splits_in_range, WindowGeometry, MAX_TILES};
use crate::lists::{copied, holds, index, lemma_index, others, position, without};
use crate::numerics::Numerics;
use vstd::prelude::*;

verus! {

/// The orders to take windows off the screen.
pub open spec fn withdraws(windows: Seq<u64>) -> Seq<Effect> {
    windows.map_values(|w: u64| Effect::Withdraw(w))
}

/// The orders to put windows on the screen, at the origin.
pub open spec fn shows(windows: Seq<u64>, activate: bool) -> Seq<Effect> {
    windows.map_values(|w: u64| Effect::Show { window: w, x: 0, y: 0, activate })
}

/// The place next to number `i` in a ring of `len`.
pub open spec fn neighbour(i: int, len: int, forward: bool) -> int {
    if forward {
        if i + 1 == len {
            0
        } else {
            i + 1
        }
    } else if i == 0 {
        len - 1
    } else {
        i - 1
    }
}

/// A list with two entries swapped.
pub open spec fn swapped(list: Seq<u64>, i: int, j: int) -> Seq<u64> {
    list.update(i, list[j]).update(j, list[i])
}

impl AnimationsView {
    /// `next` has a window flying in to its place, from about the middle of an
    /// output of the given size.
    pub open spec fn enters<N: Numerics>(
        self,
        window: u64,
        place: Placement,
        output: (i32, i32),
        now: u64,
        num: N,
        next: AnimationsView,
    ) -> bool {
        exists|goal: AnimatedRect, initial: AnimatedRect|
            {
                &&& #[trigger] realizes(num, place, goal)
                &&& #[trigger] call_ensures(N::entry, (&num, goal, output), initial)
                &&& self.adds(window, goal, initial, now, num, next)
            }
    }

    /// `next` has several windows flying in to the tiles with the same numbers,
    /// one after the other.
    pub open spec fn enters_all<N: Numerics>(
        self,
        windows: Seq<u64>,
        tiles: Seq<WindowGeometry<i64>>,
        output: (i32, i32),
        now: u64,
        num: N,
        next: AnimationsView,
    ) -> bool
        decreases windows.len(),
    {
        if windows.len() == 0 {
            next == self
        } else {
            exists|mid: AnimationsView|
                {
                    &&& self.enters_all(windows.drop_last(), tiles, output, now, num, mid)
                    &&& #[trigger] mid.enters(
                        windows.last(),
                        Placement::Tile(tiles[windows.len() - 1]),
                        output,
                        now,
                        num,
                        next,
                    )
                }
        }
    }
}

impl StateView {
    /// The tree of a workspace has a leaf for each of its tiled windows, so that they
    /// can fly in. A sound state has that of every workspace.
    pub open spec fn can_switch(self, target: int) -> bool {
        0 <= target < self.workspaces.len() && target != self.active ==> self.tiled(target).len()
            <= self.trees[target].count()
    }

    /// `next` and `effects` are what comes of going to another workspace: the
    /// windows on the screen are taken off it, those of the workspace are put on,
    /// the tiled ones fly in to their tiles and the first one gets the keyboard.
    pub open spec fn switches<N: Numerics>(
        self,
        target: int,
        mapped: Seq<u64>,
        screen: Screen,
        now: u64,
        num: N,
        next: StateView,
        effects: Seq<Effect>,
    ) -> bool {
        let windows = self.workspaces[target];
        let rest = self.animations.without_all(mapped);
        if target >= self.workspaces.len() || target == self.active {
            next == self && effects == Seq::<Effect>::empty()
        } else {
            &&& next == (StateView {
                active: target,
                needs_render: true,
                animations: next.animations,
                ..self
            })
            &&& if windows.len() == 0 {
                &&& next.animations == rest
                &&& effects == withdraws(mapped)
            } else {
                &&& effects == withdraws(mapped) + shows(windows, false)
                    + seq![Effect::Focus(Some(windows[0]))]
                &&& exists|tiles: Seq<WindowGeometry<i64>>|
                    {
                        &&& #[trigger] self.trees[target].tiles(
                            self.area(screen),
                            num,
                            rects(tiles),
                        )
                        &&& rest.enters_all(
                            self.tiled(target),
                            tiles,
                            screen.entry_size(),
                            now,
                            num,
                            next.animations,
                        )
                    }
            }
        }
    }

    /// The state once a window has gone from the active workspace to the end of
    /// another, together with its leaf unless it floats.
    pub open spec fn sent(self, window: u64, target: int) -> StateView {
        let gone = self.workspaces.update(self.active, without(self.current(), window));
        let pruned = match self.tiled_slot(window) {
            Some(slot) => self.trees.update(self.active, self.trees[self.active].removed(slot)),
            None => self.trees,
        };
        StateView {
            workspaces: gone.update(target, gone[target].push(window)),
            trees: if self.floating.has(window) {
                self.trees
            } else {
                pruned.update(target, pruned[target].inserted())
            },
            ..self
        }
    }

    /// `next` and `effects` are what comes of sending the window that has the
    /// keyboard to a workspace. If that is the active one, the window only goes to
    /// its end.
    pub open spec fn sends<N: Numerics>(
        self,
        target: int,
        focus: Option<u64>,
        screen: Screen,
        now: u64,
        num: N,
        next: StateView,
        effects: Seq<Effect>,
    ) -> bool {
        if target >= self.workspaces.len() {
            next == self && effects == Seq::<Effect>::empty()
        } else {
            match self.focused(focus) {
                None => next == self && effects == Seq::<Effect>::empty(),
                Some(w) => if target == self.active {
                    next == self.sent(w, target) && effects == Seq::<Effect>::empty()
                } else {
                    let sent = self.sent(w, target);
                    let mid = StateView { animations: sent.animations.without(w), ..sent };
                    &&& effects.len() > 0
                    &&& effects[0] == Effect::Withdraw(w)
                    &&& mid.lays_out(screen, now, num, next, effects.drop_first())
                },
            }
        }
    }

    /// The state once two windows of the active workspace have changed places.
    pub open spec fn exchanged(self, i: int, j: int) -> StateView {
        StateView {
            workspaces: self.workspaces.update(self.active, swapped(self.current(), i, j)),
            ..self
        }
    }

    /// The number of the window that has the keyboard in a list of windows.
    pub open spec fn focus_index(self, focus: Option<u64>, list: Seq<u64>) -> Option<int> {
        match self.focused(focus) {
            Some(w) => if list.contains(w) {
                Some(index(list, w))
            } else {
                None
            },
            None => None,
        }
    }

    /// `next` and `effects` are what comes of swapping the window that has the
    /// keyboard with the one next to it.
    pub open spec fn swaps<N: Numerics>(
        self,
        forward: bool,
        focus: Option<u64>,
        screen: Screen,
        now: u64,
        num: N,
        next: StateView,
        effects: Seq<Effect>,
    ) -> bool {
        let list = self.current();
        let n = list.len() as int;
        match self.focus_index(focus, list) {
            Some(i) if n >= 2 => {
                let mid = self.exchanged(i, neighbour(i, n, forward));
                &&& effects.len() >= 2 * n
                &&& effects.take(2 * n) == withdraws(mid.current()) + shows(mid.current(), false)
                &&& mid.lays_out(screen, now, num, next, effects.skip(2 * n))
            },
            _ => next == self && effects == Seq::<Effect>::empty(),
        }
    }

    /// The window that gets the keyboard after the one that has it. Without one
    /// that has it, the first window counts as the one.
    pub open spec fn next_focus(self, forward: bool, mapped: Seq<u64>, focus: Option<u64>) -> u64 {
        let i = match self.focus_index(focus, mapped) {
            Some(i) => i,
            None => 0,
        };
        mapped[neighbour(i, mapped.len() as int, forward)]
    }

    /// `next` and `effects` are what comes of giving the keyboard to the window
    /// before or after the one that has it.
    pub open spec fn cycles(
        self,
        forward: bool,
        mapped: Seq<u64>,
        focus: Option<u64>,
        next: StateView,
        effects: Seq<Effect>,
    ) -> bool {
        if mapped.len() == 0 {
            next == self && effects == Seq::<Effect>::empty()
        } else {
            &&& next == (StateView { needs_render: true, ..self })
            &&& effects == seq![Effect::Focus(Some(self.next_focus(forward, mapped, focus)))]
        }
    }
}

pub(super) fn push_withdraws(effects: &mut Vec<Effect>, windows: &Vec<u64>)
    ensures
        final(effects)@ == old(effects)@ + withdraws(windows@),
{
    let mut i: usize = 0;
    assert(old(effects)@ + withdraws(windows@.take(0)) =~= old(effects)@);
    while i < windows.len()
        invariant
            0 <= i <= windows.len(),
            effects@ == old(effects)@ + withdraws(windows@.take(i as int)),
        decreases windows.len() - i,
    {
        effects.push(Effect::Withdraw(windows[i]));
        assert(withdraws(windows@.take(i + 1)) =~= withdraws(windows@.take(i as int)).push(
            Effect::Withdraw(windows@[i as int]),
        ));
        i = i + 1;
    }
    assert(windows@.take(i as int) =~= windows@);
}

pub(super) fn push_shows(effects: &mut Vec<Effect>, windows: &Vec<u64>, activate: bool)
    ensures
        final(effects)@ == old(effects)@ + shows(windows@, activate),
{
    let mut i: usize = 0;
    assert(old(effects)@ + shows(windows@.take(0), activate) =~= old(effects)@);
    while i < windows.len()
        invariant
            0 <= i <= windows.len(),
            effects@ == old(effects)@ + shows(windows@.take(i as int), activate),
        decreases windows.len() - i,
    {
        effects.push(Effect::Show { window: windows[i], x: 0, y: 0, activate });
        assert(shows(windows@.take(i + 1), activate) =~= shows(
            windows@.take(i as int),
            activate,
        ).push(Effect::Show { window: windows@[i as int], x: 0, y: 0, activate }));
        i = i + 1;
    }
    assert(windows@.take(i as int) =~= windows@);
}

fn ring_step(i: usize, len: usize, forward: bool) -> (r: usize)
    requires
        i < len,
    ensures
        r == neighbour(i as int, len as int, forward),
        r < len,
{
    if forward {
        if i + 1 == len {
            0
        } else {
            i + 1
        }
    } else if i == 0 {
        len - 1
    } else {
        i - 1
    }
}

impl LingxiState {
    fn forget_animations(&mut self, windows: &Vec<u64>)
        ensures
            final(self)@ == (StateView {
                animations: old(self)@.animations.without_all(windows@),
                ..old(self)@
            }),
            old(self).wf() ==> final(self).wf(),
    {
        let mut i: usize = 0;
        assert(windows@.take(0).len() == 0);
        while i < windows.len()
            invariant
                0 <= i <= windows.len(),
                self@ == (StateView {
                    animations: old(self)@.animations.without_all(windows@.take(i as int)),
                    ..old(self)@
                }),
                old(self).wf() ==> self.wf(),
            decreases windows.len() - i,
        {
            self.animations.remove_window(windows[i]);
            proof {
                let more = windows@.take(i + 1);
                assert(more.drop_last() =~= windows@.take(i as int));
                assert(more.last() == windows@[i as int]);
            }
            i = i + 1;
        }
        assert(windows@.take(i as int) =~= windows@);
    }

    /// Sends a window flying in to its place.
    pub(super) fn enter_window<N: Numerics>(
        &mut self,
        window: u64,
        place: Placement,
        output: (i32, i32),
        now: u64,
        num: &N,
    )
        ensures
            old(self)@.animations.enters(
                window,
                place,
                output,
                now,
                *num,
                final(self)@.animations,
            ),
            final(self)@ == (StateView { animations: final(self)@.animations, ..old(self)@ }),
            old(self).wf() ==> final(self).wf(),
    {
        let goal = rect_of(place, num);
        let initial = num.entry(goal, output);
        self.animations.add_window(window, goal, initial, now, num);
        assert(realizes(*num, place, goal));
        assert(call_ensures(N::entry, (num, goal, output), initial));
    }

    /// Whether the tree of a workspace has a leaf for each of its tiled windows.
    pub fn can_switch(&self, target: usize) -> (r: bool)
        requires
            self.wf(),
        ensures
            r == self@.can_switch(target as int),
    {
        if target >= NUM_WORKSPACES || target == self.active_workspace {
            return true;
        }
        assert(self@.trees[target as int] == self.layout_trees@[target as int]@);
        self.tiled_windows(target).len() <= self.layout_trees[target].len()
    }

    /// Goes to another workspace. `mapped` are the windows on the screen.
    pub fn switch_workspace<N: Numerics>(
        &mut self,
        target: usize,
        mapped: &Vec<u64>,
        screen: &Screen,
        now: u64,
        num: &N,
    ) -> (effects: Vec<Effect>)
        requires
            old(self).wf(),
            old(self)@.arrangeable(0),
            splits_in_range(*num),
            old(self)@.can_switch(target as int),
        ensures
            final(self).wf(),
            old(self)@.switches(
                target as int,
                mapped@,
                *screen,
                now,
                *num,
                final(self)@,
                effects@,
            ),
    {
        let mut effects: Vec<Effect> = Vec::new();
        if target >= self.workspaces.len() || target == self.active_workspace {
            return effects;
        }
        let ghost before = self@;
        self.needs_render = true;
        self.forget_animations(mapped);
        push_withdraws(&mut effects, mapped);
        self.active_workspace = target;
        let windows = copied(&self.workspaces[target]);
        assert(windows@ == before.workspaces[target as int]);
        assert(effects@ =~= withdraws(mapped@));
        if windows.len() == 0 {
            return effects;
        }
        push_shows(&mut effects, &windows, false);
        let area = self.usable_area(screen);
        assert(before.trees[target as int].count() <= MAX_TILES);
        assert(self@.trees =~= before.trees);
        assert(self.layout_trees@[target as int]@ == self@.trees[target as int]);
        let tiles = self.layout_trees[target].arrange(area, num);
        let tiled = self.tiled_windows(target);
        assert(tiled@ == before.tiled(target as int));
        let output = screen.entry_output();
        let ghost rest = self@;
        let mut i: usize = 0;
        assert(tiled@.take(0).len() == 0);
        while i < tiled.len()
            invariant
                0 <= i <= tiled.len(),
                tiled@.len() <= tiles@.len(),
                output == screen.entry_size(),
                self.wf(),
                self@ == (StateView { animations: self@.animations, ..rest }),
                rest.animations.enters_all(
                    tiled@.take(i as int),
                    tiles@,
                    output,
                    now,
                    *num,
                    self@.animations,
                ),
            decreases tiled.len() - i,
        {
            let ghost mid = self@.animations;
            self.enter_window(tiled[i], Placement::Tile(tiles[i]), output, now, num);
            proof {
                let more = tiled@.take(i + 1);
                assert(more.drop_last() =~= tiled@.take(i as int));
                assert(more.last() == tiled@[i as int]);
                assert(mid.enters(
                    more.last(),
                    Placement::Tile(tiles@[more.len() - 1]),
                    output,
                    now,
                    *num,
                    self@.animations,
                ));
            }
            i = i + 1;
        }
        assert(tiled@.take(i as int) =~= tiled@);
        effects.push(Effect::Focus(Some(windows[0])));
        proof {
            assert(before.trees[target as int].tiles(before.area(*screen), *num, rects(tiles@)));
            assert(effects@ =~= withdraws(mapped@) + shows(windows@, false)
                + seq![Effect::Focus(Some(windows@[0]))]);
        }
        effects
    }

    /// Sends the window that has the keyboard to a workspace.
    pub fn move_to_workspace<N: Numerics>(
        &mut self,
        target: usize,
        focus: Option<u64>,
        screen: &Screen,
        now: u64,
        num: &N,
    ) -> (effects: Vec<Effect>)
        requires
            old(self).wf(),
            old(self)@.arrangeable(1),
            splits_in_range(*num),
        ensures
            final(self).wf(),
            old(self)@.sends(target as int, focus, *screen, now, *num, final(self)@, effects@),
    {
        let mut effects: Vec<Effect> = Vec::new();
        if target >= self.workspaces.len() {
            return effects;
        }
        let window: u64 = match self.focused_window(focus) {
            Some(window) => window,
            None => {
                return effects;
            },
        };
        let ghost before = self@;
        let current: usize = self.active_workspace;
        let was_floating: bool = self.floating.contains(window);
        proof {
            assert(before.trees[current as int].count() + 1 <= MAX_TILES);
            assert(before.trees[target as int].count() + 1 <= MAX_TILES);
        }
        if !was_floating {
            if let Some(slot) = self.tiled_slot_of(window) {
                self.layout_trees[current].remove(slot);
                proof {
                    law_remove_takes_one(before.trees[current as int].shape, slot as int);
                }
            }
        }
        let ghost pruned = self@.trees;
        let list: Vec<u64> = others(&self.workspaces[current], window);
        self.workspaces[current] = list;
        let ghost gone = self@.workspaces;
        assert(gone =~= before.workspaces.update(
            before.active,
            without(before.current(), window),
        ));
        let mut list: Vec<u64> = copied(&self.workspaces[target]);
        list.push(window);
        self.workspaces[target] = list;
        assert(self@.workspaces =~= gone.update(target as int, gone[target as int].push(window)));
        if !was_floating {
            self.layout_trees[target].insert();
            proof {
                law_insert_adds_one(pruned[target as int].shape);
                assert(self@.trees =~= pruned.update(
                    target as int,
                    pruned[target as int].inserted(),
                ));
            }
        }
        proof {
            assert(self@ =~= before.sent(window, target as int));
            assert(self@.arrangeable(0));
        }
        if target != current {
            self.animations.remove_window(window);
            effects.push(Effect::Withdraw(window));
            assert(self@.trees =~= before.sent(window, target as int).trees);
            let mut more = self.relayout(screen, now, num);
            let ghost laid = more@;
            effects.append(&mut more);
            assert(effects@.drop_first() =~= laid);
        }
        effects
    }

    fn focus_position(&self, focus: Option<u64>, list: &Vec<u64>) -> (r: Option<usize>)
        ensures
            match r {
                Some(i) => self@.focus_index(focus, list@) == Some(i as int) && i < list.len(),
                None => self@.focus_index(focus, list@) is None,
            },
    {
        match self.focused_window(focus) {
            Some(window) => {
                proof {
                    lemma_index(list@, window);
                }
                position(list, window)
            },
            None => None,
        }
    }

    /// Swaps the window that has the keyboard with the one next to it on the
    /// active workspace.
    pub fn swap_focused<N: Numerics>(
        &mut self,
        forward: bool,
        focus: Option<u64>,
        screen: &Screen,
        now: u64,
        num: &N,
    ) -> (effects: Vec<Effect>)
        requires
            old(self).wf(),
            old(self)@.arrangeable(0),
            splits_in_range(*num),
        ensures
            final(self).wf(),
            old(self)@.swaps(forward, focus, *screen, now, *num, final(self)@, effects@),
    {
        let mut effects: Vec<Effect> = Vec::new();
        let active: usize = self.active_workspace;
        let ghost before = self@;
        assert(self.workspaces@[active as int]@ == before.current());
        let len: usize = self.workspaces[active].len();
        if len < 2 {
            return effects;
        }
        let i: usize = match self.focus_position(focus, &self.workspaces[active]) {
            Some(i) => i,
            None => {
                return effects;
            },
        };
        let j: usize = ring_step(i, len, forward);
        let mut list: Vec<u64> = copied(&self.workspaces[active]);
        let (a, b): (u64, u64) = (list[i], list[j]);
        list.set(i, b);
        list.set(j, a);
        assert(list@ =~= swapped(before.current(), i as int, j as int));
        push_withdraws(&mut effects, &list);
        push_shows(&mut effects, &list, false);
        self.workspaces[active] = list;
        assert(self@ =~= before.exchanged(i as int, j as int));
        let ghost orders = effects@;
        let mut more = self.relayout(screen, now, num);
        let ghost laid = more@;
        effects.append(&mut more);
        proof {
            let n = len as int;
            assert(orders.len() == 2 * n);
            assert(effects@.take(2 * n) =~= orders);
            assert(effects@.skip(2 * n) =~= laid);
        }
        effects
    }

    /// Gives the keyboard to the window before or after the one that has it, in
    /// the order of the windows on the screen.
    pub fn cycle_focus(&mut self, forward: bool, mapped: &Vec<u64>, focus: Option<u64>) -> (effects:
        Vec<Effect>)
        requires
            old(self).wf(),
        ensures
            final(self).wf(),
            old(self)@.cycles(forward, mapped@, focus, final(self)@, effects@),
    {
        let mut effects: Vec<Effect> = Vec::new();
        if mapped.len() == 0 {
            return effects;
        }
        let i: usize = match self.focus_position(focus, mapped) {
            Some(i) => i,
            None => 0,
        };
        let j: usize = ring_step(i, mapped.len(), forward);
        effects.push(Effect::Focus(Some(mapped[j])));
        self.needs_render = true;
        effects
    }

    /// Asks the client of the window that has the keyboard to close it, if the
    /// window is on the screen.
    pub fn close_focused_window(&self, mapped: &Vec<u64>, focus: Option<u64>) -> (effects: Vec<
        Effect,
    >)
        ensures
            effects@ == (match self@.focused(focus) {
                Some(w) if mapped@.contains(w) => seq![Effect::Close(w)],
                _ => Seq::<Effect>::empty(),
            }),
    {
        let mut effects: Vec<Effect> = Vec::new();
        if let Some(window) = self.focused_window(focus) {
            if holds(mapped, window) {
                effects.push(Effect::Close(window));
            }
        }
        effects
    }
}

} // verus!
