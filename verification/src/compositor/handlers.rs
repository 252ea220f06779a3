//! What the requests of clients do to the state.

use super::screen::Screen;
use super::state::{Effect, FullscreenPhase, LingxiState, Placement, StateView, NUM_WORKSPACES};
use super::window::AnimationsView;
use super::windows::OnScreen;
use super::workspaces::{push_shows, push_withdraws, shows, withdraws};
use crate::layout::laws::{law_insert_adds_one, law_remove_takes_one};
use crate::layout::tree::TreeView;
use crate::layout::{rects, splits_in_range, WindowGeometry, MAX_TILES};
use crate::lists::{copied, lemma_index, others, without};
use crate::numerics::Numerics;
use vstd::prelude::*;

verus! {

impl StateView {
    /// The first window of the active workspace.
    pub open spec fn first_window(self) -> Option<u64> {
        if self.current().len() > 0 {
            Some(self.current()[0])
        } else {
            None
        }
    }

    /// The phase of full screen after a surface has been committed: the commit of
    /// the window that is to fill the screen is the answer to the request.
    pub open spec fn phase_after_commit(self, surface: u64) -> FullscreenPhase {
        let window = self.focused(Some(surface));
        if window is Some && window == self.fullscreen_window && self.fs_phase is Pending {
            FullscreenPhase::Active
        } else {
            self.fs_phase
        }
    }

    /// The state with a new window at the end of the active workspace, and with its
    /// leaf at the end of the tree.
    pub open spec fn joined(self, window: u64, surface: u64) -> StateView {
        StateView {
            workspaces: self.workspaces.update(self.active, self.current().push(window)),
            trees: self.trees.update(self.active, self.trees[self.active].inserted()),
            by_surface: self.by_surface.insert(surface, window),
            ..self
        }
    }

    /// `next` and `effects` are what comes of a new window: it joins the active
    /// workspace and its tree, it is put on the screen in the middle and flies in to
    /// its place, all windows of the workspace go to their places, and the new one
    /// gets the keyboard.
    pub open spec fn opens<N: Numerics>(
        self,
        window: u64,
        surface: u64,
        screen: Screen,
        now: u64,
        num: N,
        next: StateView,
        effects: Seq<Effect>,
    ) -> bool {
        let joined = self.joined(window, surface);
        exists|tiles: Seq<WindowGeometry<i64>>, entered: AnimationsView, laid: Seq<Effect>|
            {
                &&& #[trigger] joined.trees[joined.active].tiles(
                    joined.area(screen),
                    num,
                    rects(tiles),
                )
                &&& #[trigger] joined.animations.enters(
                    window,
                    joined.target(screen, tiles, self.current().len() as int),
                    screen.entry_size(),
                    now,
                    num,
                    entered,
                )
                &&& #[trigger] (StateView { animations: entered, ..joined }).moves_to(
                    screen,
                    tiles,
                    now,
                    num,
                    next,
                    laid,
                )
                &&& effects == seq![
                    Effect::Show {
                        window,
                        x: screen.middle().0,
                        y: screen.middle().1,
                        activate: true,
                    },
                ] + laid + seq![Effect::Focus(Some(window))]
            }
    }

    /// The trees without the leaf of a window, on every workspace where it is tiled.
    pub open spec fn trees_without(self, window: u64) -> Seq<TreeView> {
        Seq::new(
            self.trees.len(),
            |n: int|
                match self.slot_on(n, window) {
                    Some(slot) => self.trees[n].removed(slot),
                    None => self.trees[n],
                },
        )
    }

    /// The state without a window and its surface.
    pub open spec fn bereft(self, window: u64, surface: u64) -> StateView {
        StateView {
            by_surface: self.by_surface.remove(surface),
            workspaces: self.workspaces.map_values(|list: Seq<u64>| without(list, window)),
            trees: self.trees_without(window),
            fullscreen_window: if self.fullscreen_window == Some(window) {
                None
            } else {
                self.fullscreen_window
            },
            fs_phase: if self.fullscreen_window == Some(window) {
                FullscreenPhase::Off
            } else {
                self.fs_phase
            },
            floating: self.floating.removed(window),
            animations: self.animations.without(window),
            ..self
        }
    }

    /// `next` and `effects` are what comes of the end of a top-level surface.
    pub open spec fn closes<N: Numerics>(
        self,
        surface: u64,
        screen: Screen,
        now: u64,
        num: N,
        next: StateView,
        effects: Seq<Effect>,
    ) -> bool {
        if self.by_surface.contains_key(surface) {
            let window = self.by_surface[surface];
            &&& effects.len() > 0
            &&& effects[0] == Effect::Withdraw(window)
            &&& self.bereft(window, surface).lays_out(
                screen,
                now,
                num,
                next,
                effects.drop_first(),
            )
        } else {
            next == self && effects == Seq::<Effect>::empty()
        }
    }

    /// The locked state, with nothing typed yet.
    pub open spec fn secured(self) -> StateView {
        StateView {
            locked: true,
            password_input: Seq::empty(),
            password_error: None,
            needs_render: true,
            ..self
        }
    }

    /// The unlocked state, with nothing left of what was typed.
    pub open spec fn released(self) -> StateView {
        StateView {
            locked: false,
            password_input: Seq::empty(),
            password_error: None,
            ..self
        }
    }

    /// `next` and `effects` are what comes of unlocking: the windows of the active
    /// workspace are put back on the screen and sent to their places, and the first
    /// of them gets the keyboard.
    pub open spec fn unlocks<N: Numerics>(
        self,
        screen: Screen,
        now: u64,
        num: N,
        next: StateView,
        effects: Seq<Effect>,
    ) -> bool {
        exists|laid: Seq<Effect>, placed: StateView|
            {
                &&& #[trigger] self.released().lays_out(screen, now, num, placed, laid)
                &&& next == (StateView { needs_render: true, ..placed })
                &&& effects == shows(self.current(), true) + laid
                    + seq![Effect::Focus(self.first_window())]
            }
    }
}

/// A tree without a leaf is no larger than it was.
proof fn lemma_trees_without(state: StateView, window: u64)
    requires
        state.arrangeable(0),
    ensures
        forall|n: int|
            0 <= n < state.trees.len() ==> (#[trigger] state.trees_without(window)[n]).count()
                <= MAX_TILES,
{
    assert forall|n: int| 0 <= n < state.trees.len() implies (
    #[trigger] state.trees_without(window)[n]).count() <= MAX_TILES by {
        assert(state.trees[n].count() <= MAX_TILES);
        lemma_index(state.tiled(n), window);
        if let Some(slot) = state.slot_on(n, window) {
            law_remove_takes_one(state.trees[n].shape, slot);
        }
    }
}

impl LingxiState {
    /// A surface has been committed. If it asks for the keyboard for itself alone,
    /// it gets it.
    pub fn commit(&mut self, surface: u64, exclusive: bool) -> (effects: Vec<Effect>)
        requires
            old(self).wf(),
        ensures
            final(self).wf(),
            final(self)@ == (StateView {
                fs_phase: old(self)@.phase_after_commit(surface),
                needs_render: true,
                ..old(self)@
            }),
            effects@ == (if exclusive {
                seq![Effect::FocusSurface(surface)]
            } else {
                Seq::<Effect>::empty()
            }),
    {
        let mut effects: Vec<Effect> = Vec::new();
        if let Some(window) = self.focused_window(Some(surface)) {
            if self.fullscreen_window == Some(window) {
                if let FullscreenPhase::Pending { .. } = self.fs_phase {
                    self.fs_phase = FullscreenPhase::Active;
                }
            }
        }
        if exclusive {
            effects.push(Effect::FocusSurface(surface));
        }
        self.needs_render = true;
        effects
    }

    /// A new window.
    pub fn new_toplevel<N: Numerics>(
        &mut self,
        window: u64,
        surface: u64,
        screen: &Screen,
        now: u64,
        num: &N,
    ) -> (effects: Vec<Effect>)
        requires
            old(self).wf(),
            old(self)@.arrangeable(1),
            splits_in_range(*num),
        ensures
            final(self).wf(),
            old(self)@.opens(window, surface, *screen, now, *num, final(self)@, effects@),
    {
        broadcast use vstd::std_specs::hash::group_hash_axioms;

        let ghost before = self@;
        let active: usize = self.active_workspace;
        let last: usize = self.workspaces[active].len();
        let tiled_before: usize = self.tiled_windows(active).len();
        let mut list: Vec<u64> = copied(&self.workspaces[active]);
        list.push(window);
        self.workspaces[active] = list;
        self.by_surface.insert(surface, window);
        proof {
            assert(before.trees[active as int] == self.layout_trees@[active as int]@);
            assert(before.trees[active as int].count() + 1 <= MAX_TILES);
            law_insert_adds_one(before.trees[active as int].shape);
        }
        self.layout_trees[active].insert();
        let ghost joined = before.joined(window, surface);
        proof {
            assert(self@.workspaces =~= joined.workspaces);
            assert(self@.trees =~= joined.trees);
            assert(joined.trees[active as int] == self.layout_trees@[active as int]@);
            assert(joined.current().take(last as int) =~= before.current());
        }
        let area = self.usable_area(screen);
        let tiles = self.layout_trees[active].arrange(area, num);
        let place: Placement = self.place_of(last, tiled_before, screen, &tiles);
        self.enter_window(window, place, screen.entry_output(), now, num);
        let ghost entered = self@.animations;
        let ghost started = self@;
        let middle = screen.entry_point();
        let mut effects: Vec<Effect> = Vec::new();
        effects.push(Effect::Show { window, x: middle.0, y: middle.1, activate: true });
        let mut more = self.move_to_places(&tiles, screen, now, num);
        let ghost laid = more@;
        effects.append(&mut more);
        effects.push(Effect::Focus(Some(window)));
        proof {
            assert(joined.trees[joined.active].tiles(joined.area(*screen), *num, rects(tiles@)));
            assert(joined.animations.enters(
                window,
                joined.target(*screen, tiles@, before.current().len() as int),
                screen.entry_size(),
                now,
                *num,
                entered,
            ));
            assert(started =~= (StateView { animations: entered, ..joined }));
            assert((StateView { animations: entered, ..joined }).moves_to(
                *screen,
                tiles@,
                now,
                *num,
                self@,
                laid,
            ));
            assert(effects@ =~= seq![
                Effect::Show {
                    window,
                    x: screen.middle().0,
                    y: screen.middle().1,
                    activate: true,
                },
            ] + laid + seq![Effect::Focus(Some(window))]);
        }
        effects
    }

    fn forget_everywhere(&mut self, window: u64)
        requires
            old(self).wf(),
        ensures
            final(self).wf(),
            final(self)@ == (StateView {
                workspaces: old(self)@.workspaces.map_values(
                    |list: Seq<u64>| without(list, window),
                ),
                trees: old(self)@.trees_without(window),
                ..old(self)@
            }),
    {
        let ghost before = self@;
        let mut i: usize = 0;
        while i < self.workspaces.len()
            invariant
                0 <= i <= NUM_WORKSPACES,
                self.wf(),
                before.trees.len() == NUM_WORKSPACES,
                before.workspaces.len() == NUM_WORKSPACES,
                self@ == (StateView {
                    workspaces: self@.workspaces,
                    trees: self@.trees,
                    ..before
                }),
                self@.workspaces.len() == NUM_WORKSPACES,
                self@.trees.len() == NUM_WORKSPACES,
                forall|k: int|
                    0 <= k < i ==> #[trigger] self@.workspaces[k] == without(
                        before.workspaces[k],
                        window,
                    ),
                forall|k: int|
                    i <= k < NUM_WORKSPACES ==> #[trigger] self@.workspaces[k]
                        == before.workspaces[k],
                forall|k: int|
                    0 <= k < i ==> #[trigger] self@.trees[k] == before.trees_without(window)[k],
                forall|k: int|
                    i <= k < NUM_WORKSPACES ==> #[trigger] self@.trees[k] == before.trees[k],
            decreases NUM_WORKSPACES - i,
        {
            let ghost earlier = self@;
            assert(self@.workspaces[i as int] == before.workspaces[i as int]);
            assert(self@.tiled(i as int) == before.tiled(i as int));
            assert(self@.trees[i as int] == self.layout_trees@[i as int]@);
            if let Some(slot) = self.slot_of(i, window) {
                self.layout_trees[i].remove(slot);
            }
            proof {
                assert(self.layout_trees@[i as int]@ == before.trees_without(window)[i as int]);
                assert(self@.trees =~= earlier.trees.update(
                    i as int,
                    before.trees_without(window)[i as int],
                ));
            }
            let list: Vec<u64> = others(&self.workspaces[i], window);
            self.workspaces[i] = list;
            assert(self@.workspaces =~= earlier.workspaces.update(i as int, list@));
            assert(self@.trees =~= earlier.trees.update(
                i as int,
                before.trees_without(window)[i as int],
            ));
            i = i + 1;
        }
        assert(self@.workspaces =~= before.workspaces.map_values(
            |list: Seq<u64>| without(list, window),
        ));
        assert(self@.trees =~= before.trees_without(window));
    }

    /// A top-level surface is no more: its window goes, together with its leaf and
    /// with full screen if it filled the screen, and the others close ranks.
    pub fn toplevel_destroyed<N: Numerics>(
        &mut self,
        surface: u64,
        screen: &Screen,
        now: u64,
        num: &N,
    ) -> (effects: Vec<Effect>)
        requires
            old(self).wf(),
            old(self)@.arrangeable(0),
            splits_in_range(*num),
        ensures
            final(self).wf(),
            old(self)@.closes(surface, *screen, now, *num, final(self)@, effects@),
    {
        broadcast use vstd::std_specs::hash::group_hash_axioms;

        let mut effects: Vec<Effect> = Vec::new();
        let window: u64 = match self.focused_window(Some(surface)) {
            Some(window) => window,
            None => {
                return effects;
            },
        };
        let ghost before = self@;
        self.by_surface.remove(&surface);
        self.forget_everywhere(window);
        if self.fullscreen_window == Some(window) {
            self.fullscreen_window = None;
            self.fs_phase = FullscreenPhase::Off;
        }
        self.floating.remove(window);
        self.animations.remove_window(window);
        effects.push(Effect::Withdraw(window));
        proof {
            assert(self@.trees =~= before.trees_without(window));
            assert(self@ =~= before.bereft(window, surface));
            lemma_trees_without(before, window);
        }
        let mut more = self.relayout(screen, now, num);
        let ghost laid = more@;
        effects.append(&mut more);
        assert(effects@.drop_first() =~= laid);
        effects
    }

    /// A new surface on a layer. Returns the size that is suggested to it.
    pub fn new_layer_surface(&mut self, screen: &Screen) -> (size: (i32, i32))
        ensures
            final(self)@ == (StateView { needs_render: true, ..old(self)@ }),
            old(self).wf() ==> final(self).wf(),
            size == (match screen.output {
                Some(size) => (
                    if size.0 > 1 { size.0 } else { 1 },
                    if size.1 > 1 { size.1 } else { 1 },
                ),
                None => (1920i32, 1080i32),
            }),
    {
        self.needs_render = true;
        screen.layer_size()
    }

    /// The window that gets the keyboard when nothing else has it.
    fn first_of_active(&self) -> (r: Option<u64>)
        requires
            self.wf(),
        ensures
            r == self@.first_window(),
    {
        let list = &self.workspaces[self.active_workspace];
        assert(list@ == self@.current());
        if list.len() > 0 {
            Some(list[0])
        } else {
            None
        }
    }

    /// A surface on a layer is no more. If it had the keyboard, the first window of
    /// the active workspace gets it.
    pub fn layer_destroyed(&mut self, surface: u64, focus: Option<u64>) -> (effects: Vec<Effect>)
        requires
            old(self).wf(),
        ensures
            final(self).wf(),
            final(self)@ == (StateView { needs_render: true, ..old(self)@ }),
            effects@ == (if focus == Some(surface) {
                seq![Effect::Focus(old(self)@.first_window())]
            } else {
                Seq::<Effect>::empty()
            }),
    {
        let mut effects: Vec<Effect> = Vec::new();
        if focus == Some(surface) {
            effects.push(Effect::Focus(self.first_of_active()));
        }
        self.needs_render = true;
        effects
    }

    /// The input method shows a popup.
    pub fn new_ime_popup(&mut self, surface: u64)
        ensures
            final(self)@ == (StateView {
                ime_popup: Some(surface),
                needs_render: true,
                ..old(self)@
            }),
            old(self).wf() ==> final(self).wf(),
    {
        self.ime_popup = Some(surface);
        self.needs_render = true;
    }

    /// The input method dismisses its popup.
    pub fn dismiss_ime_popup(&mut self)
        ensures
            final(self)@ == (StateView { ime_popup: None, needs_render: true, ..old(self)@ }),
            old(self).wf() ==> final(self).wf(),
    {
        self.ime_popup = None;
        self.needs_render = true;
    }

    /// The rectangle that the window of a surface takes, `at` telling where that
    /// window is; nothing if the surface has no window.
    pub fn parent_geometry(&self, parent: u64, at: OnScreen) -> (r: WindowGeometry<i32>)
        ensures
            r == (if self@.by_surface.contains_key(parent) {
                WindowGeometry {
                    x: at.corner().0,
                    y: at.corner().1,
                    width: at.size.0,
                    height: at.size.1,
                }
            } else {
                WindowGeometry { x: 0, y: 0, width: 0, height: 0 }
            }),
    {
        match self.focused_window(Some(parent)) {
            Some(_) => self.window_screen_geometry(at),
            None => WindowGeometry { x: 0, y: 0, width: 0, height: 0 },
        }
    }

    /// Locks the screen on a key press. `mapped` are the windows on the screen.
    pub fn lock_screen(&mut self, mapped: &Vec<u64>) -> (effects: Vec<Effect>)
        requires
            old(self).wf(),
        ensures
            final(self).wf(),
            final(self)@ == old(self)@.secured(),
            effects@ == withdraws(mapped@),
    {
        self.locked = true;
        self.password_input = String::new();
        self.password_error = None;
        let mut effects: Vec<Effect> = Vec::new();
        push_withdraws(&mut effects, mapped);
        self.needs_render = true;
        assert(effects@ =~= withdraws(mapped@));
        effects
    }

    /// Locks the screen on the request of a client. `mapped` are the windows on
    /// the screen.
    pub fn lock(&mut self, mapped: &Vec<u64>) -> (effects: Vec<Effect>)
        requires
            old(self).wf(),
        ensures
            final(self).wf(),
            final(self)@ == (StateView { ime_popup: None, ..old(self)@.secured() }),
            effects@ == withdraws(mapped@),
    {
        self.ime_popup = None;
        self.lock_screen(mapped)
    }

    /// Unlocks the screen.
    pub fn unlock<N: Numerics>(&mut self, screen: &Screen, now: u64, num: &N) -> (effects: Vec<
        Effect,
    >)
        requires
            old(self).wf(),
            old(self)@.arrangeable(0),
            splits_in_range(*num),
        ensures
            final(self).wf(),
            old(self)@.unlocks(*screen, now, *num, final(self)@, effects@),
    {
        let ghost before = self@;
        self.locked = false;
        self.password_input = String::new();
        self.password_error = None;
        assert(self@ =~= before.released());
        let windows = copied(&self.workspaces[self.active_workspace]);
        assert(windows@ == before.current());
        let first: Option<u64> = self.first_of_active();
        let mut effects: Vec<Effect> = Vec::new();
        push_shows(&mut effects, &windows, true);
        let mut more = self.relayout(screen, now, num);
        let ghost laid = more@;
        let ghost placed = self@;
        effects.append(&mut more);
        effects.push(Effect::Focus(first));
        self.needs_render = true;
        proof {
            assert(before.released().lays_out(*screen, now, *num, placed, laid));
            assert(effects@ =~= shows(before.current(), true) + laid
                + seq![Effect::Focus(before.first_window())]);
        }
        effects
    }
}

} // verus!
