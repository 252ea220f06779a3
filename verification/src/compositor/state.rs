//! The state of the compositor.

use super::floating::{FloatingManager, FloatingView};
use super::screen::Screen;
use super::window::{AnimatedRect, AnimationManager, AnimationsView};
use crate::config::LingxiConfig;
use crate::layout::tree::{LayoutTree, TreeView};
use crate::layout::{rects, splits_in_range, DwindleLayout, Rect, WindowGeometry, MAX_TILES};
use crate::lists::{copied, index, position};
use crate::numerics::Numerics;
use crate::scalar::Double;
use std::collections::HashMap;
use vstd::prelude::*;

verus! {

/// The number of workspaces.
pub const NUM_WORKSPACES: usize = 5;

/// How far a window is on its way to filling the screen. It does so only once
/// its client has answered the request.
#[derive(Clone, Copy, Debug, PartialEq, Eq, Structural)]
pub enum FullscreenPhase {
    /// No window fills the screen.
    Off,
    /// The client has been asked and has not answered yet.
    Pending { since: u64, fallback_geo: WindowGeometry<Double> },
    /// The client has answered.
    Active,
}

impl Default for FullscreenPhase {
    fn default() -> (r: Self)
        ensures
            r == FullscreenPhase::Off,
    {
        FullscreenPhase::Off
    }
}

/// The place that a window is given.
#[derive(Clone, Copy, Debug, PartialEq, Eq, Structural)]
pub enum Placement {
    /// A tile, or the whole screen.
    Tile(WindowGeometry<i64>),
    /// The place of a floating window.
    Free(WindowGeometry<Double>),
}

/// Something to be done outside.
#[derive(Clone, Debug, PartialEq, Eq)]
pub enum Effect {
    /// Put a window on the screen.
    Show { window: u64, x: i32, y: i32, activate: bool },
    /// Put a floating window at its place.
    Move(u64, WindowGeometry<Double>),
    /// Put a moving window where its animation has come to.
    Animate(u64, AnimatedRect),
    /// Take a window off the screen.
    Withdraw(u64),
    /// Ask the client of a window for the size of its place.
    Configure(u64, Placement),
    /// Ask the client of a window to fill the screen, or to do so no longer.
    Fullscreen(u64, bool),
    /// Give the keyboard to a window, or to none.
    Focus(Option<u64>),
    /// Give the keyboard to a surface that is no window.
    FocusSurface(u64),
    /// Ask the client of a window to close it.
    Close(u64),
    /// Start a program: its name and its arguments.
    Spawn(Vec<String>),
    /// Leave the compositor.
    Quit,
}

/// The state of the compositor. Windows and surfaces are numbers that stand for
/// them.
pub struct LingxiState {
    /// Whether the screen is locked.
    pub locked: bool,
    /// The password typed so far on the lock screen.
    pub password_input: String,
    /// What the lock screen says of a wrong password, for a few seconds.
    pub password_error: Option<String>,
    /// Since when it says so, in nanoseconds.
    pub password_error_at: u64,
    /// The popup of the input method.
    pub ime_popup: Option<u64>,
    /// Where the pointer is.
    pub pointer_location: (Double, Double),
    /// The floating window that is being dragged.
    pub drag_window: Option<u64>,
    /// Where on the dragged window the pointer holds it.
    pub drag_offset: (Double, Double),
    pub animations: AnimationManager,
    pub layout: DwindleLayout,
    /// The layout tree of each workspace.
    pub layout_trees: Vec<LayoutTree>,
    /// The windows of each workspace.
    pub workspaces: Vec<Vec<u64>>,
    pub active_workspace: usize,
    /// The window of each top-level surface.
    pub by_surface: HashMap<u64, u64>,
    pub fullscreen_window: Option<u64>,
    pub floating: FloatingManager,
    pub fs_phase: FullscreenPhase,
    pub config: LingxiConfig,
    /// Whether the next frame has to be drawn.
    pub needs_render: bool,
}

/// What the state of the compositor stands for.
#[verifier::ext_equal]
pub struct StateView {
    pub locked: bool,
    pub password_input: Seq<char>,
    pub password_error: Option<Seq<char>>,
    pub password_error_at: u64,
    pub ime_popup: Option<u64>,
    pub pointer_location: (Double, Double),
    pub drag_window: Option<u64>,
    pub drag_offset: (Double, Double),
    pub animations: AnimationsView,
    pub layout: DwindleLayout,
    pub trees: Seq<TreeView>,
    pub workspaces: Seq<Seq<u64>>,
    pub active: int,
    pub by_surface: Map<u64, u64>,
    pub fullscreen_window: Option<u64>,
    pub floating: FloatingView,
    pub fs_phase: FullscreenPhase,
    pub config: LingxiConfig,
    pub needs_render: bool,
}

impl View for LingxiState {
    type V = StateView;

    open spec fn view(&self) -> StateView {
        StateView {
            locked: self.locked,
            password_input: self.password_input@,
            password_error: match self.password_error {
                Some(text) => Some(text@),
                None => None,
            },
            password_error_at: self.password_error_at,
            ime_popup: self.ime_popup,
            pointer_location: self.pointer_location,
            drag_window: self.drag_window,
            drag_offset: self.drag_offset,
            animations: self.animations@,
            layout: self.layout,
            trees: self.layout_trees@.map_values(|t: LayoutTree| t@),
            workspaces: self.workspaces@.map_values(|w: Vec<u64>| w@),
            active: self.active_workspace as int,
            by_surface: self.by_surface@,
            fullscreen_window: self.fullscreen_window,
            floating: self.floating@,
            fs_phase: self.fs_phase,
            config: self.config,
            needs_render: self.needs_render,
        }
    }
}

/// `rect` is the place of a window in doubles.
pub open spec fn realizes<N: Numerics>(num: N, place: Placement, rect: AnimatedRect) -> bool {
    match place {
        Placement::Tile(t) => {
            &&& call_ensures(N::double, (&num, t.x), rect.x)
            &&& call_ensures(N::double, (&num, t.y), rect.y)
            &&& call_ensures(N::double, (&num, t.width), rect.width)
            &&& call_ensures(N::double, (&num, t.height), rect.height)
        },
        Placement::Free(g) => rect == (AnimatedRect {
            x: g.x,
            y: g.y,
            width: g.width,
            height: g.height,
        }),
    }
}

/// `goals` are the places of windows in doubles.
pub open spec fn realizes_all<N: Numerics>(
    num: N,
    targets: Seq<(u64, Placement)>,
    goals: Seq<(u64, AnimatedRect)>,
) -> bool {
    &&& goals.len() == targets.len()
    &&& forall|i: int|
        0 <= i < targets.len() ==> {
            &&& (#[trigger] goals[i]).0 == targets[i].0
            &&& realizes(num, targets[i].1, goals[i].1)
        }
}

/// The request to every client for the size of its place.
pub open spec fn configures(targets: Seq<(u64, Placement)>) -> Seq<Effect> {
    targets.map_values(|t: (u64, Placement)| Effect::Configure(t.0, t.1))
}

impl StateView {
    /// No layout tree would have more leaves than can be arranged if it had `more`
    /// of them.
    pub open spec fn arrangeable(self, more: nat) -> bool {
        forall|i: int|
            0 <= i < self.trees.len() ==> (#[trigger] self.trees[i]).count() + more <= MAX_TILES
    }

    /// The windows of the active workspace.
    pub open spec fn current(self) -> Seq<u64> {
        self.workspaces[self.active]
    }

    /// The windows of a workspace that are tiled, that is, do not float.
    pub open spec fn tiled(self, workspace: int) -> Seq<u64> {
        self.workspaces[workspace].filter(self.floating.tiled())
    }

    /// The number of a window among the tiled windows of a workspace, if it is one
    /// of them.
    pub open spec fn slot_on(self, workspace: int, window: u64) -> Option<int> {
        if self.tiled(workspace).contains(window) {
            Some(index(self.tiled(workspace), window))
        } else {
            None
        }
    }

    /// The number of a window among the tiled windows of the active workspace, if
    /// it is one of them.
    pub open spec fn tiled_slot(self, window: u64) -> Option<int> {
        self.slot_on(self.active, window)
    }

    /// The window that has the keyboard, given the surface that has it.
    pub open spec fn focused(self, focus: Option<u64>) -> Option<u64> {
        match focus {
            Some(surface) => if self.by_surface.contains_key(surface) {
                Some(self.by_surface[surface])
            } else {
                None
            },
            None => None,
        }
    }

    /// The area for windows.
    pub open spec fn area(self, screen: Screen) -> Rect {
        screen.usable(self.config.general.gaps_outer)
    }

    /// Passes the windows that are seen in a tile: those that neither float nor fill
    /// the screen.
    pub open spec fn gets_tile(self) -> spec_fn(u64) -> bool {
        |w: u64| Some(w) != self.fullscreen_window && !self.floating.has(w)
    }

    /// How many of the first windows of the active workspace are tiled. A tiled
    /// window that fills the screen keeps its tile, and is one of them.
    pub open spec fn tiles_before(self, i: int) -> nat {
        self.current().take(i).filter(self.floating.tiled()).len()
    }

    /// The place of window number `i` of the active workspace: the whole screen
    /// if it fills the screen, its own place if it floats, and else the tile with
    /// its number among the tiled windows. Where the tiles have run out it is the
    /// whole area.
    pub open spec fn target(
        self,
        screen: Screen,
        tiles: Seq<WindowGeometry<i64>>,
        i: int,
    ) -> Placement {
        let w = self.current()[i];
        let n = self.tiles_before(i) as int;
        if Some(w) == self.fullscreen_window {
            Placement::Tile(screen.full())
        } else {
            match self.floating.geo(w) {
                Some(geo) => Placement::Free(geo),
                None => if n < tiles.len() {
                    Placement::Tile(tiles[n])
                } else {
                    Placement::Tile(self.area(screen).geometry())
                },
            }
        }
    }

    /// The places of the windows of the active workspace.
    pub open spec fn targets(
        self,
        screen: Screen,
        tiles: Seq<WindowGeometry<i64>>,
    ) -> Seq<(u64, Placement)> {
        Seq::new(
            self.current().len(),
            |i: int| (self.current()[i], self.target(screen, tiles, i)),
        )
    }

    /// `next` is the state after the windows of the active workspace have been sent
    /// on their way to their places, given the tiles of its tree, and `effects` is
    /// what is asked of their clients.
    pub open spec fn moves_to<N: Numerics>(
        self,
        screen: Screen,
        tiles: Seq<WindowGeometry<i64>>,
        now: u64,
        num: N,
        next: StateView,
        effects: Seq<Effect>,
    ) -> bool {
        &&& exists|goals: Seq<(u64, AnimatedRect)>|
            {
                &&& #[trigger] realizes_all(num, self.targets(screen, tiles), goals)
                &&& self.animations.retargets_all(goals, now, num, next.animations)
            }
        &&& next == (StateView { animations: next.animations, needs_render: true, ..self })
        &&& effects == configures(self.targets(screen, tiles))
    }

    /// `next` is the state after the windows of the active workspace have been
    /// sent on their way to their places, and `effects` is what is asked of their
    /// clients. The tiles are those of the tree of the workspace.
    pub open spec fn lays_out<N: Numerics>(
        self,
        screen: Screen,
        now: u64,
        num: N,
        next: StateView,
        effects: Seq<Effect>,
    ) -> bool {
        if self.current().len() == 0 {
            next == self && effects == Seq::<Effect>::empty()
        } else {
            exists|tiles: Seq<WindowGeometry<i64>>|
                {
                    &&& #[trigger] self.trees[self.active].tiles(
                        self.area(screen),
                        num,
                        rects(tiles),
                    )
                    &&& self.moves_to(screen, tiles, now, num, next, effects)
                }
        }
    }
}

proof fn lemma_tiles_before(state: StateView, i: int)
    requires
        0 <= i < state.current().len(),
    ensures
        state.tiles_before(i + 1) == state.tiles_before(i) + if state.floating.has(
            state.current()[i],
        ) {
            0int
        } else {
            1
        },
{
    reveal(Seq::filter);
    assert(state.current().take(i + 1).drop_last() =~= state.current().take(i));
}

/// The place of a window in doubles.
pub(super) fn rect_of<N: Numerics>(place: Placement, num: &N) -> (rect: AnimatedRect)
    ensures
        realizes(*num, place, rect),
{
    match place {
        Placement::Tile(t) => AnimatedRect {
            x: num.double(t.x),
            y: num.double(t.y),
            width: num.double(t.width),
            height: num.double(t.height),
        },
        Placement::Free(g) => AnimatedRect { x: g.x, y: g.y, width: g.width, height: g.height },
    }
}

impl LingxiState {
    /// There is a workspace and a layout tree for every number, and one of them
    /// is active.
    pub open spec fn wf(self) -> bool {
        &&& self.workspaces@.len() == NUM_WORKSPACES
        &&& self.layout_trees@.len() == NUM_WORKSPACES
        &&& self.active_workspace < NUM_WORKSPACES
        &&& forall|i: int|
            0 <= i < NUM_WORKSPACES ==> (#[trigger] self.layout_trees@[i]).wf()
        &&& self.floating.wf()
    }

    /// The state at the start: five empty workspaces, the first of them active.
    pub fn new(config: LingxiConfig) -> (r: Self)
        ensures
            r.wf(),
            r@.arrangeable(1),
            r@.locked == false,
            r@.password_input == Seq::<char>::empty(),
            r@.password_error is None,
            r@.password_error_at == 0,
            r@.ime_popup is None,
            r@.pointer_location == (Double { bits: 0 }, Double { bits: 0 }),
            r@.drag_window is None,
            r@.drag_offset == (Double { bits: 0 }, Double { bits: 0 }),
            r@.animations == AnimationsView::fresh(),
            r@.layout.split_ratio == config.layout.split_ratio,
            r@.layout.inner_gap == config.general.gaps_inner,
            r@.trees == Seq::new(
                NUM_WORKSPACES as nat,
                |i: int|
                    (TreeView {
                        shape: None,
                        split_ratio: config.layout.split_ratio,
                        inner_gap: config.general.gaps_inner,
                    }),
            ),
            r@.workspaces == Seq::new(NUM_WORKSPACES as nat, |i: int| Seq::<u64>::empty()),
            r@.active == 0,
            r@.by_surface == Map::<u64, u64>::empty(),
            r@.fullscreen_window is None,
            r@.floating == (FloatingView { entries: Seq::empty(), next_z: 0 }),
            r@.fs_phase is Off,
            r@.config == config,
            r@.needs_render,
            r@.sound(),
    {
        broadcast use vstd::std_specs::hash::group_hash_axioms;

        let split_ratio = config.layout.split_ratio;
        let inner_gap: u32 = config.general.gaps_inner;
        let mut workspaces: Vec<Vec<u64>> = Vec::new();
        let mut layout_trees: Vec<LayoutTree> = Vec::new();
        let mut i: usize = 0;
        while i < NUM_WORKSPACES
            invariant
                0 <= i <= NUM_WORKSPACES,
                workspaces@.len() == i,
                layout_trees@.len() == i,
                forall|j: int| 0 <= j < i ==> (#[trigger] workspaces@[j])@ == Seq::<u64>::empty(),
                forall|j: int|
                    0 <= j < i ==> (#[trigger] layout_trees@[j]).wf() && layout_trees@[j]@ == (
                    TreeView { shape: None, split_ratio, inner_gap }),
            decreases NUM_WORKSPACES - i,
        {
            workspaces.push(Vec::new());
            layout_trees.push(LayoutTree::new(split_ratio, inner_gap));
            i = i + 1;
        }
        let r = LingxiState {
            locked: false,
            password_input: String::new(),
            password_error: None,
            password_error_at: 0,
            ime_popup: None,
            pointer_location: (Double { bits: 0 }, Double { bits: 0 }),
            drag_window: None,
            drag_offset: (Double { bits: 0 }, Double { bits: 0 }),
            animations: AnimationManager::new(),
            layout: DwindleLayout { split_ratio, inner_gap },
            layout_trees,
            workspaces,
            active_workspace: 0,
            by_surface: HashMap::new(),
            fullscreen_window: None,
            floating: FloatingManager::new(),
            fs_phase: FullscreenPhase::Off,
            config,
            needs_render: true,
        };
        proof {
            assert forall|n: int| 0 <= n < NUM_WORKSPACES implies (
            #[trigger] r@.trees[n]).count() == r@.tiled(n).len() by {
                reveal(Seq::filter);
                assert(r@.workspaces[n].len() == 0);
            }
        }
        r
    }

    /// Whether every layout tree can have `more` leaves and still be arranged.
    pub fn has_room(&self, more: usize) -> (r: bool)
        requires
            self.wf(),
        ensures
            r == self@.arrangeable(more as nat),
    {
        let mut i: usize = 0;
        while i < NUM_WORKSPACES
            invariant
                0 <= i <= NUM_WORKSPACES,
                self.wf(),
                forall|k: int|
                    0 <= k < i ==> (#[trigger] self@.trees[k]).count() + more <= MAX_TILES,
            decreases NUM_WORKSPACES - i,
        {
            assert(self@.trees[i as int] == self.layout_trees@[i as int]@);
            let leaves: usize = self.layout_trees[i].len();
            if more > MAX_TILES || leaves > MAX_TILES - more {
                return false;
            }
            i = i + 1;
        }
        true
    }

    /// The area for windows: what bars and docks leave of the screen, less the
    /// outer gap.
    pub fn usable_area(&self, screen: &Screen) -> (area: WindowGeometry<i64>)
        ensures
            area@ == self@.area(*screen),
            area == self@.area(*screen).geometry(),
            area@.within(crate::layout::MAX_EXTENT as int),
    {
        screen.usable_area(self.config.general.gaps_outer)
    }

    /// The tiled windows of a workspace.
    pub(super) fn tiled_windows(&self, workspace: usize) -> (r: Vec<u64>)
        requires
            workspace < self.workspaces@.len(),
        ensures
            r@ == self@.tiled(workspace as int),
            r@.len() <= self@.workspaces[workspace as int].len(),
    {
        let windows = &self.workspaces[workspace];
        let mut r: Vec<u64> = Vec::new();
        let mut i: usize = 0;
        let ghost all = windows@;
        let ghost tiled = self@.floating.tiled();
        assert(all.take(0).filter(tiled) =~= Seq::<u64>::empty()) by {
            reveal(Seq::filter);
        }
        while i < windows.len()
            invariant
                0 <= i <= all.len(),
                windows@ == all,
                tiled == self@.floating.tiled(),
                r@ == all.take(i as int).filter(tiled),
                r@.len() <= i,
            decreases all.len() - i,
        {
            proof {
                assert(all.take(i + 1).drop_last() =~= all.take(i as int));
                reveal(Seq::filter);
            }
            if !self.floating.contains(windows[i]) {
                r.push(windows[i]);
            }
            i = i + 1;
        }
        assert(all.take(i as int) =~= all);
        r
    }

    /// The number of a window among the tiled windows of a workspace.
    pub(super) fn slot_of(&self, workspace: usize, window: u64) -> (r: Option<usize>)
        requires
            self.wf(),
            workspace < NUM_WORKSPACES,
        ensures
            match r {
                Some(i) => self@.slot_on(workspace as int, window) == Some(i as int),
                None => self@.slot_on(workspace as int, window) is None,
            },
    {
        position(&self.tiled_windows(workspace), window)
    }

    /// The number of a window among the tiled windows of the active workspace.
    pub(super) fn tiled_slot_of(&self, window: u64) -> (r: Option<usize>)
        requires
            self.wf(),
        ensures
            match r {
                Some(i) => self@.tiled_slot(window) == Some(i as int),
                None => self@.tiled_slot(window) is None,
            },
    {
        self.slot_of(self.active_workspace, window)
    }

    /// The place of window number `i` of the active workspace, given how many of
    /// those before it are tiled.
    pub(super) fn place_of(
        &self,
        i: usize,
        tiled_before: usize,
        screen: &Screen,
        tiles: &Vec<WindowGeometry<i64>>,
    ) -> (place: Placement)
        requires
            self.wf(),
            i < self@.current().len(),
            tiled_before == self@.tiles_before(i as int),
        ensures
            place == self@.target(*screen, tiles@, i as int),
    {
        let window: u64 = self.workspaces[self.active_workspace][i];
        if self.fullscreen_window == Some(window) {
            Placement::Tile(screen.output_full_area())
        } else if let Some(geo) = self.floating.geo(window) {
            Placement::Free(geo)
        } else if tiled_before < tiles.len() {
            Placement::Tile(tiles[tiled_before])
        } else {
            Placement::Tile(self.usable_area(screen))
        }
    }

    /// Sends the windows of the active workspace on their way to their places,
    /// given the tiles of its tree.
    pub(super) fn move_to_places<N: Numerics>(
        &mut self,
        tiles: &Vec<WindowGeometry<i64>>,
        screen: &Screen,
        now: u64,
        num: &N,
    ) -> (effects: Vec<Effect>)
        requires
            old(self).wf(),
        ensures
            final(self).wf(),
            old(self)@.moves_to(*screen, tiles@, now, *num, final(self)@, effects@),
    {
        let windows: Vec<u64> = copied(&self.workspaces[self.active_workspace]);
        let mut effects: Vec<Effect> = Vec::new();
        let ghost before = self@;
        let mut targets: Vec<(u64, Placement)> = Vec::new();
        let mut goals: Vec<(u64, AnimatedRect)> = Vec::new();
        let mut next_tile: usize = 0;
        let mut i: usize = 0;
        assert(before.current().take(0).filter(before.floating.tiled()).len() == 0) by {
            reveal(Seq::filter);
        }
        while i < windows.len()
            invariant
                0 <= i <= windows.len(),
                self.wf(),
                self@ == before,
                windows@ == before.current(),
                next_tile == before.tiles_before(i as int),
                next_tile <= i,
                targets@ == before.targets(*screen, tiles@).take(i as int),
                realizes_all(*num, targets@, goals@),
                forall|k: int|
                    0 <= k < i ==> #[trigger] effects@[k] == Effect::Configure(
                        targets@[k].0,
                        targets@[k].1,
                    ),
                effects@.len() == i,
            decreases windows.len() - i,
        {
            let window: u64 = windows[i];
            proof {
                lemma_tiles_before(before, i as int);
            }
            let place: Placement = self.place_of(i, next_tile, screen, tiles);
            if !self.floating.contains(window) {
                next_tile = next_tile + 1;
            }
            let rect = rect_of(place, num);
            targets.push((window, place));
            goals.push((window, rect));
            effects.push(Effect::Configure(window, place));
            assert(targets@ =~= before.targets(*screen, tiles@).take(i + 1));
            i = i + 1;
        }
        assert(targets@ =~= before.targets(*screen, tiles@));
        self.needs_render = true;
        self.animations.retarget(&goals, now, num);
        proof {
            assert(effects@ =~= configures(targets@));
            assert(realizes_all(*num, before.targets(*screen, tiles@), goals@));
        }
        effects
    }

    /// Sends the windows of the active workspace on their way to their places.
    pub fn relayout<N: Numerics>(&mut self, screen: &Screen, now: u64, num: &N) -> (effects: Vec<
        Effect,
    >)
        requires
            old(self).wf(),
            old(self)@.arrangeable(0),
            splits_in_range(*num),
        ensures
            final(self).wf(),
            old(self)@.lays_out(*screen, now, *num, final(self)@, effects@),
    {
        let active: usize = self.active_workspace;
        if self.workspaces[active].len() == 0 {
            return Vec::new();
        }
        let ghost before = self@;
        let area = self.usable_area(screen);
        assert(before.trees[active as int].count() <= MAX_TILES);
        let tiles = self.layout_trees[active].arrange(area, num);
        let effects = self.move_to_places(&tiles, screen, now, num);
        proof {
            assert(before.trees[active as int].tiles(before.area(*screen), *num, rects(tiles@)));
        }
        effects
    }

    /// The window that has the keyboard, given the surface that has it.
    pub fn focused_window(&self, focus: Option<u64>) -> (r: Option<u64>)
        ensures
            r == self@.focused(focus),
    {
        broadcast use vstd::std_specs::hash::group_hash_axioms;

        match focus {
            Some(surface) => match self.by_surface.get(&surface) {
                Some(window) => Some(*window),
                None => None,
            },
            None => None,
        }
    }
}

} // verus!
