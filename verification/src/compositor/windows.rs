//! What is done with the window that has the keyboard, and with floating windows.

use super::floating::{stacks, windows_of, FloatingWindow};
use super::screen::Screen;
use super::state::{Effect, FullscreenPhase, LingxiState, Placement, StateView};
use super::window::AnimatedRect;
use crate::layout::{splits_in_range, WindowGeometry};
use crate::lists::{others, without};
use crate::numerics::Numerics;
use crate::scalar::Double;
use vstd::prelude::*;

verus! {

/// Where a window is on the screen, if it is, and how large its client has made
/// it.
#[derive(Clone, Copy, Debug)]
pub struct OnScreen {
    pub location: Option<(i32, i32)>,
    pub size: (i32, i32),
}

impl OnScreen {
    /// The location; the origin if the window is not on the screen.
    pub open spec fn corner(self) -> (i32, i32) {
        match self.location {
            Some(corner) => corner,
            None => (0, 0),
        }
    }

    fn origin(&self) -> (r: (i32, i32))
        ensures
            r == self.corner(),
    {
        match self.location {
            Some(corner) => corner,
            None => (0, 0),
        }
    }
}

/// The orders to put windows where their animations have come to.
pub open spec fn animates(updates: Seq<(u64, AnimatedRect)>) -> Seq<Effect> {
    updates.map_values(|u: (u64, AnimatedRect)| Effect::Animate(u.0, u.1))
}

impl StateView {
    /// `geo` is the place of a window: that of a floating window is known; else it
    /// is where the window is on the screen, with the size that it has been given,
    /// or that of its client if it has been given none.
    pub open spec fn measures<N: Numerics>(
        self,
        window: u64,
        at: OnScreen,
        num: N,
        geo: WindowGeometry<Double>,
    ) -> bool {
        match self.floating.geo(window) {
            Some(known) => geo == known,
            None => {
                &&& call_ensures(N::double, (&num, at.corner().0 as i64), geo.x)
                &&& call_ensures(N::double, (&num, at.corner().1 as i64), geo.y)
                &&& if self.animations.windows.contains_key(window) {
                    &&& geo.width == self.animations.windows[window].target.width
                    &&& geo.height == self.animations.windows[window].target.height
                } else {
                    &&& call_ensures(N::double, (&num, at.size.0 as i64), geo.width)
                    &&& call_ensures(N::double, (&num, at.size.1 as i64), geo.height)
                }
            },
        }
    }

    /// The state once the window `window` is to fill the screen no longer.
    pub open spec fn leaving_fullscreen(self) -> StateView {
        StateView { fullscreen_window: None, fs_phase: FullscreenPhase::Off, ..self }
    }

    /// The state once the client of a window has been asked to fill the screen.
    pub open spec fn entering_fullscreen(
        self,
        window: u64,
        now: u64,
        geo: WindowGeometry<Double>,
    ) -> StateView {
        StateView {
            fullscreen_window: Some(window),
            fs_phase: FullscreenPhase::Pending { since: now, fallback_geo: geo },
            ..self
        }
    }

    /// `next` and `effects` are what comes of switching full screen for the window
    /// that has the keyboard.
    pub open spec fn toggles_fullscreen<N: Numerics>(
        self,
        focus: Option<u64>,
        at: OnScreen,
        screen: Screen,
        now: u64,
        num: N,
        next: StateView,
        effects: Seq<Effect>,
    ) -> bool {
        match self.focused(focus) {
            None => next == self && effects == Seq::<Effect>::empty(),
            Some(w) => if self.fullscreen_window == Some(w) {
                &&& effects.len() > 0
                &&& effects[0] == Effect::Fullscreen(w, false)
                &&& self.leaving_fullscreen().lays_out(
                    screen,
                    now,
                    num,
                    next,
                    effects.drop_first(),
                )
            } else {
                &&& effects.len() > 0
                &&& effects[0] == Effect::Fullscreen(w, true)
                &&& exists|geo: WindowGeometry<Double>|
                    {
                        &&& #[trigger] self.measures(w, at, num, geo)
                        &&& self.entering_fullscreen(w, now, geo).lays_out(
                            screen,
                            now,
                            num,
                            next,
                            effects.drop_first(),
                        )
                    }
            },
        }
    }

    /// The state once a floating window of the active workspace has been put back
    /// among the tiles, after all others.
    pub open spec fn sunk(self, window: u64) -> StateView {
        StateView {
            floating: self.floating.removed(window),
            workspaces: self.workspaces.update(
                self.active,
                without(self.current(), window).push(window),
            ),
            trees: self.trees.update(self.active, self.trees[self.active].inserted()),
            ..self
        }
    }

    /// The state once a window has been made to float at a place.
    pub open spec fn floated(self, window: u64, geo: WindowGeometry<Double>) -> StateView {
        StateView {
            floating: self.floating.added(window, geo),
            trees: match self.tiled_slot(window) {
                Some(slot) => self.trees.update(
                    self.active,
                    self.trees[self.active].removed(slot),
                ),
                None => self.trees,
            },
            ..self
        }
    }

    /// `next` and `effects` are what comes of switching between floating and tiled
    /// for the window that has the keyboard.
    pub open spec fn toggles_floating<N: Numerics>(
        self,
        focus: Option<u64>,
        screen: Screen,
        now: u64,
        num: N,
        next: StateView,
        effects: Seq<Effect>,
    ) -> bool {
        match self.focused(focus) {
            None => next == self && effects == Seq::<Effect>::empty(),
            Some(w) => if self.floating.has(w) {
                self.sunk(w).lays_out(screen, now, num, next, effects)
            } else {
                exists|geo: WindowGeometry<Double>|
                    {
                        &&& #[trigger] call_ensures(
                            N::centered,
                            (&num, self.area(screen).geometry()),
                            geo,
                        )
                        &&& self.floated(w, geo).lays_out(screen, now, num, next, effects)
                    }
            },
        }
    }

    /// The state once a floating window has been put at a place at once.
    pub open spec fn settled(self, window: u64, geo: WindowGeometry<Double>) -> StateView {
        StateView {
            floating: self.floating.set(window, geo),
            animations: self.animations.without(window),
            ..self
        }
    }

    /// `next` and `effects` are what comes of the pointer having moved while a
    /// window is dragged: the window keeps its size and stays under the pointer.
    pub open spec fn drags<N: Numerics>(
        self,
        num: N,
        next: StateView,
        effects: Seq<Effect>,
    ) -> bool {
        match self.drag_window {
            None => next == self && effects == Seq::<Effect>::empty(),
            Some(w) => match self.floating.geo(w) {
                None => next == self && effects == Seq::<Effect>::empty(),
                Some(old_geo) => exists|x: Double, y: Double|
                    {
                        let geo = WindowGeometry { x, y, ..old_geo };
                        &&& #[trigger] call_ensures(
                            N::minus,
                            (&num, self.pointer_location.0, self.drag_offset.0),
                            x,
                        )
                        &&& #[trigger] call_ensures(
                            N::minus,
                            (&num, self.pointer_location.1, self.drag_offset.1),
                            y,
                        )
                        &&& next == (StateView { needs_render: true, ..self.settled(w, geo) })
                        &&& effects == seq![Effect::Move(w, geo)]
                    },
            },
        }
    }

    /// `next` and `effects` are what comes of a frame: every window that was moving
    /// is put where its animation has come to, in any order.
    pub open spec fn ticks<N: Numerics>(
        self,
        now: u64,
        num: N,
        next: StateView,
        effects: Seq<Effect>,
    ) -> bool {
        if !self.animations.active() {
            next == self && effects == Seq::<Effect>::empty()
        } else {
            &&& self.animations.ticks_to(now, num, next.animations)
            &&& exists|updates: Seq<(u64, AnimatedRect)>| #[trigger]
                self.animations.moved(next.animations, updates) && effects == animates(updates)
            &&& next == (StateView {
                animations: next.animations,
                needs_render: self.needs_render || self.animations.any_finished(next.animations),
                ..self
            })
        }
    }

    /// The state once the place of a floating window has been changed.
    pub open spec fn replaced(self, window: u64, geo: WindowGeometry<Double>) -> StateView {
        StateView {
            floating: self.floating.placed(window, geo),
            needs_render: true,
            ..self
        }
    }

    /// `next` and `effects` are what comes of moving the floating window that has
    /// the keyboard.
    pub open spec fn moves_floating<N: Numerics>(
        self,
        focus: Option<u64>,
        dx: Double,
        dy: Double,
        num: N,
        next: StateView,
        effects: Seq<Effect>,
    ) -> bool {
        match self.focused(focus) {
            None => next == self && effects == Seq::<Effect>::empty(),
            Some(w) => match self.floating.geo(w) {
                None => next == self && effects == Seq::<Effect>::empty(),
                Some(old_geo) => exists|x: Double, y: Double|
                    {
                        let geo = WindowGeometry { x, y, ..old_geo };
                        &&& #[trigger] call_ensures(N::plus, (&num, old_geo.x, dx), x)
                        &&& #[trigger] call_ensures(N::plus, (&num, old_geo.y, dy), y)
                        &&& next == self.replaced(w, geo)
                        &&& effects == seq![Effect::Move(w, geo)]
                    },
            },
        }
    }

    /// `next` and `effects` are what comes of resizing the floating window that
    /// has the keyboard. It stays at least 200 by 150 pixels large.
    pub open spec fn resizes_floating<N: Numerics>(
        self,
        focus: Option<u64>,
        dw: Double,
        dh: Double,
        num: N,
        next: StateView,
        effects: Seq<Effect>,
    ) -> bool {
        match self.focused(focus) {
            None => next == self && effects == Seq::<Effect>::empty(),
            Some(w) => match self.floating.geo(w) {
                None => next == self && effects == Seq::<Effect>::empty(),
                Some(old_geo) => exists|width: Double, height: Double|
                    {
                        let geo = WindowGeometry { width, height, ..old_geo };
                        &&& #[trigger] call_ensures(
                            N::resized,
                            (&num, old_geo.width, dw, 200u32),
                            width,
                        )
                        &&& #[trigger] call_ensures(
                            N::resized,
                            (&num, old_geo.height, dh, 150u32),
                            height,
                        )
                        &&& next == self.replaced(w, geo)
                        &&& effects == seq![
                            Effect::Move(w, geo),
                            Effect::Configure(w, Placement::Free(geo)),
                        ]
                    },
            },
        }
    }
}

impl LingxiState {
    /// The rectangle on the screen that a window takes, `at` telling where it is.
    pub fn window_screen_geometry(&self, at: OnScreen) -> (r: WindowGeometry<i32>)
        ensures
            r == (WindowGeometry {
                x: at.corner().0,
                y: at.corner().1,
                width: at.size.0,
                height: at.size.1,
            }),
    {
        let (x, y) = at.origin();
        WindowGeometry { x, y, width: at.size.0, height: at.size.1 }
    }

    /// The place of a window.
    pub fn window_geometry<N: Numerics>(&self, window: u64, at: OnScreen, num: &N) -> (geo:
        WindowGeometry<Double>)
        ensures
            self@.measures(window, at, *num, geo),
    {
        if let Some(geo) = self.floating.geo(window) {
            return geo;
        }
        let (x, y) = at.origin();
        let x = num.double(x as i64);
        let y = num.double(y as i64);
        if let Some(target) = self.animations.get_target(window) {
            return WindowGeometry { x, y, width: target.width, height: target.height };
        }
        WindowGeometry {
            x,
            y,
            width: num.double(at.size.0 as i64),
            height: num.double(at.size.1 as i64),
        }
    }

    /// Switches full screen for the window that has the keyboard; `at` tells where
    /// that window is.
    pub fn toggle_fullscreen<N: Numerics>(
        &mut self,
        focus: Option<u64>,
        at: OnScreen,
        screen: &Screen,
        now: u64,
        num: &N,
    ) -> (effects: Vec<Effect>)
        requires
            old(self).wf(),
            old(self)@.arrangeable(0),
            splits_in_range(*num),
        ensures
            final(self).wf(),
            old(self)@.toggles_fullscreen(
                focus,
                at,
                *screen,
                now,
                *num,
                final(self)@,
                effects@,
            ),
    {
        let mut effects: Vec<Effect> = Vec::new();
        let window: u64 = match self.focused_window(focus) {
            Some(window) => window,
            None => {
                return effects;
            },
        };
        if self.fullscreen_window == Some(window) {
            self.fullscreen_window = None;
            self.fs_phase = FullscreenPhase::Off;
            effects.push(Effect::Fullscreen(window, false));
        } else {
            let fallback_geo = self.window_geometry(window, at, num);
            self.fullscreen_window = Some(window);
            self.fs_phase = FullscreenPhase::Pending { since: now, fallback_geo };
            effects.push(Effect::Fullscreen(window, true));
        }
        assert(self@.trees =~= old(self)@.trees);
        let mut more = self.relayout(screen, now, num);
        let ghost laid = more@;
        effects.append(&mut more);
        assert(effects@.drop_first() =~= laid);
        effects
    }

    /// Switches between floating and tiled for the window that has the keyboard.
    pub fn toggle_floating<N: Numerics>(
        &mut self,
        focus: Option<u64>,
        screen: &Screen,
        now: u64,
        num: &N,
    ) -> (effects: Vec<Effect>)
        requires
            old(self).wf(),
            old(self)@.arrangeable(1),
            old(self)@.floating.has_room(),
            splits_in_range(*num),
        ensures
            final(self).wf(),
            old(self)@.toggles_floating(focus, *screen, now, *num, final(self)@, effects@),
    {
        let window: u64 = match self.focused_window(focus) {
            Some(window) => window,
            None => {
                return Vec::new();
            },
        };
        let active: usize = self.active_workspace;
        let ghost before = self@;
        assert(before.trees[active as int].count() + 1 <= crate::layout::MAX_TILES);
        if self.floating.contains(window) {
            self.floating.remove(window);
            let mut list: Vec<u64> = others(&self.workspaces[active], window);
            list.push(window);
            self.workspaces[active] = list;
            self.layout_trees[active].insert();
            proof {
                crate::layout::laws::law_insert_adds_one(before.trees[active as int].shape);
                assert(self@ =~= before.sunk(window));
                assert(self@.arrangeable(0));
            }
        } else {
            let slot: Option<usize> = self.tiled_slot_of(window);
            let area = self.usable_area(screen);
            let geo = num.centered(area);
            self.floating.add(window, geo);
            if let Some(s) = slot {
                self.layout_trees[active].remove(s);
                proof {
                    crate::layout::laws::law_remove_takes_one(
                        before.trees[active as int].shape,
                        s as int,
                    );
                }
            }
            proof {
                assert(self@ =~= before.floated(window, geo));
                assert(self@.arrangeable(0));
            }
        }
        self.relayout(screen, now, num)
    }

    /// Puts a window on top of the floating ones, if it floats.
    pub fn raise_window(&mut self, window: u64)
        requires
            old(self).wf(),
            old(self)@.floating.has_room(),
        ensures
            final(self).wf(),
            final(self)@ == (StateView {
                floating: old(self)@.floating.raised(window),
                ..old(self)@
            }),
    {
        self.floating.raise(window);
    }

    /// The floating windows from the lowest to the highest.
    pub fn floating_z_ordered(&self) -> (r: Vec<u64>)
        requires
            self.wf(),
        ensures
            exists|order: Seq<FloatingWindow>| #[trigger]
                stacks(self@.floating.entries, order) && r@ == windows_of(order),
    {
        let r = self.floating.z_ordered();
        assert(self@.floating.entries == self.floating@.entries);
        r
    }

    /// Whether a window floats.
    pub fn is_floating(&self, window: u64) -> (r: bool)
        ensures
            r == self@.floating.has(window),
    {
        self.floating.contains(window)
    }

    /// Puts a floating window at a place at once, and asks its client for the size
    /// if `reconfigure` is set.
    pub fn set_floating_geo(
        &mut self,
        window: u64,
        geo: WindowGeometry<Double>,
        reconfigure: bool,
    ) -> (effects: Vec<Effect>)
        requires
            old(self).wf(),
            !old(self)@.floating.has(window) ==> old(self)@.floating.has_room(),
        ensures
            final(self).wf(),
            final(self)@ == old(self)@.settled(window, geo),
            effects@ == (if reconfigure {
                seq![Effect::Move(window, geo), Effect::Configure(window, Placement::Free(geo))]
            } else {
                seq![Effect::Move(window, geo)]
            }),
    {
        self.floating.set_geo(window, geo);
        self.animations.remove_window(window);
        let mut effects: Vec<Effect> = Vec::new();
        effects.push(Effect::Move(window, geo));
        if reconfigure {
            effects.push(Effect::Configure(window, Placement::Free(geo)));
        }
        effects
    }

    /// Starts to drag a window, keeping the pointer where it holds it.
    pub fn start_drag<N: Numerics>(&mut self, window: u64, at: OnScreen, num: &N)
        ensures
            exists|x: Double, y: Double, dx: Double, dy: Double|
                {
                    &&& #[trigger] call_ensures(N::double, (num, at.corner().0 as i64), x)
                    &&& #[trigger] call_ensures(N::double, (num, at.corner().1 as i64), y)
                    &&& #[trigger] call_ensures(
                        N::minus,
                        (num, old(self)@.pointer_location.0, x),
                        dx,
                    )
                    &&& #[trigger] call_ensures(
                        N::minus,
                        (num, old(self)@.pointer_location.1, y),
                        dy,
                    )
                    &&& final(self)@ == (StateView {
                        drag_window: Some(window),
                        drag_offset: (dx, dy),
                        ..old(self)@
                    })
                },
            old(self).wf() ==> final(self).wf(),
    {
        let (x, y) = at.origin();
        let x = num.double(x as i64);
        let y = num.double(y as i64);
        let dx = num.minus(self.pointer_location.0, x);
        let dy = num.minus(self.pointer_location.1, y);
        self.drag_offset = (dx, dy);
        self.drag_window = Some(window);
        proof {
            assert(call_ensures(N::double, (num, at.corner().0 as i64), x));
            assert(call_ensures(N::double, (num, at.corner().1 as i64), y));
            assert(call_ensures(N::minus, (num, old(self)@.pointer_location.0, x), dx));
            assert(call_ensures(N::minus, (num, old(self)@.pointer_location.1, y), dy));
        }
    }

    /// Moves the dragged window along with the pointer.
    pub fn update_drag<N: Numerics>(&mut self, num: &N) -> (effects: Vec<Effect>)
        requires
            old(self).wf(),
        ensures
            final(self).wf(),
            old(self)@.drags(*num, final(self)@, effects@),
    {
        let window: u64 = match self.drag_window {
            Some(window) => window,
            None => {
                return Vec::new();
            },
        };
        let geo = match self.floating.geo(window) {
            Some(geo) => geo,
            None => {
                return Vec::new();
            },
        };
        let x = num.minus(self.pointer_location.0, self.drag_offset.0);
        let y = num.minus(self.pointer_location.1, self.drag_offset.1);
        let moved = WindowGeometry { x, y, width: geo.width, height: geo.height };
        let effects = self.set_floating_geo(window, moved, false);
        self.needs_render = true;
        proof {
            let before = old(self)@;
            assert(call_ensures(
                N::minus,
                (num, before.pointer_location.0, before.drag_offset.0),
                x,
            ));
            assert(call_ensures(
                N::minus,
                (num, before.pointer_location.1, before.drag_offset.1),
                y,
            ));
        }
        effects
    }

    /// Lets go of the dragged window.
    pub fn end_drag(&mut self)
        ensures
            final(self)@ == (StateView { drag_window: None, ..old(self)@ }),
            old(self).wf() ==> final(self).wf(),
    {
        self.drag_window = None;
    }

    /// Has the next frame drawn.
    pub fn mark_dirty(&mut self)
        ensures
            final(self)@ == (StateView { needs_render: true, ..old(self)@ }),
            old(self).wf() ==> final(self).wf(),
    {
        self.needs_render = true;
    }

    /// A frame has been drawn.
    pub fn frame_drawn(&mut self)
        ensures
            final(self)@ == (StateView { needs_render: false, ..old(self)@ }),
            old(self).wf() ==> final(self).wf(),
    {
        self.needs_render = false;
    }

    /// Moves the floating window that has the keyboard.
    pub fn move_floating_focused<N: Numerics>(
        &mut self,
        focus: Option<u64>,
        dx: Double,
        dy: Double,
        num: &N,
    ) -> (effects: Vec<Effect>)
        requires
            old(self).wf(),
        ensures
            final(self).wf(),
            old(self)@.moves_floating(focus, dx, dy, *num, final(self)@, effects@),
    {
        let mut effects: Vec<Effect> = Vec::new();
        let window: u64 = match self.focused_window(focus) {
            Some(window) => window,
            None => {
                return effects;
            },
        };
        if let Some(geo) = self.floating.geo_mut(window) {
            let x = num.plus(geo.x, dx);
            let y = num.plus(geo.y, dy);
            geo.x = x;
            geo.y = y;
            let moved = *geo;
            self.needs_render = true;
            effects.push(Effect::Move(window, moved));
            proof {
                let old_geo = old(self)@.floating.geo(window)->0;
                assert(call_ensures(N::plus, (num, old_geo.x, dx), x));
                assert(call_ensures(N::plus, (num, old_geo.y, dy), y));
            }
        }
        effects
    }

    /// Resizes the floating window that has the keyboard.
    pub fn resize_floating_focused<N: Numerics>(
        &mut self,
        focus: Option<u64>,
        dw: Double,
        dh: Double,
        num: &N,
    ) -> (effects: Vec<Effect>)
        requires
            old(self).wf(),
        ensures
            final(self).wf(),
            old(self)@.resizes_floating(focus, dw, dh, *num, final(self)@, effects@),
    {
        let mut effects: Vec<Effect> = Vec::new();
        let window: u64 = match self.focused_window(focus) {
            Some(window) => window,
            None => {
                return effects;
            },
        };
        if let Some(geo) = self.floating.geo_mut(window) {
            let width = num.resized(geo.width, dw, 200);
            let height = num.resized(geo.height, dh, 150);
            geo.width = width;
            geo.height = height;
            let resized = *geo;
            effects.push(Effect::Move(window, resized));
            effects.push(Effect::Configure(window, Placement::Free(resized)));
            self.needs_render = true;
            proof {
                let old_geo = old(self)@.floating.geo(window)->0;
                assert(call_ensures(N::resized, (num, old_geo.width, dw, 200u32), width));
                assert(call_ensures(N::resized, (num, old_geo.height, dh, 150u32), height));
                assert(effects@ =~= seq![
                    Effect::Move(window, resized),
                    Effect::Configure(window, Placement::Free(resized)),
                ]);
            }
        }
        effects
    }

    /// Advances all animations by a frame.
    pub fn tick_animations<N: Numerics>(&mut self, now: u64, num: &N) -> (effects: Vec<Effect>)
        requires
            old(self).wf(),
        ensures
            final(self).wf(),
            old(self)@.ticks(now, *num, final(self)@, effects@),
    {
        let mut effects: Vec<Effect> = Vec::new();
        if !self.animations.has_active_animations() {
            return effects;
        }
        let ghost before = self@;
        let (updates, any_finished) = self.animations.tick(now, num);
        let mut i: usize = 0;
        while i < updates.len()
            invariant
                0 <= i <= updates.len(),
                effects@ == animates(updates@.take(i as int)),
            decreases updates.len() - i,
        {
            let (window, rect) = updates[i];
            effects.push(Effect::Animate(window, rect));
            assert(updates@.take(i + 1).drop_last() =~= updates@.take(i as int));
            assert(animates(updates@.take(i + 1)) =~= animates(updates@.take(i as int)).push(
                Effect::Animate(window, rect),
            ));
            i = i + 1;
        }
        assert(updates@.take(i as int) =~= updates@);
        if any_finished {
            self.needs_render = true;
        }
        proof {
            assert(before.animations.moved(self@.animations, updates@));
        }
        effects
    }

    /// Whether the next frame has to be drawn: something has changed, or a window
    /// is moving.
    pub fn should_render(&self) -> (r: bool)
        ensures
            r == (self@.needs_render || self@.animations.active()),
    {
        self.needs_render || self.animations.has_active_animations()
    }
}

} // verus!
