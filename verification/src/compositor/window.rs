//! The animations of the windows.

use crate::animation::{presets, Animation, AnimationCurve};
use crate::numerics::{measures_steadily, Numerics};
use crate::scalar::Double;
use std::collections::HashMap;
use vstd::prelude::*;

verus! {

/// The place of a window while it moves.
#[derive(Clone, Copy, Debug, PartialEq, Eq, Structural)]
pub struct AnimatedRect {
    pub x: Double,
    pub y: Double,
    pub width: Double,
    pub height: Double,
}

impl AnimatedRect {
    /// `point` is the corner of the rectangle in pixels.
    pub open spec fn corner<N: Numerics>(self, num: N, point: (i32, i32)) -> bool {
        &&& call_ensures(N::truncated, (&num, self.x), point.0)
        &&& call_ensures(N::truncated, (&num, self.y), point.1)
    }

    /// The corner of the rectangle in pixels.
    pub fn to_point<N: Numerics>(&self, num: &N) -> (point: (i32, i32))
        ensures
            self.corner(*num, point),
    {
        (num.truncated(self.x), num.truncated(self.y))
    }
}

/// Which of the four numbers of a rectangle something holds of.
#[derive(Clone, Copy, Debug, PartialEq, Eq, Structural)]
pub struct Axes {
    pub x: bool,
    pub y: bool,
    pub width: bool,
    pub height: bool,
}

/// `axes` tells which numbers of two rectangles were found far apart.
pub open spec fn compares<N: Numerics>(
    num: N,
    a: AnimatedRect,
    b: AnimatedRect,
    axes: Axes,
) -> bool {
    &&& call_ensures(N::far, (&num, a.x, b.x), axes.x)
    &&& call_ensures(N::far, (&num, a.y, b.y), axes.y)
    &&& call_ensures(N::far, (&num, a.width, b.width), axes.width)
    &&& call_ensures(N::far, (&num, a.height, b.height), axes.height)
}

/// Two rectangles were found apart if any of their numbers was, and together if
/// all of them were.
pub open spec fn parts<N: Numerics>(
    num: N,
    a: AnimatedRect,
    b: AnimatedRect,
    apart: bool,
) -> bool {
    if apart {
        ||| call_ensures(N::far, (&num, a.x, b.x), true)
        ||| call_ensures(N::far, (&num, a.y, b.y), true)
        ||| call_ensures(N::far, (&num, a.width, b.width), true)
        ||| call_ensures(N::far, (&num, a.height, b.height), true)
    } else {
        compares(num, a, b, Axes { x: false, y: false, width: false, height: false })
    }
}

/// The animation of one window: each of its four numbers is animated on its own.
#[derive(Clone, Copy, Debug, PartialEq, Eq, Structural)]
pub struct WindowAnimation {
    pub x: Option<Animation>,
    pub y: Option<Animation>,
    pub width: Option<Animation>,
    pub height: Option<Animation>,
    pub current: AnimatedRect,
    pub target: AnimatedRect,
}

/// The animation of one number after a new target: a new one if the number has
/// to move, else the one that it had.
pub open spec fn axis_to(
    anim: Option<Animation>,
    moves: bool,
    from: Double,
    to: Double,
    curve: AnimationCurve,
    duration: u64,
    now: u64,
) -> Option<Animation> {
    if moves {
        Some(Animation { start: from, end: to, started_at: now, duration, curve })
    } else {
        anim
    }
}

/// The animation of one number after a frame: over once its duration is.
pub open spec fn axis_ticked(anim: Option<Animation>, now: u64) -> Option<Animation> {
    match anim {
        Some(a) => if a.finished_at(now) {
            None
        } else {
            anim
        },
        None => None,
    }
}

/// `value` is one number after a frame: the target at the end of its animation,
/// the value of the animation while it runs, and what it was without one.
pub open spec fn axis_value<N: Numerics>(
    anim: Option<Animation>,
    current: Double,
    target: Double,
    now: u64,
    num: N,
    value: Double,
) -> bool {
    match anim {
        Some(a) => if a.finished_at(now) {
            value == target
        } else {
            call_ensures(N::sample, (&num, a, a.elapsed_at(now)), value)
        },
        None => value == current,
    }
}

impl WindowAnimation {
    /// Whether any of the four numbers is moving.
    pub open spec fn animating(self) -> bool {
        self.x is Some || self.y is Some || self.width is Some || self.height is Some
    }

    /// The animation after a new target, given which numbers have to move.
    pub open spec fn animated_to(
        self,
        target: AnimatedRect,
        moves: Axes,
        curve: AnimationCurve,
        duration: u64,
        now: u64,
    ) -> WindowAnimation {
        let from = self.current;
        WindowAnimation {
            x: axis_to(self.x, moves.x, from.x, target.x, curve, duration, now),
            y: axis_to(self.y, moves.y, from.y, target.y, curve, duration, now),
            width: axis_to(
                self.width,
                moves.width,
                from.width,
                target.width,
                curve,
                duration,
                now,
            ),
            height: axis_to(
                self.height,
                moves.height,
                from.height,
                target.height,
                curve,
                duration,
                now,
            ),
            current: from,
            target,
        }
    }

    /// `next` is the animation after a frame.
    pub open spec fn ticks_to<N: Numerics>(
        self,
        now: u64,
        num: N,
        next: WindowAnimation,
    ) -> bool {
        let (c, t, n) = (self.current, self.target, next.current);
        &&& next.target == self.target
        &&& next.x == axis_ticked(self.x, now)
        &&& next.y == axis_ticked(self.y, now)
        &&& next.width == axis_ticked(self.width, now)
        &&& next.height == axis_ticked(self.height, now)
        &&& axis_value(self.x, c.x, t.x, now, num, n.x)
        &&& axis_value(self.y, c.y, t.y, now, num, n.y)
        &&& axis_value(self.width, c.width, t.width, now, num, n.width)
        &&& axis_value(self.height, c.height, t.height, now, num, n.height)
    }

    /// Starts towards a new target. Numbers that are no more than a pixel away from
    /// it stay where they are.
    pub fn animate_to<N: Numerics>(
        &mut self,
        target: AnimatedRect,
        curve: AnimationCurve,
        duration: u64,
        now: u64,
        num: &N,
    )
        ensures
            exists|moves: Axes| #[trigger]
                compares(*num, old(self).current, target, moves) && *final(self)
                    == old(self).animated_to(target, moves, curve, duration, now),
    {
        let from = self.current;
        self.target = target;
        let x = num.far(from.x, target.x);
        if x {
            self.x = Some(Animation::new(from.x, target.x, duration, curve, now));
        }
        let y = num.far(from.y, target.y);
        if y {
            self.y = Some(Animation::new(from.y, target.y, duration, curve, now));
        }
        let width = num.far(from.width, target.width);
        if width {
            self.width = Some(Animation::new(from.width, target.width, duration, curve, now));
        }
        let height = num.far(from.height, target.height);
        if height {
            self.height = Some(Animation::new(from.height, target.height, duration, curve, now));
        }
        proof {
            let moves = Axes { x, y, width, height };
            assert(compares(*num, from, target, moves));
        }
    }

    /// Advances the animation by a frame and tells whether it still runs.
    pub fn tick<N: Numerics>(&mut self, now: u64, num: &N) -> (r: bool)
        ensures
            old(self).ticks_to(now, *num, *final(self)),
            r == final(self).animating(),
    {
        let mut animating = false;
        if let Some(anim) = self.x {
            self.current.x = anim.value(now, num);
            if anim.is_finished(now) {
                self.current.x = self.target.x;
                self.x = None;
            } else {
                animating = true;
            }
        }
        if let Some(anim) = self.y {
            self.current.y = anim.value(now, num);
            if anim.is_finished(now) {
                self.current.y = self.target.y;
                self.y = None;
            } else {
                animating = true;
            }
        }
        if let Some(anim) = self.width {
            self.current.width = anim.value(now, num);
            if anim.is_finished(now) {
                self.current.width = self.target.width;
                self.width = None;
            } else {
                animating = true;
            }
        }
        if let Some(anim) = self.height {
            self.current.height = anim.value(now, num);
            if anim.is_finished(now) {
                self.current.height = self.target.height;
                self.height = None;
            } else {
                animating = true;
            }
        }
        animating
    }

    /// Whether any of the four numbers is moving.
    pub fn is_animating(&self) -> (r: bool)
        ensures
            r == self.animating(),
    {
        self.x.is_some() || self.y.is_some() || self.width.is_some() || self.height.is_some()
    }
}

/// The animations of all windows.
pub struct AnimationManager {
    animations: HashMap<u64, WindowAnimation>,
    /// How long an animation takes, in nanoseconds.
    pub duration: u64,
    /// The curve of new animations.
    pub curve: AnimationCurve,
}

/// What the animations of all windows stand for.
#[verifier::ext_equal]
pub struct AnimationsView {
    pub windows: Map<u64, WindowAnimation>,
    pub duration: u64,
    pub curve: AnimationCurve,
}

impl View for AnimationManager {
    type V = AnimationsView;

    closed spec fn view(&self) -> AnimationsView {
        AnimationsView {
            windows: self.animations@,
            duration: self.duration,
            curve: self.curve,
        }
    }
}

impl AnimationsView {
    /// No animations, and new ones of 350 milliseconds on a spring.
    pub open spec fn fresh() -> AnimationsView {
        AnimationsView {
            windows: Map::empty(),
            duration: 350_000_000,
            curve: AnimationCurve::Spring {
                stiffness: Double { bits: 0x4079_0000_0000_0000 },
                damping: Double { bits: 0x403e_0000_0000_0000 },
                mass: Double { bits: 0x3ff0_0000_0000_0000 },
            },
        }
    }

    /// Whether any window is moving.
    pub open spec fn active(self) -> bool {
        exists|w: u64| #[trigger] self.windows.contains_key(w) && self.windows[w].animating()
    }

    /// Without the animation of one window.
    pub open spec fn without(self, window: u64) -> AnimationsView {
        AnimationsView { windows: self.windows.remove(window), ..self }
    }

    /// Without the animations of several windows.
    pub open spec fn without_all(self, windows: Seq<u64>) -> AnimationsView
        decreases windows.len(),
    {
        if windows.len() == 0 {
            self
        } else {
            self.without_all(windows.drop_last()).without(windows.last())
        }
    }

    /// With a window at another place, and no longer on its way there.
    pub open spec fn placed(self, window: u64, x: Double, y: Double) -> AnimationsView {
        let anim = self.windows[window];
        if self.windows.contains_key(window) {
            AnimationsView {
                windows: self.windows.insert(
                    window,
                    WindowAnimation {
                        x: None,
                        y: None,
                        current: AnimatedRect { x, y, ..anim.current },
                        ..anim
                    },
                ),
                ..self
            }
        } else {
            self
        }
    }

    /// `next` has a window on its way from `initial` to `target`.
    pub open spec fn adds<N: Numerics>(
        self,
        window: u64,
        target: AnimatedRect,
        initial: AnimatedRect,
        now: u64,
        num: N,
        next: AnimationsView,
    ) -> bool {
        let still = WindowAnimation {
            x: None,
            y: None,
            width: None,
            height: None,
            current: initial,
            target,
        };
        exists|moves: Axes| #[trigger]
            compares(num, initial, target, moves) && next == (AnimationsView {
                windows: self.windows.insert(
                    window,
                    still.animated_to(target, moves, self.curve, self.duration, now),
                ),
                ..self
            })
    }

    /// `next` has a window on its way to a new target, if it is known and the
    /// target is not where it is going already.
    pub open spec fn retargets<N: Numerics>(
        self,
        window: u64,
        target: AnimatedRect,
        now: u64,
        num: N,
        next: AnimationsView,
    ) -> bool {
        let anim = self.windows[window];
        if !self.windows.contains_key(window) {
            next == self
        } else {
            ||| parts(num, anim.target, target, false) && next == self
            ||| {
                &&& parts(num, anim.target, target, true)
                &&& exists|moves: Axes| #[trigger]
                    compares(num, anim.current, target, moves) && next == (AnimationsView {
                        windows: self.windows.insert(
                            window,
                            anim.animated_to(target, moves, self.curve, self.duration, now),
                        ),
                        ..self
                    })
            }
        }
    }

    /// `next` has all of several windows on their way to new targets, one after
    /// the other.
    pub open spec fn retargets_all<N: Numerics>(
        self,
        targets: Seq<(u64, AnimatedRect)>,
        now: u64,
        num: N,
        next: AnimationsView,
    ) -> bool
        decreases targets.len(),
    {
        if targets.len() == 0 {
            next == self
        } else {
            exists|mid: AnimationsView|
                self.retargets_all(targets.drop_last(), now, num, mid) && #[trigger] mid.retargets(
                    targets.last().0,
                    targets.last().1,
                    now,
                    num,
                    next,
                )
        }
    }

    /// `next` is what a frame makes of the animations: every window that was
    /// moving has advanced.
    pub open spec fn ticks_to<N: Numerics>(
        self,
        now: u64,
        num: N,
        next: AnimationsView,
    ) -> bool {
        &&& next.windows.dom() == self.windows.dom()
        &&& next.duration == self.duration
        &&& next.curve == self.curve
        &&& forall|w: u64| #[trigger]
            self.windows.contains_key(w) ==> if self.windows[w].animating() {
                self.windows[w].ticks_to(now, num, next.windows[w])
            } else {
                next.windows[w] == self.windows[w]
            }
    }

    /// `updates` are the places in `next` of the windows that were moving, each
    /// once. Their order is open.
    pub open spec fn moved(self, next: AnimationsView, updates: Seq<(u64, AnimatedRect)>) -> bool {
        &&& forall|i: int, j: int|
            0 <= i < j < updates.len() ==> (#[trigger] updates[i]).0 != (#[trigger] updates[j]).0
        &&& forall|i: int|
            0 <= i < updates.len() ==> {
                let (w, rect) = #[trigger] updates[i];
                &&& self.windows.contains_key(w)
                &&& self.windows[w].animating()
                &&& rect == next.windows[w].current
            }
        &&& forall|w: u64| #[trigger]
            self.windows.contains_key(w) && self.windows[w].animating() ==> exists|i: int|
                0 <= i < updates.len() && (#[trigger] updates[i]).0 == w
    }

    /// Whether a window that was moving has come to rest.
    pub open spec fn any_finished(self, next: AnimationsView) -> bool {
        exists|w: u64| #[trigger]
            self.windows.contains_key(w) && self.windows[w].animating()
                && !next.windows[w].animating()
    }
}

impl AnimationManager {
    /// No animations. New ones take 350 milliseconds.
    pub fn new() -> (r: Self)
        ensures
            r@ == AnimationsView::fresh(),
    {
        AnimationManager {
            animations: HashMap::new(),
            duration: 350_000_000,
            curve: presets::default_window(),
        }
    }

    /// Starts the animation with which a new window appears, from `initial` to
    /// `target`.
    pub fn add_window<N: Numerics>(
        &mut self,
        window: u64,
        target: AnimatedRect,
        initial: AnimatedRect,
        now: u64,
        num: &N,
    )
        ensures
            old(self)@.adds(window, target, initial, now, *num, final(self)@),
    {
        broadcast use vstd::std_specs::hash::group_hash_axioms;

        let mut anim = WindowAnimation {
            x: None,
            y: None,
            width: None,
            height: None,
            current: initial,
            target,
        };
        let ghost still = anim;
        anim.animate_to(target, self.curve, self.duration, now, num);
        self.animations.insert(window, anim);
        proof {
            let moves = choose|moves: Axes| #[trigger]
                compares(*num, initial, target, moves) && anim == still.animated_to(
                    target,
                    moves,
                    self.curve,
                    self.duration,
                    now,
                );
            assert(compares(*num, initial, target, moves));
        }
    }

    /// Forgets a window.
    pub fn remove_window(&mut self, window: u64)
        ensures
            final(self)@ == old(self)@.without(window),
    {
        broadcast use vstd::std_specs::hash::group_hash_axioms;

        self.animations.remove(&window);
        assert(self@.windows == old(self)@.windows.remove(window));
    }

    fn retarget_one<N: Numerics>(
        &mut self,
        window: u64,
        target: AnimatedRect,
        now: u64,
        num: &N,
    )
        ensures
            old(self)@.retargets(window, target, now, *num, final(self)@),
    {
        broadcast use vstd::std_specs::hash::group_hash_axioms;

        let found = match self.animations.get(&window) {
            None => None,
            Some(anim) => Some(*anim),
        };
        if let Some(mut anim) = found {
            let ghost before = anim;
            let goal = anim.target;
            if num.far(goal.x, target.x) || num.far(goal.y, target.y) || num.far(goal.width, target.width)
                || num.far(goal.height, target.height) {
                anim.animate_to(target, self.curve, self.duration, now, num);
                self.animations.insert(window, anim);
                proof {
                    let moves = choose|moves: Axes| #[trigger]
                        compares(*num, before.current, target, moves) && anim == before.animated_to(
                            target,
                            moves,
                            self.curve,
                            self.duration,
                            now,
                        );
                    assert(compares(*num, before.current, target, moves));
                    assert(parts(*num, before.target, target, true));
                }
            } else {
                assert(parts(*num, before.target, target, false));
            }
        }
    }

    /// Gives windows new targets after the layout has changed. Those whose target
    /// stays within a pixel of the old one keep their animation.
    pub fn retarget<N: Numerics>(
        &mut self,
        targets: &Vec<(u64, AnimatedRect)>,
        now: u64,
        num: &N,
    )
        ensures
            old(self)@.retargets_all(targets@, now, *num, final(self)@),
    {
        let mut i: usize = 0;
        assert(targets@.take(0).len() == 0);
        while i < targets.len()
            invariant
                0 <= i <= targets.len(),
                old(self)@.retargets_all(targets@.take(i as int), now, *num, self@),
            decreases targets.len() - i,
        {
            let (window, target) = targets[i];
            let ghost mid = self@;
            self.retarget_one(window, target, now, num);
            proof {
                let more = targets@.take(i + 1);
                assert(more.drop_last() =~= targets@.take(i as int));
                assert(more.last() == targets@[i as int]);
                assert(mid.retargets(more.last().0, more.last().1, now, *num, self@));
            }
            i = i + 1;
        }
        assert(targets@.take(i as int) =~= targets@);
    }

    /// The windows that have an animation state, each once.
    fn known_windows(&self) -> (keys: Vec<u64>)
        ensures
            keys@.no_duplicates(),
            keys@.to_set() == self@.windows.dom(),
    {
        broadcast use vstd::std_specs::hash::group_hash_axioms;

        let mut keys: Vec<u64> = Vec::new();
        for k in it: self.animations.keys()
            invariant
                keys@ == it.seq().unref().take(it.index() as int),
                it.index() == it.seq().len() ==> keys@ =~= it.seq().unref(),
                it.seq().unref().to_set() == self.animations@.dom(),
                it.seq().no_duplicates(),
        {
            keys.push(*k);
        }
        keys
    }

    /// Advances all animations by a frame. Returns the new places of the windows
    /// that were moving, and whether any of them has come to rest.
    pub fn tick<N: Numerics>(&mut self, now: u64, num: &N) -> (r: (
        Vec<(u64, AnimatedRect)>,
        bool,
    ))
        ensures
            old(self)@.ticks_to(now, *num, final(self)@),
            old(self)@.moved(final(self)@, r.0@),
            r.1 == old(self)@.any_finished(final(self)@),
    {
        broadcast use vstd::std_specs::hash::group_hash_axioms;

        let keys = self.known_windows();
        let mut updates: Vec<(u64, AnimatedRect)> = Vec::new();
        let mut any_finished: bool = false;
        let mut i: usize = 0;
        let ghost before = self@;
        assert forall|w: u64| #[trigger] before.windows.contains_key(w) implies keys@.contains(
            w,
        ) by {
            assert(keys@.to_set().contains(w));
        }
        while i < keys.len()
            invariant
                0 <= i <= keys.len(),
                old(self)@ == before,
                keys@.no_duplicates(),
                forall|w: u64| #[trigger] before.windows.contains_key(w) ==> keys@.contains(w),
                forall|k: int|
                    0 <= k < keys.len() ==> before.windows.contains_key(#[trigger] keys@[k]),
                self@.windows.dom() == before.windows.dom(),
                self@.duration == before.duration,
                self@.curve == before.curve,
                forall|k: int|
                    i <= k < keys.len() ==> self@.windows[#[trigger] keys@[k]]
                        == before.windows[keys@[k]],
                forall|k: int|
                    0 <= k < i ==> {
                        let w = #[trigger] keys@[k];
                        if before.windows[w].animating() {
                            before.windows[w].ticks_to(now, *num, self@.windows[w])
                        } else {
                            self@.windows[w] == before.windows[w]
                        }
                    },
                forall|a: int|
                    0 <= a < updates.len() ==> {
                        let (w, rect) = #[trigger] updates@[a];
                        &&& exists|k: int| 0 <= k < i && #[trigger] keys@[k] == w
                        &&& before.windows[w].animating()
                        &&& rect == self@.windows[w].current
                    },
                forall|a: int, b: int|
                    0 <= a < b < updates.len() ==> (#[trigger] updates@[a]).0 != (
                    #[trigger] updates@[b]).0,
                forall|k: int|
                    0 <= k < i && before.windows[#[trigger] keys@[k]].animating() ==> exists|a: int|
                        0 <= a < updates.len() && (#[trigger] updates@[a]).0 == keys@[k],
                any_finished == exists|k: int|
                    0 <= k < i && before.windows[#[trigger] keys@[k]].animating()
                        && !self@.windows[keys@[k]].animating(),
            decreases keys.len() - i,
        {
            let window: u64 = keys[i];
            let ghost earlier = self@;
            let ghost was = updates@;
            let ghost had = any_finished;
            let found = match self.animations.get(&window) {
                None => None,
                Some(anim) => Some(*anim),
            };
            assert(before.windows.contains_key(keys@[i as int]));
            if let Some(mut anim) = found {
                if anim.is_animating() {
                    let still_animating: bool = anim.tick(now, num);
                    if !still_animating {
                        any_finished = true;
                    }
                    self.animations.insert(window, anim);
                    updates.push((window, anim.current));
                    assert(updates@[was.len() as int].0 == window);
                    assert(forall|a: int| 0 <= a < was.len() ==> #[trigger] updates@[a] == was[a]);
                }
            }
            proof {
                assert(forall|k: int|
                    0 <= k < keys.len() && k != i ==> self@.windows[#[trigger] keys@[k]]
                        == earlier.windows[keys@[k]]);
                assert(self@.windows.dom() =~= before.windows.dom());
                assert forall|k: int|
                    0 <= k < i + 1 && before.windows[
                    #[trigger] keys@[k]].animating() implies exists|a: int|
                    0 <= a < updates.len() && (#[trigger] updates@[a]).0 == keys@[k] by {
                    if k < i {
                        let a = choose|a: int|
                            0 <= a < was.len() && (#[trigger] was[a]).0 == keys@[k];
                        assert(updates@[a].0 == keys@[k]);
                    }
                }
                if any_finished && !had {
                    assert(!self@.windows[keys@[i as int]].animating());
                }
            }
            i = i + 1;
        }
        proof {
            assert forall|w: u64| #[trigger]
                before.windows.contains_key(w) implies if before.windows[w].animating() {
                before.windows[w].ticks_to(now, *num, self@.windows[w])
            } else {
                self@.windows[w] == before.windows[w]
            } by {
                assert(keys@.contains(w));
                let k = choose|k: int| 0 <= k < keys.len() && #[trigger] keys@[k] == w;
                assert(keys@[k] == w);
            }
            assert forall|w: u64| #[trigger]
                before.windows.contains_key(w)
                    && before.windows[w].animating() implies exists|a: int|
                0 <= a < updates.len() && (#[trigger] updates@[a]).0 == w by {
                assert(keys@.contains(w));
                let k = choose|k: int| 0 <= k < keys.len() && #[trigger] keys@[k] == w;
                assert(keys@[k] == w);
            }
            if before.any_finished(self@) {
                let w = choose|w: u64| #[trigger]
                    before.windows.contains_key(w) && before.windows[w].animating()
                        && !self@.windows[w].animating();
                assert(keys@.contains(w));
                let k = choose|k: int| 0 <= k < keys.len() && #[trigger] keys@[k] == w;
                assert(before.windows[keys@[k]].animating());
            }
        }
        (updates, any_finished)
    }

    /// Whether any window is moving.
    pub fn has_active_animations(&self) -> (r: bool)
        ensures
            r == self@.active(),
    {
        broadcast use vstd::std_specs::hash::group_hash_axioms;

        let keys = self.known_windows();
        assert forall|w: u64| #[trigger] self@.windows.contains_key(w) implies keys@.contains(
            w,
        ) by {
            assert(keys@.to_set().contains(w));
        }
        let mut i: usize = 0;
        while i < keys.len()
            invariant
                0 <= i <= keys.len(),
                keys@.to_set() == self@.windows.dom(),
                forall|k: int|
                    0 <= k < i ==> !self@.windows[#[trigger] keys@[k]].animating(),
            decreases keys.len() - i,
        {
            let window: u64 = keys[i];
            assert(keys@.to_set().contains(window));
            if let Some(anim) = self.animations.get(&window) {
                if anim.is_animating() {
                    assert(self@.windows.contains_key(window));
                    return true;
                }
            }
            i = i + 1;
        }
        assert forall|w: u64| #[trigger]
            self@.windows.contains_key(w) implies !self@.windows[w].animating() by {
            assert(keys@.contains(w));
        }
        false
    }

    /// Where a window is now, in pixels.
    pub fn get_position<N: Numerics>(&self, window: u64, num: &N) -> (r: Option<(i32, i32)>)
        ensures
            match r {
                Some(point) => self@.windows.contains_key(window)
                    && self@.windows[window].current.corner(*num, point),
                None => !self@.windows.contains_key(window),
            },
    {
        broadcast use vstd::std_specs::hash::group_hash_axioms;

        match self.animations.get(&window) {
            None => None,
            Some(anim) => Some(anim.current.to_point(num)),
        }
    }

    /// Puts a window that is being dragged at a place at once, and drops what is
    /// left of its way there.
    pub fn set_current_position(&mut self, window: u64, x: Double, y: Double)
        ensures
            final(self)@ == old(self)@.placed(window, x, y),
    {
        broadcast use vstd::std_specs::hash::group_hash_axioms;

        let found = match self.animations.get(&window) {
            None => None,
            Some(anim) => Some(*anim),
        };
        if let Some(mut anim) = found {
            anim.current.x = x;
            anim.current.y = y;
            anim.x = None;
            anim.y = None;
            self.animations.insert(window, anim);
        }
    }

    /// Where a window is going: the place that the layout gave it, whether or not
    /// its client has followed yet.
    pub fn get_target(&self, window: u64) -> (r: Option<AnimatedRect>)
        ensures
            r == (if self@.windows.contains_key(window) {
                Some(self@.windows[window].target)
            } else {
                None
            }),
    {
        broadcast use vstd::std_specs::hash::group_hash_axioms;

        match self.animations.get(&window) {
            None => None,
            Some(anim) => Some(anim.target),
        }
    }

    /// What a window does when it gets the focus: nothing, so that the layout
    /// stays as it is.
    pub fn nudge_focus(&mut self, _window: u64)
        ensures
            *final(self) == *old(self),
    {
    }
}

/// A window whose animations are over is at rest after the next frame, each
/// number that was moving at its target and the others where they were.
pub proof fn law_window_settles<N: Numerics>(
    anim: WindowAnimation,
    now: u64,
    num: N,
    next: WindowAnimation,
)
    requires
        anim.ticks_to(now, num, next),
        anim.x is Some ==> anim.x->0.finished_at(now),
        anim.y is Some ==> anim.y->0.finished_at(now),
        anim.width is Some ==> anim.width->0.finished_at(now),
        anim.height is Some ==> anim.height->0.finished_at(now),
    ensures
        !next.animating(),
        next.target == anim.target,
        next.current.x == (if anim.x is Some { anim.target.x } else { anim.current.x }),
        next.current.y == (if anim.y is Some { anim.target.y } else { anim.current.y }),
        next.current.width == (if anim.width is Some {
            anim.target.width
        } else {
            anim.current.width
        }),
        next.current.height == (if anim.height is Some {
            anim.target.height
        } else {
            anim.current.height
        }),
{
}

/// A new window is at rest after the first frame once the duration is over, each
/// number at its target unless it was close to it from the start.
pub proof fn law_added_window_settles<N: Numerics>(
    before: AnimationsView,
    window: u64,
    target: AnimatedRect,
    initial: AnimatedRect,
    start: u64,
    num: N,
    added: AnimationsView,
    now: u64,
    after: AnimationsView,
)
    requires
        before.adds(window, target, initial, start, num, added),
        start + before.duration <= now,
        added.ticks_to(now, num, after),
    ensures
        after.windows.contains_key(window),
        !after.windows[window].animating(),
        after.windows[window].target == target,
        ({
            let place = after.windows[window].current;
            &&& place.x == target.x || (place.x == initial.x && call_ensures(
                N::far,
                (&num, initial.x, target.x),
                false,
            ))
            &&& place.y == target.y || (place.y == initial.y && call_ensures(
                N::far,
                (&num, initial.y, target.y),
                false,
            ))
            &&& place.width == target.width || (place.width == initial.width && call_ensures(
                N::far,
                (&num, initial.width, target.width),
                false,
            ))
            &&& place.height == target.height || (place.height == initial.height && call_ensures(
                N::far,
                (&num, initial.height, target.height),
                false,
            ))
        }),
{
    assert(added.windows.contains_key(window));
    assert(after.windows.dom().contains(window));
}

/// A frame changes nothing, moves nothing and ends nothing while no window is
/// moving.
pub proof fn law_rest_is_stable<N: Numerics>(
    before: AnimationsView,
    now: u64,
    num: N,
    after: AnimationsView,
    updates: Seq<(u64, AnimatedRect)>,
)
    requires
        !before.active(),
        before.ticks_to(now, num, after),
        before.moved(after, updates),
    ensures
        after == before,
        updates.len() == 0,
        !before.any_finished(after),
{
    assert forall|w: u64| #[trigger]
        before.windows.contains_key(w) implies after.windows[w] == before.windows[w] by {
        assert(!before.windows[w].animating());
    }
    assert(after.windows =~= before.windows);
    if updates.len() > 0 {
        assert(before.windows.contains_key(updates[0].0));
    }
}

/// The frame in which a window comes to rest reports it: if windows were moving
/// and none is any more, something has come to rest, so that frame is drawn.
pub proof fn law_last_frame_reported<N: Numerics>(
    before: AnimationsView,
    now: u64,
    num: N,
    after: AnimationsView,
)
    requires
        before.active(),
        before.ticks_to(now, num, after),
        !after.active(),
    ensures
        before.any_finished(after),
{
    let w = choose|w: u64| #[trigger]
        before.windows.contains_key(w) && before.windows[w].animating();
    assert(after.windows.dom().contains(w));
    assert(after.windows.contains_key(w));
}

/// New targets neither add nor remove a window: those that are not known are
/// ignored.
pub proof fn law_retarget_keeps_windows<N: Numerics>(
    state: AnimationsView,
    targets: Seq<(u64, AnimatedRect)>,
    now: u64,
    num: N,
    next: AnimationsView,
)
    requires
        state.retargets_all(targets, now, num, next),
    ensures
        next.windows.dom() == state.windows.dom(),
        next.duration == state.duration,
        next.curve == state.curve,
    decreases targets.len(),
{
    if targets.len() > 0 {
        let mid = choose|mid: AnimationsView|
            state.retargets_all(targets.drop_last(), now, num, mid) && #[trigger] mid.retargets(
                targets.last().0,
                targets.last().1,
                now,
                num,
                next,
            );
        law_retarget_keeps_windows(state, targets.drop_last(), now, num, mid);
        assert(next.windows.dom() =~= mid.windows.dom());
    }
}

/// Whatever is answered on distances, every window that is known is afterwards on its
/// way to its target, or was on its way to a place that was found to be near it. The
/// targets must be of different windows.
pub proof fn law_retarget_reaches<N: Numerics>(
    state: AnimationsView,
    targets: Seq<(u64, AnimatedRect)>,
    now: u64,
    num: N,
    next: AnimationsView,
    k: int,
)
    requires
        forall|i: int, j: int|
            0 <= i < j < targets.len() ==> (#[trigger] targets[i]).0 != (#[trigger] targets[j]).0,
        state.retargets_all(targets, now, num, next),
        0 <= k < targets.len(),
        state.windows.contains_key(targets[k].0),
    ensures
        next.windows.contains_key(targets[k].0),
        ({
            let (w, goal) = targets[k];
            ||| next.windows[w].target == goal
            ||| parts(num, next.windows[w].target, goal, false) && next.windows[w]
                == state.windows[w]
        }),
    decreases targets.len(),
{
    let head = targets.drop_last();
    let last = targets.last();
    let mid = choose|mid: AnimationsView|
        state.retargets_all(head, now, num, mid) && #[trigger] mid.retargets(
            last.0,
            last.1,
            now,
            num,
            next,
        );
    law_retarget_keeps_windows(state, head, now, num, mid);
    assert(mid.windows.dom().contains(targets[k].0));
    assert forall|i: int, j: int| 0 <= i < j < head.len() implies (#[trigger] head[i]).0 != (
    #[trigger] head[j]).0 by {
        assert(targets[i].0 != targets[j].0);
    }
    if k < head.len() {
        assert(head[k] == targets[k]);
        assert(targets[k].0 != targets[targets.len() - 1].0);
        law_retarget_reaches(state, head, now, num, mid, k);
    } else {
        assert forall|i: int| 0 <= i < head.len() implies (#[trigger] head[i]).0 != last.0 by {
            assert(targets[i].0 != targets[targets.len() - 1].0);
        }
        lemma_others_kept(state, head, now, num, mid, last.0);
    }
}

/// New targets leave a window as it is that none of them is for.
proof fn lemma_others_kept<N: Numerics>(
    state: AnimationsView,
    targets: Seq<(u64, AnimatedRect)>,
    now: u64,
    num: N,
    next: AnimationsView,
    window: u64,
)
    requires
        state.retargets_all(targets, now, num, next),
        forall|i: int| 0 <= i < targets.len() ==> (#[trigger] targets[i]).0 != window,
        state.windows.contains_key(window),
    ensures
        next.windows.contains_key(window),
        next.windows[window] == state.windows[window],
    decreases targets.len(),
{
    if targets.len() > 0 {
        let head = targets.drop_last();
        let last = targets.last();
        let mid = choose|mid: AnimationsView|
            state.retargets_all(head, now, num, mid) && #[trigger] mid.retargets(
                last.0,
                last.1,
                now,
                num,
                next,
            );
        assert forall|i: int| 0 <= i < head.len() implies (#[trigger] head[i]).0 != window by {
            assert(head[i] == targets[i]);
        }
        assert(targets[targets.len() - 1].0 != window);
        lemma_others_kept(state, head, now, num, mid, window);
    }
}

/// Every window that is known is on its way to about its target.
pub open spec fn heads_for<N: Numerics>(
    state: AnimationsView,
    targets: Seq<(u64, AnimatedRect)>,
    num: N,
) -> bool {
    forall|k: int|
        0 <= k < targets.len() && state.windows.contains_key((#[trigger] targets[k]).0) ==> !parts(
            num,
            state.windows[targets[k].0].target,
            targets[k].1,
            true,
        )
}

proof fn lemma_retargeted<N: Numerics>(
    state: AnimationsView,
    targets: Seq<(u64, AnimatedRect)>,
    now: u64,
    num: N,
    next: AnimationsView,
)
    requires
        measures_steadily(num),
        forall|i: int, j: int|
            0 <= i < j < targets.len() ==> (#[trigger] targets[i]).0 != (#[trigger] targets[j]).0,
        state.retargets_all(targets, now, num, next),
    ensures
        heads_for(next, targets, num),
    decreases targets.len(),
{
    if targets.len() > 0 {
        let head = targets.drop_last();
        let last = targets.last();
        let mid = choose|mid: AnimationsView|
            state.retargets_all(head, now, num, mid) && #[trigger] mid.retargets(
                last.0,
                last.1,
                now,
                num,
                next,
            );
        assert forall|i: int, j: int| 0 <= i < j < head.len() implies (#[trigger] head[i]).0 != (
        #[trigger] head[j]).0 by {
            assert(targets[i].0 != targets[j].0);
        }
        lemma_retargeted(state, head, now, num, mid);
        assert forall|k: int|
            0 <= k < targets.len() && next.windows.contains_key(
                (#[trigger] targets[k]).0,
            ) implies !parts(num, next.windows[targets[k].0].target, targets[k].1, true) by {
            if k < head.len() {
                assert(head[k] == targets[k]);
                assert(targets[k].0 != targets[targets.len() - 1].0);
            }
        }
    }
}

proof fn lemma_no_retarget<N: Numerics>(
    state: AnimationsView,
    targets: Seq<(u64, AnimatedRect)>,
    now: u64,
    num: N,
    next: AnimationsView,
)
    requires
        heads_for(state, targets, num),
        state.retargets_all(targets, now, num, next),
    ensures
        next == state,
    decreases targets.len(),
{
    if targets.len() > 0 {
        let head = targets.drop_last();
        let last = targets.last();
        let mid = choose|mid: AnimationsView|
            state.retargets_all(head, now, num, mid) && #[trigger] mid.retargets(
                last.0,
                last.1,
                now,
                num,
                next,
            );
        assert forall|k: int|
            0 <= k < head.len() && state.windows.contains_key(
                (#[trigger] head[k]).0,
            ) implies !parts(num, state.windows[head[k].0].target, head[k].1, true) by {
            assert(head[k] == targets[k]);
        }
        lemma_no_retarget(state, head, now, num, mid);
        assert(targets[targets.len() - 1] == last);
    }
}

/// The same targets a second time change nothing and start no animation again, as
/// long as distances are measured in the same way both times. The targets must be of
/// different windows.
pub proof fn law_retarget_twice<N: Numerics>(
    state: AnimationsView,
    targets: Seq<(u64, AnimatedRect)>,
    now: u64,
    later: u64,
    num: N,
    mid: AnimationsView,
    next: AnimationsView,
)
    requires
        measures_steadily(num),
        forall|i: int, j: int|
            0 <= i < j < targets.len() ==> (#[trigger] targets[i]).0 != (#[trigger] targets[j]).0,
        state.retargets_all(targets, now, num, mid),
        mid.retargets_all(targets, later, num, next),
    ensures
        next == mid,
{
    lemma_retargeted(state, targets, now, num, mid);
    lemma_no_retarget(mid, targets, later, num, next);
}

/// A window that is sent to a new target starts from where it is: each of its numbers that
/// was found far from the target moves from its value to that of the target, from now on,
/// with the duration and the curve of all animations. The others keep what they had, and
/// so does every other window.
pub proof fn law_retarget_starts_here<N: Numerics>(
    state: AnimationsView,
    window: u64,
    target: AnimatedRect,
    now: u64,
    num: N,
    next: AnimationsView,
    other: u64,
)
    requires
        measures_steadily(num),
        state.windows.contains_key(window),
        state.retargets(window, target, now, num, next),
    ensures
        ({
            let (was, is) = (state.windows[window], next.windows[window]);
            &&& next.windows.contains_key(window)
            &&& is.current == was.current
            &&& call_ensures(N::far, (&num, was.target.x, target.x), true) ==> is.target == target
            &&& is.target == target || is == was
            &&& is != was && call_ensures(N::far, (&num, was.current.x, target.x), true) ==> is.x
                == Some(
                Animation {
                    start: was.current.x,
                    end: target.x,
                    started_at: now,
                    duration: state.duration,
                    curve: state.curve,
                },
            )
            &&& is != was && call_ensures(N::far, (&num, was.current.y, target.y), true) ==> is.y
                == Some(
                Animation {
                    start: was.current.y,
                    end: target.y,
                    started_at: now,
                    duration: state.duration,
                    curve: state.curve,
                },
            )
            &&& is != was && call_ensures(N::far, (&num, was.current.width, target.width), true)
                ==> is.width == Some(
                Animation {
                    start: was.current.width,
                    end: target.width,
                    started_at: now,
                    duration: state.duration,
                    curve: state.curve,
                },
            )
            &&& is != was && call_ensures(N::far, (&num, was.current.height, target.height), true)
                ==> is.height == Some(
                Animation {
                    start: was.current.height,
                    end: target.height,
                    started_at: now,
                    duration: state.duration,
                    curve: state.curve,
                },
            )
            &&& call_ensures(N::far, (&num, was.current.x, target.x), false) ==> is.x == was.x
            &&& call_ensures(N::far, (&num, was.current.y, target.y), false) ==> is.y == was.y
            &&& call_ensures(N::far, (&num, was.current.width, target.width), false) ==> is.width
                == was.width
            &&& call_ensures(N::far, (&num, was.current.height, target.height), false)
                ==> is.height == was.height
        }),
        other != window ==> next.windows.contains_key(other) == state.windows.contains_key(other)
            && (state.windows.contains_key(other) ==> next.windows[other]
            == state.windows[other]),
{
}

/// A window that is put down at a place is there and moves no further along either side of
/// the screen; its size and its target stay, and so does every other window.
pub proof fn law_put_down_at_once(state: AnimationsView, window: u64, x: Double, y: Double, other: u64)
    ensures
        ({
            let next = state.placed(window, x, y);
            let (was, is) = (state.windows[window], next.windows[window]);
            &&& next.windows.contains_key(window) == state.windows.contains_key(window)
            &&& state.windows.contains_key(window) ==> {
                &&& is.current.x == x
                &&& is.current.y == y
                &&& is.x is None
                &&& is.y is None
                &&& is.current.width == was.current.width
                &&& is.current.height == was.current.height
                &&& is.width == was.width
                &&& is.height == was.height
                &&& is.target == was.target
            }
            &&& other != window ==> next.windows.contains_key(other)
                == state.windows.contains_key(other) && (state.windows.contains_key(other)
                ==> next.windows[other] == state.windows[other])
        }),
{
}

/// A frame moves each number of a window on its own: at its target once its animation is
/// over, where its curve is before that, and nowhere if it has no animation. The target
/// stays.
pub proof fn law_frame_moves_each_number<N: Numerics>(
    anim: WindowAnimation,
    now: u64,
    num: N,
    next: WindowAnimation,
)
    requires
        anim.ticks_to(now, num, next),
    ensures
        next.target == anim.target,
        anim.x is None ==> next.x is None && next.current.x == anim.current.x,
        anim.y is None ==> next.y is None && next.current.y == anim.current.y,
        anim.width is None ==> next.width is None && next.current.width == anim.current.width,
        anim.height is None ==> next.height is None && next.current.height == anim.current.height,
        anim.x matches Some(a) ==> if now >= a.started_at + a.duration {
            next.x is None && next.current.x == anim.target.x
        } else {
            a.duration > 0 ==> next.x == anim.x && a.has_value(now, num, next.current.x)
        },
        anim.y matches Some(a) ==> if now >= a.started_at + a.duration {
            next.y is None && next.current.y == anim.target.y
        } else {
            a.duration > 0 ==> next.y == anim.y && a.has_value(now, num, next.current.y)
        },
        anim.width matches Some(a) ==> if now >= a.started_at + a.duration {
            next.width is None && next.current.width == anim.target.width
        } else {
            a.duration > 0 ==> next.width == anim.width && a.has_value(
                now,
                num,
                next.current.width,
            )
        },
        anim.height matches Some(a) ==> if now >= a.started_at + a.duration {
            next.height is None && next.current.height == anim.target.height
        } else {
            a.duration > 0 ==> next.height == anim.height && a.has_value(
                now,
                num,
                next.current.height,
            )
        },
{
}

} // verus!
