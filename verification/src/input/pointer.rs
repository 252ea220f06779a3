//! The pointer.

use crate::compositor::state::{Effect, LingxiState, StateView};
use crate::numerics::Numerics;
use crate::scalar::Double;
use vstd::prelude::*;

verus! {

/// A surface under the pointer, and where on the screen it is.
#[derive(Debug, Clone, Copy, PartialEq, Eq, Structural)]
pub struct Hit {
    pub surface: u64,
    pub x: i32,
    pub y: i32,
}

/// The first hit of a list, in which a surface that was not hit has none.
pub open spec fn first_hit(hits: Seq<Option<Hit>>) -> Option<Hit>
    decreases hits.len(),
{
    if hits.len() == 0 {
        None
    } else if hits[0] is Some {
        hits[0]
    } else {
        first_hit(hits.drop_first())
    }
}

fn find_hit(hits: &Vec<Option<Hit>>) -> (r: Option<Hit>)
    ensures
        r == first_hit(hits@),
{
    let mut i: usize = 0;
    assert(hits@.skip(0) =~= hits@);
    while i < hits.len()
        invariant
            0 <= i <= hits.len(),
            first_hit(hits@) == first_hit(hits@.skip(i as int)),
        decreases hits.len() - i,
    {
        assert(hits@.skip(i as int)[0] == hits@[i as int]);
        assert(hits@.skip(i as int).drop_first() =~= hits@.skip(i + 1));
        if hits[i].is_some() {
            return hits[i];
        }
        i = i + 1;
    }
    None
}

/// The surface that the pointer is over: one of the overlay or top layer if it is
/// over one, else one of the window under it, else one of the bottom or background
/// layer. `above` and `below` are in the order in which the surfaces are asked.
pub fn surface_under(
    above: &Vec<Option<Hit>>,
    window: Option<Hit>,
    below: &Vec<Option<Hit>>,
) -> (r: Option<Hit>)
    ensures
        r == (if first_hit(above@) is Some {
            first_hit(above@)
        } else if window is Some {
            window
        } else {
            first_hit(below@)
        }),
{
    let hit = find_hit(above);
    if hit.is_some() {
        return hit;
    }
    if window.is_some() {
        return window;
    }
    find_hit(below)
}

/// The size of the screen that the pointer moves on: that of the output, or a common
/// one.
pub open spec fn pointer_bounds(output: Option<(i32, i32)>) -> (i32, i32) {
    match output {
        Some(size) => size,
        None => (3840, 2160),
    }
}

/// How far a wheel or a touchpad has scrolled along one axis: an amount, and a
/// number of hundred-and-twentieths of a notch.
#[derive(Debug, Clone, Copy, PartialEq, Eq, Structural)]
pub struct Scroll {
    pub amount: Option<Double>,
    pub v120: Option<Double>,
}

/// What is passed on of a scroll along one axis.
#[derive(Debug, Clone, Copy, PartialEq, Eq, Structural)]
pub struct ScrollOut {
    pub value: Option<Double>,
    pub v120: Option<i32>,
}

/// `out` is what is passed on of a scroll: an amount unless it is negligible, and a
/// number of notches unless it is zero. A touchpad gives the one and a wheel the
/// other; clients that know only one of them still scroll.
pub open spec fn scrolls<N: Numerics>(num: N, scroll: Scroll, out: ScrollOut) -> bool {
    &&& match scroll.amount {
        Some(amount) => {
            ||| call_ensures(N::negligible, (&num, amount), true) && out.value is None
            ||| call_ensures(N::negligible, (&num, amount), false) && out.value == Some(amount)
        },
        None => out.value is None,
    }
    &&& match scroll.v120 {
        Some(v120) => {
            ||| call_ensures(N::is_zero, (&num, v120), true) && out.v120 is None
            ||| call_ensures(N::is_zero, (&num, v120), false) && (out.v120 matches Some(n)
                && call_ensures(N::truncated, (&num, v120), n))
        },
        None => out.v120 is None,
    }
}

/// Decides what is passed on of a scroll along one axis.
pub fn scroll_axis<N: Numerics>(scroll: Scroll, num: &N) -> (out: ScrollOut)
    ensures
        scrolls(*num, scroll, out),
{
    let mut out = ScrollOut { value: None, v120: None };
    if let Some(amount) = scroll.amount {
        if !num.negligible(amount) {
            out.value = Some(amount);
        }
    }
    if let Some(v120) = scroll.v120 {
        if !num.is_zero(v120) {
            out.v120 = Some(num.truncated(v120));
        }
    }
    out
}

impl LingxiState {
    /// Where a relative motion takes the pointer: it stays on the screen.
    pub fn pointer_target<N: Numerics>(
        &self,
        delta: (Double, Double),
        output: Option<(i32, i32)>,
        num: &N,
    ) -> (r: (Double, Double))
        requires
            output matches Some(size) ==> size.0 >= 1 && size.1 >= 1,
        ensures
            call_ensures(
                N::bounded,
                (num, self@.pointer_location.0, delta.0, (pointer_bounds(output).0 - 1) as i32),
                r.0,
            ),
            call_ensures(
                N::bounded,
                (num, self@.pointer_location.1, delta.1, (pointer_bounds(output).1 - 1) as i32),
                r.1,
            ),
    {
        let (width, height): (i32, i32) = match output {
            Some(size) => size,
            None => (3840, 2160),
        };
        (
            num.bounded(self.pointer_location.0, delta.0, width - 1),
            num.bounded(self.pointer_location.1, delta.1, height - 1),
        )
    }

    /// The pointer has moved.
    pub fn pointer_moved(&mut self, x: Double, y: Double)
        ensures
            final(self)@ == (StateView { pointer_location: (x, y), ..old(self)@ }),
            old(self).wf() ==> final(self).wf(),
    {
        self.pointer_location = (x, y);
    }

    /// A button has been pressed or let go over a window, or over none. A press
    /// gives the keyboard to what is under the pointer; the order of the windows
    /// stays.
    pub fn pointer_button(&self, pressed: bool, under: Option<u64>) -> (effects: Vec<Effect>)
        ensures
            effects@ == (if pressed {
                seq![Effect::Focus(under)]
            } else {
                Seq::<Effect>::empty()
            }),
    {
        let mut effects: Vec<Effect> = Vec::new();
        if pressed {
            effects.push(Effect::Focus(under));
        }
        effects
    }
}

/// The hit that is found is the first one of the list; if none is found, nothing was hit.
pub proof fn law_first_hit_found(hits: Seq<Option<Hit>>)
    ensures
        match first_hit(hits) {
            Some(hit) => exists|i: int|
                {
                    &&& 0 <= i < hits.len()
                    &&& #[trigger] hits[i] == Some(hit)
                    &&& forall|j: int| 0 <= j < i ==> (#[trigger] hits[j]) is None
                },
            None => forall|j: int| 0 <= j < hits.len() ==> (#[trigger] hits[j]) is None,
        },
    decreases hits.len(),
{
    if hits.len() > 0 {
        let rest = hits.drop_first();
        law_first_hit_found(rest);
        if hits[0] is Some {
            assert(hits[0] == first_hit(hits));
        } else {
            match first_hit(hits) {
                Some(hit) => {
                    let i = choose|i: int|
                        {
                            &&& 0 <= i < rest.len()
                            &&& #[trigger] rest[i] == Some(hit)
                            &&& forall|j: int| 0 <= j < i ==> (#[trigger] rest[j]) is None
                        };
                    assert(hits[i + 1] == Some(hit));
                    assert forall|j: int| 0 <= j < i + 1 implies (#[trigger] hits[j]) is None by {
                        if j > 0 {
                            assert(hits[j] == rest[j - 1]);
                        }
                    }
                },
                None => {
                    assert forall|j: int| 0 <= j < hits.len() implies (
                    #[trigger] hits[j]) is None by {
                        if j > 0 {
                            assert(hits[j] == rest[j - 1]);
                        }
                    }
                },
            }
        }
    }
}

/// The surface under the pointer is the first one hit above the windows; only if there is
/// none it is that of the window, and only if no window was hit the first one hit below
/// them.
pub proof fn law_topmost_is_hit(
    above: Vec<Option<Hit>>,
    window: Option<Hit>,
    below: Vec<Option<Hit>>,
    r: Option<Hit>,
    i: int,
)
    requires
        call_ensures(surface_under, (&above, window, &below), r),
    ensures
        0 <= i < above@.len() && above@[i] is Some && (forall|j: int|
            0 <= j < i ==> (#[trigger] above@[j]) is None) ==> r == above@[i],
        (forall|j: int| 0 <= j < above@.len() ==> (#[trigger] above@[j]) is None) ==> {
            &&& window is Some ==> r == window
            &&& window is None && 0 <= i < below@.len() && below@[i] is Some && (forall|j: int|
                0 <= j < i ==> (#[trigger] below@[j]) is None) ==> r == below@[i]
            &&& window is None && (forall|j: int|
                0 <= j < below@.len() ==> (#[trigger] below@[j]) is None) ==> r is None
        },
{
    law_first_hit_found(above@);
    law_first_hit_found(below@);
}

} // verus!
