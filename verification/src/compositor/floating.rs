//! The floating windows: where they are and which lies above which.

use crate::layout::WindowGeometry;
use crate::scalar::Double;
use vstd::prelude::*;

verus! {

/// A floating window. The higher its `z`, the further up it lies.
#[derive(Clone, Copy, Debug, PartialEq, Eq, Structural)]
pub struct FloatingWindow {
    pub window: u64,
    pub geo: WindowGeometry<Double>,
    pub z: usize,
}

/// All floating windows.
pub struct FloatingManager {
    entries: Vec<FloatingWindow>,
    next_z: usize,
}

/// What the floating windows stand for: the windows in the order in which they
/// came, and the `z` of the next one to go on top.
#[verifier::ext_equal]
pub struct FloatingView {
    pub entries: Seq<FloatingWindow>,
    pub next_z: usize,
}

/// Where a list of floating windows first holds a window; the length of the list
/// if it does not.
pub open spec fn slot(entries: Seq<FloatingWindow>, window: u64) -> int
    decreases entries.len(),
{
    if entries.len() == 0 || entries[0].window == window {
        0
    } else {
        1 + slot(entries.drop_first(), window)
    }
}

/// `order` has the same windows as `entries`, from the lowest to the highest.
pub open spec fn stacks(entries: Seq<FloatingWindow>, order: Seq<FloatingWindow>) -> bool {
    &&& order.to_multiset() == entries.to_multiset()
    &&& forall|i: int, j: int|
        0 <= i < j < order.len() ==> (#[trigger] order[i]).z < (#[trigger] order[j]).z
}

/// The windows of a list of floating windows.
pub open spec fn windows_of(entries: Seq<FloatingWindow>) -> Seq<u64> {
    entries.map_values(|f: FloatingWindow| f.window)
}

impl FloatingView {
    /// Every `z` is given to one window only, and none has been given that is
    /// still to come.
    pub open spec fn wf(self) -> bool {
        &&& forall|i: int| 0 <= i < self.entries.len() ==> (#[trigger] self.entries[i]).z < self.next_z
        &&& forall|i: int, j: int|
            0 <= i < j < self.entries.len() ==> (#[trigger] self.entries[i]).z != (
            #[trigger] self.entries[j]).z
    }

    /// No window floats twice.
    pub open spec fn distinct(self) -> bool {
        windows_of(self.entries).no_duplicates()
    }

    /// Whether a window floats.
    pub open spec fn has(self, window: u64) -> bool {
        slot(self.entries, window) < self.entries.len()
    }

    /// Passes the windows that do not float.
    pub open spec fn tiled(self) -> spec_fn(u64) -> bool {
        |w: u64| !self.has(w)
    }

    /// Where a floating window is.
    pub open spec fn geo(self, window: u64) -> Option<WindowGeometry<Double>> {
        if self.has(window) {
            Some(self.entries[slot(self.entries, window)].geo)
        } else {
            None
        }
    }

    /// One more window can be put on top.
    pub open spec fn has_room(self) -> bool {
        self.next_z < usize::MAX
    }

    /// With one window more, on top of all others.
    pub open spec fn added(self, window: u64, geo: WindowGeometry<Double>) -> FloatingView {
        FloatingView {
            entries: self.entries.push(FloatingWindow { window, geo, z: self.next_z }),
            next_z: (self.next_z + 1) as usize,
        }
    }

    /// Without a window.
    pub open spec fn removed(self, window: u64) -> FloatingView {
        FloatingView {
            entries: self.entries.filter(|f: FloatingWindow| f.window != window),
            ..self
        }
    }

    /// With a floating window at another place.
    pub open spec fn placed(self, window: u64, geo: WindowGeometry<Double>) -> FloatingView {
        let i = slot(self.entries, window);
        FloatingView {
            entries: self.entries.update(i, FloatingWindow { geo, ..self.entries[i] }),
            ..self
        }
    }

    /// With a window at a place: it is moved there if it floats, and put there on
    /// top of all others if it does not.
    pub open spec fn set(self, window: u64, geo: WindowGeometry<Double>) -> FloatingView {
        if self.has(window) {
            self.placed(window, geo)
        } else {
            self.added(window, geo)
        }
    }

    /// With a window on top of all others, if it floats.
    pub open spec fn raised(self, window: u64) -> FloatingView {
        let i = slot(self.entries, window);
        if self.has(window) {
            FloatingView {
                entries: self.entries.update(
                    i,
                    FloatingWindow { z: self.next_z, ..self.entries[i] },
                ),
                next_z: (self.next_z + 1) as usize,
            }
        } else {
            self
        }
    }
}

impl View for FloatingManager {
    type V = FloatingView;

    closed spec fn view(&self) -> FloatingView {
        FloatingView { entries: self.entries@, next_z: self.next_z }
    }
}

/// What the slot of a window is.
pub proof fn lemma_slot(entries: Seq<FloatingWindow>, window: u64)
    ensures
        0 <= slot(entries, window) <= entries.len(),
        forall|j: int|
            0 <= j < slot(entries, window) ==> (#[trigger] entries[j]).window != window,
        slot(entries, window) < entries.len() ==> entries[slot(entries, window)].window == window,
    decreases entries.len(),
{
    if entries.len() > 0 && entries[0].window != window {
        let rest = entries.drop_first();
        lemma_slot(rest, window);
        assert forall|j: int| 0 <= j < slot(entries, window) implies (
        #[trigger] entries[j]).window != window by {
            if j > 0 {
                assert(entries[j] == rest[j - 1]);
            }
        }
        if slot(rest, window) < rest.len() {
            assert(rest[slot(rest, window)] == entries[slot(rest, window) + 1]);
        }
    }
}

proof fn lemma_slot_is(entries: Seq<FloatingWindow>, window: u64, i: int)
    requires
        0 <= i <= entries.len(),
        i < entries.len() ==> entries[i].window == window,
        forall|j: int| 0 <= j < i ==> (#[trigger] entries[j]).window != window,
    ensures
        slot(entries, window) == i,
{
    lemma_slot(entries, window);
    let s = slot(entries, window);
    if s < i {
        assert(entries[s].window != window);
    } else if i < s {
        assert(entries[i].window != window);
    }
}

impl FloatingManager {
    /// Every `z` is given to one window only.
    pub open spec fn wf(self) -> bool {
        self@.wf()
    }

    /// No floating windows.
    pub fn new() -> (r: Self)
        ensures
            r.wf(),
            r@ == (FloatingView { entries: Seq::empty(), next_z: 0 }),
            r@.distinct(),
    {
        FloatingManager { entries: Vec::new(), next_z: 0 }
    }

    /// Whether one more window can be put on top.
    pub fn has_room(&self) -> (r: bool)
        ensures
            r == self@.has_room(),
    {
        self.next_z < usize::MAX
    }

    fn find(&self, window: u64) -> (r: Option<usize>)
        ensures
            match r {
                Some(i) => i == slot(self@.entries, window) && self@.has(window),
                None => !self@.has(window),
            },
    {
        let mut i: usize = 0;
        while i < self.entries.len()
            invariant
                0 <= i <= self.entries.len(),
                forall|j: int| 0 <= j < i ==> (#[trigger] self.entries@[j]).window != window,
            decreases self.entries.len() - i,
        {
            if self.entries[i].window == window {
                proof {
                    lemma_slot_is(self.entries@, window, i as int);
                }
                return Some(i);
            }
            i = i + 1;
        }
        proof {
            lemma_slot_is(self.entries@, window, i as int);
        }
        None
    }

    /// Whether a window floats.
    pub fn contains(&self, window: u64) -> (r: bool)
        ensures
            r == self@.has(window),
    {
        self.find(window).is_some()
    }

    /// Makes a window float, on top of all others.
    pub fn add(&mut self, window: u64, geo: WindowGeometry<Double>)
        requires
            old(self).wf(),
            old(self)@.has_room(),
        ensures
            final(self).wf(),
            final(self)@ == old(self)@.added(window, geo),
    {
        let z: usize = self.next_z;
        self.next_z = self.next_z + 1;
        self.entries.push(FloatingWindow { window, geo, z });
        assert(self@ == old(self)@.added(window, geo));
    }

    /// Makes a window float no longer. Returns whether it did.
    pub fn remove(&mut self, window: u64) -> (r: bool)
        requires
            old(self).wf(),
        ensures
            final(self).wf(),
            final(self)@ == old(self)@.removed(window),
            r == old(self)@.has(window),
    {
        let before: usize = self.entries.len();
        let mut kept: Vec<FloatingWindow> = Vec::new();
        let mut i: usize = 0;
        let ghost view = self@;
        let ghost all = self.entries@;
        let ghost keep = |f: FloatingWindow| f.window != window;
        assert(all.take(0).filter(keep) =~= Seq::<FloatingWindow>::empty()) by {
            reveal(Seq::filter);
        }
        while i < self.entries.len()
            invariant
                0 <= i <= all.len(),
                self.entries@ == all,
                keep == (|f: FloatingWindow| f.window != window),
                kept@ == all.take(i as int).filter(keep),
                kept@.len() <= i,
                kept@.len() < i <==> exists|j: int|
                    0 <= j < i && (#[trigger] all[j]).window == window,
            decreases all.len() - i,
        {
            proof {
                let more = all.take(i + 1);
                assert(more.drop_last() =~= all.take(i as int));
                reveal(Seq::filter);
            }
            let entry = self.entries[i];
            if entry.window != window {
                kept.push(entry);
            } else {
                assert(all[i as int].window == window);
            }
            i = i + 1;
        }
        assert(all.take(i as int) =~= all);
        proof {
            lemma_slot(all, window);
            lemma_filtered(all, window);
            let rest = view.removed(window);
            assert forall|a: int| 0 <= a < rest.entries.len() implies (
            #[trigger] rest.entries[a]).z < rest.next_z by {
                assert(view.entries.contains(rest.entries[a]));
            }
            assert(rest.wf());
        }
        self.entries = kept;
        self.entries.len() < before
    }

    /// Where a floating window is.
    pub fn geo(&self, window: u64) -> (r: Option<WindowGeometry<Double>>)
        ensures
            r == self@.geo(window),
    {
        proof {
            lemma_slot(self.entries@, window);
        }
        match self.find(window) {
            Some(i) => Some(self.entries[i].geo),
            None => None,
        }
    }

    /// The place of a floating window, to move or resize it.
    pub fn geo_mut(&mut self, window: u64) -> (r: Option<&mut WindowGeometry<Double>>)
        requires
            old(self).wf(),
        ensures
            final(self).wf(),
            match r {
                Some(geo) => {
                    &&& old(self)@.has(window)
                    &&& Some(*geo) == old(self)@.geo(window)
                    &&& final(self)@ == old(self)@.placed(window, *final(geo))
                },
                None => !old(self)@.has(window) && final(self)@ == old(self)@,
            },
    {
        proof {
            lemma_slot(self.entries@, window);
        }
        match self.find(window) {
            Some(i) => Some(&mut self.entries[i].geo),
            None => None,
        }
    }

    /// Puts a window at a place, making it float if it does not yet.
    pub fn set_geo(&mut self, window: u64, geo: WindowGeometry<Double>)
        requires
            old(self).wf(),
            !old(self)@.has(window) ==> old(self)@.has_room(),
        ensures
            final(self).wf(),
            final(self)@ == old(self)@.set(window, geo),
    {
        proof {
            lemma_slot(self.entries@, window);
        }
        match self.find(window) {
            Some(i) => {
                self.entries[i].geo = geo;
            },
            None => {
                let z: usize = self.next_z;
                self.next_z = self.next_z + 1;
                self.entries.push(FloatingWindow { window, geo, z });
            },
        }
    }

    /// Puts a window on top of all others, if it floats.
    pub fn raise(&mut self, window: u64)
        requires
            old(self).wf(),
            old(self)@.has(window) ==> old(self)@.has_room(),
        ensures
            final(self).wf(),
            final(self)@ == old(self)@.raised(window),
    {
        proof {
            lemma_slot(self.entries@, window);
        }
        if let Some(i) = self.find(window) {
            self.entries[i].z = self.next_z;
            self.next_z = self.next_z + 1;
        }
    }

    /// The floating windows from the lowest to the highest, in the order in which
    /// they are drawn.
    pub fn z_ordered(&self) -> (r: Vec<u64>)
        requires
            self.wf(),
        ensures
            exists|order: Seq<FloatingWindow>| #[trigger]
                stacks(self@.entries, order) && r@ == windows_of(order),
    {
        broadcast use vstd::seq_lib::group_to_multiset_ensures;

        let mut order: Vec<FloatingWindow> = Vec::new();
        let mut i: usize = 0;
        let ghost all = self.entries@;
        assert(all == self@.entries);
        assert(all.take(0) =~= Seq::<FloatingWindow>::empty());
        while i < self.entries.len()
            invariant
                0 <= i <= all.len(),
                self.entries@ == all,
                self@.entries == all,
                self.wf(),
                stacks(all.take(i as int), order@),
            decreases all.len() - i,
        {
            let entry = self.entries[i];
            let ghost below = order@;
            proof {
                assert(all.take(i + 1) =~= all.take(i as int).push(entry));
                assert forall|k: int| 0 <= k < below.len() implies (#[trigger] below[k]).z
                    != entry.z by {
                    law_stacking_complete(all.take(i as int), below);
                    assert(below.contains(below[k]));
                    let l = choose|l: int| 0 <= l < i && all.take(i as int)[l] == below[k];
                    assert(self@.entries[l].z != self@.entries[i as int].z);
                }
            }
            let mut at: usize = 0;
            while at < order.len() && order[at].z < entry.z
                invariant
                    0 <= at <= order.len(),
                    forall|k: int| 0 <= k < at ==> (#[trigger] order@[k]).z < entry.z,
                decreases order.len() - at,
            {
                at = at + 1;
            }
            order.insert(at, entry);
            proof {
                assert(order@ == below.insert(at as int, entry));
                vstd::seq_lib::to_multiset_insert(below, at as int, entry);
                vstd::seq_lib::to_multiset_build(all.take(i as int), entry);
                assert(order@.to_multiset() == all.take(i + 1).to_multiset());
                assert forall|a: int, b: int| 0 <= a < b < order@.len() implies (
                #[trigger] order@[a]).z < (#[trigger] order@[b]).z by {
                    let x = if a < at {
                        a
                    } else {
                        a - 1
                    };
                    let y = if b < at {
                        b
                    } else {
                        b - 1
                    };
                    if a == at {
                        assert(order@[b] == below[y]);
                        assert(below[at as int].z > entry.z);
                    } else if b == at {
                        assert(order@[a] == below[x]);
                    } else {
                        assert(order@[a] == below[x]);
                        assert(order@[b] == below[y]);
                    }
                }
            }
            i = i + 1;
        }
        assert(all.take(i as int) =~= all);
        let mut r: Vec<u64> = Vec::new();
        let mut k: usize = 0;
        while k < order.len()
            invariant
                0 <= k <= order.len(),
                r@.len() == k,
                forall|j: int| 0 <= j < k ==> #[trigger] r@[j] == order@[j].window,
            decreases order.len() - k,
        {
            r.push(order[k].window);
            k = k + 1;
        }
        assert(r@ =~= windows_of(order@));
        r
    }
}

/// There is only one order from the lowest window to the highest.
pub proof fn law_stacking_unique(
    entries: Seq<FloatingWindow>,
    a: Seq<FloatingWindow>,
    b: Seq<FloatingWindow>,
)
    requires
        stacks(entries, a),
        stacks(entries, b),
    ensures
        a == b,
    decreases a.len(),
{
    broadcast use vstd::seq_lib::group_to_multiset_ensures;

    assert(a.len() == a.to_multiset().len());
    assert(b.len() == b.to_multiset().len());
    if a.len() > 0 {
        let (m, n) = (a.len() - 1, b.len() - 1);
        assert(a.to_multiset().count(b[n]) > 0) by {
            assert(b.contains(b[n]));
            assert(b.to_multiset().count(b[n]) > 0);
        }
        assert(b.to_multiset().count(a[m]) > 0) by {
            assert(a.contains(a[m]));
            assert(a.to_multiset().count(a[m]) > 0);
        }
        let i = choose|i: int| 0 <= i < a.len() && a[i] == b[n];
        let j = choose|j: int| 0 <= j < b.len() && b[j] == a[m];
        assert(a[m] == b[n]) by {
            if i < m && j < n {
                assert(a[i].z < a[m].z);
                assert(b[j].z < b[n].z);
            }
        }
        let (s, t) = (a.drop_last(), b.drop_last());
        assert(a.remove(m) =~= s);
        assert(b.remove(n) =~= t);
        assert(s.to_multiset() == t.to_multiset());
        law_stacking_unique(s, s, t);
        assert(a =~= s.push(a[m]));
        assert(b =~= t.push(b[n]));
    }
}

/// Every floating window is in the order once for each of its entries.
pub proof fn law_stacking_complete(entries: Seq<FloatingWindow>, order: Seq<FloatingWindow>)
    requires
        stacks(entries, order),
    ensures
        order.len() == entries.len(),
        forall|f: FloatingWindow| #[trigger] order.contains(f) <==> entries.contains(f),
{
    broadcast use vstd::seq_lib::group_to_multiset_ensures;

    assert(order.len() == order.to_multiset().len());
    assert(entries.len() == entries.to_multiset().len());
    assert forall|f: FloatingWindow| #[trigger] order.contains(f) <==> entries.contains(f) by {
        assert(order.to_multiset().count(f) == entries.to_multiset().count(f));
    }
}

proof fn lemma_highest_is_last(view: FloatingView, order: Seq<FloatingWindow>, i: int)
    requires
        stacks(view.entries, order),
        0 <= i < view.entries.len(),
        forall|j: int| 0 <= j < view.entries.len() ==> (#[trigger] view.entries[j]).z <= view.entries[i].z,
    ensures
        order.len() > 0,
        order.last() == view.entries[i],
{
    broadcast use vstd::seq_lib::group_to_multiset_ensures;

    law_stacking_complete(view.entries, order);
    let top = view.entries[i];
    assert(order.contains(top));
    let k = choose|k: int| 0 <= k < order.len() && order[k] == top;
    if k < order.len() - 1 {
        assert(order.contains(order.last()));
        assert(view.entries.contains(order.last()));
        let j = choose|j: int| 0 <= j < view.entries.len() && view.entries[j] == order.last();
        assert(view.entries[j].z <= top.z);
        assert(order[k].z < order[order.len() - 1].z);
    }
}

/// A window that has been raised is drawn above all others.
pub proof fn law_raised_on_top(
    before: FloatingView,
    window: u64,
    order: Seq<FloatingWindow>,
)
    requires
        before.wf(),
        before.has_room(),
        before.has(window),
        stacks(before.raised(window).entries, order),
    ensures
        order.len() > 0,
        order.last().window == window,
        Some(order.last().geo) == before.geo(window),
{
    let after = before.raised(window);
    let i = slot(before.entries, window);
    lemma_slot(before.entries, window);
    assert forall|j: int| 0 <= j < after.entries.len() implies (#[trigger] after.entries[j]).z
        <= after.entries[i].z by {
        if j != i {
            assert(after.entries[j] == before.entries[j]);
        }
    }
    lemma_highest_is_last(after, order, i);
}

/// A window that starts to float is drawn above all others.
pub proof fn law_added_on_top(
    before: FloatingView,
    window: u64,
    geo: WindowGeometry<Double>,
    order: Seq<FloatingWindow>,
)
    requires
        before.wf(),
        before.has_room(),
        stacks(before.added(window, geo).entries, order),
    ensures
        order.len() > 0,
        order.last() == (FloatingWindow { window, geo, z: before.next_z }),
{
    let after = before.added(window, geo);
    let i = before.entries.len() as int;
    assert forall|j: int| 0 <= j < after.entries.len() implies (#[trigger] after.entries[j]).z
        <= after.entries[i].z by {
        if j != i {
            assert(after.entries[j] == before.entries[j]);
        }
    }
    lemma_highest_is_last(after, order, i);
}

/// Raising a window changes neither which windows float nor where they are.
pub proof fn law_raise_moves_nothing(before: FloatingView, window: u64, other: u64)
    ensures
        before.raised(window).geo(other) == before.geo(other),
        windows_of(before.raised(window).entries) == windows_of(before.entries),
{
    let after = before.raised(window);
    lemma_slot(before.entries, window);
    lemma_slot(before.entries, other);
    assert(forall|j: int|
        0 <= j < before.entries.len() ==> (#[trigger] after.entries[j]).window
            == before.entries[j].window);
    lemma_slot_is(after.entries, other, slot(before.entries, other));
    assert(windows_of(after.entries) =~= windows_of(before.entries));
}

/// A place that was set is read back, and the place of every other window stays.
pub proof fn law_set_then_geo(
    before: FloatingView,
    window: u64,
    geo: WindowGeometry<Double>,
    other: u64,
)
    ensures
        before.set(window, geo).geo(window) == Some(geo),
        other != window ==> before.set(window, geo).geo(other) == before.geo(other),
{
    let after = before.set(window, geo);
    lemma_slot(before.entries, window);
    lemma_slot(before.entries, other);
    let i = slot(before.entries, window);
    let k = slot(before.entries, other);
    assert(forall|j: int|
        0 <= j < before.entries.len() ==> (#[trigger] after.entries[j]).window
            == before.entries[j].window);
    lemma_slot_is(after.entries, window, i);
    if other != window {
        lemma_slot_is(
            after.entries,
            other,
            if k < before.entries.len() {
                k
            } else {
                after.entries.len() as int
            },
        );
    }
}

/// A window that was removed does not float any more.
pub proof fn law_removed_is_gone(before: FloatingView, window: u64)
    ensures
        !before.removed(window).has(window),
{
    lemma_filtered(before.entries, window);
    lemma_slot(before.removed(window).entries, window);
}

/// Removing a window that was added as a new one gives the windows back as they
/// were.
pub proof fn law_remove_undoes_add(
    before: FloatingView,
    window: u64,
    geo: WindowGeometry<Double>,
)
    requires
        !before.has(window),
    ensures
        before.added(window, geo).removed(window).entries == before.entries,
{
    reveal(Seq::filter);
    let keep = |f: FloatingWindow| f.window != window;
    let entry = FloatingWindow { window, geo, z: before.next_z };
    assert(before.entries.push(entry).drop_last() =~= before.entries);
    lemma_slot(before.entries, window);
    lemma_filter_all(before.entries, window);
}

proof fn lemma_filter_all(entries: Seq<FloatingWindow>, window: u64)
    requires
        forall|j: int| 0 <= j < entries.len() ==> (#[trigger] entries[j]).window != window,
    ensures
        entries.filter(|f: FloatingWindow| f.window != window) == entries,
    decreases entries.len(),
{
    reveal(Seq::filter);
    if entries.len() > 0 {
        lemma_filter_all(entries.drop_last(), window);
        assert(entries.drop_last().push(entries.last()) =~= entries);
    }
}

/// What is left of a list of floating windows comes from it, in its order.
proof fn lemma_filtered(entries: Seq<FloatingWindow>, window: u64)
    ensures
        ({
            let kept = entries.filter(|f: FloatingWindow| f.window != window);
            &&& kept.len() <= entries.len()
            &&& forall|i: int|
                0 <= i < kept.len() ==> (#[trigger] kept[i]).window != window && entries.contains(
                    kept[i],
                )
            &&& forall|i: int, j: int|
                0 <= i < j < kept.len() && (#[trigger] kept[i]).z == (#[trigger] kept[j]).z
                    ==> exists|k: int, l: int|
                    0 <= k < l < entries.len() && (#[trigger] entries[k]).z == (
                    #[trigger] entries[l]).z
        }),
    decreases entries.len(),
{
    reveal(Seq::filter);
    if entries.len() > 0 {
        let keep = |f: FloatingWindow| f.window != window;
        let shorter = entries.drop_last();
        let kept = entries.filter(keep);
        let before = shorter.filter(keep);
        lemma_filtered(shorter, window);
        assert(shorter.filter(keep) == before);
        assert forall|i: int| 0 <= i < kept.len() implies (#[trigger] kept[i]).window != window
            && entries.contains(kept[i]) by {
            if i < before.len() {
                assert(shorter.contains(before[i]));
                let k = choose|k: int| 0 <= k < shorter.len() && shorter[k] == before[i];
                assert(entries[k] == kept[i]);
            } else {
                assert(kept[i] == entries.last());
            }
        }
        assert forall|i: int, j: int|
            0 <= i < j < kept.len() && (#[trigger] kept[i]).z == (
            #[trigger] kept[j]).z implies exists|k: int, l: int|
            0 <= k < l < entries.len() && (#[trigger] entries[k]).z == (#[trigger] entries[l]).z by {
            assert(shorter.contains(before[i]));
            if j < before.len() {
                assert(before[i].z == before[j].z);
                let (k, l) = choose|k: int, l: int|
                    0 <= k < l < shorter.len() && (#[trigger] shorter[k]).z == (
                    #[trigger] shorter[l]).z;
                assert(entries[k].z == entries[l].z);
            } else {
                let k = choose|k: int| 0 <= k < shorter.len() && shorter[k] == before[i];
                assert(entries[k].z == entries[entries.len() - 1].z);
            }
        }
    }
}

/// A window floats if an entry is its own.
pub proof fn lemma_has(view: FloatingView, window: u64)
    ensures
        view.has(window) <==> exists|i: int|
            0 <= i < view.entries.len() && (#[trigger] view.entries[i]).window == window,
{
    lemma_slot(view.entries, window);
    if view.has(window) {
        assert(view.entries[slot(view.entries, window)].window == window);
    }
}

/// After a window has been removed the others still float.
pub proof fn lemma_removed_has(view: FloatingView, window: u64, other: u64)
    ensures
        view.removed(window).has(other) <==> view.has(other) && other != window,
{
    let keep = |f: FloatingWindow| f.window != window;
    let kept = view.entries.filter(keep);
    lemma_has(view, other);
    lemma_has(view.removed(window), other);
    lemma_filtered(view.entries, window);
    if view.has(other) && other != window {
        let i = choose|i: int|
            0 <= i < view.entries.len() && (#[trigger] view.entries[i]).window == other;
        view.entries.lemma_filter_contains(keep, i);
        assert(kept.contains(view.entries[i]));
    }
    if view.removed(window).has(other) {
        let i = choose|i: int| 0 <= i < kept.len() && (#[trigger] kept[i]).window == other;
        view.entries.lemma_filter_pred(keep, i);
        assert(view.entries.contains(kept[i]));
    }
}

/// After a window has been added it floats, and so do the others that did.
pub proof fn lemma_added_has(
    view: FloatingView,
    window: u64,
    geo: WindowGeometry<Double>,
    other: u64,
)
    ensures
        view.added(window, geo).has(other) <==> view.has(other) || other == window,
{
    let after = view.added(window, geo);
    lemma_has(view, other);
    lemma_has(after, other);
    if view.has(other) {
        let i = choose|i: int|
            0 <= i < view.entries.len() && (#[trigger] view.entries[i]).window == other;
        assert(after.entries[i].window == other);
    }
    if other == window {
        assert(after.entries[view.entries.len() as int].window == other);
    }
    if after.has(other) && other != window {
        let i = choose|i: int|
            0 <= i < after.entries.len() && (#[trigger] after.entries[i]).window == other;
        assert(view.entries[i].window == other);
    }
}

/// A window at another place changes nothing about which windows float.
pub proof fn lemma_placed_has(
    view: FloatingView,
    window: u64,
    geo: WindowGeometry<Double>,
    other: u64,
)
    requires
        view.has(window),
    ensures
        view.placed(window, geo).has(other) == view.has(other),
{
    let after = view.placed(window, geo);
    lemma_slot(view.entries, window);
    lemma_slot(view.entries, other);
    assert(forall|j: int|
        0 <= j < view.entries.len() ==> (#[trigger] after.entries[j]).window
            == view.entries[j].window);
    lemma_slot_is(after.entries, other, slot(view.entries, other));
}

/// A window at another place changes nothing about the windows of the list.
proof fn lemma_placed_windows(view: FloatingView, window: u64, geo: WindowGeometry<Double>)
    requires
        view.has(window),
    ensures
        windows_of(view.placed(window, geo).entries) == windows_of(view.entries),
{
    lemma_slot(view.entries, window);
    assert(windows_of(view.placed(window, geo).entries) =~= windows_of(view.entries));
}

/// No operation makes a window float twice: not removing, placing, setting or
/// raising one, nor adding one that does not float yet.
pub proof fn law_stays_distinct(view: FloatingView, window: u64, geo: WindowGeometry<Double>)
    requires
        view.distinct(),
    ensures
        view.removed(window).distinct(),
        view.has(window) ==> view.placed(window, geo).distinct(),
        view.set(window, geo).distinct(),
        view.raised(window).distinct(),
        !view.has(window) ==> view.added(window, geo).distinct(),
{
    law_raise_moves_nothing(view, window, window);
    if view.has(window) {
        lemma_placed_windows(view, window, geo);
    } else {
        let more = windows_of(view.added(window, geo).entries);
        let few = windows_of(view.entries);
        assert(more =~= few.push(window));
        assert forall|i: int| 0 <= i < few.len() implies few[i] != window by {
            lemma_has(view, window);
            assert(view.entries[i].window == few[i]);
        }
        assert(more.no_duplicates());
    }
    lemma_filtered_distinct(view.entries, window);
}

proof fn lemma_filtered_distinct(entries: Seq<FloatingWindow>, window: u64)
    requires
        windows_of(entries).no_duplicates(),
    ensures
        windows_of(entries.filter(|f: FloatingWindow| f.window != window)).no_duplicates(),
    decreases entries.len(),
{
    reveal(Seq::filter);
    let keep = |f: FloatingWindow| f.window != window;
    if entries.len() > 0 {
        let head = entries.drop_last();
        let kept = head.filter(keep);
        let all = windows_of(entries);
        assert(windows_of(head) =~= all.drop_last());
        assert(forall|i: int| 0 <= i < head.len() ==> #[trigger] windows_of(head)[i] == all[i]);
        lemma_filtered_distinct(head, window);
        if keep(entries.last()) {
            let more = windows_of(kept.push(entries.last()));
            let few = windows_of(kept);
            assert(more =~= few.push(entries.last().window));
            assert forall|i: int| 0 <= i < few.len() implies few[i] != entries.last().window by {
                assert(kept.contains(kept[i]));
                head.lemma_filter_contains_rev(keep, kept[i]);
                let k = choose|k: int| 0 <= k < head.len() && head[k] == kept[i];
                assert(all[k] == few[i]);
                assert(all[entries.len() - 1] == entries.last().window);
            }
            assert(more.no_duplicates());
        }
    }
}

/// In the order from the lowest to the highest every floating window comes exactly
/// once, and no other window comes.
pub proof fn law_each_once(view: FloatingView, order: Seq<FloatingWindow>)
    requires
        view.distinct(),
        stacks(view.entries, order),
    ensures
        windows_of(order).no_duplicates(),
        forall|w: u64| #[trigger] windows_of(order).contains(w) <==> view.has(w),
{
    let (listed, ordered) = (windows_of(view.entries), windows_of(order));
    law_stacking_complete(view.entries, order);
    assert forall|i: int, j: int| 0 <= i < j < order.len() implies ordered[i] != ordered[j] by {
        if ordered[i] == ordered[j] {
            assert(order[i].z < order[j].z);
            assert(order.contains(order[i]) && order.contains(order[j]));
            assert(view.entries.contains(order[i]) && view.entries.contains(order[j]));
            let p = choose|p: int| 0 <= p < view.entries.len() && view.entries[p] == order[i];
            let q = choose|q: int| 0 <= q < view.entries.len() && view.entries[q] == order[j];
            assert(p != q);
            assert(listed[p] == listed[q]);
        }
    }
    assert forall|w: u64| #[trigger] ordered.contains(w) <==> view.has(w) by {
        lemma_has(view, w);
        if ordered.contains(w) {
            let k = choose|k: int| 0 <= k < ordered.len() && ordered[k] == w;
            assert(order.contains(order[k]));
            assert(view.entries.contains(order[k]));
        }
        if view.has(w) {
            let k = choose|k: int|
                0 <= k < view.entries.len() && (#[trigger] view.entries[k]).window == w;
            assert(view.entries.contains(view.entries[k]));
            assert(order.contains(view.entries[k]));
            let m = choose|m: int| 0 <= m < order.len() && order[m] == view.entries[k];
            assert(ordered[m] == w);
        }
    }
}

/// Removing a window leaves every other one where it is, and as high as it is.
pub proof fn law_remove_keeps_others(before: FloatingView, window: u64, i: int)
    requires
        before.distinct(),
        0 <= i < before.entries.len(),
        before.entries[i].window != window,
    ensures
        before.removed(window).entries.contains(before.entries[i]),
        before.removed(window).geo(before.entries[i].window) == Some(before.entries[i].geo),
        before.removed(window).next_z == before.next_z,
{
    let after = before.removed(window);
    let keep = |f: FloatingWindow| f.window != window;
    let entry = before.entries[i];
    before.entries.lemma_filter_contains(keep, i);
    assert(after.entries.contains(entry));
    let k = choose|k: int| 0 <= k < after.entries.len() && after.entries[k] == entry;
    law_stays_distinct(before, window, entry.geo);
    let windows = windows_of(after.entries);
    lemma_slot(after.entries, entry.window);
    let s = slot(after.entries, entry.window);
    assert(s < after.entries.len());
    assert(windows[s] == windows[k]);
}

} // verus!
