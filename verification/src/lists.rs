//! Lists of windows.

use vstd::prelude::*;

verus! {

/// Passes every window but one.
pub open spec fn other_than(window: u64) -> spec_fn(u64) -> bool {
    |w: u64| w != window
}

/// A list without every entry of one window.
pub open spec fn without(list: Seq<u64>, window: u64) -> Seq<u64> {
    list.filter(other_than(window))
}

/// Where a list first holds a window; the length of the list if it does not.
pub open spec fn index(list: Seq<u64>, window: u64) -> int
    decreases list.len(),
{
    if list.len() == 0 || list[0] == window {
        0
    } else {
        1 + index(list.drop_first(), window)
    }
}

/// What the index of a window is.
pub proof fn lemma_index(list: Seq<u64>, window: u64)
    ensures
        0 <= index(list, window) <= list.len(),
        forall|j: int| 0 <= j < index(list, window) ==> #[trigger] list[j] != window,
        index(list, window) < list.len() ==> list[index(list, window)] == window,
        index(list, window) < list.len() <==> list.contains(window),
    decreases list.len(),
{
    if list.len() > 0 && list[0] != window {
        let rest = list.drop_first();
        lemma_index(rest, window);
        assert forall|j: int| 0 <= j < index(list, window) implies #[trigger] list[j]
            != window by {
            if j > 0 {
                assert(list[j] == rest[j - 1]);
            }
        }
        if list.contains(window) {
            let k = choose|k: int| 0 <= k < list.len() && list[k] == window;
            assert(rest[k - 1] == window);
        }
        if rest.contains(window) {
            let k = choose|k: int| 0 <= k < rest.len() && rest[k] == window;
            assert(list[k + 1] == window);
        }
    } else if list.len() > 0 {
        assert(list[0] == window);
    }
}

/// Whether a list holds a window.
pub fn holds(list: &Vec<u64>, window: u64) -> (r: bool)
    ensures
        r == list@.contains(window),
{
    position(list, window).is_some()
}

/// Where a list first holds a window.
pub fn position(list: &Vec<u64>, window: u64) -> (r: Option<usize>)
    ensures
        match r {
            Some(i) => i == index(list@, window) && list@.contains(window),
            None => !list@.contains(window),
        },
{
    proof {
        lemma_index(list@, window);
    }
    let mut i: usize = 0;
    while i < list.len()
        invariant
            0 <= i <= list.len(),
            forall|j: int| 0 <= j < i ==> #[trigger] list@[j] != window,
        decreases list.len() - i,
    {
        if list[i] == window {
            proof {
                lemma_index(list@, window);
            }
            return Some(i);
        }
        i = i + 1;
    }
    None
}

/// A copy of a list.
pub fn copied(list: &Vec<u64>) -> (r: Vec<u64>)
    ensures
        r@ == list@,
{
    let mut r: Vec<u64> = Vec::with_capacity(list.len());
    let mut i: usize = 0;
    while i < list.len()
        invariant
            0 <= i <= list.len(),
            r@ == list@.take(i as int),
        decreases list.len() - i,
    {
        r.push(list[i]);
        i = i + 1;
    }
    r
}

/// A list without every entry of one window.
pub fn others(list: &Vec<u64>, window: u64) -> (r: Vec<u64>)
    ensures
        r@ == without(list@, window),
        r@.len() <= list@.len(),
{
    let mut r: Vec<u64> = Vec::new();
    let mut i: usize = 0;
    assert(list@.take(0) =~= Seq::<u64>::empty());
    assert(without(list@.take(0), window) =~= Seq::<u64>::empty()) by {
        reveal(Seq::filter);
    }
    while i < list.len()
        invariant
            0 <= i <= list.len(),
            r@ == without(list@.take(i as int), window),
            r@.len() <= i,
        decreases list.len() - i,
    {
        proof {
            let more = list@.take(i + 1);
            assert(more.drop_last() =~= list@.take(i as int));
            reveal(Seq::filter);
        }
        if list[i] != window {
            r.push(list[i]);
        }
        i = i + 1;
    }
    assert(list@.take(i as int) =~= list@);
    r
}

/// What is left of a list comes from it, and all of it that passes is left.
pub proof fn lemma_filter_members(list: Seq<u64>, p: spec_fn(u64) -> bool)
    ensures
        forall|w: u64| #[trigger] list.filter(p).contains(w) <==> list.contains(w) && p(w),
        list.filter(p).len() <= list.len(),
    decreases list.len(),
{
    reveal(Seq::filter);
    if list.len() > 0 {
        let shorter = list.drop_last();
        let kept = list.filter(p);
        lemma_filter_members(shorter, p);
        assert forall|w: u64| #[trigger] kept.contains(w) <==> list.contains(w) && p(w) by {
            assert(list =~= shorter.push(list.last()));
            assert(shorter.filter(p).contains(w) <==> shorter.contains(w) && p(w));
            if list.contains(w) && p(w) {
                if shorter.contains(w) {
                    let k = choose|k: int| 0 <= k < shorter.filter(p).len() && shorter.filter(p)[k]
                        == w;
                    assert(kept[k] == w);
                } else {
                    let k = choose|k: int| 0 <= k < list.len() && list[k] == w;
                    if k < list.len() - 1 {
                        assert(shorter[k] == w);
                    }
                    assert(kept[kept.len() - 1] == w);
                }
            }
            if kept.contains(w) {
                let k = choose|k: int| 0 <= k < kept.len() && kept[k] == w;
                if k < shorter.filter(p).len() {
                    assert(shorter.filter(p)[k] == w);
                    let l = choose|l: int| 0 <= l < shorter.len() && shorter[l] == w;
                    assert(list[l] == w);
                } else {
                    assert(list[list.len() - 1] == w);
                }
            }
        }
    }
}

/// Filtering twice is filtering by both.
pub proof fn lemma_filter_twice(
    list: Seq<u64>,
    p: spec_fn(u64) -> bool,
    q: spec_fn(u64) -> bool,
    both: spec_fn(u64) -> bool,
)
    requires
        forall|w: u64| list.contains(w) ==> (#[trigger] both(w) <==> p(w) && q(w)),
    ensures
        list.filter(p).filter(q) == list.filter(both),
    decreases list.len(),
{
    reveal(Seq::filter);
    if list.len() > 0 {
        let shorter = list.drop_last();
        let last = list.last();
        assert forall|w: u64| shorter.contains(w) implies (#[trigger] both(w) <==> p(w) && q(
            w,
        )) by {
            let k = choose|k: int| 0 <= k < shorter.len() && shorter[k] == w;
            assert(list[k] == w);
        }
        lemma_filter_twice(shorter, p, q, both);
        assert(list[list.len() - 1] == last);
        assert(list.contains(last));
        if p(last) {
            assert(shorter.filter(p).push(last).drop_last() =~= shorter.filter(p));
        }
    }
}

/// Filters that agree on a list leave the same of it.
pub proof fn lemma_filter_same(
    list: Seq<u64>,
    p: spec_fn(u64) -> bool,
    q: spec_fn(u64) -> bool,
)
    requires
        forall|w: u64| list.contains(w) ==> #[trigger] p(w) == q(w),
    ensures
        list.filter(p) == list.filter(q),
    decreases list.len(),
{
    reveal(Seq::filter);
    if list.len() > 0 {
        let shorter = list.drop_last();
        assert forall|w: u64| shorter.contains(w) implies #[trigger] p(w) == q(w) by {
            let k = choose|k: int| 0 <= k < shorter.len() && shorter[k] == w;
            assert(list[k] == w);
        }
        lemma_filter_same(shorter, p, q);
        assert(list[list.len() - 1] == list.last());
        assert(list.contains(list.last()));
        assert(p(list.last()) == q(list.last()));
    }
}

/// A list in which nothing occurs twice has none of it twice after filtering.
pub proof fn lemma_filter_once(list: Seq<u64>, p: spec_fn(u64) -> bool)
    requires
        list.no_duplicates(),
    ensures
        list.filter(p).no_duplicates(),
    decreases list.len(),
{
    reveal(Seq::filter);
    if list.len() > 0 {
        let shorter = list.drop_last();
        lemma_filter_once(shorter, p);
        lemma_filter_members(shorter, p);
        let kept = shorter.filter(p);
        let last = list.last();
        if p(last) {
            assert(!kept.contains(last)) by {
                if kept.contains(last) {
                    assert(shorter.contains(last));
                    let k = choose|k: int| 0 <= k < shorter.len() && shorter[k] == last;
                    assert(list[k] == list[list.len() - 1]);
                }
            }
            assert forall|i: int, j: int|
                0 <= i < kept.push(last).len() && 0 <= j < kept.push(last).len() && i
                    != j implies kept.push(last)[i] != kept.push(last)[j] by {
                if i < kept.len() && j < kept.len() {
                    assert(kept[i] != kept[j]);
                } else if i < kept.len() {
                    assert(kept.contains(kept[i]));
                } else {
                    assert(kept.contains(kept[j]));
                }
            }
        }
    }
}

/// Taking a window out of a list that holds it once makes the list one shorter;
/// taking out one that it does not hold changes nothing.
pub proof fn lemma_without(list: Seq<u64>, window: u64)
    ensures
        !without(list, window).contains(window),
        !list.contains(window) ==> without(list, window) == list,
        list.contains(window) && list.no_duplicates() ==> without(list, window).len()
            == list.len() - 1,
    decreases list.len(),
{
    reveal(Seq::filter);
    lemma_filter_members(list, other_than(window));
    if list.len() > 0 {
        let shorter = list.drop_last();
        lemma_without(shorter, window);
        assert(list =~= shorter.push(list.last()));
        if !list.contains(window) {
            assert(!shorter.contains(window)) by {
                if shorter.contains(window) {
                    let k = choose|k: int| 0 <= k < shorter.len() && shorter[k] == window;
                    assert(list[k] == window);
                }
            }
            assert(list.contains(list[list.len() - 1]));
        }
        if list.contains(window) && list.no_duplicates() {
            if list.last() == window {
                assert(!shorter.contains(window)) by {
                    if shorter.contains(window) {
                        let k = choose|k: int| 0 <= k < shorter.len() && shorter[k] == window;
                        assert(list[k] == list[list.len() - 1]);
                    }
                }
            } else {
                let k = choose|k: int| 0 <= k < list.len() && list[k] == window;
                assert(shorter[k] == window);
                assert(shorter.contains(window));
            }
        }
    }
}

/// Where an entry of a list comes to stand after filtering.
pub proof fn lemma_filter_place(list: Seq<u64>, p: spec_fn(u64) -> bool, i: int)
    requires
        0 <= i < list.len(),
        p(list[i]),
    ensures
        list.take(i).filter(p).len() < list.filter(p).len(),
        list.filter(p)[list.take(i).filter(p).len() as int] == list[i],
    decreases list.len(),
{
    reveal(Seq::filter);
    let shorter = list.drop_last();
    if i == list.len() - 1 {
        assert(list.take(i) =~= shorter);
    } else {
        lemma_filter_place(shorter, p, i);
        assert(shorter.take(i) =~= list.take(i));
        assert(shorter[i] == list[i]);
    }
}

/// How the number of entries that pass changes with one entry.
pub proof fn lemma_filter_update(list: Seq<u64>, p: spec_fn(u64) -> bool, i: int, w: u64)
    requires
        0 <= i < list.len(),
    ensures
        list.update(i, w).filter(p).len() + (if p(list[i]) {
            1int
        } else {
            0
        }) == list.filter(p).len() + (if p(w) {
            1int
        } else {
            0
        }),
    decreases list.len(),
{
    reveal(Seq::filter);
    let shorter = list.drop_last();
    let after = list.update(i, w);
    if i == list.len() - 1 {
        assert(after.drop_last() =~= shorter);
    } else {
        lemma_filter_update(shorter, p, i, w);
        assert(after.drop_last() =~= shorter.update(i, w));
        assert(shorter[i] == list[i]);
    }
}

} // verus!
