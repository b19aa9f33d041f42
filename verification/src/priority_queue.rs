//! A priority-banded queue: one band per priority value, lower values served
//! first. Within a band, pushes append, requeues insert at the front, and
//! pops take from the tail, so a task requeued earlier in a cycle is served
//! before one requeued later.

use vstd::prelude::*;

verus! {

/// Priorities strictly increase across bands and no band is empty.
pub open spec fn bands_wf<V>(bands: Seq<(usize, Seq<V>)>) -> bool {
    &&& forall|i: int, j: int|
        0 <= i < j < bands.len() ==> (#[trigger] bands[i]).0 < (#[trigger] bands[j]).0
    &&& forall|i: int| 0 <= i < bands.len() ==> (#[trigger] bands[i]).1.len() > 0
}

/// The queue after one push at priority `p`: the item is appended to the
/// band holding `p`, or a fresh band is inserted at its sorted position.
pub open spec fn push_spec<V>(bands: Seq<(usize, Seq<V>)>, item: V, p: usize) -> Seq<
    (usize, Seq<V>),
>
    decreases bands.len(),
{
    if bands.len() == 0 {
        seq![(p, seq![item])]
    } else if bands[0].0 < p {
        seq![bands[0]] + push_spec(bands.skip(1), item, p)
    } else if bands[0].0 == p {
        seq![(p, bands[0].1.push(item))] + bands.skip(1)
    } else {
        seq![(p, seq![item])] + bands
    }
}

/// The queue after one front-insertion at priority `p`: the item is placed
/// before the band's contents, or a fresh band is inserted at its sorted
/// position.
pub open spec fn push_front_spec<V>(bands: Seq<(usize, Seq<V>)>, item: V, p: usize) -> Seq<
    (usize, Seq<V>),
>
    decreases bands.len(),
{
    if bands.len() == 0 {
        seq![(p, seq![item])]
    } else if bands[0].0 < p {
        seq![bands[0]] + push_front_spec(bands.skip(1), item, p)
    } else if bands[0].0 == p {
        seq![(p, seq![item] + bands[0].1)] + bands.skip(1)
    } else {
        seq![(p, seq![item])] + bands
    }
}

/// The queue after one pop: the last item of the first band leaves, and a
/// band popped empty leaves with it.
pub open spec fn pop_step<V>(bands: Seq<(usize, Seq<V>)>) -> Seq<(usize, Seq<V>)> {
    if bands.len() == 0 {
        bands
    } else if bands[0].1.len() <= 1 {
        bands.skip(1)
    } else {
        bands.update(0, (bands[0].0, bands[0].1.drop_last()))
    }
}

proof fn lemma_push_spec_split<V>(bands: Seq<(usize, Seq<V>)>, item: V, p: usize, k: int)
    requires
        0 <= k <= bands.len(),
        forall|j: int| 0 <= j < k ==> (#[trigger] bands[j]).0 < p,
        k < bands.len() ==> bands[k].0 >= p,
    ensures
        push_spec(bands, item, p) == if k < bands.len() && bands[k].0 == p {
            bands.update(k, (p, bands[k].1.push(item)))
        } else {
            bands.take(k) + seq![(p, seq![item])] + bands.skip(k)
        },
    decreases k,
{
    if k == 0 {
        if bands.len() == 0 {
            assert(push_spec(bands, item, p) =~= bands.take(0) + seq![(p, seq![item])]
                + bands.skip(0));
        } else if bands[0].0 == p {
            assert(push_spec(bands, item, p) =~= bands.update(
                0,
                (p, bands[0].1.push(item)),
            ));
        } else {
            assert(push_spec(bands, item, p) =~= bands.take(0) + seq![(p, seq![item])]
                + bands.skip(0));
        }
    } else {
        let rest = bands.skip(1);
        lemma_push_spec_split(rest, item, p, k - 1);
        assert(bands[0].0 < p);
        if k < bands.len() && bands[k].0 == p {
            assert(rest[k - 1] == bands[k]);
            assert(push_spec(bands, item, p) =~= bands.update(
                k,
                (p, bands[k].1.push(item)),
            ));
        } else {
            assert(rest.take(k - 1) =~= bands.take(k).skip(1));
            assert(rest.skip(k - 1) =~= bands.skip(k));
            assert(push_spec(bands, item, p) =~= bands.take(k) + seq![(p, seq![item])]
                + bands.skip(k));
        }
    }
}

proof fn lemma_push_front_spec_split<V>(bands: Seq<(usize, Seq<V>)>, item: V, p: usize, k: int)
    requires
        0 <= k <= bands.len(),
        forall|j: int| 0 <= j < k ==> (#[trigger] bands[j]).0 < p,
        k < bands.len() ==> bands[k].0 >= p,
    ensures
        push_front_spec(bands, item, p) == if k < bands.len() && bands[k].0 == p {
            bands.update(k, (p, seq![item] + bands[k].1))
        } else {
            bands.take(k) + seq![(p, seq![item])] + bands.skip(k)
        },
    decreases k,
{
    if k == 0 {
        if bands.len() == 0 {
            assert(push_front_spec(bands, item, p) =~= bands.take(0) + seq![(p, seq![item])]
                + bands.skip(0));
        } else if bands[0].0 == p {
            assert(push_front_spec(bands, item, p) =~= bands.update(
                0,
                (p, seq![item] + bands[0].1),
            ));
        } else {
            assert(push_front_spec(bands, item, p) =~= bands.take(0) + seq![(p, seq![item])]
                + bands.skip(0));
        }
    } else {
        let rest = bands.skip(1);
        lemma_push_front_spec_split(rest, item, p, k - 1);
        assert(bands[0].0 < p);
        if k < bands.len() && bands[k].0 == p {
            assert(rest[k - 1] == bands[k]);
            assert(push_front_spec(bands, item, p) =~= bands.update(
                k,
                (p, seq![item] + bands[k].1),
            ));
        } else {
            assert(rest.take(k - 1) =~= bands.take(k).skip(1));
            assert(rest.skip(k - 1) =~= bands.skip(k));
            assert(push_front_spec(bands, item, p) =~= bands.take(k) + seq![(p, seq![item])]
                + bands.skip(k));
        }
    }
}

/// A priority queue of tasks, banded by integer priority.
pub struct PriorityQueue<V> {
    pub bands: Vec<(usize, Vec<V>)>,
}

impl<V> PriorityQueue<V> {
    /// The bands as (priority, contents) pairs, in ascending priority order.
    pub open spec fn bands_view(self) -> Seq<(usize, Seq<V>)> {
        self.bands@.map_values(|b: (usize, Vec<V>)| (b.0, b.1@))
    }

    pub open spec fn wf(self) -> bool {
        bands_wf(self.bands_view())
    }

    pub fn new() -> (r: PriorityQueue<V>)
        ensures
            r.wf(),
            r.bands_view() == Seq::<(usize, Seq<V>)>::empty(),
    {
        let r = PriorityQueue::<V> { bands: Vec::new() };
        proof {
            assert(r.bands_view() =~= Seq::<(usize, Seq<V>)>::empty());
        }
        r
    }

    /// Append the item to its priority's band.
    #[verifier::loop_isolation(false)]
    pub fn push(&mut self, item: V, priority: usize)
        requires
            old(self).wf(),
        ensures
            final(self).wf(),
            final(self).bands_view() == push_spec(old(self).bands_view(), item, priority),
    {
        let mut k: usize = 0;
        while k < self.bands.len() && self.bands[k].0 < priority
            invariant
                k <= self.bands@.len(),
                forall|j: int| 0 <= j < k ==> (#[trigger] self.bands@[j]).0 < priority,
            decreases self.bands@.len() - k,
        {
            k += 1;
        }
        proof {
            lemma_push_spec_split(self.bands_view(), item, priority, k as int);
        }
        if k < self.bands.len() && self.bands[k].0 == priority {
            let mut band = self.bands.remove(k);
            band.1.push(item);
            self.bands.insert(k, band);
            proof {
                assert(self.bands_view() =~= old(self).bands_view().update(
                    k as int,
                    (priority, old(self).bands_view()[k as int].1.push(item)),
                ));
            }
        } else {
            let mut v: Vec<V> = Vec::new();
            v.push(item);
            self.bands.insert(k, (priority, v));
            proof {
                assert(self.bands_view() =~= old(self).bands_view().take(k as int) + seq![
                    (priority, seq![item]),
                ] + old(self).bands_view().skip(k as int));
            }
        }
    }

    /// Insert the item at the front of its priority's band.
    #[verifier::loop_isolation(false)]
    pub fn push_front(&mut self, item: V, priority: usize)
        requires
            old(self).wf(),
        ensures
            final(self).wf(),
            final(self).bands_view() == push_front_spec(old(self).bands_view(), item, priority),
    {
        let mut k: usize = 0;
        while k < self.bands.len() && self.bands[k].0 < priority
            invariant
                k <= self.bands@.len(),
                forall|j: int| 0 <= j < k ==> (#[trigger] self.bands@[j]).0 < priority,
            decreases self.bands@.len() - k,
        {
            k += 1;
        }
        proof {
            lemma_push_front_spec_split(self.bands_view(), item, priority, k as int);
        }
        if k < self.bands.len() && self.bands[k].0 == priority {
            let mut band = self.bands.remove(k);
            band.1.insert(0, item);
            self.bands.insert(k, band);
            proof {
                assert(self.bands_view() =~~= old(self).bands_view().update(
                    k as int,
                    (priority, seq![item] + old(self).bands_view()[k as int].1),
                ));
            }
        } else {
            let mut v: Vec<V> = Vec::new();
            v.push(item);
            self.bands.insert(k, (priority, v));
            proof {
                assert(self.bands_view() =~= old(self).bands_view().take(k as int) + seq![
                    (priority, seq![item]),
                ] + old(self).bands_view().skip(k as int));
            }
        }
    }

    /// Take the last item of the lowest-priority band; nothing when the
    /// queue is empty.
    pub fn pop(&mut self) -> (r: Option<V>)
        requires
            old(self).wf(),
        ensures
            final(self).wf(),
            old(self).bands_view().len() == 0 ==> r is None && *final(self) == *old(self),
            old(self).bands_view().len() > 0 ==> r == Some(old(self).bands_view()[0].1.last())
                && final(self).bands_view() == pop_step(old(self).bands_view()),
    {
        if self.bands.len() == 0 {
            return None;
        }
        proof {
            assert(old(self).bands_view()[0].1.len() > 0);
        }
        let mut band = self.bands.remove(0);
        let item = band.1.pop().unwrap();
        if band.1.len() > 0 {
            self.bands.insert(0, band);
            proof {
                assert(self.bands_view() =~= pop_step(old(self).bands_view()));
            }
        } else {
            proof {
                assert(self.bands_view() =~= pop_step(old(self).bands_view()));
            }
        }
        Some(item)
    }

    /// Borrow the first item of the lowest-priority band; nothing when the
    /// queue is empty. The first item is the peeked one even though pops
    /// take from the tail.
    pub fn peek(&self) -> (r: Option<&V>)
        requires
            self.wf(),
        ensures
            self.bands_view().len() == 0 ==> r is None,
            self.bands_view().len() > 0 ==> (r matches Some(v) && *v == self.bands_view()[0].1[0]),
    {
        if self.bands.len() == 0 {
            None
        } else {
            proof {
                assert(self.bands_view()[0].1.len() > 0);
            }
            Some(&self.bands[0].1[0])
        }
    }
}

} // verus!
