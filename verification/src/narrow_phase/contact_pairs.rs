//! Walks over the tracked pairs and over their contacts.

use vstd::prelude::*;
use crate::math::Point;
use crate::narrow_phase::detector::{contact_views, CollisionDetector, CollisionObject, Contact};
use crate::narrow_phase::pair::Pair;
use crate::narrow_phase::tracking::Entry;

verus! {

/// The key of every tracked pair names two objects of a world of `count`
/// objects.
pub open spec fn keys_held<D>(count: nat, pairs: Seq<Entry<D>>) -> bool {
    forall|i: int|
        0 <= i < pairs.len() ==> (#[trigger] pairs[i]).key.first < count && pairs[i].key.second
            < count
}

/// The contacts, each beside the pair it belongs to.
pub open spec fn tagged(key: Pair, contacts: Seq<Contact<Seq<int>>>) -> Seq<
    (Pair, Contact<Seq<int>>),
> {
    Seq::new(contacts.len(), |i: int| (key, contacts[i]))
}

/// The contacts of the pairs from `from` on, pair after pair.
pub open spec fn flattened<D: CollisionDetector>(pairs: Seq<Entry<D>>, from: int) -> Seq<
    (Pair, Contact<Seq<int>>),
>
    decreases pairs.len() - from,
{
    if from < 0 || from >= pairs.len() {
        Seq::empty()
    } else {
        tagged(pairs[from].key, pairs[from].value.contacts()) + flattened(pairs, from + 1)
    }
}

/// A walk over the tracked pairs, each with its two objects and its
/// detector, whether or not the detector has found a contact.
pub struct ContactPairs<'a, G, T, D> {
    pub objects: &'a Vec<CollisionObject<G, T>>,
    pub pairs: &'a Vec<Entry<D>>,
    pub position: usize,
}

/// A walk over the contacts of the tracked pairs, one contact at a time,
/// each with the two objects it is between. The contacts of one pair are
/// gathered in a buffer that the next pair overwrites.
pub struct Contacts<'a, G, T, D> {
    pub objects: &'a Vec<CollisionObject<G, T>>,
    pub co1: Option<&'a CollisionObject<G, T>>,
    pub co2: Option<&'a CollisionObject<G, T>>,
    pub pairs: &'a Vec<Entry<D>>,
    pub position: usize,
    pub collector: Vec<Contact<Point>>,
    pub curr_contact: usize,
}

impl<'a, G, T, D> ContactPairs<'a, G, T, D> {
    /// The walk has not left the pairs, and every pair names objects of the
    /// world.
    pub open spec fn wf(&self) -> bool {
        &&& self.position <= self.pairs@.len()
        &&& keys_held(self.objects@.len(), self.pairs@)
    }

    /// The pairs not yet visited.
    pub open spec fn remaining(&self) -> Seq<Entry<D>> {
        self.pairs@.skip(self.position as int)
    }

    /// A walk over `pairs` from the first one on.
    pub fn new(objects: &'a Vec<CollisionObject<G, T>>, pairs: &'a Vec<Entry<D>>) -> (res:
        ContactPairs<'a, G, T, D>)
        ensures
            res.objects == objects,
            res.pairs == pairs,
            res.position == 0,
    {
        ContactPairs { objects, pairs, position: 0 }
    }

    /// Turns the walk over pairs into a walk over their contacts.
    pub fn contacts(self) -> (res: Contacts<'a, G, T, D>)
        ensures
            res.objects == self.objects,
            res.pairs == self.pairs,
            res.position == self.position,
            res.co1 is None,
            res.co2 is None,
            res.collector@.len() == 0,
            res.curr_contact == 0,
    {
        Contacts {
            objects: self.objects,
            co1: None,
            co2: None,
            pairs: self.pairs,
            position: self.position,
            collector: Vec::new(),
            curr_contact: 0,
        }
    }

    /// The next pair with its two objects and its detector, or nothing once
    /// every pair has been visited.
    pub fn next(&mut self) -> (item: Option<
        (&'a CollisionObject<G, T>, &'a CollisionObject<G, T>, &'a D),
    >)
        requires
            old(self).wf(),
        ensures
            final(self).wf(),
            final(self).objects == old(self).objects,
            final(self).pairs == old(self).pairs,
            match item {
                None => {
                    &&& old(self).remaining().len() == 0
                    &&& final(self).position == old(self).position
                },
                Some((co1, co2, detector)) => {
                    &&& old(self).remaining().len() > 0
                    &&& *co1 == old(self).objects@[old(self).remaining()[0].key.first as int]
                    &&& *co2 == old(self).objects@[old(self).remaining()[0].key.second as int]
                    &&& *detector == old(self).remaining()[0].value
                    &&& final(self).remaining() == old(self).remaining().skip(1)
                },
            },
    {
        if self.position < self.pairs.len() {
            let p: &'a Entry<D> = &self.pairs[self.position];
            let co1: &'a CollisionObject<G, T> = &self.objects[p.key.first];
            let co2: &'a CollisionObject<G, T> = &self.objects[p.key.second];
            proof {
                assert(self.pairs@.skip(self.position as int).skip(1) =~= self.pairs@.skip(
                    self.position + 1,
                ));
            }
            self.position = self.position + 1;
            Some((co1, co2, &p.value))
        } else {
            None
        }
    }
}

impl<'a, G, T, D: CollisionDetector> Contacts<'a, G, T, D> {
    /// The walk has not left the pairs, every pair names objects of the
    /// world, and a buffer that is not empty holds the contacts of the pair
    /// visited last, whose objects are at hand.
    pub open spec fn wf(&self) -> bool {
        &&& self.position <= self.pairs@.len()
        &&& keys_held(self.objects@.len(), self.pairs@)
        &&& self.collector@.len() > 0 ==> {
            &&& self.curr_contact <= self.collector@.len()
            &&& self.position > 0
            &&& contact_views(self.collector@) == self.pairs@[self.position
                - 1].value.contacts()
            &&& self.co1 matches Some(co1) && *co1 == self.objects@[self.pairs@[self.position
                - 1].key.first as int]
            &&& self.co2 matches Some(co2) && *co2 == self.objects@[self.pairs@[self.position
                - 1].key.second as int]
        }
    }

    /// The contacts still to come, each beside its pair: what is left in the
    /// buffer, then the contacts of the pairs not yet visited.
    pub open spec fn pending(&self) -> Seq<(Pair, Contact<Seq<int>>)> {
        let buffered = if self.collector@.len() > 0 {
            tagged(
                self.pairs@[self.position - 1].key,
                contact_views(self.collector@).skip(self.curr_contact as int),
            )
        } else {
            Seq::empty()
        };
        buffered + flattened(self.pairs@, self.position as int)
    }

    /// The next contact with the two objects it is between, or nothing once
    /// the contacts of every pair have been handed out.
    pub fn next(&mut self) -> (item: Option<
        (&'a CollisionObject<G, T>, &'a CollisionObject<G, T>, Contact<Point>),
    >)
        requires
            old(self).wf(),
        ensures
            final(self).wf(),
            final(self).objects == old(self).objects,
            final(self).pairs == old(self).pairs,
            match item {
                None => {
                    &&& old(self).pending().len() == 0
                    &&& final(self).pending().len() == 0
                },
                Some((co1, co2, contact)) => {
                    &&& old(self).pending().len() > 0
                    &&& *co1 == old(self).objects@[old(self).pending()[0].0.first as int]
                    &&& *co2 == old(self).objects@[old(self).pending()[0].0.second as int]
                    &&& contact@ == old(self).pending()[0].1
                    &&& final(self).pending() == old(self).pending().skip(1)
                },
            },
    {
        let ghost before = self.pending();
        if self.curr_contact < self.collector.len() {
            let ghost key = self.pairs@[self.position - 1].key;
            let ghost views = contact_views(self.collector@);
            let ghost rest = flattened(self.pairs@, self.position as int);
            let contact = self.collector[self.curr_contact].clone();
            proof {
                assert(before[0] == (key, views[self.curr_contact as int]));
                assert((tagged(key, views.skip(self.curr_contact as int)) + rest).skip(1)
                    =~= tagged(key, views.skip(self.curr_contact + 1)) + rest);
            }
            self.curr_contact = self.curr_contact + 1;
            Some((self.co1.unwrap(), self.co2.unwrap(), contact))
        } else {
            proof {
                if self.collector@.len() > 0 {
                    assert(contact_views(self.collector@).skip(self.curr_contact as int).len()
                        == 0);
                }
                assert(before =~= flattened(self.pairs@, self.position as int));
            }
            self.collector.clear();
            while self.position < self.pairs.len()
                invariant
                    self.objects == old(self).objects,
                    self.pairs == old(self).pairs,
                    self.position <= self.pairs@.len(),
                    keys_held(self.objects@.len(), self.pairs@),
                    self.collector@.len() == 0,
                    before == flattened(self.pairs@, self.position as int),
                    before == old(self).pending(),
                decreases self.pairs@.len() - self.position,
            {
                let p: &'a Entry<D> = &self.pairs[self.position];
                let ghost rest = flattened(self.pairs@, self.position + 1);
                self.position = self.position + 1;
                p.value.colls(&mut self.collector);
                proof {
                    assert(contact_views(self.collector@) =~= p.value.contacts());
                }
                if self.collector.len() != 0 {
                    let co1: &'a CollisionObject<G, T> = &self.objects[p.key.first];
                    let co2: &'a CollisionObject<G, T> = &self.objects[p.key.second];
                    self.co1 = Some(co1);
                    self.co2 = Some(co2);
                    // The first contact is handed out at once.
                    self.curr_contact = 1;
                    let contact = self.collector[0].clone();
                    proof {
                        let views = contact_views(self.collector@);
                        assert(before[0] == (p.key, views[0]));
                        assert((tagged(p.key, views) + rest).skip(1) =~= tagged(
                            p.key,
                            views.skip(1),
                        ) + rest);
                    }
                    return Some((co1, co2, contact));
                }
                proof {
                    assert(tagged(p.key, p.value.contacts()) + rest =~= rest);
                }
            }
            None
        }
    }
}

/// A walk begun on the tracked pairs yields their contacts pair after pair,
/// so two walks begun on the same pairs yield the same contacts in the same
/// order.
pub proof fn lemma_snapshot_idempotent<'a, G, T, D: CollisionDetector>(
    first: Contacts<'a, G, T, D>,
    second: Contacts<'a, G, T, D>,
)
    requires
        first.pairs@ == second.pairs@,
        first.position == 0,
        second.position == 0,
        first.collector@.len() == 0,
        second.collector@.len() == 0,
    ensures
        first.pending() == flattened(first.pairs@, 0),
        second.pending() == first.pending(),
{
    assert(first.pending() =~= flattened(first.pairs@, 0));
    assert(second.pending() =~= flattened(second.pairs@, 0));
}

} // verus!
