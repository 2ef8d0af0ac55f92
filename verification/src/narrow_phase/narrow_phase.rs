//! The manager of the narrow phase and its list-based implementation.

use vstd::prelude::*;
use crate::narrow_phase::contact_pairs::ContactPairs;
use crate::narrow_phase::detector::{
    CollisionDetector, CollisionDispatcher, CollisionObject, ShapeOf,
};
use crate::narrow_phase::pair::Pair;
use crate::narrow_phase::signal::{
    alternates, lemma_alternates_push, ContactSignal, ProximitySignal, SignalEvent,
};
use crate::narrow_phase::tracking::{
    begins, distinct_keys, event_of, has_contacts, in_contact, is_tracked, lemma_begins,
    lemma_ends, lemma_in_contact_at, lemma_in_contact_elsewhere, lemma_same_keys,
    lemma_transitions_frame, lifecycle, pair_lifecycle, prediction_of, transitions, updates,
    world_holds, Entry,
};

verus! {

/// What a report of begun proximity leaves: where the pair is allowed, the
/// pair newly tracked and the event recorded; where it is not, everything as
/// it was. No contact event is recorded.
pub open spec fn proximity_started<D: CollisionDetector, T>(
    before: Seq<Entry<D>>,
    after: Seq<Entry<D>>,
    contact_before: Seq<SignalEvent<T>>,
    contact_after: Seq<SignalEvent<T>>,
    proximity_before: Seq<SignalEvent<T>>,
    proximity_after: Seq<SignalEvent<T>>,
    e: SignalEvent<T>,
    allowed: bool,
) -> bool {
    &&& contact_after == contact_before
    &&& allowed ==> begins(before, after, e.pair) && proximity_after == proximity_before.push(e)
    &&& !allowed ==> after == before && proximity_after == proximity_before
}

/// What a report of ended proximity leaves: the pair no longer tracked, the
/// end of its contact recorded if its detector had one, and then the end of
/// its proximity. For a pair that was not tracked nothing changes.
pub open spec fn proximity_stopped<D: CollisionDetector, T>(
    before: Seq<Entry<D>>,
    after: Seq<Entry<D>>,
    contact_before: Seq<SignalEvent<T>>,
    contact_after: Seq<SignalEvent<T>>,
    proximity_before: Seq<SignalEvent<T>>,
    proximity_after: Seq<SignalEvent<T>>,
    e: SignalEvent<T>,
) -> bool {
    &&& !is_tracked(before, e.pair) ==> {
        &&& after == before
        &&& proximity_after == proximity_before
        &&& contact_after == contact_before
    }
    &&& forall|i: int|
        0 <= i < before.len() && (#[trigger] before[i]).key == e.pair ==> {
            &&& after == before.remove(i)
            &&& proximity_after == proximity_before.push(e)
            &&& contact_after == if has_contacts(before[i]) {
                contact_before.push(e)
            } else {
                contact_before
            }
        }
}

/// The manager of the narrow phase. It keeps one detector for every pair
/// that the broad phase reports as close, runs the detectors once per tick
/// and records what starts and stops.
pub trait NarrowPhase<T: Copy>: Sized {
    /// The detectors kept for the tracked pairs.
    type Detector: CollisionDetector;

    /// The tracked pairs with their detectors, in the order in which they
    /// are visited.
    spec fn pairs(&self) -> Seq<Entry<Self::Detector>>;

    /// Whether a pair of these shapes is tracked once it is reported.
    spec fn is_proximity_allowed(
        &self,
        g1: ShapeOf<Self::Detector>,
        g2: ShapeOf<Self::Detector>,
    ) -> bool;

    /// Runs the detector of every tracked pair against the present
    /// placements, and records a contact event for each pair that went from
    /// no contact to some or from some to none.
    fn update(
        &mut self,
        objects: &Vec<CollisionObject<ShapeOf<Self::Detector>, T>>,
        contact_signal: &mut ContactSignal<T>,
        proximity_signal: &mut ProximitySignal<T>,
        timestamp: usize,
    )
        requires
            distinct_keys(old(self).pairs()),
            world_holds(objects@, old(self).pairs()),
        ensures
            updates(old(self).pairs(), final(self).pairs(), objects@, timestamp),
            distinct_keys(final(self).pairs()),
            forall|g1: ShapeOf<Self::Detector>, g2: ShapeOf<Self::Detector>|
                #[trigger] final(self).is_proximity_allowed(g1, g2) == old(
                    self,
                ).is_proximity_allowed(g1, g2),
            final(contact_signal).events@ == old(contact_signal).events@ + transitions(
                old(self).pairs(),
                final(self).pairs(),
                objects@,
                old(self).pairs().len() as int,
            ),
            final(proximity_signal).events@ == old(proximity_signal).events@,
            lifecycle(old(self).pairs(), old(contact_signal).events@, old(proximity_signal).events@)
                ==> lifecycle(
                final(self).pairs(),
                final(contact_signal).events@,
                final(proximity_signal).events@,
            ),
    ;

    /// Takes the broad phase's report that the objects `fk1` and `fk2` have
    /// come into proximity (`started`) or left it.
    fn handle_proximity(
        &mut self,
        contact_signal: &mut ContactSignal<T>,
        proximity_signal: &mut ProximitySignal<T>,
        objects: &Vec<CollisionObject<ShapeOf<Self::Detector>, T>>,
        fk1: usize,
        fk2: usize,
        started: bool,
    )
        requires
            fk1 < objects@.len(),
            fk2 < objects@.len(),
            distinct_keys(old(self).pairs()),
            started ==> !is_tracked(old(self).pairs(), Pair::of(fk1, fk2)),
        ensures
            distinct_keys(final(self).pairs()),
            forall|g1: ShapeOf<Self::Detector>, g2: ShapeOf<Self::Detector>|
                #[trigger] final(self).is_proximity_allowed(g1, g2) == old(
                    self,
                ).is_proximity_allowed(g1, g2),
            started ==> proximity_started(
                old(self).pairs(),
                final(self).pairs(),
                old(contact_signal).events@,
                final(contact_signal).events@,
                old(proximity_signal).events@,
                final(proximity_signal).events@,
                event_of(objects@, Pair::of(fk1, fk2), true),
                old(self).is_proximity_allowed(
                    objects@[Pair::of(fk1, fk2).first as int].shape,
                    objects@[Pair::of(fk1, fk2).second as int].shape,
                ),
            ),
            !started ==> proximity_stopped(
                old(self).pairs(),
                final(self).pairs(),
                old(contact_signal).events@,
                final(contact_signal).events@,
                old(proximity_signal).events@,
                final(proximity_signal).events@,
                event_of(objects@, Pair::of(fk1, fk2), false),
            ),
            lifecycle(old(self).pairs(), old(contact_signal).events@, old(proximity_signal).events@)
                ==> lifecycle(
                final(self).pairs(),
                final(contact_signal).events@,
                final(proximity_signal).events@,
            ),
    ;

    /// A walk over the tracked pairs, from the first one on.
    fn contact_pairs<'a>(
        &'a self,
        objects: &'a Vec<CollisionObject<ShapeOf<Self::Detector>, T>>,
    ) -> (res: ContactPairs<'a, ShapeOf<Self::Detector>, T, Self::Detector>)
        ensures
            res.objects == objects,
            res.pairs@ == self.pairs(),
            res.position == 0,
    ;
}

/// The narrow phase that keeps its pairs in a list and asks a dispatcher for
/// the detector of each new pair.
pub struct DefaultNarrowPhase<X: CollisionDispatcher> {
    pub dispatcher: X,
    pub pairs: Vec<Entry<X::Detector>>,
}

impl<X: CollisionDispatcher> DefaultNarrowPhase<X> {
    /// A narrow phase that tracks no pair yet.
    pub fn new(dispatcher: X) -> (res: DefaultNarrowPhase<X>)
        ensures
            res.dispatcher == dispatcher,
            res.pairs@.len() == 0,
    {
        DefaultNarrowPhase { dispatcher, pairs: Vec::new() }
    }

    /// Where `key` stands among the tracked pairs, if it is tracked.
    pub fn find(&self, key: Pair) -> (at: Option<usize>)
        ensures
            match at {
                Some(i) => i < self.pairs@.len() && self.pairs@[i as int].key == key,
                None => !is_tracked(self.pairs@, key),
            },
    {
        let n: usize = self.pairs.len();
        let mut i: usize = 0;
        while i < n
            invariant
                n == self.pairs@.len(),
                i <= n,
                forall|k: int| 0 <= k < i ==> (#[trigger] self.pairs@[k]).key != key,
            decreases n - i,
        {
            if self.pairs[i].key.first == key.first && self.pairs[i].key.second == key.second {
                return Some(i);
            }
            i = i + 1;
        }
        None
    }

    /// Starts to track `key` with the detector that the dispatcher gave for
    /// it, and records the begun proximity; where the dispatcher gave none,
    /// nothing changes.
    pub fn begin_tracking<T: Copy>(
        &mut self,
        proximity_signal: &mut ProximitySignal<T>,
        key: Pair,
        data1: T,
        data2: T,
        detector: Option<X::Detector>,
    )
        ensures
            final(self).dispatcher == old(self).dispatcher,
            match detector {
                Some(d) => {
                    &&& final(self).pairs@ == old(self).pairs@.push((Entry { key, value: d }))
                    &&& final(proximity_signal).events@ == old(proximity_signal).events@.push(
                        (SignalEvent { pair: key, data1, data2, started: true }),
                    )
                },
                None => {
                    &&& final(self).pairs@ == old(self).pairs@
                    &&& final(proximity_signal).events@ == old(proximity_signal).events@
                },
            },
    {
        match detector {
            Some(d) => {
                self.pairs.push(Entry { key, value: d });
                proximity_signal.trigger_proximity_signal(key, data1, data2, true);
            },
            None => {},
        }
    }
}

impl<T: Copy, X: CollisionDispatcher> NarrowPhase<T> for DefaultNarrowPhase<X> {
    type Detector = X::Detector;

    open spec fn pairs(&self) -> Seq<Entry<X::Detector>> {
        self.pairs@
    }

    open spec fn is_proximity_allowed(
        &self,
        g1: ShapeOf<X::Detector>,
        g2: ShapeOf<X::Detector>,
    ) -> bool {
        self.dispatcher.allows(g1, g2)
    }

    fn update(
        &mut self,
        objects: &Vec<CollisionObject<ShapeOf<X::Detector>, T>>,
        contact_signal: &mut ContactSignal<T>,
        proximity_signal: &mut ProximitySignal<T>,
        timestamp: usize,
    ) {
        let n: usize = self.pairs.len();
        let ghost before = self.pairs@;
        let ghost log = contact_signal.events@;
        let ghost held = lifecycle(before, log, proximity_signal.events@);
        proof {
            if held {
                assert forall|pair: Pair|
                    alternates(log, pair, #[trigger] in_contact(before, pair)) by {
                    assert(pair_lifecycle(before, log, proximity_signal.events@, pair));
                }
            }
        }
        let mut i: usize = 0;
        while i < n
            invariant
                self.dispatcher == old(self).dispatcher,
                n == before.len(),
                self.pairs@.len() == n,
                i <= n,
                distinct_keys(before),
                distinct_keys(self.pairs@),
                world_holds(objects@, before),
                forall|k: int| i <= k < n ==> self.pairs@[k] == before[k],
                forall|k: int| 0 <= k < n ==> (#[trigger] self.pairs@[k]).key == before[k].key,
                forall|k: int|
                    0 <= k < i ==> {
                        let key = before[k].key;
                        before[k].value.updated(
                            objects@[key.first as int].position@,
                            objects@[key.first as int].shape,
                            objects@[key.second as int].position@,
                            objects@[key.second as int].shape,
                            prediction_of(objects@, key),
                            timestamp,
                            (#[trigger] self.pairs@[k]).value,
                        )
                    },
                contact_signal.events@ == log + transitions(
                    before,
                    self.pairs@,
                    objects@,
                    i as int,
                ),
                held ==> forall|pair: Pair|
                    alternates(contact_signal.events@, pair, #[trigger] in_contact(self.pairs@, pair)),
            decreases n - i,
        {
            let ghost current = self.pairs@;
            let ghost current_log = contact_signal.events@;
            let key: Pair = self.pairs[i].key;
            assert(key == before[i as int].key);
            let co1 = &objects[key.first];
            let co2 = &objects[key.second];
            let prediction: u64 = co1.query_limit as u64 + co2.query_limit as u64;
            let had_colls: bool = self.pairs[i].value.num_colls() != 0;
            self.pairs[i].value.update(
                &co1.position,
                &co1.shape,
                &co2.position,
                &co2.shape,
                prediction,
                timestamp,
            );
            if self.pairs[i].value.num_colls() == 0 {
                if had_colls {
                    contact_signal.trigger_contact_signal(key, co1.data, co2.data, false);
                }
            } else {
                if !had_colls {
                    contact_signal.trigger_contact_signal(key, co1.data, co2.data, true);
                }
            }
            proof {
                let next = self.pairs@;
                let now = has_contacts(next[i as int]);
                let e = event_of(objects@, key, now);
                assert(next[i as int].key == key);
                assert(forall|k: int| 0 <= k < n && k != i ==> next[k] == current[k]);
                lemma_transitions_frame(before, current, next, objects@, i as int);
                assert(log + transitions(before, next, objects@, i as int).push(e) =~= (log
                    + transitions(before, next, objects@, i as int)).push(e));
                lemma_in_contact_at(current, i as int);
                lemma_in_contact_elsewhere(current, next, i as int, key);
                lemma_in_contact_at(next, i as int);
                if held {
                    assert forall|pair: Pair|
                        alternates(
                            contact_signal.events@,
                            pair,
                            #[trigger] in_contact(next, pair),
                        ) by {
                        lemma_in_contact_elsewhere(current, next, i as int, pair);
                        assert(alternates(current_log, pair, in_contact(current, pair)));
                        lemma_alternates_push(current_log, e, pair, in_contact(next, pair));
                    }
                }
                lemma_in_contact_elsewhere(current, next, i as int, key);
            }
            i = i + 1;
        }
        proof {
            if held {
                assert forall|pair: Pair| #[trigger]
                    pair_lifecycle(
                        self.pairs@,
                        contact_signal.events@,
                        proximity_signal.events@,
                        pair,
                    ) by {
                    lemma_same_keys(before, self.pairs@, pair);
                    assert(pair_lifecycle(before, log, proximity_signal.events@, pair));
                    assert(alternates(
                        contact_signal.events@,
                        pair,
                        in_contact(self.pairs@, pair),
                    ));
                }
            }
        }
    }

    fn handle_proximity(
        &mut self,
        contact_signal: &mut ContactSignal<T>,
        proximity_signal: &mut ProximitySignal<T>,
        objects: &Vec<CollisionObject<ShapeOf<X::Detector>, T>>,
        fk1: usize,
        fk2: usize,
        started: bool,
    ) {
        let key = Pair::new(fk1, fk2);
        let co1 = &objects[key.first];
        let co2 = &objects[key.second];
        let ghost before = self.pairs@;
        let ghost contact_log = contact_signal.events@;
        let ghost proximity_log = proximity_signal.events@;
        let ghost held = lifecycle(before, contact_log, proximity_log);
        let ghost e = event_of(objects@, key, started);
        if started {
            let detector = self.dispatcher.get_collision_algorithm(&co1.shape, &co2.shape);
            let ghost given = detector is Some;
            self.begin_tracking(proximity_signal, key, co1.data, co2.data, detector);
            proof {
                if given {
                    let after = self.pairs@;
                    assert(after.drop_last() =~= before);
                    assert(begins(before, after, key));
                    lemma_begins(before, after, key, key);
                    if held {
                        assert forall|pair: Pair| #[trigger]
                            pair_lifecycle(
                                after,
                                contact_signal.events@,
                                proximity_signal.events@,
                                pair,
                            ) by {
                            lemma_begins(before, after, key, pair);
                            assert(pair_lifecycle(before, contact_log, proximity_log, pair));
                            lemma_alternates_push(
                                proximity_log,
                                e,
                                pair,
                                is_tracked(after, pair),
                            );
                        }
                    }
                }
            }
        } else {
            match self.find(key) {
                Some(i) => {
                    let entry = self.pairs.remove(i);
                    // The contact ends before the proximity does.
                    if entry.value.num_colls() != 0 {
                        contact_signal.trigger_contact_signal(key, co1.data, co2.data, false);
                    }
                    proximity_signal.trigger_proximity_signal(key, co1.data, co2.data, false);
                    proof {
                        let after = self.pairs@;
                        lemma_ends(before, i as int, key);
                        lemma_in_contact_at(before, i as int);
                        assert forall|j: int|
                            0 <= j < before.len() && (#[trigger] before[j]).key
                                == key implies j == i by {}
                        if held {
                            assert forall|pair: Pair| #[trigger]
                                pair_lifecycle(
                                    after,
                                    contact_signal.events@,
                                    proximity_signal.events@,
                                    pair,
                                ) by {
                                lemma_ends(before, i as int, pair);
                                assert(pair_lifecycle(before, contact_log, proximity_log, pair));
                                lemma_alternates_push(
                                    proximity_log,
                                    e,
                                    pair,
                                    is_tracked(after, pair),
                                );
                                lemma_alternates_push(
                                    contact_log,
                                    e,
                                    pair,
                                    in_contact(after, pair),
                                );
                            }
                        }
                    }
                },
                None => {},
            }
        }
    }

    fn contact_pairs<'a>(
        &'a self,
        objects: &'a Vec<CollisionObject<ShapeOf<X::Detector>, T>>,
    ) -> (res: ContactPairs<'a, ShapeOf<X::Detector>, T, X::Detector>) {
        ContactPairs::new(objects, &self.pairs)
    }
}

} // verus!
