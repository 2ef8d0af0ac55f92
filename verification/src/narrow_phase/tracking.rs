//! The list of tracked pairs, what one step of the narrow phase does to
//! it, and how it agrees with the records.

use vstd::prelude::*;
use crate::narrow_phase::detector::{CollisionDetector, CollisionObject};
use crate::narrow_phase::pair::Pair;
use crate::narrow_phase::signal::{alternates, SignalEvent};

verus! {

/// A tracked pair with its detector.
pub struct Entry<D> {
    pub key: Pair,
    pub value: D,
}

/// No pair is tracked twice.
pub open spec fn distinct_keys<D>(pairs: Seq<Entry<D>>) -> bool {
    forall|i: int, j: int|
        0 <= i < j < pairs.len() ==> (#[trigger] pairs[i]).key != (#[trigger] pairs[j]).key
}

/// `key` is tracked.
pub open spec fn is_tracked<D>(pairs: Seq<Entry<D>>, key: Pair) -> bool {
    exists|i: int| 0 <= i < pairs.len() && (#[trigger] pairs[i]).key == key
}

/// The detector of the entry has found at least one contact.
pub open spec fn has_contacts<D: CollisionDetector>(entry: Entry<D>) -> bool {
    entry.value.contacts().len() > 0
}

/// `key` is tracked and its detector has found at least one contact.
pub open spec fn in_contact<D: CollisionDetector>(pairs: Seq<Entry<D>>, key: Pair) -> bool {
    exists|i: int|
        0 <= i < pairs.len() && (#[trigger] pairs[i]).key == key && has_contacts(pairs[i])
}

/// Both objects of every tracked pair are in the world, and the detector of
/// the pair accepts them as they are.
pub open spec fn world_holds<D: CollisionDetector, T>(
    objects: Seq<CollisionObject<D::Shape, T>>,
    pairs: Seq<Entry<D>>,
) -> bool {
    forall|i: int|
        0 <= i < pairs.len() ==> {
            let key = (#[trigger] pairs[i]).key;
            &&& key.first < objects.len()
            &&& key.second < objects.len()
            &&& pairs[i].value.accepts(
                objects[key.first as int].position@,
                objects[key.first as int].shape,
                objects[key.second as int].position@,
                objects[key.second as int].shape,
                prediction_of(objects, key),
            )
        }
}

/// The event that tells of `key`, with what is attached to its objects.
pub open spec fn event_of<G, T>(
    objects: Seq<CollisionObject<G, T>>,
    key: Pair,
    started: bool,
) -> SignalEvent<T> {
    SignalEvent {
        pair: key,
        data1: objects[key.first as int].data,
        data2: objects[key.second as int].data,
        started,
    }
}

/// The prediction distance of a pair: the sum of what its objects ask for.
pub open spec fn prediction_of<G, T>(objects: Seq<CollisionObject<G, T>>, key: Pair) -> int {
    objects[key.first as int].query_limit + objects[key.second as int].query_limit
}

/// `after` tracks the pairs of `before`, in the same order, each detector
/// updated once against the two objects of its pair.
pub open spec fn updates<D: CollisionDetector, T>(
    before: Seq<Entry<D>>,
    after: Seq<Entry<D>>,
    objects: Seq<CollisionObject<D::Shape, T>>,
    timestamp: usize,
) -> bool {
    &&& after.len() == before.len()
    &&& forall|i: int|
        0 <= i < before.len() ==> {
            let key = (#[trigger] after[i]).key;
            &&& key == before[i].key
            &&& before[i].value.updated(
                objects[key.first as int].position@,
                objects[key.first as int].shape,
                objects[key.second as int].position@,
                objects[key.second as int].shape,
                prediction_of(objects, key),
                timestamp,
                after[i].value,
            )
        }
}

/// The contact events of one update: for each of the first `upto` pairs, in
/// order, one event if the pair went from no contact to some or from some to
/// none, and no event otherwise.
pub open spec fn transitions<D: CollisionDetector, T>(
    before: Seq<Entry<D>>,
    after: Seq<Entry<D>>,
    objects: Seq<CollisionObject<D::Shape, T>>,
    upto: int,
) -> Seq<SignalEvent<T>>
    decreases upto,
{
    if upto <= 0 {
        Seq::empty()
    } else {
        let rest = transitions(before, after, objects, upto - 1);
        let k = upto - 1;
        if has_contacts(before[k]) != has_contacts(after[k]) {
            rest.push(event_of(objects, after[k].key, has_contacts(after[k])))
        } else {
            rest
        }
    }
}

/// `after` is `before` with `key` newly tracked, no contact found yet.
pub open spec fn begins<D: CollisionDetector>(
    before: Seq<Entry<D>>,
    after: Seq<Entry<D>>,
    key: Pair,
) -> bool {
    &&& after.len() == before.len() + 1
    &&& after.drop_last() == before
    &&& after.last().key == key
    &&& !has_contacts(after.last())
}

/// The two records agree with what is tracked, as far as `pair` goes: its
/// proximity events take turns and end in a start exactly if it is tracked,
/// and its contact events take turns and end in a start exactly if its
/// detector has a contact.
pub open spec fn pair_lifecycle<D: CollisionDetector, T>(
    pairs: Seq<Entry<D>>,
    contact_log: Seq<SignalEvent<T>>,
    proximity_log: Seq<SignalEvent<T>>,
    pair: Pair,
) -> bool {
    &&& alternates(proximity_log, pair, is_tracked(pairs, pair))
    &&& alternates(contact_log, pair, in_contact(pairs, pair))
}

/// The two records agree with what is tracked, for every pair.
pub open spec fn lifecycle<D: CollisionDetector, T>(
    pairs: Seq<Entry<D>>,
    contact_log: Seq<SignalEvent<T>>,
    proximity_log: Seq<SignalEvent<T>>,
) -> bool {
    forall|pair: Pair| #[trigger] pair_lifecycle(pairs, contact_log, proximity_log, pair)
}

/// Where no pair is tracked twice, a pair is in contact exactly if its one
/// entry has contacts.
pub proof fn lemma_in_contact_at<D: CollisionDetector>(pairs: Seq<Entry<D>>, i: int)
    requires
        distinct_keys(pairs),
        0 <= i < pairs.len(),
    ensures
        in_contact(pairs, pairs[i].key) == has_contacts(pairs[i]),
        is_tracked(pairs, pairs[i].key),
{
    if in_contact(pairs, pairs[i].key) {
        let j = choose|j: int|
            0 <= j < pairs.len() && (#[trigger] pairs[j]).key == pairs[i].key && has_contacts(
                pairs[j],
            );
        assert(j == i);
    }
}

/// A change to one entry that keeps its key changes nothing for the other
/// pairs, and keeps every pair tracked or untracked.
pub proof fn lemma_in_contact_elsewhere<D: CollisionDetector>(
    before: Seq<Entry<D>>,
    after: Seq<Entry<D>>,
    i: int,
    pair: Pair,
)
    requires
        0 <= i < before.len(),
        after.len() == before.len(),
        after[i].key == before[i].key,
        forall|k: int| 0 <= k < before.len() && k != i ==> after[k] == before[k],
    ensures
        is_tracked(after, pair) == is_tracked(before, pair),
        pair != before[i].key ==> in_contact(after, pair) == in_contact(before, pair),
        distinct_keys(before) ==> distinct_keys(after),
{
    if is_tracked(before, pair) {
        let j = choose|j: int| 0 <= j < before.len() && (#[trigger] before[j]).key == pair;
        assert(after[j].key == pair);
    }
    if is_tracked(after, pair) {
        let j = choose|j: int| 0 <= j < after.len() && (#[trigger] after[j]).key == pair;
        assert(before[j].key == pair);
    }
    if pair != before[i].key {
        if in_contact(before, pair) {
            let j = choose|j: int|
                0 <= j < before.len() && (#[trigger] before[j]).key == pair && has_contacts(
                    before[j],
                );
            assert(after[j] == before[j]);
        }
        if in_contact(after, pair) {
            let j = choose|j: int|
                0 <= j < after.len() && (#[trigger] after[j]).key == pair && has_contacts(
                    after[j],
                );
            assert(before[j] == after[j]);
        }
    }
    if distinct_keys(before) {
        assert forall|a: int, b: int| 0 <= a < b < after.len() implies (#[trigger] after[a]).key
            != (#[trigger] after[b]).key by {
            assert(after[a].key == before[a].key);
            assert(after[b].key == before[b].key);
        }
    }
}

/// The events of an update up to a pair do not depend on the later pairs.
pub proof fn lemma_transitions_frame<D: CollisionDetector, T>(
    before: Seq<Entry<D>>,
    after: Seq<Entry<D>>,
    other: Seq<Entry<D>>,
    objects: Seq<CollisionObject<D::Shape, T>>,
    upto: int,
)
    requires
        0 <= upto <= after.len(),
        upto <= other.len(),
        forall|k: int| 0 <= k < upto ==> after[k] == other[k],
    ensures
        transitions(before, after, objects, upto) == transitions(before, other, objects, upto),
    decreases upto,
{
    if upto > 0 {
        lemma_transitions_frame(before, after, other, objects, upto - 1);
    }
}

/// Every event of an update is about a tracked pair.
pub proof fn lemma_transitions_tracked<D: CollisionDetector, T>(
    before: Seq<Entry<D>>,
    after: Seq<Entry<D>>,
    objects: Seq<CollisionObject<D::Shape, T>>,
    upto: int,
    k: int,
)
    requires
        0 <= upto <= after.len(),
        0 <= k < transitions(before, after, objects, upto).len(),
    ensures
        is_tracked(after, transitions(before, after, objects, upto)[k].pair),
    decreases upto,
{
    if upto > 0 {
        let rest = transitions(before, after, objects, upto - 1);
        if k < rest.len() {
            lemma_transitions_tracked(before, after, objects, upto - 1, k);
        } else {
            assert(after[upto - 1].key == transitions(before, after, objects, upto)[k].pair);
        }
    }
}

/// Tracking one more pair, no contact found yet, changes nothing for the
/// other pairs and leaves the new one tracked and out of contact.
pub proof fn lemma_begins<D: CollisionDetector>(
    before: Seq<Entry<D>>,
    after: Seq<Entry<D>>,
    key: Pair,
    pair: Pair,
)
    requires
        begins(before, after, key),
        !is_tracked(before, key),
    ensures
        is_tracked(after, pair) == (pair == key || is_tracked(before, pair)),
        in_contact(after, pair) == in_contact(before, pair),
        !in_contact(after, key),
        distinct_keys(before) ==> distinct_keys(after),
{
    let n = before.len() as int;
    assert(forall|j: int| 0 <= j < n ==> before[j] == after.drop_last()[j]);
    assert(after[n].key == key);
    if is_tracked(before, pair) {
        let j = choose|j: int| 0 <= j < before.len() && (#[trigger] before[j]).key == pair;
        assert(after[j].key == pair);
    }
    if is_tracked(after, pair) && pair != key {
        let j = choose|j: int| 0 <= j < after.len() && (#[trigger] after[j]).key == pair;
        assert(before[j].key == pair);
    }
    if in_contact(before, pair) {
        let j = choose|j: int|
            0 <= j < before.len() && (#[trigger] before[j]).key == pair && has_contacts(
                before[j],
            );
        assert(after[j] == before[j]);
    }
    if in_contact(after, pair) {
        let j = choose|j: int|
            0 <= j < after.len() && (#[trigger] after[j]).key == pair && has_contacts(after[j]);
        if j < n {
            assert(before[j] == after[j]);
        } else {
            assert(after[j] == after.last());
        }
    }
    if in_contact(after, key) {
        let j = choose|j: int|
            0 <= j < after.len() && (#[trigger] after[j]).key == key && has_contacts(after[j]);
        if j < n {
            assert(before[j] == after[j]);
        } else {
            assert(after[j] == after.last());
        }
    }
    if distinct_keys(before) {
        assert forall|a: int, b: int| 0 <= a < b < after.len() implies (#[trigger] after[a]).key
            != (#[trigger] after[b]).key by {
            assert(after[a] == before[a]);
            if b < n {
                assert(after[b] == before[b]);
            }
        }
    }
}

/// Dropping the entry of a pair changes nothing for the other pairs and
/// leaves that pair untracked.
pub proof fn lemma_ends<D: CollisionDetector>(before: Seq<Entry<D>>, i: int, pair: Pair)
    requires
        distinct_keys(before),
        0 <= i < before.len(),
    ensures
        is_tracked(before.remove(i), pair) == (pair != before[i].key && is_tracked(
            before,
            pair,
        )),
        in_contact(before.remove(i), pair) == (pair != before[i].key && in_contact(
            before,
            pair,
        )),
        distinct_keys(before.remove(i)),
{
    let after = before.remove(i);
    before.remove_ensures(i);
    assert forall|j: int| 0 <= j < after.len() implies (#[trigger] after[j]) == before[if j
        < i {
        j
    } else {
        j + 1
    }] by {}
    if is_tracked(before, pair) && pair != before[i].key {
        let j = choose|j: int| 0 <= j < before.len() && (#[trigger] before[j]).key == pair;
        let k = if j < i {
            j
        } else {
            j - 1
        };
        assert(after[k].key == pair);
    }
    if is_tracked(after, pair) {
        let j = choose|j: int| 0 <= j < after.len() && (#[trigger] after[j]).key == pair;
        let k = if j < i {
            j
        } else {
            j + 1
        };
        assert(before[k].key == pair);
    }
    if in_contact(before, pair) && pair != before[i].key {
        let j = choose|j: int|
            0 <= j < before.len() && (#[trigger] before[j]).key == pair && has_contacts(
                before[j],
            );
        let k = if j < i {
            j
        } else {
            j - 1
        };
        assert(after[k] == before[j]);
    }
    if in_contact(after, pair) {
        let j = choose|j: int|
            0 <= j < after.len() && (#[trigger] after[j]).key == pair && has_contacts(after[j]);
        let k = if j < i {
            j
        } else {
            j + 1
        };
        assert(before[k] == after[j]);
    }
    assert forall|a: int, b: int| 0 <= a < b < after.len() implies (#[trigger] after[a]).key
        != (#[trigger] after[b]).key by {
        let ka = if a < i {
            a
        } else {
            a + 1
        };
        let kb = if b < i {
            b
        } else {
            b + 1
        };
        assert(after[a] == before[ka]);
        assert(after[b] == before[kb]);
    }
}

/// An update records nothing about a pair that is not tracked.
pub proof fn lemma_update_is_silent_on_untracked<D: CollisionDetector, T>(
    before: Seq<Entry<D>>,
    after: Seq<Entry<D>>,
    objects: Seq<CollisionObject<D::Shape, T>>,
    pair: Pair,
    k: int,
)
    requires
        after.len() == before.len(),
        forall|i: int| 0 <= i < before.len() ==> (#[trigger] after[i]).key == before[i].key,
        !is_tracked(before, pair),
        0 <= k < transitions(before, after, objects, before.len() as int).len(),
    ensures
        transitions(before, after, objects, before.len() as int)[k].pair != pair,
{
    lemma_transitions_tracked(before, after, objects, before.len() as int, k);
    lemma_same_keys(before, after, pair);
}

/// While the records agree with what is tracked, a pair that is not tracked
/// is not in contact, and the last contact event about it, if there is any,
/// is a stop.
pub proof fn lemma_untracked_is_settled<D: CollisionDetector, T>(
    pairs: Seq<Entry<D>>,
    contact_log: Seq<SignalEvent<T>>,
    proximity_log: Seq<SignalEvent<T>>,
    pair: Pair,
)
    requires
        lifecycle(pairs, contact_log, proximity_log),
        !is_tracked(pairs, pair),
    ensures
        !in_contact(pairs, pair),
        alternates(contact_log, pair, false),
        alternates(proximity_log, pair, false),
{
    assert(pair_lifecycle(pairs, contact_log, proximity_log, pair));
    if in_contact(pairs, pair) {
        let j = choose|j: int|
            0 <= j < pairs.len() && (#[trigger] pairs[j]).key == pair && has_contacts(pairs[j]);
        assert(is_tracked(pairs, pair));
    }
}

/// A narrow phase that tracks nothing agrees with empty records.
pub proof fn lemma_lifecycle_begins<D: CollisionDetector, T>()
    ensures
        lifecycle(Seq::<Entry<D>>::empty(), Seq::<SignalEvent<T>>::empty(), Seq::<SignalEvent<T>>::empty()),
{
    assert forall|pair: Pair| #[trigger]
        pair_lifecycle(
            Seq::<Entry<D>>::empty(),
            Seq::<SignalEvent<T>>::empty(),
            Seq::<SignalEvent<T>>::empty(),
            pair,
        ) by {}
}

/// Two lists that track the same pairs in the same order track the same
/// pairs.
pub proof fn lemma_same_keys<D>(before: Seq<Entry<D>>, after: Seq<Entry<D>>, pair: Pair)
    requires
        after.len() == before.len(),
        forall|k: int| 0 <= k < before.len() ==> (#[trigger] after[k]).key == before[k].key,
    ensures
        is_tracked(after, pair) == is_tracked(before, pair),
{
    if is_tracked(before, pair) {
        let j = choose|j: int| 0 <= j < before.len() && (#[trigger] before[j]).key == pair;
        assert(after[j].key == pair);
    }
    if is_tracked(after, pair) {
        let j = choose|j: int| 0 <= j < after.len() && (#[trigger] after[j]).key == pair;
        assert(before[j].key == pair);
    }
}

} // verus!
