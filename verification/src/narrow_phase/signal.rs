//! The records of what started and stopped, and what it means for the
//! events about a pair to take turns.

use vstd::prelude::*;
use crate::narrow_phase::pair::Pair;

verus! {

/// One event of a signal: the pair it is about, what the owners attached to
/// its two objects, and whether something started or stopped.
#[derive(Debug, PartialEq, Eq, Clone, Copy)]
pub struct SignalEvent<T> {
    pub pair: Pair,
    pub data1: T,
    pub data2: T,
    pub started: bool,
}

/// The record of contacts that started or stopped, oldest first.
pub struct ContactSignal<T> {
    pub events: Vec<SignalEvent<T>>,
}

/// The record of pairs that came into or left proximity, oldest first.
pub struct ProximitySignal<T> {
    pub events: Vec<SignalEvent<T>>,
}

impl<T> ContactSignal<T> {
    /// A record without events.
    pub fn new() -> (signal: ContactSignal<T>)
        ensures
            signal.events@.len() == 0,
    {
        ContactSignal { events: Vec::new() }
    }

    /// Records that a contact between the objects of `pair` started or
    /// stopped.
    pub fn trigger_contact_signal(&mut self, pair: Pair, data1: T, data2: T, started: bool)
        ensures
            final(self).events@ == old(self).events@.push(
                (SignalEvent { pair, data1, data2, started }),
            ),
    {
        self.events.push(SignalEvent { pair, data1, data2, started });
    }
}

impl<T> ProximitySignal<T> {
    /// A record without events.
    pub fn new() -> (signal: ProximitySignal<T>)
        ensures
            signal.events@.len() == 0,
    {
        ProximitySignal { events: Vec::new() }
    }

    /// Records that the objects of `pair` came into or left proximity.
    pub fn trigger_proximity_signal(&mut self, pair: Pair, data1: T, data2: T, started: bool)
        ensures
            final(self).events@ == old(self).events@.push(
                (SignalEvent { pair, data1, data2, started }),
            ),
    {
        self.events.push(SignalEvent { pair, data1, data2, started });
    }
}

/// The events of `log` that are about `pair` take turns, a start first, and
/// the last of them, if there is any, is a start exactly if `active`.
pub open spec fn alternates<T>(log: Seq<SignalEvent<T>>, pair: Pair, active: bool) -> bool
    decreases log.len(),
{
    if log.len() == 0 {
        !active
    } else if log.last().pair == pair {
        log.last().started == active && alternates(log.drop_last(), pair, !active)
    } else {
        alternates(log.drop_last(), pair, active)
    }
}

/// What one more event does to the turns of a pair.
pub proof fn lemma_alternates_push<T>(
    log: Seq<SignalEvent<T>>,
    e: SignalEvent<T>,
    pair: Pair,
    active: bool,
)
    ensures
        e.pair != pair ==> alternates(log.push(e), pair, active) == alternates(
            log,
            pair,
            active,
        ),
        e.pair == pair ==> alternates(log.push(e), pair, active) == (e.started == active
            && alternates(log, pair, !active)),
{
    assert(log.push(e).drop_last() =~= log);
    assert(log.push(e).last() == e);
}

/// `log[j]` is a start about `pair`, and nothing between it and `upto` is
/// about `pair`.
pub open spec fn opens<T>(log: Seq<SignalEvent<T>>, pair: Pair, j: int, upto: int) -> bool {
    &&& 0 <= j < upto
    &&& log[j].pair == pair
    &&& log[j].started
    &&& forall|m: int| j < m < upto ==> (#[trigger] log[m]).pair != pair
}

/// In a record whose events about a pair take turns and end in a start, the
/// last event about the pair is that start.
pub proof fn lemma_last_turn_is_start<T>(log: Seq<SignalEvent<T>>, pair: Pair)
    requires
        alternates(log, pair, true),
    ensures
        exists|j: int| #[trigger] opens(log, pair, j, log.len() as int),
    decreases log.len(),
{
    let n = log.len() as int;
    if log.last().pair == pair {
        assert(opens(log, pair, n - 1, n));
    } else {
        let rest = log.drop_last();
        lemma_last_turn_is_start(rest, pair);
        let end = n - 1;
        let j = choose|j: int| #[trigger] opens(rest, pair, j, end);
        assert(log[j] == rest[j]);
        assert forall|m: int| j < m < n implies (#[trigger] log[m]).pair != pair by {
            if m < n - 1 {
                assert(log[m] == rest[m]);
            }
        }
        assert(opens(log, pair, j, n));
    }
}

/// No stop without a start: in a record whose events about a pair take
/// turns, every stop about the pair has a start about it before, with
/// nothing about the pair in between.
pub proof fn lemma_stop_follows_start<T>(
    log: Seq<SignalEvent<T>>,
    pair: Pair,
    active: bool,
    k: int,
)
    requires
        alternates(log, pair, active),
        0 <= k < log.len(),
        log[k].pair == pair,
        !log[k].started,
    ensures
        exists|j: int| #[trigger] opens(log, pair, j, k),
    decreases log.len(),
{
    let n = log.len() as int;
    let rest = log.drop_last();
    if k == n - 1 {
        lemma_last_turn_is_start(rest, pair);
        let j = choose|j: int| #[trigger] opens(rest, pair, j, k);
        assert(log[j] == rest[j]);
        assert forall|m: int| j < m < k implies (#[trigger] log[m]).pair != pair by {
            assert(log[m] == rest[m]);
        }
        assert(opens(log, pair, j, k));
    } else {
        let turn = if log.last().pair == pair {
            !active
        } else {
            active
        };
        assert(rest[k] == log[k]);
        lemma_stop_follows_start(rest, pair, turn, k);
        let j = choose|j: int| #[trigger] opens(rest, pair, j, k);
        assert(log[j] == rest[j]);
        assert forall|m: int| j < m < k implies (#[trigger] log[m]).pair != pair by {
            assert(log[m] == rest[m]);
        }
        assert(opens(log, pair, j, k));
    }
}

} // verus!
