use lattice_collide::ball_against_ball::Ball;
use lattice_collide::math::Point;
use lattice_collide::narrow_phase::{
    BallBallDetector, BallBallDispatcher, CollisionDetector, CollisionDispatcher, CollisionObject,
    Contact, ContactPairs, ContactSignal, DefaultNarrowPhase, Entry, NarrowPhase, Pair,
    ProximitySignal, SignalEvent,
};

type Object = CollisionObject<Ball, char>;

fn p(coords: &[i32]) -> Point {
    Point::new(coords.to_vec())
}

fn object(position: &[i32], radius: u32, query_limit: u32, data: char) -> Object {
    CollisionObject { position: p(position), shape: Ball::new(radius), query_limit, data }
}

fn event(first: usize, second: usize, data1: char, data2: char, started: bool) -> SignalEvent<char> {
    SignalEvent { pair: Pair { first, second }, data1, data2, started }
}

struct World {
    narrow_phase: DefaultNarrowPhase<BallBallDispatcher>,
    contact_signal: ContactSignal<char>,
    proximity_signal: ProximitySignal<char>,
    objects: Vec<Object>,
}

impl World {
    fn new(objects: Vec<Object>) -> World {
        World {
            narrow_phase: DefaultNarrowPhase::new(BallBallDispatcher {}),
            contact_signal: ContactSignal::new(),
            proximity_signal: ProximitySignal::new(),
            objects,
        }
    }

    fn proximity(&mut self, fk1: usize, fk2: usize, started: bool) {
        self.narrow_phase.handle_proximity(
            &mut self.contact_signal,
            &mut self.proximity_signal,
            &self.objects,
            fk1,
            fk2,
            started,
        );
    }

    fn update(&mut self, timestamp: usize) {
        self.narrow_phase.update(
            &self.objects,
            &mut self.contact_signal,
            &mut self.proximity_signal,
            timestamp,
        );
    }

    fn contacts(&self) -> Vec<(char, char, Contact<Point>)> {
        let mut walk = self.narrow_phase.contact_pairs(&self.objects).contacts();
        let mut found = Vec::new();
        while let Some((co1, co2, contact)) = walk.next() {
            found.push((co1.data, co2.data, contact));
        }
        assert!(walk.next().is_none());
        found
    }
}

#[test]
fn a_pair_that_touches_and_parts_is_told_in_order() {
    let mut world = World::new(vec![object(&[0, 0, 0], 1, 0, 'a'), object(&[5, 0, 0], 1, 0, 'b')]);
    world.proximity(0, 1, true);
    assert_eq!(world.proximity_signal.events, vec![event(0, 1, 'a', 'b', true)]);
    assert_eq!(world.contact_signal.events, vec![]);

    world.update(1);
    assert_eq!(world.contact_signal.events, vec![]);

    world.objects[1].position = p(&[2, 0, 0]);
    world.update(2);
    assert_eq!(world.contact_signal.events, vec![event(0, 1, 'a', 'b', true)]);
    assert_eq!(world.contacts(), vec![('a', 'b', Contact::Intersecting)]);

    world.objects[1].position = p(&[5, 0, 0]);
    world.update(3);
    assert_eq!(
        world.contact_signal.events,
        vec![event(0, 1, 'a', 'b', true), event(0, 1, 'a', 'b', false)]
    );
    assert_eq!(world.contacts(), vec![]);

    world.proximity(0, 1, false);
    assert_eq!(
        world.proximity_signal.events,
        vec![event(0, 1, 'a', 'b', true), event(0, 1, 'a', 'b', false)]
    );
    assert_eq!(world.contact_signal.events.len(), 2);
    assert_eq!(world.narrow_phase.pairs.len(), 0);
}

#[test]
fn a_contact_ends_before_its_proximity_does() {
    let mut world = World::new(vec![object(&[0, 0], 3, 0, 'a'), object(&[4, 0], 3, 0, 'b')]);
    world.proximity(1, 0, true);
    world.update(1);
    assert_eq!(world.contact_signal.events, vec![event(0, 1, 'a', 'b', true)]);
    world.proximity(0, 1, false);
    assert_eq!(
        world.contact_signal.events,
        vec![event(0, 1, 'a', 'b', true), event(0, 1, 'a', 'b', false)]
    );
    assert_eq!(
        world.proximity_signal.events,
        vec![event(0, 1, 'a', 'b', true), event(0, 1, 'a', 'b', false)]
    );
    // Nothing more is told of the pair until it is reported again.
    world.update(2);
    world.proximity(0, 1, false);
    assert_eq!(world.contact_signal.events.len(), 2);
    assert_eq!(world.proximity_signal.events.len(), 2);
    // A new report starts from a fresh detector.
    world.proximity(0, 1, true);
    assert_eq!(world.contacts(), vec![]);
    assert_eq!(world.contact_signal.events.len(), 2);
    world.update(3);
    assert_eq!(world.contact_signal.events.len(), 3);
    assert_eq!(world.contact_signal.events[2], event(0, 1, 'a', 'b', true));
}

#[test]
fn ending_an_unknown_proximity_changes_nothing() {
    let mut world = World::new(vec![object(&[0], 1, 0, 'a'), object(&[1], 1, 0, 'b')]);
    world.proximity(0, 1, false);
    assert_eq!(world.proximity_signal.events, vec![]);
    assert_eq!(world.contact_signal.events, vec![]);
    assert_eq!(world.narrow_phase.pairs.len(), 0);
}

/// Every stop is preceded by a start of the same pair with nothing of that
/// pair in between, and the first event of a pair is a start.
fn takes_turns(log: &[SignalEvent<char>]) -> bool {
    let mut active: Vec<Pair> = Vec::new();
    for e in log {
        let at = active.iter().position(|pair| *pair == e.pair);
        match (e.started, at) {
            (true, None) => active.push(e.pair),
            (false, Some(i)) => {
                active.remove(i);
            },
            _ => return false,
        }
    }
    true
}

#[test]
fn no_contact_stops_that_has_not_started() {
    let mut world = World::new(vec![
        object(&[0, 0], 2, 0, 'a'),
        object(&[10, 0], 2, 0, 'b'),
        object(&[20, 0], 2, 0, 'c'),
        object(&[30, 0], 2, 0, 'd'),
    ]);
    let reports = [(0, 1), (1, 2), (2, 3), (0, 3)];
    let mut timestamp = 0;
    for round in 0..40 {
        let (fk1, fk2) = reports[round % 4];
        let key = Pair::new(fk1, fk2);
        let known = world.narrow_phase.find(key).is_some();
        if round % 7 == 3 || !known {
            world.proximity(fk1, fk2, !known);
        }
        // The second object sways to and fro between its neighbours.
        world.objects[1].position = p(&[[10, 3, 10, 17][round % 4], 0]);
        world.objects[3].position = p(&[[30, 23, 3, 30][(round / 2) % 4], 0]);
        timestamp += 1;
        world.update(timestamp);
        assert!(takes_turns(&world.contact_signal.events));
        assert!(takes_turns(&world.proximity_signal.events));
        for e in &world.contact_signal.events[..] {
            assert!(fk1 < 4 && fk2 < 4 && e.pair.first < e.pair.second);
        }
    }
    assert!(world.contact_signal.events.len() > 8);
    // Whatever is still in contact is tracked, and ends its contact when its proximity ends.
    for (fk1, fk2) in reports {
        let before = world.contact_signal.events.len();
        let in_contact = match world.narrow_phase.find(Pair::new(fk1, fk2)) {
            Some(i) => world.narrow_phase.pairs[i].value.num_colls() != 0,
            None => false,
        };
        world.proximity(fk1, fk2, false);
        assert_eq!(world.contact_signal.events.len(), before + in_contact as usize);
        assert!(takes_turns(&world.contact_signal.events));
    }
    assert_eq!(world.narrow_phase.pairs.len(), 0);
}

#[test]
fn pairs_are_updated_in_the_order_in_which_they_came() {
    let mut world = World::new(vec![
        object(&[0, 0], 2, 0, 'a'),
        object(&[3, 0], 2, 0, 'b'),
        object(&[0, 3], 2, 0, 'c'),
        object(&[50, 50], 2, 0, 'd'),
    ]);
    world.proximity(2, 0, true);
    world.proximity(0, 1, true);
    world.proximity(3, 1, true);
    world.update(1);
    assert_eq!(
        world.contact_signal.events,
        vec![event(0, 2, 'a', 'c', true), event(0, 1, 'a', 'b', true)]
    );
    assert_eq!(world.proximity_signal.events.len(), 3);
    // Nothing moved: nothing is told.
    world.update(2);
    assert_eq!(world.contact_signal.events.len(), 2);
    assert_eq!(world.proximity_signal.events.len(), 3);
}

#[test]
fn every_tracked_pair_is_walked_with_or_without_contact() {
    let mut world = World::new(vec![
        object(&[0, 0], 2, 0, 'a'),
        object(&[3, 0], 2, 0, 'b'),
        object(&[50, 50], 2, 0, 'c'),
    ]);
    world.proximity(1, 2, true);
    world.proximity(0, 1, true);
    world.update(1);
    let mut walk = world.narrow_phase.contact_pairs(&world.objects);
    let (co1, co2, detector) = walk.next().unwrap();
    assert_eq!((co1.data, co2.data, detector.num_colls()), ('b', 'c', 0));
    let (co1, co2, detector) = walk.next().unwrap();
    assert_eq!((co1.data, co2.data, detector.num_colls()), ('a', 'b', 1));
    assert!(walk.next().is_none());
    assert!(walk.next().is_none());
    // A walk over contacts can take over half way.
    let mut walk = world.narrow_phase.contact_pairs(&world.objects);
    let _ = walk.next();
    let mut rest = walk.contacts();
    let (co1, co2, contact) = rest.next().unwrap();
    assert_eq!((co1.data, co2.data, contact), ('a', 'b', Contact::Intersecting));
    assert!(rest.next().is_none());
}

#[test]
fn two_walks_without_an_update_between_them_agree() {
    let mut world = World::new(vec![
        object(&[0, 0], 2, 1, 'a'),
        object(&[6, 0], 2, 1, 'b'),
        object(&[6, 3], 2, 1, 'c'),
        object(&[90, 90], 2, 1, 'd'),
    ]);
    world.proximity(0, 1, true);
    world.proximity(0, 3, true);
    world.proximity(1, 2, true);
    world.update(1);
    let first = world.contacts();
    let second = world.contacts();
    assert_eq!(first, second);
    assert_eq!(
        first,
        vec![
            ('a', 'b', Contact::WithinMargin(p(&[2, 0]), p(&[4, 0]))),
            ('b', 'c', Contact::Intersecting),
        ]
    );
    let fresh = ContactPairs::new(&world.objects, &world.narrow_phase.pairs).contacts();
    assert_eq!(fresh.position, 0);
    assert_eq!(fresh.curr_contact, 0);
    assert!(fresh.collector.is_empty() && fresh.co1.is_none() && fresh.co2.is_none());
}

#[test]
fn the_prediction_is_what_both_objects_ask_for() {
    let mut world = World::new(vec![object(&[0, 0], 1, 1, 'a'), object(&[5, 0], 1, 2, 'b')]);
    world.proximity(0, 1, true);
    world.update(1);
    assert_eq!(world.contacts(), vec![('a', 'b', Contact::WithinMargin(p(&[1, 0]), p(&[4, 0])))]);
    world.objects[1].query_limit = 1;
    world.update(2);
    assert_eq!(world.contacts(), vec![]);
    world.objects[0].query_limit = u32::MAX;
    world.objects[1].query_limit = u32::MAX;
    world.update(3);
    assert_eq!(world.contacts().len(), 1);
}

#[test]
fn a_second_update_within_one_tick_computes_nothing() {
    let mut world = World::new(vec![object(&[0], 1, 0, 'a'), object(&[9], 1, 0, 'b')]);
    world.proximity(0, 1, true);
    world.update(7);
    world.objects[1].position = p(&[1]);
    world.update(7);
    assert_eq!(world.contact_signal.events, vec![]);
    world.update(8);
    assert_eq!(world.contact_signal.events, vec![event(0, 1, 'a', 'b', true)]);
}

#[test]
fn pairs_know_no_order() {
    assert_eq!(Pair::new(3, 8), Pair { first: 3, second: 8 });
    assert_eq!(Pair::new(8, 3), Pair { first: 3, second: 8 });
    assert_eq!(Pair::new(5, 5), Pair { first: 5, second: 5 });
    assert_eq!(Pair::new(usize::MAX, 0), Pair { first: 0, second: usize::MAX });
}

#[test]
fn the_ball_detector_finds_anew_each_tick() {
    let mut detector = BallBallDetector::new();
    assert_eq!(detector.num_colls(), 0);
    let (b1, b2) = (Ball::new(2), Ball::new(3));
    detector.update(&p(&[0, 0]), &b1, &p(&[3, 4]), &b2, 0, 1);
    assert_eq!(detector.contacts, vec![Contact::Intersecting]);
    detector.update(&p(&[0, 0]), &b1, &p(&[6, 8]), &b2, 5, 2);
    assert_eq!(detector.contacts, vec![Contact::WithinMargin(p(&[1, 1]), p(&[5, 6]))]);
    assert_eq!(detector.num_colls(), 1);
    let mut out = vec![Contact::Intersecting];
    detector.colls(&mut out);
    detector.colls(&mut out);
    assert_eq!(
        out,
        vec![
            Contact::Intersecting,
            Contact::WithinMargin(p(&[1, 1]), p(&[5, 6])),
            Contact::WithinMargin(p(&[1, 1]), p(&[5, 6])),
        ]
    );
    detector.update(&p(&[0, 0]), &b1, &p(&[6, 8]), &b2, 4, 3);
    assert_eq!(detector.num_colls(), 0);
    assert_eq!(detector.timestamp, Some(3));
}

#[test]
fn signals_record_in_order() {
    let mut contact: ContactSignal<u8> = ContactSignal::new();
    let mut proximity: ProximitySignal<u8> = ProximitySignal::new();
    contact.trigger_contact_signal(Pair::new(2, 1), 10, 20, true);
    contact.trigger_contact_signal(Pair::new(1, 2), 10, 20, false);
    proximity.trigger_proximity_signal(Pair::new(4, 4), 1, 1, true);
    assert_eq!(
        contact.events,
        vec![
            SignalEvent { pair: Pair { first: 1, second: 2 }, data1: 10, data2: 20, started: true },
            SignalEvent { pair: Pair { first: 1, second: 2 }, data1: 10, data2: 20, started: false },
        ]
    );
    assert_eq!(
        proximity.events,
        vec![SignalEvent { pair: Pair { first: 4, second: 4 }, data1: 1, data2: 1, started: true }]
    );
}

#[test]
fn tracking_begins_only_with_a_detector() {
    let mut narrow_phase = DefaultNarrowPhase::new(BallBallDispatcher {});
    let mut proximity_signal = ProximitySignal::new();
    narrow_phase.begin_tracking(&mut proximity_signal, Pair::new(0, 1), 'a', 'b', None);
    assert_eq!(narrow_phase.pairs.len(), 0);
    assert_eq!(proximity_signal.events, vec![]);
    assert_eq!(narrow_phase.find(Pair::new(0, 1)), None);
    let detector = BallBallDispatcher {}.get_collision_algorithm(&Ball::new(1), &Ball::new(2));
    assert_eq!(detector.as_ref().map(|d| d.num_colls()), Some(0));
    narrow_phase.begin_tracking(&mut proximity_signal, Pair::new(0, 1), 'a', 'b', detector);
    narrow_phase.begin_tracking(
        &mut proximity_signal,
        Pair::new(4, 2),
        'e',
        'c',
        Some(BallBallDetector::new()),
    );
    assert_eq!(narrow_phase.find(Pair::new(1, 0)), Some(0));
    assert_eq!(narrow_phase.find(Pair::new(2, 4)), Some(1));
    assert_eq!(narrow_phase.find(Pair::new(1, 1)), None);
    assert_eq!(
        proximity_signal.events,
        vec![event(0, 1, 'a', 'b', true), event(2, 4, 'e', 'c', true)]
    );
}

fn near(x: i32) -> Contact<Point> {
    Contact::WithinMargin(p(&[x]), p(&[x + 1]))
}

fn entry(first: usize, second: usize, contacts: Vec<Contact<Point>>) -> Entry<BallBallDetector> {
    Entry { key: Pair { first, second }, value: BallBallDetector { contacts, timestamp: None } }
}

#[test]
fn contacts_are_handed_out_pair_after_pair() {
    let objects = vec![
        object(&[0], 1, 0, 'a'),
        object(&[1], 1, 0, 'b'),
        object(&[2], 1, 0, 'c'),
        object(&[3], 1, 0, 'd'),
    ];
    let pairs = vec![
        entry(1, 2, vec![]),
        entry(0, 3, vec![near(1), near(2)]),
        entry(1, 3, vec![]),
        entry(0, 1, vec![]),
        entry(2, 3, vec![near(3), Contact::Intersecting, near(4)]),
        entry(0, 2, vec![]),
    ];
    let mut walk = ContactPairs::new(&objects, &pairs).contacts();
    let mut found = Vec::new();
    while let Some((co1, co2, contact)) = walk.next() {
        found.push((co1.data, co2.data, contact));
    }
    assert_eq!(
        found,
        vec![
            ('a', 'd', near(1)),
            ('a', 'd', near(2)),
            ('c', 'd', near(3)),
            ('c', 'd', Contact::Intersecting),
            ('c', 'd', near(4)),
        ]
    );
    assert!(walk.next().is_none());
    assert!(walk.next().is_none());
    let none: Vec<Entry<BallBallDetector>> = Vec::new();
    assert!(ContactPairs::new(&objects, &none).next().is_none());
    assert!(ContactPairs::new(&objects, &none).contacts().next().is_none());
}
