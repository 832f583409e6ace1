//! Which incoming trains a listener is to be told of, and which it was
//! told of already.

use std::collections::BTreeSet;
use vstd::prelude::*;

use crate::caltrain_status::{CaltrainStatus, Direction, IncomingTrain, StatusView, TrainType};

verus! {

/// A time of day: the seconds since midnight and the fraction of the
/// second that has begun, in nanoseconds.
#[derive(Clone, Copy, PartialEq, Eq, Structural, Debug)]
pub struct TimeOfDay {
    pub secs: u32,
    pub frac: u32,
}

impl TimeOfDay {
    /// Whether this time of day is earlier than `other`.
    pub open spec fn before(self, other: TimeOfDay) -> bool {
        self.secs < other.secs || (self.secs == other.secs && self.frac < other.frac)
    }

    /// Tests whether this time of day is earlier than `other`.
    pub fn is_before(&self, other: &TimeOfDay) -> (r: bool)
        ensures
            r == self.before(*other),
    {
        self.secs < other.secs || (self.secs == other.secs && self.frac < other.frac)
    }
}

/// What a listener holds.
pub struct NotifierView {
    /// The trains that it has told of and that are still incoming.
    pub trains_notified: Set<u16>,
    /// The minutes till departure from which on a train is told of.
    pub notify_at: u16,
    /// The train types that it tells of.
    pub notify_types: Set<TrainType>,
    /// The direction that it watches.
    pub direction: Direction,
    /// The time of day before which it tells of nothing.
    pub notify_after: Option<TimeOfDay>,
}

/// A listener to snapshots that tells of each due train once.
///
/// The types that it tells of are held as a list and read as a set. An
/// ordered set keyed by `TrainType` would rest on the order that `derive`
/// gives the type, of which nothing is known here; the identifiers are
/// integers, and are held in an ordered set.
pub struct Notifier {
    trains_notified: BTreeSet<u16>,
    notify_at: u16,
    notify_types: Vec<TrainType>,
    direction: Direction,
    notify_after: Option<TimeOfDay>,
}

impl View for Notifier {
    type V = NotifierView;

    closed spec fn view(&self) -> NotifierView {
        NotifierView {
            trains_notified: self.trains_notified@,
            notify_at: self.notify_at,
            notify_types: self.notify_types@.to_set(),
            direction: self.direction,
            notify_after: self.notify_after,
        }
    }
}

/// The trains of the direction that the listener watches.
pub open spec fn watched(n: NotifierView, status: StatusView) -> Seq<IncomingTrain> {
    match n.direction {
        Direction::Northbound => status.northbound,
        Direction::Southbound => status.southbound,
    }
}

/// The identifiers of trains.
pub open spec fn ids_of(trains: Seq<IncomingTrain>) -> Set<u16> {
    Set::new(|id: u16| exists|i: int| 0 <= i < trains.len() && (#[trigger] trains[i]).id == id)
}

/// The trains told of that a snapshot still lists: a train that has left
/// the snapshot is forgotten, and told of again should it come back.
pub open spec fn still_incoming(n: NotifierView, status: StatusView) -> Set<u16> {
    n.trains_notified.intersect(ids_of(watched(n, status)))
}

/// Whether the listener keeps silent at the time `now`.
pub open spec fn silent(n: NotifierView, now: TimeOfDay) -> bool {
    match n.notify_after {
        Some(t) => now.before(t),
        None => false,
    }
}

/// Whether a train is to be told of: it is of a type that the listener
/// tells of, departs within the minutes set, and was not told of while it
/// stayed incoming.
pub open spec fn is_due(n: NotifierView, status: StatusView) -> spec_fn(IncomingTrain) -> bool {
    |train: IncomingTrain|
        n.notify_types.contains(train.ttype) && train.min_till_departure <= n.notify_at
            && !still_incoming(n, status).contains(train.id)
}

/// The trains to tell of on a snapshot, in the order of the snapshot.
pub open spec fn trains_due(n: NotifierView, status: StatusView, now: TimeOfDay) -> Seq<
    IncomingTrain,
> {
    if silent(n, now) {
        Seq::empty()
    } else {
        watched(n, status).filter(is_due(n, status))
    }
}

/// The listener after a snapshot: it remembers the trains told of that
/// are still incoming, and those it tells of now.
pub open spec fn after_snapshot(n: NotifierView, status: StatusView, now: TimeOfDay) -> NotifierView {
    NotifierView {
        trains_notified: still_incoming(n, status).union(ids_of(trains_due(n, status, now))),
        ..n
    }
}

/// Each train told of is of a type that the listener tells of, departs
/// within the minutes set, was not remembered, and is remembered
/// afterwards. A train whose minutes are above the minutes set is never
/// told of: so none without a countdown where these are below 9001.
pub proof fn lemma_trains_due_are_due(n: NotifierView, status: StatusView, now: TimeOfDay, k: int)
    requires
        0 <= k < trains_due(n, status, now).len(),
    ensures
        !silent(n, now),
        n.notify_types.contains(trains_due(n, status, now)[k].ttype),
        trains_due(n, status, now)[k].min_till_departure <= n.notify_at,
        !still_incoming(n, status).contains(trains_due(n, status, now)[k].id),
        after_snapshot(n, status, now).trains_notified.contains(trains_due(n, status, now)[k].id),
        n.notify_at < 9001 ==> trains_due(n, status, now)[k].min_till_departure != 9001,
{
    watched(n, status).lemma_filter_pred(is_due(n, status), k);
}

/// Tests whether `ttype` is among `types`.
fn has_type(types: &Vec<TrainType>, ttype: TrainType) -> (r: bool)
    ensures
        r == types@.to_set().contains(ttype),
{
    let mut i: usize = 0;
    while i < types.len()
        invariant
            i <= types@.len(),
            forall|j: int| 0 <= j < i ==> types@[j] != ttype,
        decreases types@.len() - i,
    {
        if types[i] == ttype {
            assert(types@.contains(ttype));
            return true;
        }
        i = i + 1;
    }
    assert(!types@.contains(ttype));
    false
}

/// Tests whether `id` is in `ids`.
fn holds_id(ids: &BTreeSet<u16>, id: u16) -> (r: bool)
    ensures
        r == ids@.contains(id),
{
    broadcast use vstd::laws_cmp::group_laws_cmp;
    broadcast use vstd::std_specs::btree::group_btree_axioms;

    ids.contains(&id)
}

/// Puts `id` into `ids`.
fn put_id(ids: &mut BTreeSet<u16>, id: u16)
    ensures
        final(ids)@ == old(ids)@.insert(id),
{
    broadcast use vstd::laws_cmp::group_laws_cmp;

    ids.insert(id);
}

/// The identifiers of trains and one more are those of the trains and
/// that of the one.
pub proof fn lemma_ids_of_push(trains: Seq<IncomingTrain>, train: IncomingTrain)
    ensures
        ids_of(trains.push(train)) == ids_of(trains).insert(train.id),
{
    let more = ids_of(trains.push(train));
    let seen = ids_of(trains);
    assert forall|x: u16| more.contains(x) implies seen.insert(train.id).contains(x) by {
        let j = choose|j: int|
            0 <= j < trains.push(train).len() && (#[trigger] trains.push(train)[j]).id == x;
        if j < trains.len() {
            assert(trains[j].id == x);
        }
    }
    assert forall|x: u16| seen.insert(train.id).contains(x) implies more.contains(x) by {
        if seen.contains(x) {
            let j = choose|j: int| 0 <= j < trains.len() && (#[trigger] trains[j]).id == x;
            assert(trains.push(train)[j].id == x);
        } else {
            assert(trains.push(train)[trains.len() as int].id == x);
        }
    }
    assert(more =~= seen.insert(train.id));
}

/// The identifiers in `told` that `incoming` lists.
fn keep_incoming(told: &BTreeSet<u16>, incoming: &[IncomingTrain]) -> (kept: BTreeSet<u16>)
    ensures
        kept@ == told@.intersect(ids_of(incoming@)),
{
    let mut kept: BTreeSet<u16> = BTreeSet::new();
    let mut i: usize = 0;
    proof {
        assert(ids_of(incoming@.take(0)) =~= Set::empty());
        assert(kept@ =~= told@.intersect(ids_of(incoming@.take(0))));
    }
    while i < incoming.len()
        invariant
            i <= incoming@.len(),
            kept@ == told@.intersect(ids_of(incoming@.take(i as int))),
        decreases incoming@.len() - i,
    {
        let id = incoming[i].get_id();
        proof {
            assert(incoming@.take(i + 1) =~= incoming@.take(i as int).push(incoming@[i as int]));
            lemma_ids_of_push(incoming@.take(i as int), incoming@[i as int]);
        }
        if holds_id(told, id) {
            put_id(&mut kept, id);
        }
        assert(kept@ =~= told@.intersect(ids_of(incoming@.take(i + 1))));
        i = i + 1;
    }
    proof {
        assert(incoming@.take(i as int) =~= incoming@);
    }
    kept
}

/// Puts the identifiers of `trains` into `told`.
fn put_ids(told: &mut BTreeSet<u16>, trains: &Vec<IncomingTrain>)
    ensures
        final(told)@ == old(told)@.union(ids_of(trains@)),
{
    let ghost start = told@;
    let mut m: usize = 0;
    proof {
        assert(ids_of(trains@.take(0)) =~= Set::empty());
        assert(told@ =~= start.union(ids_of(trains@.take(0))));
    }
    while m < trains.len()
        invariant
            m <= trains@.len(),
            told@ == start.union(ids_of(trains@.take(m as int))),
        decreases trains@.len() - m,
    {
        let id = trains[m].get_id();
        proof {
            assert(trains@.take(m + 1) =~= trains@.take(m as int).push(trains@[m as int]));
            lemma_ids_of_push(trains@.take(m as int), trains@[m as int]);
        }
        put_id(told, id);
        assert(told@ =~= start.union(ids_of(trains@.take(m + 1))));
        m = m + 1;
    }
    proof {
        assert(trains@.take(m as int) =~= trains@);
    }
}

impl Notifier {
    /// A listener that has told of no train yet.
    pub fn new(
        notify_types: Vec<TrainType>,
        notify_at: u16,
        direction: Direction,
        notify_after: Option<TimeOfDay>,
    ) -> (notifier: Notifier)
        ensures
            notifier@ == (NotifierView {
                trains_notified: Set::empty(),
                notify_at,
                notify_types: notify_types@.to_set(),
                direction,
                notify_after,
            }),
    {
        Notifier {
            trains_notified: BTreeSet::new(),
            notify_at,
            notify_types,
            direction,
            notify_after,
        }
    }

    /// The trains of `incoming` to tell of, given the trains told of that
    /// are still incoming.
    fn select_due(&self, incoming: &[IncomingTrain], Ghost(pred): Ghost<
        spec_fn(IncomingTrain) -> bool,
    >) -> (due: Vec<IncomingTrain>)
        requires
            forall|train: IncomingTrain|
                #[trigger] pred(train) == (self.notify_types@.to_set().contains(train.ttype)
                    && train.min_till_departure <= self.notify_at && !self.trains_notified@.contains(
                    train.id,
                )),
        ensures
            due@ == incoming@.filter(pred),
    {
        let mut due: Vec<IncomingTrain> = Vec::new();
        let mut k: usize = 0;
        proof {
            assert(incoming@.take(0) =~= Seq::empty());
            incoming@.take(0).lemma_filter_len(pred);
        }
        while k < incoming.len()
            invariant
                k <= incoming@.len(),
                forall|train: IncomingTrain|
                    #[trigger] pred(train) == (self.notify_types@.to_set().contains(train.ttype)
                        && train.min_till_departure <= self.notify_at
                        && !self.trains_notified@.contains(train.id)),
                due@ == incoming@.take(k as int).filter(pred),
            decreases incoming@.len() - k,
        {
            let train = incoming[k];
            proof {
                assert(incoming@.take(k + 1) =~= incoming@.take(k as int).push(train));
                incoming@.take(k as int).lemma_filter_push(train, pred);
            }
            if has_type(&self.notify_types, train.get_train_type())
                && train.get_min_till_departure() <= self.notify_at && !holds_id(
                &self.trains_notified,
                train.get_id(),
            ) {
                due.push(train);
            }
            k = k + 1;
        }
        proof {
            assert(incoming@.take(k as int) =~= incoming@);
        }
        due
    }

    /// Takes a snapshot at the time `now` and gives the trains to tell
    /// of, in the order of the snapshot. Trains that have left the
    /// snapshot are forgotten; those given are remembered.
    pub fn handle(&mut self, status: &CaltrainStatus, now: TimeOfDay) -> (due: Vec<IncomingTrain>)
        ensures
            due@ == trains_due(old(self)@, status@, now),
            final(self)@ == after_snapshot(old(self)@, status@, now),
    {
        let ghost before = self@;
        let incoming = status.trains(self.direction);
        assert(incoming@ == watched(before, status@));
        self.trains_notified = keep_incoming(&self.trains_notified, incoming);
        if let Some(t) = self.notify_after {
            if now.is_before(&t) {
                proof {
                    assert(ids_of(Seq::<IncomingTrain>::empty()) =~= Set::empty());
                    assert(self@.trains_notified =~= after_snapshot(
                        before,
                        status@,
                        now,
                    ).trains_notified);
                }
                return Vec::new();
            }
        }
        let due = self.select_due(incoming, Ghost(is_due(before, status@)));
        put_ids(&mut self.trains_notified, &due);
        due
    }
}

} // verus!
