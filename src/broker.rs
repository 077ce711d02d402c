use vstd::prelude::*;
use crate::value::{Value, ValueModel, model_of, entry_of};

verus! {

broadcast use vstd::std_specs::vec::group_vec_axioms;

/// Which published events a subscriber wants.
pub enum EventFilter {
    /// Every event of the topic.
    All,
    /// Events whose payload is an object with this numeric field above the bound.
    FieldAbove(String, i64),
}

/// Where a subscriber stands. A subscriber is active from its registration;
/// it drains once its client goes away, and it is closed when removed.
#[derive(PartialEq, Eq, Structural, Clone, Copy, Debug)]
pub enum SubscriberState {
    Active,
    Draining,
}

pub struct Subscriber {
    pub id: u64,
    pub topic: String,
    pub filter: EventFilter,
    pub state: SubscriberState,
    pub queue: Vec<Value>,
}

pub open spec fn queue_model(q: Seq<Value>) -> Seq<ValueModel> {
    q.map_values(|v: Value| model_of(v))
}

/// Whether a filter accepts a payload.
pub open spec fn accepts(filter: EventFilter, payload: ValueModel) -> bool {
    match filter {
        EventFilter::All => true,
        EventFilter::FieldAbove(name, bound) => match payload {
            ValueModel::Object(fields) => match entry_of(fields, name@) {
                Some(ValueModel::Number(n)) => n > bound,
                _ => false,
            },
            _ => false,
        },
    }
}

/// Whether an event published on `topic` is delivered to `s`.
pub open spec fn delivers(s: Subscriber, topic: Seq<char>, payload: ValueModel) -> bool {
    s.state == SubscriberState::Active && s.topic@ == topic && accepts(s.filter, payload)
}

/// A bounded queue after one more event: when full, the oldest event is
/// dropped; a queue of no capacity keeps nothing.
pub open spec fn enqueued(q: Seq<ValueModel>, v: ValueModel, capacity: nat) -> Seq<ValueModel> {
    if capacity == 0 {
        q
    } else if q.len() >= capacity {
        q.drop_first().push(v)
    } else {
        q.push(v)
    }
}

/// Whether a filter accepts a payload.
pub fn filter_accepts(filter: &EventFilter, payload: &Value) -> (r: bool)
    ensures
        r == accepts(*filter, payload.model()),
{
    match filter {
        EventFilter::All => true,
        EventFilter::FieldAbove(name, bound) => match payload {
            Value::Object(fields) => {
                let ghost m = payload.model()->Object_0;
                let mut i: usize = 0;
                assert(m.subrange(0, m.len() as int) =~= m);
                while i < fields.len()
                    invariant
                        *filter == EventFilter::FieldAbove(*name, *bound),
                        *payload == Value::Object(*fields),
                        m == payload.model()->Object_0,
                        m.len() == fields.len(),
                        forall|k: int| 0 <= k < fields.len() ==> #[trigger] m[k] == (fields[k].0@, model_of(fields[k].1)),
                        i <= fields.len(),
                        entry_of(m, name@) == entry_of(m.subrange(i as int, m.len() as int), name@),
                    decreases fields.len() - i,
                {
                    assert(m.subrange(i as int, m.len() as int).drop_first() =~= m.subrange(i + 1, m.len() as int));
                    assert(m.subrange(i as int, m.len() as int)[0] == m[i as int]);
                    if fields[i].0 == *name {
                        return match &fields[i].1 {
                            Value::Number(n) => {
                                assert(model_of(fields@[i as int].1) == ValueModel::Number(*n as int));
                                *n > *bound
                            },
                            _ => {
                                assert(!(model_of(fields@[i as int].1) is Number));
                                false
                            },
                        };
                    }
                    i = i + 1;
                }
                false
            },
            _ => false,
        },
    }
}

/// A topic-keyed relay from published events to each subscriber's bounded
/// queue. When a queue is full the oldest event is dropped.
pub struct Broker {
    subscribers: Vec<Subscriber>,
    capacity: usize,
    next_id: u64,
}

impl Broker {
    pub closed spec fn subscribers(&self) -> Seq<Subscriber> {
        self.subscribers@
    }

    pub closed spec fn capacity(&self) -> nat {
        self.capacity as nat
    }

    pub closed spec fn next_id(&self) -> u64 {
        self.next_id
    }

    pub open spec fn wf(&self) -> bool {
        &&& forall|i: int| 0 <= i < self.subscribers().len() ==> {
            &&& (#[trigger] self.subscribers()[i]).id < self.next_id()
            &&& self.subscribers()[i].queue@.len() <= self.capacity()
        }
        &&& forall|i: int, j: int|
            0 <= i < j < self.subscribers().len() ==> (#[trigger] self.subscribers()[i]).id < (#[trigger] self.subscribers()[j]).id
    }

    /// The index of the subscriber with this id.
    pub open spec fn index_of(&self, id: u64) -> Option<int> {
        if exists|i: int| 0 <= i < self.subscribers().len() && (#[trigger] self.subscribers()[i]).id == id {
            Some(choose|i: int| 0 <= i < self.subscribers().len() && (#[trigger] self.subscribers()[i]).id == id)
        } else {
            None
        }
    }

    /// A broker with no subscribers, whose queues hold up to `capacity` events.
    pub fn new(capacity: usize) -> (r: Broker)
        ensures
            r.wf(),
            r.subscribers().len() == 0,
            r.capacity() == capacity,
            r.next_id() == 0,
    {
        Broker { subscribers: Vec::new(), capacity, next_id: 0 }
    }

    /// Registers an active subscriber on `topic`; none once ids run out.
    pub fn subscribe(&mut self, topic: String, filter: EventFilter) -> (r: Option<u64>)
        requires
            old(self).wf(),
        ensures
            final(self).wf(),
            final(self).capacity() == old(self).capacity(),
            r is None <==> old(self).next_id() == u64::MAX,
            r is None ==> final(self).subscribers() == old(self).subscribers()
                && final(self).next_id() == old(self).next_id(),
            r is Some ==> r->Some_0 == old(self).next_id() && final(self).next_id() == old(self).next_id() + 1,
            r is Some ==> final(self).subscribers() == old(self).subscribers().push(
                Subscriber {
                    id: r->Some_0,
                    topic,
                    filter,
                    state: SubscriberState::Active,
                    queue: final(self).subscribers().last().queue,
                },
            ) && final(self).subscribers().last().queue@.len() == 0,
    {
        if self.next_id == u64::MAX {
            return None;
        }
        let id = self.next_id;
        let s = Subscriber { id, topic, filter, state: SubscriberState::Active, queue: Vec::new() };
        self.subscribers.push(s);
        self.next_id = id + 1;
        Some(id)
    }

    /// Publishes `payload` on `topic`. Each active subscriber of the topic
    /// whose filter accepts the payload gets a copy at the back of its queue
    /// (dropping its oldest event when the queue is full); a filter that
    /// rejects it is no error. Every other subscriber is left as it was.
    pub fn publish(&mut self, topic: &String, payload: &Value)
        requires
            old(self).wf(),
        ensures
            final(self).wf(),
            final(self).capacity() == old(self).capacity(),
            final(self).next_id() == old(self).next_id(),
            final(self).subscribers().len() == old(self).subscribers().len(),
            forall|i: int| 0 <= i < old(self).subscribers().len() ==> {
                let a = #[trigger] old(self).subscribers()[i];
                let b = final(self).subscribers()[i];
                &&& b.id == a.id
                &&& b.topic == a.topic
                &&& b.filter == a.filter
                &&& b.state == a.state
                &&& queue_model(b.queue@) == if delivers(a, topic@, payload.model()) {
                    enqueued(queue_model(a.queue@), payload.model(), old(self).capacity())
                } else {
                    queue_model(a.queue@)
                }
            },
    {
        let ghost old_subs = self.subscribers@;
        let mut i: usize = 0;
        while i < self.subscribers.len()
            invariant
                self.capacity == old(self).capacity,
                self.next_id == old(self).next_id,
                old_subs == old(self).subscribers(),
                old(self).wf(),
                i <= self.subscribers.len(),
                self.subscribers.len() == old_subs.len(),
                forall|k: int| 0 <= k < i ==> {
                    let a = #[trigger] old_subs[k];
                    let b = self.subscribers@[k];
                    &&& b.id == a.id
                    &&& b.topic == a.topic
                    &&& b.filter == a.filter
                    &&& b.state == a.state
                    &&& b.queue@.len() <= self.capacity
                    &&& queue_model(b.queue@) == if delivers(a, topic@, payload.model()) {
                        enqueued(queue_model(a.queue@), payload.model(), self.capacity as nat)
                    } else {
                        queue_model(a.queue@)
                    }
                },
                forall|k: int| i <= k < self.subscribers.len() ==> #[trigger] self.subscribers@[k] == old_subs[k],
            decreases self.subscribers.len() - i,
        {
            let mut s = self.subscribers.remove(i);
            assert(s == old_subs[i as int]);
            let ghost q0 = queue_model(s.queue@);
            let wanted = match s.state {
                SubscriberState::Active => s.topic == *topic && filter_accepts(&s.filter, payload),
                SubscriberState::Draining => false,
            };
            if wanted && self.capacity > 0 {
                if s.queue.len() >= self.capacity {
                    s.queue.remove(0);
                }
                s.queue.push(payload.deep_clone());
                assert(queue_model(s.queue@) =~= enqueued(q0, payload.model(), self.capacity as nat));
            }
            self.subscribers.insert(i, s);
            i = i + 1;
        }
        proof {
            assert forall|a: int, b: int| 0 <= a < b < self.subscribers().len() implies
                (#[trigger] self.subscribers()[a]).id < (#[trigger] self.subscribers()[b]).id by {
                assert(old_subs[a].id < old_subs[b].id);
            }
            assert forall|k: int| 0 <= k < self.subscribers().len() implies (#[trigger] self.subscribers()[k]).id < self.next_id()
                && self.subscribers()[k].queue@.len() <= self.capacity() by {
                assert(old_subs[k].id < self.next_id());
            }
        }
    }

    /// Hands out the oldest queued event of an active subscriber; none for a
    /// subscriber that is unknown, draining or has nothing queued.
    pub fn next_event(&mut self, id: u64) -> (r: Option<Value>)
        requires
            old(self).wf(),
        ensures
            final(self).wf(),
            final(self).capacity() == old(self).capacity(),
            final(self).next_id() == old(self).next_id(),
            r is Some <==> ({
                &&& old(self).index_of(id) is Some
                &&& old(self).subscribers()[old(self).index_of(id)->Some_0].state == SubscriberState::Active
                &&& old(self).subscribers()[old(self).index_of(id)->Some_0].queue@.len() > 0
            }),
            r is None ==> final(self).subscribers() == old(self).subscribers(),
            r is Some ==> {
                let i = old(self).index_of(id)->Some_0;
                let a = old(self).subscribers()[i];
                let b = final(self).subscribers()[i];
                &&& r->Some_0.model() == queue_model(a.queue@)[0]
                &&& final(self).subscribers().len() == old(self).subscribers().len()
                &&& b.id == a.id && b.topic == a.topic && b.filter == a.filter && b.state == a.state
                &&& queue_model(b.queue@) == queue_model(a.queue@).drop_first()
                &&& forall|k: int| 0 <= k < old(self).subscribers().len() && k != i ==> #[trigger] final(self).subscribers()[k]
                    == old(self).subscribers()[k]
            },
    {
        match self.find(id) {
            None => None,
            Some(i) => {
                let ready = match self.subscribers[i].state {
                    SubscriberState::Active => self.subscribers[i].queue.len() > 0,
                    SubscriberState::Draining => false,
                };
                if !ready {
                    return None;
                }
                let ghost old_subs = self.subscribers@;
                let mut s = self.subscribers.remove(i);
                let ghost q0 = s.queue@;
                let v = s.queue.remove(0);
                assert(queue_model(s.queue@) =~= queue_model(q0).drop_first());
                self.subscribers.insert(i, s);
                proof {
                    assert forall|a: int, b: int| 0 <= a < b < self.subscribers().len() implies
                        (#[trigger] self.subscribers()[a]).id < (#[trigger] self.subscribers()[b]).id by {
                        assert(old_subs[a].id < old_subs[b].id);
                    }
                    assert forall|k: int| 0 <= k < self.subscribers().len() implies (#[trigger] self.subscribers()[k]).id < self.next_id()
                        && self.subscribers()[k].queue@.len() <= self.capacity() by {
                        assert(old_subs[k].id < self.next_id());
                    }
                }
                Some(v)
            },
        }
    }

    /// The client of subscriber `id` went away: it drains, and its queued
    /// events are discarded rather than delivered late. False for an unknown id.
    pub fn disconnect(&mut self, id: u64) -> (r: bool)
        requires
            old(self).wf(),
        ensures
            final(self).wf(),
            final(self).capacity() == old(self).capacity(),
            final(self).next_id() == old(self).next_id(),
            r == old(self).index_of(id) is Some,
            !r ==> final(self).subscribers() == old(self).subscribers(),
            r ==> {
                let i = old(self).index_of(id)->Some_0;
                let a = old(self).subscribers()[i];
                let b = final(self).subscribers()[i];
                &&& final(self).subscribers().len() == old(self).subscribers().len()
                &&& b.id == a.id && b.topic == a.topic && b.filter == a.filter
                &&& b.state == SubscriberState::Draining
                &&& b.queue@.len() == 0
                &&& forall|k: int| 0 <= k < old(self).subscribers().len() && k != i ==> #[trigger] final(self).subscribers()[k]
                    == old(self).subscribers()[k]
            },
    {
        match self.find(id) {
            None => false,
            Some(i) => {
                let ghost old_subs = self.subscribers@;
                let mut s = self.subscribers.remove(i);
                s.state = SubscriberState::Draining;
                s.queue.clear();
                self.subscribers.insert(i, s);
                proof {
                    assert forall|a: int, b: int| 0 <= a < b < self.subscribers().len() implies
                        (#[trigger] self.subscribers()[a]).id < (#[trigger] self.subscribers()[b]).id by {
                        assert(old_subs[a].id < old_subs[b].id);
                    }
                    assert forall|k: int| 0 <= k < self.subscribers().len() implies (#[trigger] self.subscribers()[k]).id < self.next_id()
                        && self.subscribers()[k].queue@.len() <= self.capacity() by {
                        assert(old_subs[k].id < self.next_id());
                    }
                }
                true
            },
        }
    }

    /// Closes subscriber `id`: its registration and its queue are released.
    /// Other subscribers are untouched. False for an unknown id.
    pub fn close(&mut self, id: u64) -> (r: bool)
        requires
            old(self).wf(),
        ensures
            final(self).wf(),
            final(self).capacity() == old(self).capacity(),
            final(self).next_id() == old(self).next_id(),
            r == old(self).index_of(id) is Some,
            !r ==> final(self).subscribers() == old(self).subscribers(),
            r ==> final(self).subscribers() == old(self).subscribers().remove(old(self).index_of(id)->Some_0),
    {
        match self.find(id) {
            None => false,
            Some(i) => {
                let ghost old_subs = self.subscribers@;
                self.subscribers.remove(i);
                proof {
                    assert forall|a: int, b: int| 0 <= a < b < self.subscribers().len() implies
                        (#[trigger] self.subscribers()[a]).id < (#[trigger] self.subscribers()[b]).id by {
                        let oa = if a < i { a } else { a + 1 };
                        let ob = if b < i { b } else { b + 1 };
                        assert(old_subs[oa].id < old_subs[ob].id);
                    }
                    assert forall|k: int| 0 <= k < self.subscribers().len() implies (#[trigger] self.subscribers()[k]).id < self.next_id()
                        && self.subscribers()[k].queue@.len() <= self.capacity() by {
                        let ok = if k < i { k } else { k + 1 };
                        assert(old_subs[ok].id < self.next_id());
                    }
                }
                true
            },
        }
    }

    /// How many events wait in the queue of subscriber `id`; none for an unknown id.
    pub fn pending(&self, id: u64) -> (r: Option<usize>)
        requires
            self.wf(),
        ensures
            r is Some <==> self.index_of(id) is Some,
            r is Some ==> r->Some_0 == self.subscribers()[self.index_of(id)->Some_0].queue@.len(),
    {
        match self.find(id) {
            None => None,
            Some(i) => Some(self.subscribers[i].queue.len()),
        }
    }

    /// Whether subscriber `id` is registered and active.
    pub fn is_active(&self, id: u64) -> (r: bool)
        requires
            self.wf(),
        ensures
            r == (self.index_of(id) is Some && self.subscribers()[self.index_of(id)->Some_0].state
                == SubscriberState::Active),
    {
        match self.find(id) {
            None => false,
            Some(i) => match self.subscribers[i].state {
                SubscriberState::Active => true,
                SubscriberState::Draining => false,
            },
        }
    }

    fn find(&self, id: u64) -> (r: Option<usize>)
        requires
            self.wf(),
        ensures
            r is Some ==> self.index_of(id) == Some(r->Some_0 as int),
            r is None ==> self.index_of(id) is None,
    {
        let mut i: usize = 0;
        while i < self.subscribers.len()
            invariant
                self.wf(),
                i <= self.subscribers.len(),
                forall|k: int| 0 <= k < i ==> (#[trigger] self.subscribers@[k]).id != id,
            decreases self.subscribers.len() - i,
        {
            if self.subscribers[i].id == id {
                proof {
                    let c = choose|k: int| 0 <= k < self.subscribers().len() && (#[trigger] self.subscribers()[k]).id == id;
                    if c < i {
                        assert(self.subscribers()[c].id < self.subscribers()[i as int].id);
                    } else if c > i {
                        assert(self.subscribers()[i as int].id < self.subscribers()[c].id);
                    }
                }
                return Some(i);
            }
            i = i + 1;
        }
        None
    }
}

} // verus!
