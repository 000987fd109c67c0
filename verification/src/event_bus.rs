//! A string-keyed event bus: handlers subscribe to an event type, and a
//! published event is handed to every handler of its type.
use vstd::prelude::*;
use crate::keyed::KeyedList;

verus! {

/// A handler of events whose payload has type `E`.
///
/// A handler may keep count of the events it has handled: one whose
/// `counts_handled` holds has `handled_count` go up by one with each call of
/// `handle`. A handler that keeps no count is free to leave both as they are.
pub trait EventHandler<E: ?Sized>: Send {
    /// Whether this handler keeps count of the events it handles.
    open spec fn counts_handled(&self) -> bool {
        false
    }

    /// The number of events this handler has handled, where it keeps count.
    open spec fn handled_count(&self) -> nat {
        0
    }

    /// Handles one published event.
    fn handle(&mut self, event: &E)
        ensures
            old(self).counts_handled() ==> final(self).handled_count() == old(self).handled_count()
                + 1,
    ;
}

/// Every handler of `before` has handled one event and become the handler at
/// the same position of `after`: a handler that keeps count has a count one
/// higher.
pub open spec fn all_handled_once<E: ?Sized, H: ?Sized + EventHandler<E>>(
    before: Seq<Box<H>>,
    after: Seq<Box<H>>,
) -> bool {
    &&& after.len() == before.len()
    &&& forall|i: int|
        0 <= i < before.len() && (#[trigger] before[i]).counts_handled() ==> after[i].handled_count()
            == before[i].handled_count() + 1
}

/// A boxed handler of any type.
pub type HandlerFn<E> = Box<dyn EventHandler<E>>;

/// Simple string-keyed event bus.
///
/// `E` is the payload type of the events; `H` is the type of the handlers,
/// by default any handler, as `Box<dyn EventHandler<E>>`.
pub struct EventBus<E: ?Sized, H: ?Sized = dyn EventHandler<E>> {
    handlers: KeyedList<Vec<Box<H>>>,
    payload: core::marker::PhantomData<Box<E>>,
}

/// The number of handlers in each group of a bus view.
pub open spec fn group_sizes<H: ?Sized>(m: Map<Seq<char>, Seq<Box<H>>>) -> Map<Seq<char>, nat> {
    m.map_values(|g: Seq<Box<H>>| g.len())
}

/// The number of handlers subscribed to an event type in a bus view.
pub open spec fn count_in<H: ?Sized>(m: Map<Seq<char>, Seq<Box<H>>>, event_type: Seq<char>) -> nat {
    if m.contains_key(event_type) {
        m[event_type].len()
    } else {
        0
    }
}

/// A call on an event bus that may change its groups.
pub enum BusCall {
    Subscribe(Seq<char>),
    Unsubscribe(Seq<char>),
    Publish(Seq<char>),
}

/// The group of `t` in a bus view, with `h` appended.
pub open spec fn group_with<H: ?Sized>(m: Map<Seq<char>, Seq<Box<H>>>, t: Seq<char>, h: Box<H>) -> Seq<Box<H>> {
    (if m.contains_key(t) {
        m[t]
    } else {
        Seq::<Box<H>>::empty()
    }).push(h)
}

/// `after` is `before` with some handler appended to the group of `t`.
pub open spec fn subscribed<H: ?Sized>(
    before: Map<Seq<char>, Seq<Box<H>>>,
    t: Seq<char>,
    after: Map<Seq<char>, Seq<Box<H>>>,
) -> bool {
    exists|h: Box<H>| after == before.insert(t, #[trigger] group_with(before, t, h))
}

/// What a call does to the view of a bus, as the contract of its function
/// states it: `subscribe` appends some handler to the type's group,
/// `unsubscribe` removes the group, and `publish` keeps the event types and
/// the size of every group.
pub open spec fn bus_call_effect<H: ?Sized>(
    before: Map<Seq<char>, Seq<Box<H>>>,
    call: BusCall,
    after: Map<Seq<char>, Seq<Box<H>>>,
) -> bool {
    match call {
        BusCall::Subscribe(t) => subscribed(before, t, after),
        BusCall::Unsubscribe(t) => after == before.remove(t),
        BusCall::Publish(t) => after.dom() == before.dom() && group_sizes(after) == group_sizes(before),
    }
}

/// The number of subscriptions to `t` in `calls` since the last
/// unsubscription of `t`.
pub open spec fn subscriptions_since_clear(calls: Seq<BusCall>, t: Seq<char>) -> nat
    decreases calls.len(),
{
    if calls.len() == 0 {
        0
    } else {
        let prev = subscriptions_since_clear(calls.drop_last(), t);
        match calls.last() {
            BusCall::Subscribe(k) => if k == t {
                prev + 1
            } else {
                prev
            },
            BusCall::Unsubscribe(k) => if k == t {
                0
            } else {
                prev
            },
            BusCall::Publish(_) => prev,
        }
    }
}

impl<E: ?Sized, H: ?Sized> View for EventBus<E, H> {
    type V = Map<Seq<char>, Seq<Box<H>>>;

    closed spec fn view(&self) -> Map<Seq<char>, Seq<Box<H>>> {
        self.handlers@.map_values(|v: Vec<Box<H>>| v@)
    }
}

impl<E: ?Sized, H: ?Sized + EventHandler<E>> EventBus<E, H> {
    /// Well-formedness: no event type has two groups, and no group is empty.
    pub closed spec fn wf(&self) -> bool {
        &&& self.handlers.wf()
        &&& forall|k: Seq<char>| #[trigger] self@.contains_key(k) ==> self@[k].len() > 0
    }

    /// A well-formed bus has finitely many event types, each with at least
    /// one handler.
    pub proof fn lemma_wf(&self)
        requires
            self.wf(),
        ensures
            self@.dom().finite(),
            forall|k: Seq<char>| #[trigger] self@.contains_key(k) ==> self@[k].len() > 0,
    {
        self.handlers.lemma_dom();
        assert(self@.dom() =~= self.handlers@.dom());
    }

    /// The event types with a group, in the order of their first subscription.
    pub closed spec fn event_types(&self) -> Seq<Seq<char>> {
        self.handlers.keys()
    }

    /// An empty bus.
    pub fn new() -> (r: Self)
        ensures
            r.wf(),
            r@ == Map::<Seq<char>, Seq<Box<H>>>::empty(),
    {
        let r = EventBus { handlers: KeyedList::new(), payload: core::marker::PhantomData };
        assert(r@ =~= Map::<Seq<char>, Seq<Box<H>>>::empty());
        r
    }

    /// Subscribes a handler to an event type; it goes after the handlers that
    /// are already subscribed to that type.
    pub fn subscribe(&mut self, event_type: &str, handler: Box<H>)
        requires
            old(self).wf(),
        ensures
            final(self).wf(),
            final(self)@ == old(self)@.insert(
                event_type@,
                (if old(self)@.contains_key(event_type@) {
                    old(self)@[event_type@]
                } else {
                    Seq::<Box<H>>::empty()
                }).push(handler),
            ),
            bus_call_effect(old(self)@, BusCall::Subscribe(event_type@), final(self)@),
    {
        match self.handlers.get_mut(event_type) {
            Some(group) => {
                group.push(handler);
            },
            None => {
                let mut group: Vec<Box<H>> = Vec::new();
                group.push(handler);
                let _ = self.handlers.insert(event_type.to_owned(), group);
            },
        }
        assert(self@ =~= old(self)@.insert(
            event_type@,
            (if old(self)@.contains_key(event_type@) {
                old(self)@[event_type@]
            } else {
                Seq::<Box<H>>::empty()
            }).push(handler),
        ));
        assert(self@ == old(self)@.insert(event_type@, group_with(old(self)@, event_type@, handler)));
    }

    /// Publishes an event, calling every handler subscribed to its type once,
    /// in subscription order: each handler of the group is replaced by what
    /// handling the event made of it. Other groups keep their handlers; an
    /// event type with no group changes nothing.
    pub fn publish(&mut self, event_type: &str, event: &E)
        requires
            old(self).wf(),
        ensures
            final(self).wf(),
            final(self)@.dom() == old(self)@.dom(),
            group_sizes(final(self)@) == group_sizes(old(self)@),
            forall|k: Seq<char>| k != event_type@ && #[trigger] old(self)@.contains_key(k)
                ==> final(self)@[k] == old(self)@[k],
            !old(self)@.contains_key(event_type@) ==> final(self)@ == old(self)@,
            old(self)@.contains_key(event_type@) ==> all_handled_once::<E, H>(
                old(self)@[event_type@],
                final(self)@[event_type@],
            ),
            bus_call_effect(old(self)@, BusCall::Publish(event_type@), final(self)@),
    {
        match self.handlers.get_mut(event_type) {
            Some(group) => {
                let ghost group0 = group@;
                let n = group.len();
                let mut i: usize = 0;
                while i < n
                    invariant
                        group@.len() == n,
                        group0.len() == n,
                        i <= n,
                        forall|j: int|
                            0 <= j < i && (#[trigger] group0[j]).counts_handled() ==> group@[j].handled_count()
                                == group0[j].handled_count() + 1,
                        forall|j: int| i <= j < n ==> #[trigger] group@[j] == group0[j],
                    decreases n - i,
                {
                    let ghost before = group@;
                    group[i].handle(event);
                    assert(forall|j: int| 0 <= j < n && j != i ==> group@[j] == before[j]);
                    i = i + 1;
                }
            },
            None => {},
        }
        assert(self@.dom() =~= old(self)@.dom());
        assert(group_sizes(self@) =~= group_sizes(old(self)@));
    }

    /// Removes all handlers for an event type.
    pub fn unsubscribe(&mut self, event_type: &str)
        requires
            old(self).wf(),
        ensures
            final(self).wf(),
            final(self)@ == old(self)@.remove(event_type@),
            bus_call_effect(old(self)@, BusCall::Unsubscribe(event_type@), final(self)@),
    {
        let _ = self.handlers.remove(event_type);
        assert(self@ =~= old(self)@.remove(event_type@));
    }

    /// Number of handler groups, one per event type with a subscription.
    pub fn event_type_count(&self) -> (n: usize)
        requires
            self.wf(),
        ensures
            n == self@.dom().len(),
    {
        proof {
            assert(self@.dom() =~= self.handlers@.dom());
        }
        self.handlers.len()
    }

    /// Number of handlers for a specific event type.
    pub fn handler_count(&self, event_type: &str) -> (n: usize)
        requires
            self.wf(),
        ensures
            n == count_in(self@, event_type@),
    {
        match self.handlers.get(event_type) {
            Some(group) => group.len(),
            None => 0,
        }
    }
}

impl<E: ?Sized, H: ?Sized + EventHandler<E>> Default for EventBus<E, H> {
    fn default() -> (r: Self)
        ensures
            r.wf(),
            r@ == Map::<Seq<char>, Seq<Box<H>>>::empty(),
    {
        EventBus::new()
    }
}

/// Subscribing a handler to an event type adds one to that type's handler
/// count and leaves every other type's count unchanged.
pub proof fn subscribe_counts<H: ?Sized>(
    m: Map<Seq<char>, Seq<Box<H>>>,
    event_type: Seq<char>,
    handler: Box<H>,
    other: Seq<char>,
)
    ensures
        ({
            let after = m.insert(
                event_type,
                (if m.contains_key(event_type) {
                    m[event_type]
                } else {
                    Seq::<Box<H>>::empty()
                }).push(handler),
            );
            &&& count_in(after, event_type) == count_in(m, event_type) + 1
            &&& other != event_type ==> count_in(after, other) == count_in(m, other)
        }),
{
}

/// After an event type is unsubscribed it has no handlers.
pub proof fn unsubscribe_clears<H: ?Sized>(m: Map<Seq<char>, Seq<Box<H>>>, event_type: Seq<char>)
    ensures
        count_in(m.remove(event_type), event_type) == 0,
{
}

/// Publishing keeps every handler count and the number of event types.
pub proof fn publish_keeps_counts<H: ?Sized>(
    before: Map<Seq<char>, Seq<Box<H>>>,
    after: Map<Seq<char>, Seq<Box<H>>>,
    event_type: Seq<char>,
)
    requires
        after.dom() == before.dom(),
        group_sizes(after) == group_sizes(before),
    ensures
        count_in(after, event_type) == count_in(before, event_type),
        after.dom().len() == before.dom().len(),
{
    if before.contains_key(event_type) {
        assert(group_sizes(after)[event_type] == group_sizes(before)[event_type]);
        assert(group_sizes(after)[event_type] == after[event_type].len());
        assert(group_sizes(before)[event_type] == before[event_type].len());
    }
}

/// The event types of a well-formed bus are exactly the types with at least
/// one handler.
pub proof fn event_types_have_handlers<E: ?Sized, H: ?Sized + EventHandler<E>>(b: &EventBus<E, H>)
    requires
        b.wf(),
    ensures
        b@.dom() == Set::new(|k: Seq<char>| count_in(b@, k) > 0),
{
    b.lemma_wf();
    assert(b@.dom() =~= Set::new(|k: Seq<char>| count_in(b@, k) > 0));
}

/// Subscribing to a type with no handler adds one event type; subscribing to
/// a type that has handlers adds none.
pub proof fn subscribe_type_count<E: ?Sized, H: ?Sized + EventHandler<E>>(
    b: &EventBus<E, H>,
    event_type: Seq<char>,
    handler: Box<H>,
)
    requires
        b.wf(),
    ensures
        ({
            let after = b@.insert(
                event_type,
                (if b@.contains_key(event_type) {
                    b@[event_type]
                } else {
                    Seq::<Box<H>>::empty()
                }).push(handler),
            );
            after.dom().len() == b@.dom().len() + (if count_in(b@, event_type) == 0 {
                1int
            } else {
                0int
            })
        }),
{
    b.lemma_wf();
    let after = b@.insert(
        event_type,
        (if b@.contains_key(event_type) {
            b@[event_type]
        } else {
            Seq::<Box<H>>::empty()
        }).push(handler),
    );
    if b@.contains_key(event_type) {
        assert(after.dom() =~= b@.dom());
    } else {
        assert(after.dom() =~= b@.dom().insert(event_type));
    }
}

/// Unsubscribing a type that has handlers removes one event type;
/// unsubscribing a type with none changes nothing.
pub proof fn unsubscribe_type_count<E: ?Sized, H: ?Sized + EventHandler<E>>(
    b: &EventBus<E, H>,
    event_type: Seq<char>,
)
    requires
        b.wf(),
    ensures
        b@.remove(event_type).dom().len() == b@.dom().len() - (if count_in(b@, event_type) > 0 {
            1int
        } else {
            0int
        }),
{
    b.lemma_wf();
    if b@.contains_key(event_type) {
        assert(b@.remove(event_type).dom() =~= b@.dom().remove(event_type));
    } else {
        assert(b@.remove(event_type).dom() =~= b@.dom());
    }
}

/// Starting from a new bus, the number of handlers of a type is the number
/// of subscriptions to it since it was last unsubscribed; publishing changes
/// no count.
pub proof fn handler_count_history<H: ?Sized>(
    calls: Seq<BusCall>,
    views: Seq<Map<Seq<char>, Seq<Box<H>>>>,
    t: Seq<char>,
)
    requires
        views.len() == calls.len() + 1,
        views[0] == Map::<Seq<char>, Seq<Box<H>>>::empty(),
        forall|i: int| 0 <= i < calls.len() ==> bus_call_effect(views[i], #[trigger] calls[i], views[i + 1]),
    ensures
        count_in(views.last(), t) == subscriptions_since_clear(calls, t),
    decreases calls.len(),
{
    if calls.len() == 0 {
        assert(views.last() == views[0]);
    } else {
        let n = calls.len() - 1;
        let cs = calls.drop_last();
        let vs = views.drop_last();
        assert forall|i: int| 0 <= i < cs.len() implies bus_call_effect(vs[i], #[trigger] cs[i], vs[i + 1]) by {
            assert(cs[i] == calls[i]);
            assert(bus_call_effect(views[i], calls[i], views[i + 1]));
        }
        handler_count_history(cs, vs, t);
        assert(vs.last() == views[n]);
        assert(views.last() == views[n + 1]);
        assert(bus_call_effect(views[n], calls[n], views[n + 1]));
        let before = views[n];
        let after = views[n + 1];
        match calls[n] {
            BusCall::Subscribe(k) => {
                let h = choose|h: Box<H>| after == before.insert(k, #[trigger] group_with(before, k, h));
                subscribe_counts(before, k, h, t);
            },
            BusCall::Unsubscribe(k) => {
                unsubscribe_clears(before, k);
            },
            BusCall::Publish(k) => {
                publish_keeps_counts(before, after, t);
            },
        }
    }
}

} // verus!
