//! The client-side router: it remembers who waits for the results of which
//! request, and hands each pushed emission to the subscribers that wait for it.

use vstd::prelude::*;
use std::collections::HashMap;
use crate::ids::{is_random_id, mint_id, CorrelationId, SubscriberId};
use crate::lookup::{copy_ids, lemma_remove_value_absent, position};
use crate::messages::{views, Call, Emission, EmissionView, Request, Response, ResponseView};
use crate::process::{
    forwarded, increasing_within, lemma_forwarding_keeps_order, pushed_positions,
    ProcessEmissionView,
};

verus! {

broadcast use vstd::std_specs::hash::group_hash_axioms;

/// What the router asks to be done with one emission: hand `payload` to the
/// callback of each of `subscribers`, in this order.
#[derive(Clone, Debug, PartialEq, Eq)]
pub struct Delivery {
    pub subscribers: Vec<SubscriberId>,
    pub payload: Response,
}

/// Mathematical value of a [`Delivery`].
pub struct DeliveryView {
    pub subscribers: Seq<SubscriberId>,
    pub payload: ResponseView,
}

impl View for Delivery {
    type V = DeliveryView;

    open spec fn view(&self) -> DeliveryView {
        DeliveryView { subscribers: self.subscribers@, payload: self.payload@ }
    }
}

/// The values of a sequence of deliveries.
pub open spec fn delivery_views(deliveries: Seq<Delivery>) -> Seq<DeliveryView> {
    deliveries.map_values(|delivery: Delivery| delivery@)
}

/// Mathematical value of a [`LongRunnerCtx`] whose callbacks have type `C`.
pub struct CtxView<C> {
    /// For each pending correlation id, the subscribers that wait for its
    /// result.
    pub forwards: Map<CorrelationId, Seq<SubscriberId>>,
    /// For each registered subscriber, its callback.
    pub reducers: Map<SubscriberId, C>,
}

impl<C> CtxView<C> {
    /// A router that knows nobody and waits for nothing.
    pub open spec fn empty() -> CtxView<C> {
        CtxView { forwards: Map::empty(), reducers: Map::empty() }
    }

    /// Every pending entry names at least one subscriber, and none twice.
    pub open spec fn wf(self) -> bool {
        forall|guid: CorrelationId| #[trigger]
            self.forwards.contains_key(guid) ==> self.forwards[guid].len() > 0
                && self.forwards[guid].no_duplicates()
    }

    /// Whether the subscriber has a callback.
    pub open spec fn is_registered(self, id: SubscriberId) -> bool {
        self.reducers.contains_key(id)
    }

    /// Whether somebody waits for results with this correlation id.
    pub open spec fn is_pending(self, guid: CorrelationId) -> bool {
        self.forwards.contains_key(guid)
    }

    /// With `reducer` as the callback of `id`, whether or not it had one.
    pub open spec fn registered(self, id: SubscriberId, reducer: C) -> CtxView<C> {
        CtxView { reducers: self.reducers.insert(id, reducer), ..self }
    }

    /// With `reducer` in place of the callback of `id`, if it had one.
    pub open spec fn updated(self, id: SubscriberId, reducer: C) -> CtxView<C> {
        if self.reducers.contains_key(id) {
            self.registered(id, reducer)
        } else {
            self
        }
    }

    /// Without a callback for `id`.
    pub open spec fn deregistered(self, id: SubscriberId) -> CtxView<C> {
        CtxView { reducers: self.reducers.remove(id), ..self }
    }

    /// With `sender` as the only one who waits for `guid`.
    pub open spec fn sent(self, guid: CorrelationId, sender: SubscriberId) -> CtxView<C> {
        CtxView { forwards: self.forwards.insert(guid, seq![sender]), ..self }
    }

    /// With `id` among those who wait for `guid`, after those who already do.
    pub open spec fn subscribed(self, guid: CorrelationId, id: SubscriberId) -> CtxView<C> {
        if !self.forwards.contains_key(guid) {
            self.sent(guid, id)
        } else if self.forwards[guid].contains(id) {
            self
        } else {
            CtxView { forwards: self.forwards.insert(guid, self.forwards[guid].push(id)), ..self }
        }
    }

    /// Without `id` among those who wait for `guid`. The entry goes with its
    /// last subscriber.
    pub open spec fn unsubscribed(self, guid: CorrelationId, id: SubscriberId) -> CtxView<C> {
        if !self.forwards.contains_key(guid) {
            self
        } else {
            let rest = self.forwards[guid].remove_value(id);
            if rest.len() == 0 {
                CtxView { forwards: self.forwards.remove(guid), ..self }
            } else {
                CtxView { forwards: self.forwards.insert(guid, rest), ..self }
            }
        }
    }

    /// Those who wait for `guid` and have a callback, in the order in which
    /// they came to wait.
    pub open spec fn audience(self, guid: CorrelationId) -> Seq<SubscriberId> {
        self.forwards[guid].filter(|id: SubscriberId| self.reducers.contains_key(id))
    }

    /// What one emission is answered with: a delivery to the audience if
    /// somebody waits for it, nothing if not.
    pub open spec fn delivery(self, emission: EmissionView) -> Option<DeliveryView> {
        if self.forwards.contains_key(emission.guid) {
            Some(
                DeliveryView {
                    subscribers: self.audience(emission.guid),
                    payload: emission.message,
                },
            )
        } else {
            None
        }
    }

    /// After an emission with the correlation id `guid` came in: nobody waits
    /// for `guid` any more.
    pub open spec fn received(self, guid: CorrelationId) -> CtxView<C> {
        CtxView { forwards: self.forwards.remove(guid), ..self }
    }
}

/// One thing that can happen to the router.
pub enum RouterStep<C> {
    Register(SubscriberId, C),
    Update(SubscriberId, C),
    Deregister(SubscriberId),
    Subscribe(CorrelationId, SubscriberId),
    Unsubscribe(CorrelationId, SubscriberId),
    Send(CorrelationId, SubscriberId),
    Receive(EmissionView),
}

impl<C> CtxView<C> {
    /// The router after `step`.
    pub open spec fn step(self, step: RouterStep<C>) -> CtxView<C> {
        match step {
            RouterStep::Register(id, reducer) => self.registered(id, reducer),
            RouterStep::Update(id, reducer) => self.updated(id, reducer),
            RouterStep::Deregister(id) => self.deregistered(id),
            RouterStep::Subscribe(guid, id) => self.subscribed(guid, id),
            RouterStep::Unsubscribe(guid, id) => self.unsubscribed(guid, id),
            RouterStep::Send(guid, sender) => self.sent(guid, sender),
            RouterStep::Receive(emission) => self.received(emission.guid),
        }
    }

    /// The router after `steps`, one after the other.
    pub open spec fn after(self, steps: Seq<RouterStep<C>>) -> CtxView<C>
        decreases steps.len(),
    {
        if steps.len() == 0 {
            self
        } else {
            self.after(steps.drop_last()).step(steps.last())
        }
    }

    /// The positions in `steps` of the emissions that are answered with a
    /// delivery.
    pub open spec fn answered_positions(self, steps: Seq<RouterStep<C>>) -> Seq<int>
        decreases steps.len(),
    {
        if steps.len() == 0 {
            Seq::empty()
        } else {
            let earlier = self.answered_positions(steps.drop_last());
            match steps.last() {
                RouterStep::Receive(emission) => if self.after(steps.drop_last()).is_pending(
                    emission.guid,
                ) {
                    earlier.push(steps.len() - 1)
                } else {
                    earlier
                },
                _ => earlier,
            }
        }
    }

    /// The deliveries made in the course of `steps`, in the order in which
    /// they are made.
    pub open spec fn answers(self, steps: Seq<RouterStep<C>>) -> Seq<DeliveryView>
        decreases steps.len(),
    {
        if steps.len() == 0 {
            Seq::empty()
        } else {
            let earlier = self.answers(steps.drop_last());
            match steps.last() {
                RouterStep::Receive(emission) => match self.after(steps.drop_last()).delivery(
                    emission,
                ) {
                    Some(delivery) => earlier.push(delivery),
                    None => earlier,
                },
                _ => earlier,
            }
        }
    }
}

/// The steps in which the router takes `emissions`, one after the other.
pub open spec fn receives<C>(emissions: Seq<EmissionView>) -> Seq<RouterStep<C>> {
    emissions.map_values(|emission: EmissionView| RouterStep::Receive(emission))
}

/// A publish/subscribe context for the client side. `C` is the type of the
/// callbacks; the router stores them and never calls them.
pub struct LongRunnerCtx<C> {
    /// For each pending request, the subscribers that wait for its result.
    forwards: HashMap<CorrelationId, Vec<SubscriberId>>,
    /// For each subscriber, its callback.
    reducers: HashMap<SubscriberId, C>,
}

impl<C> View for LongRunnerCtx<C> {
    type V = CtxView<C>;

    closed spec fn view(&self) -> CtxView<C> {
        CtxView {
            forwards: self.forwards@.map_values(|ids: Vec<SubscriberId>| ids@),
            reducers: self.reducers@,
        }
    }
}

impl<C> LongRunnerCtx<C> {
    /// The invariant of the router.
    pub closed spec fn wf(&self) -> bool {
        self@.wf()
    }

    /// A well-formed router has a well-formed value.
    pub proof fn lemma_wf_view(&self)
        requires
            self.wf(),
        ensures
            self@.wf(),
    {
    }

    /// A router that knows nobody and waits for nothing.
    pub fn new() -> (ctx: LongRunnerCtx<C>)
        ensures
            ctx.wf(),
            ctx@ == CtxView::<C>::empty(),
    {
        let ctx = LongRunnerCtx { forwards: HashMap::new(), reducers: HashMap::new() };
        assert(ctx@.forwards =~= Map::empty());
        ctx
    }

    /// Whether the subscriber has a callback.
    pub fn is_registered(&self, id: SubscriberId) -> (registered: bool)
        ensures
            registered == self@.is_registered(id),
    {
        self.reducers.contains_key(&id)
    }

    /// Whether somebody waits for results with this correlation id.
    pub fn is_pending(&self, guid: CorrelationId) -> (pending: bool)
        ensures
            pending == self@.is_pending(guid),
    {
        self.forwards.contains_key(&guid)
    }

    /// The callback of the subscriber, if it has one.
    pub fn reducer(&self, id: SubscriberId) -> (reducer: Option<&C>)
        ensures
            match reducer {
                Some(found) => self@.is_registered(id) && *found == self@.reducers[id],
                None => !self@.is_registered(id),
            },
    {
        self.reducers.get(&id)
    }

    /// Those who wait for results with this correlation id, in the order in
    /// which they came to wait; empty if nobody does.
    pub fn subscribers(&self, guid: CorrelationId) -> (ids: Vec<SubscriberId>)
        ensures
            ids@ == if self@.is_pending(guid) {
                self@.forwards[guid]
            } else {
                Seq::empty()
            },
    {
        match self.forwards.get(&guid) {
            Some(ids) => copy_ids(ids),
            None => Vec::new(),
        }
    }

    /// Makes `reducer` the callback of `guid`, replacing an earlier one, and
    /// returns `guid`.
    pub fn register(&mut self, guid: SubscriberId, reducer: C) -> (id: SubscriberId)
        requires
            old(self).wf(),
        ensures
            final(self).wf(),
            id == guid,
            final(self)@ == old(self)@.registered(guid, reducer),
    {
        let _ = self.reducers.insert(guid, reducer);
        guid
    }

    /// Replaces the callback of `component_id` by `reducer`. A subscriber
    /// without a callback stays without one.
    pub fn update(&mut self, component_id: SubscriberId, reducer: C)
        requires
            old(self).wf(),
        ensures
            final(self).wf(),
            final(self)@ == old(self)@.updated(component_id, reducer),
    {
        if self.reducers.contains_key(&component_id) {
            let _ = self.reducers.insert(component_id, reducer);
        }
        assert(self@.forwards == old(self)@.forwards);
    }

    /// Forgets the callback of `component_id`.
    pub fn deregister(&mut self, component_id: SubscriberId)
        requires
            old(self).wf(),
        ensures
            final(self).wf(),
            final(self)@ == old(self)@.deregistered(component_id),
    {
        let _ = self.reducers.remove(&component_id);
    }

    /// Lets `component_id` wait for the results of `proc_id` too.
    pub fn subscribe(&mut self, proc_id: CorrelationId, component_id: SubscriberId)
        requires
            old(self).wf(),
        ensures
            final(self).wf(),
            final(self)@ == old(self)@.subscribed(proc_id, component_id),
    {
        let mut waiting = match self.forwards.remove(&proc_id) {
            Some(ids) => ids,
            None => Vec::new(),
        };
        if position(&waiting, component_id).is_none() {
            waiting.push(component_id);
        }
        let _ = self.forwards.insert(proc_id, waiting);
        proof {
            assert(self@.forwards =~= old(self)@.subscribed(proc_id, component_id).forwards);
        }
    }

    /// Lets `component_id` wait for the results of `proc_id` no longer. When
    /// nobody is left to wait, the entry is torn down.
    pub fn unsubscribe(&mut self, proc_id: CorrelationId, component_id: SubscriberId)
        requires
            old(self).wf(),
        ensures
            final(self).wf(),
            final(self)@ == old(self)@.unsubscribed(proc_id, component_id),
    {
        match self.forwards.remove(&proc_id) {
            Some(ids) => {
                let mut waiting = ids;
                assert(old(self)@.forwards.contains_key(proc_id));
                match position(&waiting, component_id) {
                    Some(index) => {
                        let _ = waiting.remove(index);
                    },
                    None => {
                        proof {
                            lemma_remove_value_absent(waiting@, component_id);
                        }
                    },
                }
                if waiting.len() > 0 {
                    let _ = self.forwards.insert(proc_id, waiting);
                }
                proof {
                    assert(self@.forwards =~= old(self)@.unsubscribed(
                        proc_id,
                        component_id,
                    ).forwards);
                }
            },
            None => {
                proof {
                    assert(self@.forwards =~= old(self)@.forwards);
                }
            },
        }
    }

    /// Records that `sender` waits for the results of a request with the
    /// correlation id `guid`, and returns the call that is to cross the
    /// boundary. A correlation id that somebody already waits for is not
    /// fresh: it is refused, and nothing changes. The sender must be
    /// registered.
    pub fn send_as(&mut self, guid: CorrelationId, sender: &SubscriberId, msg: Request) -> (call:
        Option<Call>)
        requires
            old(self).wf(),
            old(self)@.is_registered(*sender),
        ensures
            final(self).wf(),
            match call {
                Some(call) => {
                    &&& !old(self)@.is_pending(guid)
                    &&& call == (Call { guid, request: msg })
                    &&& final(self)@ == old(self)@.sent(guid, *sender)
                },
                None => old(self)@.is_pending(guid) && final(self)@ == old(self)@,
            },
    {
        if self.forwards.contains_key(&guid) {
            return None;
        }
        let mut waiting: Vec<SubscriberId> = Vec::new();
        waiting.push(*sender);
        let _ = self.forwards.insert(guid, waiting);
        proof {
            assert(self@.forwards =~= old(self)@.forwards.insert(guid, seq![*sender]));
        }
        Some(Call { guid, request: msg })
    }

    /// Mints a correlation id for the request `msg`, records that `sender`
    /// waits for its results, and returns the call that is to cross the
    /// boundary. Should the minted id be one that somebody already waits
    /// for, nothing is sent and nothing changes; that can only happen while
    /// somebody waits for an id of the shape that minted ids have, so a
    /// router on which no such id is pending always sends. The sender must
    /// be registered.
    pub fn send(&mut self, sender: &SubscriberId, msg: Request) -> (call: Option<Call>)
        requires
            old(self).wf(),
            old(self)@.is_registered(*sender),
        ensures
            final(self).wf(),
            (forall|guid: CorrelationId|
                is_random_id(guid) ==> !(#[trigger] old(self)@.is_pending(guid))) ==> call is Some,
            match call {
                Some(call) => {
                    &&& is_random_id(call.guid)
                    &&& !old(self)@.is_pending(call.guid)
                    &&& call.request == msg
                    &&& final(self)@ == old(self)@.sent(call.guid, *sender)
                },
                None => {
                    &&& final(self)@ == old(self)@
                    &&& (exists|guid: CorrelationId|
                        is_random_id(guid) && #[trigger] old(self)@.is_pending(guid))
                },
            },
    {
        let guid = mint_id();
        self.send_as(guid, sender, msg)
    }

    /// Takes a pushed emission. If somebody waits for its correlation id, the
    /// payload is to be delivered to those of them that have a callback, and
    /// the entry is removed; if nobody does, the emission is dropped.
    pub fn receive(&mut self, emission: Emission) -> (delivery: Option<Delivery>)
        requires
            old(self).wf(),
        ensures
            final(self).wf(),
            final(self)@ == old(self)@.received(emission.guid),
            match delivery {
                Some(out) => {
                    &&& old(self)@.delivery(emission@) == Some(out@)
                    &&& out.payload == emission.message
                },
                None => old(self)@.delivery(emission@) is None,
            },
    {
        let guid = emission.guid;
        let found = self.forwards.remove(&guid);
        proof {
            assert(self@.forwards =~= old(self)@.forwards.remove(guid));
        }
        match found {
            Some(waiting) => {
                let ghost registered = |id: SubscriberId| self@.reducers.contains_key(id);
                let mut subscribers: Vec<SubscriberId> = Vec::new();
                let mut index: usize = 0;
                while index < waiting.len()
                    invariant
                        index <= waiting@.len(),
                        registered == |id: SubscriberId| self@.reducers.contains_key(id),
                        subscribers@ == waiting@.take(index as int).filter(registered),
                    decreases waiting@.len() - index,
                {
                    let id = waiting[index];
                    proof {
                        assert(waiting@.take(index + 1) =~= waiting@.take(index as int).push(id));
                        Seq::lemma_filter_push(waiting@.take(index as int), id, registered);
                    }
                    if self.reducers.contains_key(&id) {
                        subscribers.push(id);
                    }
                    index = index + 1;
                }
                proof {
                    assert(waiting@.take(waiting@.len() as int) =~= waiting@);
                }
                Some(Delivery { subscribers, payload: emission.message })
            },
            None => None,
        }
    }

    /// Takes the pushed emissions one after the other, as `receive` would,
    /// and returns the deliveries in the order of the emissions.
    pub fn receive_all(&mut self, emissions: &Vec<Emission>) -> (deliveries: Vec<Delivery>)
        requires
            old(self).wf(),
        ensures
            final(self).wf(),
            final(self)@ == old(self)@.after(receives(views(emissions@))),
            delivery_views(deliveries@) == old(self)@.answers(receives(views(emissions@))),
    {
        let ghost pushed = views(emissions@);
        let mut deliveries: Vec<Delivery> = Vec::new();
        let mut index: usize = 0;
        while index < emissions.len()
            invariant
                index <= emissions@.len(),
                pushed == views(emissions@),
                self.wf(),
                self@ == old(self)@.after(receives(pushed.take(index as int))),
                delivery_views(deliveries@) == old(self)@.answers(
                    receives(pushed.take(index as int)),
                ),
            decreases emissions@.len() - index,
        {
            let emission = Emission {
                guid: emissions[index].guid,
                message: emissions[index].message.duplicate(),
            };
            proof {
                assert(receives::<C>(pushed.take(index + 1)).drop_last() =~= receives::<C>(
                    pushed.take(index as int),
                ));
            }
            match self.receive(emission) {
                Some(delivery) => {
                    deliveries.push(delivery);
                },
                None => {},
            }
            index = index + 1;
        }
        proof {
            assert(pushed.take(emissions@.len() as int) =~= pushed);
        }
        deliveries
    }
}

/// A subscriber that was registered can send: after `register`, the
/// precondition of `send` holds for it.
pub proof fn lemma_register_enables_send<C>(ctx: CtxView<C>, id: SubscriberId, reducer: C)
    requires
        ctx.wf(),
    ensures
        ctx.registered(id, reducer).wf(),
        ctx.registered(id, reducer).is_registered(id),
{
}

/// Nothing but `register` makes a subscriber able to send: a new router knows
/// nobody, and every other operation registers nobody.
pub proof fn lemma_only_register_registers<C>(
    ctx: CtxView<C>,
    id: SubscriberId,
    other: SubscriberId,
    guid: CorrelationId,
    reducer: C,
)
    ensures
        !CtxView::<C>::empty().is_registered(id),
        ctx.registered(other, reducer).is_registered(id) <==> other == id || ctx.is_registered(id),
        ctx.updated(other, reducer).is_registered(id) <==> ctx.is_registered(id),
        ctx.deregistered(other).is_registered(id) ==> ctx.is_registered(id),
        ctx.subscribed(guid, other).is_registered(id) <==> ctx.is_registered(id),
        ctx.unsubscribed(guid, other).is_registered(id) <==> ctx.is_registered(id),
        ctx.sent(guid, other).is_registered(id) <==> ctx.is_registered(id),
        ctx.received(guid).is_registered(id) <==> ctx.is_registered(id),
{
}

/// There is at most one entry for a correlation id: `send` adds exactly the
/// entry of the new request, so that one more request is pending, and every
/// entry that was there stays as it was.
pub proof fn lemma_one_entry_per_request<C>(
    ctx: CtxView<C>,
    guid: CorrelationId,
    sender: SubscriberId,
    other: CorrelationId,
)
    requires
        !ctx.is_pending(guid),
    ensures
        ctx.sent(guid, sender).forwards.dom() == ctx.forwards.dom().insert(guid),
        ctx.forwards.dom().finite() ==> ctx.sent(guid, sender).forwards.dom().len()
            == ctx.forwards.dom().len() + 1,
        ctx.sent(guid, sender).forwards[guid] == seq![sender],
        ctx.is_pending(other) ==> ctx.sent(guid, sender).forwards[other] == ctx.forwards[other],
        ctx.sent(guid, sender).reducers == ctx.reducers,
        ctx.sent(guid, sender).received(guid) == ctx,
{
    assert(ctx.sent(guid, sender).received(guid).forwards =~= ctx.forwards);
}

/// Two sends in a row, with no emission in between, get different
/// correlation ids: the second id is fresh, and the first is still pending.
pub proof fn lemma_consecutive_sends_differ<C>(
    ctx: CtxView<C>,
    first: CorrelationId,
    second: CorrelationId,
    sender: SubscriberId,
)
    requires
        !ctx.is_pending(first),
        !ctx.sent(first, sender).is_pending(second),
    ensures
        first != second,
{
}

/// An entry comes into being only by `send` or `subscribe`: after any other
/// operation, somebody waits for a correlation id only if somebody did before.
pub proof fn lemma_entries_come_from_send_or_subscribe<C>(
    ctx: CtxView<C>,
    guid: CorrelationId,
    other: CorrelationId,
    id: SubscriberId,
    reducer: C,
)
    ensures
        !CtxView::<C>::empty().is_pending(guid),
        ctx.registered(id, reducer).is_pending(guid) <==> ctx.is_pending(guid),
        ctx.updated(id, reducer).is_pending(guid) <==> ctx.is_pending(guid),
        ctx.deregistered(id).is_pending(guid) <==> ctx.is_pending(guid),
        ctx.unsubscribed(other, id).is_pending(guid) ==> ctx.is_pending(guid),
        ctx.received(other).is_pending(guid) ==> ctx.is_pending(guid),
        ctx.sent(other, id).is_pending(guid) <==> other == guid || ctx.is_pending(guid),
        ctx.subscribed(other, id).is_pending(guid) <==> other == guid || ctx.is_pending(guid),
{
}

/// An entry is removed once: the first emission with its correlation id
/// removes it, and a later one with the same id finds nothing, is answered
/// with no delivery and changes nothing.
pub proof fn lemma_entry_is_removed_once<C>(
    ctx: CtxView<C>,
    emission: EmissionView,
    again: EmissionView,
)
    requires
        again.guid == emission.guid,
    ensures
        !ctx.received(emission.guid).is_pending(emission.guid),
        ctx.received(emission.guid).delivery(again) is None,
        ctx.received(emission.guid).received(again.guid) == ctx.received(emission.guid),
{
    assert(ctx.received(emission.guid).received(again.guid).forwards =~= ctx.received(
        emission.guid,
    ).forwards);
}

/// When the last subscriber of an entry unsubscribes, the entry is torn
/// down; while another one is left, it stays. To unsubscribe a second time
/// changes nothing.
pub proof fn lemma_unsubscribe_tears_down<C>(
    ctx: CtxView<C>,
    guid: CorrelationId,
    id: SubscriberId,
)
    requires
        ctx.wf(),
        ctx.is_pending(guid),
    ensures
        ctx.unsubscribed(guid, id).wf(),
        ctx.unsubscribed(guid, id).is_pending(guid) <==> ctx.forwards[guid] != seq![id],
        ctx.unsubscribed(guid, id).unsubscribed(guid, id) == ctx.unsubscribed(guid, id),
{
    let waiting = ctx.forwards[guid];
    waiting.index_of_first_ensures(id);
    if waiting.contains(id) {
        let index = waiting.index_of_first(id).unwrap();
        if waiting.remove(index).len() == 0 {
            assert(waiting =~= seq![id]);
        }
    } else {
        assert(waiting[0] != id);
    }
    let after = ctx.unsubscribed(guid, id);
    if after.is_pending(guid) {
        let rest = after.forwards[guid];
        lemma_remove_value_absent(rest, id);
        assert(after.unsubscribed(guid, id).forwards =~= after.forwards);
    }
}

/// After `send`, the emission that answers the request is delivered to the
/// sender, to nobody else, and once.
pub proof fn lemma_sender_gets_the_answer<C>(
    ctx: CtxView<C>,
    guid: CorrelationId,
    sender: SubscriberId,
    answer: EmissionView,
)
    requires
        ctx.is_registered(sender),
        answer.guid == guid,
    ensures
        ctx.sent(guid, sender).delivery(answer) == Some(
            DeliveryView { subscribers: seq![sender], payload: answer.message },
        ),
        !ctx.sent(guid, sender).received(guid).is_pending(guid),
{
    let after = ctx.sent(guid, sender);
    let registered = |id: SubscriberId| after.reducers.contains_key(id);
    Seq::lemma_filter_push(Seq::<SubscriberId>::empty(), sender, registered);
    assert(after.audience(guid) =~= seq![sender]);
}

/// Two requests with different correlation ids are tracked and resolved
/// independently: both are pending after the two sends, and the answer to
/// one leaves the other pending, with the same subscriber.
pub proof fn lemma_requests_are_independent<C>(
    ctx: CtxView<C>,
    first: CorrelationId,
    second: CorrelationId,
    sender: SubscriberId,
)
    requires
        first != second,
    ensures
        ctx.sent(first, sender).sent(second, sender).is_pending(first),
        ctx.sent(first, sender).sent(second, sender).is_pending(second),
        !ctx.sent(first, sender).sent(second, sender).received(first).is_pending(first),
        ctx.sent(first, sender).sent(second, sender).received(first).is_pending(second),
        ctx.sent(first, sender).sent(second, sender).received(first).forwards[second] == seq![
            sender,
        ],
        ctx.sent(first, sender).sent(second, sender).received(first) == ctx.sent(second, sender)
            .received(first),
{
    assert(ctx.sent(first, sender).sent(second, sender).received(first).forwards =~= ctx.sent(
        second,
        sender,
    ).received(first).forwards);
}

/// Whatever happens to a well-formed router, it stays well-formed.
pub proof fn lemma_step_keeps_wf<C>(ctx: CtxView<C>, step: RouterStep<C>)
    requires
        ctx.wf(),
    ensures
        ctx.step(step).wf(),
{
    if let RouterStep::Unsubscribe(guid, id) = step {
        if ctx.forwards.contains_key(guid) {
            lemma_unsubscribe_tears_down(ctx, guid, id);
        }
    }
}

/// The router never changes the order: whatever else happens in between,
/// each emission that finds somebody waiting is answered with one delivery
/// that carries its payload, and the deliveries are made in the order in
/// which the emissions come in.
pub proof fn lemma_router_keeps_order<C>(ctx: CtxView<C>, steps: Seq<RouterStep<C>>)
    ensures
        ctx.answered_positions(steps).len() == ctx.answers(steps).len(),
        increasing_within(ctx.answered_positions(steps), steps.len() as int),
        forall|k: int|
            0 <= k < ctx.answers(steps).len() ==> steps[ctx.answered_positions(steps)[k]]
                is Receive && (#[trigger] ctx.answers(steps)[k]).payload
                == steps[ctx.answered_positions(steps)[k]]->Receive_0.message,
        forall|i: int|
            0 <= i < steps.len() && steps[i] is Receive && ctx.after(steps.take(i)).is_pending(
                steps[i]->Receive_0.guid,
            ) ==> ctx.answered_positions(steps).contains(i),
    decreases steps.len(),
{
    if steps.len() > 0 {
        let shorter = steps.drop_last();
        lemma_router_keeps_order(ctx, shorter);
        let picks = ctx.answered_positions(steps);
        assert forall|i: int|
            0 <= i < steps.len() && steps[i] is Receive && ctx.after(steps.take(i)).is_pending(
                steps[i]->Receive_0.guid,
            ) implies picks.contains(i) by {
            if i < shorter.len() {
                assert(shorter.take(i) =~= steps.take(i));
                assert(ctx.answered_positions(shorter).contains(i));
                let k = choose|k: int|
                    0 <= k < ctx.answered_positions(shorter).len() && ctx.answered_positions(
                        shorter,
                    )[k] == i;
                assert(picks[k] == i);
            } else {
                assert(picks[picks.len() - 1] == i);
            }
        }
    }
}

/// Of two emissions that both find somebody waiting, the one that comes in
/// first is delivered first.
pub proof fn lemma_earlier_emission_is_delivered_first<C>(
    ctx: CtxView<C>,
    steps: Seq<RouterStep<C>>,
    first: int,
    second: int,
)
    requires
        0 <= first < second < steps.len(),
        steps[first] is Receive,
        steps[second] is Receive,
        ctx.after(steps.take(first)).is_pending(steps[first]->Receive_0.guid),
        ctx.after(steps.take(second)).is_pending(steps[second]->Receive_0.guid),
    ensures
        (exists|p: int, q: int|
            0 <= p < q < ctx.answers(steps).len() && (#[trigger] ctx.answers(steps)[p]).payload
                == steps[first]->Receive_0.message && (#[trigger] ctx.answers(steps)[q]).payload
                == steps[second]->Receive_0.message),
{
    lemma_router_keeps_order(ctx, steps);
    let picks = ctx.answered_positions(steps);
    assert(picks.contains(first));
    assert(picks.contains(second));
    let p = choose|p: int| 0 <= p < picks.len() && picks[p] == first;
    let q = choose|q: int| 0 <= q < picks.len() && picks[q] == second;
    assert(ctx.answers(steps)[p].payload == steps[first]->Receive_0.message);
    assert(ctx.answers(steps)[q].payload == steps[second]->Receive_0.message);
}

/// After emissions came in under a correlation id, nobody waits for that id.
pub proof fn lemma_receives_clear<C>(
    ctx: CtxView<C>,
    emissions: Seq<EmissionView>,
    guid: CorrelationId,
)
    requires
        emissions.len() > 0,
        forall|i: int| 0 <= i < emissions.len() ==> (#[trigger] emissions[i]).guid == guid,
    ensures
        !ctx.after(receives(emissions)).is_pending(guid),
{
}

/// Delivery is at most once per correlation id: of emissions that come in
/// under one correlation id, one directly after the other, only the first is
/// answered with a delivery, and only if somebody waits for it.
pub proof fn lemma_one_delivery_per_request<C>(
    ctx: CtxView<C>,
    emissions: Seq<EmissionView>,
    guid: CorrelationId,
)
    requires
        forall|i: int| 0 <= i < emissions.len() ==> (#[trigger] emissions[i]).guid == guid,
    ensures
        ctx.answers(receives(emissions)).len() <= 1,
        ctx.answers(receives(emissions)).len() == 1 <==> emissions.len() > 0 && ctx.is_pending(
            guid,
        ),
        ctx.answers(receives(emissions)).len() == 1 ==> ctx.answered_positions(
            receives(emissions),
        ) == seq![0int],
    decreases emissions.len(),
{
    let steps = receives::<C>(emissions);
    if emissions.len() > 0 {
        let shorter = emissions.drop_last();
        lemma_one_delivery_per_request(ctx, shorter, guid);
        assert(steps.drop_last() =~= receives::<C>(shorter));
        if shorter.len() == 0 && ctx.is_pending(guid) {
            assert(ctx.answered_positions(steps.drop_last()) =~= Seq::<int>::empty());
        }
    }
}

/// The positions in `batch` of the messages of a process whose payload is
/// delivered, once the coordinator has forwarded the batch under `origin` and
/// the router has taken what was forwarded.
pub open spec fn delivered_sources<C>(
    ctx: CtxView<C>,
    origin: CorrelationId,
    batch: Seq<ProcessEmissionView>,
) -> Seq<int> {
    Seq::new(
        ctx.answers(receives(forwarded(origin, batch))).len(),
        |j: int|
            pushed_positions(batch)[ctx.answered_positions(receives(forwarded(origin, batch)))[j]],
    )
}

/// From the process to the callback, the order is kept: what is delivered of
/// a batch that a process emitted is delivered in the order in which the
/// process emitted it, each delivery with the payload of its message.
pub proof fn lemma_end_to_end_order<C>(
    ctx: CtxView<C>,
    origin: CorrelationId,
    batch: Seq<ProcessEmissionView>,
)
    ensures
        delivered_sources(ctx, origin, batch).len() == ctx.answers(
            receives(forwarded(origin, batch)),
        ).len(),
        increasing_within(delivered_sources(ctx, origin, batch), batch.len() as int),
        forall|j: int|
            0 <= j < ctx.answers(receives(forwarded(origin, batch))).len()
                ==> batch[delivered_sources(ctx, origin, batch)[j]].pushed(origin) == Some(
                EmissionView {
                    guid: origin,
                    message: (#[trigger] ctx.answers(receives(forwarded(origin, batch)))[j]).payload,
                },
            ),
{
    lemma_forwarding_keeps_order(origin, batch);
    lemma_router_keeps_order(ctx, receives::<C>(forwarded(origin, batch)));
}

} // verus!
