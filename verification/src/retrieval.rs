//! Fetching each item at most once, and answering everyone who asks for it.
//!
//! An [`ItemRetriever`] remembers, per id, how far its retrieval has come. It
//! performs no I/O: it tells its owner what to do next (submit a request, watch
//! for an answer, publish an answer) and is told what came of it.

use vstd::prelude::*;
use crate::decimal::decimal;
use crate::decimal::write_signed;
use vstd::laws_cmp::obeys_cmp;
use vstd::string::*;
use std::collections::BTreeMap;
use std::sync::Arc;

verus! {

/// How far the retrieval of one item has come.
///
/// `W` is whatever the owner needs to let waiters know of an answer, such as
/// the two ends of a channel.
pub enum RetrievalState<T, W> {
    /// Submitted, with no answer yet.
    Requested(W),
    /// The item was received.
    Found(T),
    /// There is no such item.
    Missing,
    /// The request could not be submitted.
    Failed(String),
}

/// Why an item cannot be handed out.
pub enum RetrieveError<Id> {
    /// Nobody ever requested the item with this id.
    NeverRequested(Id),
    /// The request could not be submitted, for the given reason.
    NotSubmitted(String),
    /// The waiter will never show an answer, for the given reason.
    NotWatchable(String),
}

impl RetrieveError<i64> {
    /// What to tell the user.
    pub fn message(&self) -> (message: String)
        ensures
            message@ == match self {
                RetrieveError::NeverRequested(id) => "Item "@ + decimal(*id as int)
                    + " was never requested"@,
                RetrieveError::NotSubmitted(reason) => reason@,
                RetrieveError::NotWatchable(reason) => reason@,
            },
    {
        match self {
            RetrieveError::NeverRequested(id) => {
                let mut message = String::from_str("Item ");
                message.append(write_signed(*id).as_str());
                message.append(" was never requested");
                message
            },
            RetrieveError::NotSubmitted(reason) => reason.clone(),
            RetrieveError::NotWatchable(reason) => reason.clone(),
        }
    }
}

/// What the owner of an [`ItemRetriever`] has to do about a request.
pub enum RequestStep<'a, Item, Id, W> {
    /// Submit a request for the item, then report with [`ItemRetriever::submitted`].
    Submit,
    /// The item is on its way: its present answer is what the waiter shows.
    Pending(&'a W),
    /// The request is settled.
    Done(Result<Option<Option<Arc<Item>>>, RetrieveError<Id>>),
}

/// What the owner of an [`ItemRetriever`] has to do about a caller that waits.
pub enum WaitStep<'a, Item, Id, W> {
    /// Wait until the waiter shows an answer.
    Pending(&'a W),
    /// There is nothing to wait for.
    Done(Result<Option<Arc<Item>>, RetrieveError<Id>>),
}

/// What a caller that watches a waiter hears of it.
pub enum WatchEvent<Item> {
    /// What the waiter shows: an answer, or nothing yet.
    Shown(Option<Option<Arc<Item>>>),
    /// The waiter will change no more, for the given reason.
    Lost(String),
}

/// What a caller that watches a waiter has to do.
pub enum WatchStep<Item, Id> {
    /// Wait until the waiter shows something else.
    WaitOn,
    /// The wait is over.
    Done(Result<Option<Arc<Item>>, RetrieveError<Id>>),
}

/// What `event` calls for: a wait ends with the answer that is shown, or when none
/// can come any more, and goes on otherwise.
pub open spec fn watch_step<Item, Id>(event: WatchEvent<Item>) -> WatchStep<Item, Id> {
    match event {
        WatchEvent::Shown(Some(answer)) => WatchStep::Done(Ok(answer)),
        WatchEvent::Shown(None) => WatchStep::WaitOn,
        WatchEvent::Lost(reason) => WatchStep::Done(Err(RetrieveError::NotWatchable(reason))),
    }
}

/// What a caller that watches a waiter has to do about `event`.
pub fn watch<Item, Id>(event: WatchEvent<Item>) -> (step: WatchStep<Item, Id>)
    ensures
        step == watch_step::<Item, Id>(event),
{
    match event {
        WatchEvent::Shown(Some(answer)) => WatchStep::Done(Ok(answer)),
        WatchEvent::Shown(None) => WatchStep::WaitOn,
        WatchEvent::Lost(reason) => WatchStep::Done(Err(RetrieveError::NotWatchable(reason))),
    }
}

/// The retrieval states by id.
pub type Items<Item, Id, W> = Map<Id, RetrievalState<Arc<Item>, W>>;

/// Remembers what became of every item that was ever requested.
pub struct ItemRetriever<Item, Id, W> {
    items: BTreeMap<Id, RetrievalState<Arc<Item>, W>>,
}

impl<Item, Id, W> View for ItemRetriever<Item, Id, W> {
    type V = Items<Item, Id, W>;

    closed spec fn view(&self) -> Items<Item, Id, W> {
        self.items@
    }
}

/// Another handle on the same item.
///
/// Calls `Arc::clone`, which makes another pointer to the same allocation: the
/// handle that comes back holds the very value that `item` holds.
#[verifier::external_body]
fn share<T>(item: &Arc<T>) -> (shared: Arc<T>)
    ensures
        shared == *item,
{
    Arc::clone(item)
}

/// Whether `step` is what a request for `id` calls for.
pub open spec fn is_request_step<Item, Id, W>(
    items: Items<Item, Id, W>,
    id: Id,
    step: RequestStep<'_, Item, Id, W>,
) -> bool {
    if !items.contains_key(id) {
        step is Submit
    } else {
        match items[id] {
            RetrievalState::Requested(waiter) => step == RequestStep::<Item, Id, W>::Pending(&waiter),
            RetrievalState::Found(item) => step == RequestStep::<Item, Id, W>::Done(
                Ok(Some(Some(item))),
            ),
            RetrievalState::Missing => step == RequestStep::<Item, Id, W>::Done(Ok(Some(None))),
            RetrievalState::Failed(reason) => step matches RequestStep::Done(Err(error))
                && is_not_submitted(error, reason@),
        }
    }
}

/// Whether `step` is what a caller that waits for `id` calls for.
pub open spec fn is_wait_step<Item, Id, W>(
    items: Items<Item, Id, W>,
    id: Id,
    step: WaitStep<'_, Item, Id, W>,
) -> bool {
    if !items.contains_key(id) {
        step == WaitStep::<Item, Id, W>::Done(Err(RetrieveError::NeverRequested(id)))
    } else {
        match items[id] {
            RetrievalState::Requested(waiter) => step == WaitStep::<Item, Id, W>::Pending(&waiter),
            RetrievalState::Found(item) => step == WaitStep::<Item, Id, W>::Done(Ok(Some(item))),
            RetrievalState::Missing => step == WaitStep::<Item, Id, W>::Done(Ok(None)),
            RetrievalState::Failed(reason) => step matches WaitStep::Done(Err(error))
                && is_not_submitted(error, reason@),
        }
    }
}

/// Whether `error` says that the request could not be submitted, for `reason`.
pub open spec fn is_not_submitted<Id>(error: RetrieveError<Id>, reason: Seq<char>) -> bool {
    error matches RetrieveError::NotSubmitted(r) && r@ == reason
}

/// The states after a request for the item with `id` was or was not submitted.
pub open spec fn after_submitted<Item, Id, W>(
    items: Items<Item, Id, W>,
    id: Id,
    outcome: Result<(), String>,
    waiter: W,
) -> Items<Item, Id, W> {
    match outcome {
        Ok(_) => items.insert(id, RetrievalState::Requested(waiter)),
        Err(reason) => items.insert(id, RetrievalState::Failed(reason)),
    }
}

/// The states after the item with `id` was received.
pub open spec fn after_received<Item, Id, W>(
    items: Items<Item, Id, W>,
    id: Id,
    item: Item,
) -> Items<Item, Id, W> {
    if items[id] is Requested {
        items.insert(id, RetrievalState::Found(Arc::new(item)))
    } else {
        items
    }
}

/// The states after it turned out that there is no item with `id`.
pub open spec fn after_not_found<Item, Id, W>(items: Items<Item, Id, W>, id: Id) -> Items<
    Item,
    Id,
    W,
> {
    if items[id] is Requested {
        items.insert(id, RetrievalState::Missing)
    } else {
        items
    }
}

/// The states after `answer` came back for the item with `id`.
pub open spec fn after_answered<Item, Id, W, E>(
    items: Items<Item, Id, W>,
    id: Id,
    answer: Result<Item, E>,
) -> Items<Item, Id, W> {
    match answer {
        Ok(item) => after_received(items, id, item),
        Err(_) => after_not_found(items, id),
    }
}

/// What waiters are told of `answer`.
pub open spec fn published<Item, E>(answer: Result<Item, E>) -> Option<Arc<Item>> {
    match answer {
        Ok(item) => Some(Arc::new(item)),
        Err(_) => None,
    }
}

impl<Item, Id: Ord + Copy, W> ItemRetriever<Item, Id, W> {
    /// A retriever of which nothing was requested yet.
    pub fn new() -> (retriever: Self)
        ensures
            retriever@ == Map::<Id, RetrievalState<Arc<Item>, W>>::empty(),
    {
        ItemRetriever { items: BTreeMap::new() }
    }

    /// Whether the item with `id` was ever requested.
    pub fn was_requested(&self, id: Id) -> (requested: bool)
        requires
            obeys_cmp::<Id>(),
        ensures
            requested == self@.contains_key(id),
    {
        self.items.contains_key(&id)
    }

    /// What a request for the item with `id` calls for.
    pub fn request(&self, id: Id) -> (step: RequestStep<'_, Item, Id, W>)
        requires
            obeys_cmp::<Id>(),
        ensures
            is_request_step(self@, id, step),
    {
        match self.items.get(&id) {
            None => RequestStep::Submit,
            Some(state) => match state {
                RetrievalState::Requested(waiter) => RequestStep::Pending(waiter),
                RetrievalState::Found(item) => RequestStep::Done(Ok(Some(Some(share(item))))),
                RetrievalState::Missing => RequestStep::Done(Ok(Some(None))),
                RetrievalState::Failed(reason) => RequestStep::Done(
                    Err(RetrieveError::NotSubmitted(reason.clone())),
                ),
            },
        }
    }

    /// Records what came of submitting a request for the item with `id`, and
    /// gives the answer to whoever made the request.
    ///
    /// `waiter` will tell waiters of the answer; it shows none yet.
    pub fn submitted(&mut self, id: Id, outcome: Result<(), String>, waiter: W) -> (answer: Result<
        Option<Option<Arc<Item>>>,
        RetrieveError<Id>,
    >)
        requires
            obeys_cmp::<Id>(),
            !old(self)@.contains_key(id),
        ensures
            final(self)@ == after_submitted(old(self)@, id, outcome, waiter),
            match outcome {
                Ok(_) => answer == Ok::<Option<Option<Arc<Item>>>, RetrieveError<Id>>(None),
                Err(reason) => answer matches Err(error) && is_not_submitted(error, reason@),
            },
    {
        match outcome {
            Ok(()) => {
                self.items.insert(id, RetrievalState::Requested(waiter));
                Ok(None)
            },
            Err(reason) => {
                let answer = Err(RetrieveError::NotSubmitted(reason.clone()));
                self.items.insert(id, RetrievalState::Failed(reason));
                answer
            },
        }
    }

    /// What a caller that waits for the item with `id` has to do.
    pub fn wait_for(&self, id: Id) -> (step: WaitStep<'_, Item, Id, W>)
        requires
            obeys_cmp::<Id>(),
        ensures
            is_wait_step(self@, id, step),
    {
        match self.items.get(&id) {
            None => WaitStep::Done(Err(RetrieveError::NeverRequested(id))),
            Some(state) => match state {
                RetrievalState::Requested(waiter) => WaitStep::Pending(waiter),
                RetrievalState::Found(item) => WaitStep::Done(Ok(Some(share(item)))),
                RetrievalState::Missing => WaitStep::Done(Ok(None)),
                RetrievalState::Failed(reason) => WaitStep::Done(
                    Err(RetrieveError::NotSubmitted(reason.clone())),
                ),
            },
        }
    }

    /// Records that the item with `id` was received.
    ///
    /// The result is the waiter to publish the item to, with the item; it is
    /// `None` when the request was settled before.
    pub fn item_received(&mut self, id: Id, item: Item) -> (publish: Option<(W, Arc<Item>)>)
        requires
            obeys_cmp::<Id>(),
            old(self)@.contains_key(id),
        ensures
            final(self)@ == after_received(old(self)@, id, item),
            publish == match old(self)@[id] {
                RetrievalState::Requested(waiter) => Some((waiter, Arc::new(item))),
                _ => None,
            },
    {
        match self.take_waiter(id) {
            Some(waiter) => {
                let item = Arc::new(item);
                self.items.insert(id, RetrievalState::Found(share(&item)));
                Some((waiter, item))
            },
            None => None,
        }
    }

    /// Records that there is no item with `id`.
    ///
    /// The result is the waiter to publish that to; it is `None` when the
    /// request was settled before.
    pub fn item_not_found(&mut self, id: Id) -> (publish: Option<W>)
        requires
            obeys_cmp::<Id>(),
            old(self)@.contains_key(id),
        ensures
            final(self)@ == after_not_found(old(self)@, id),
            publish == match old(self)@[id] {
                RetrievalState::Requested(waiter) => Some(waiter),
                _ => None,
            },
    {
        match self.take_waiter(id) {
            Some(waiter) => {
                self.items.insert(id, RetrievalState::Missing);
                Some(waiter)
            },
            None => None,
        }
    }

    /// Records what came back for the item with `id`: the item, or an error, after
    /// which the item counts as missing whatever the error.
    ///
    /// The result is the waiter to publish to, with what to publish; it is `None`
    /// when the request was settled before.
    pub fn answered<E>(&mut self, id: Id, answer: Result<Item, E>) -> (publish: Option<
        (W, Option<Arc<Item>>),
    >)
        requires
            obeys_cmp::<Id>(),
            old(self)@.contains_key(id),
        ensures
            final(self)@ == after_answered(old(self)@, id, answer),
            publish == match old(self)@[id] {
                RetrievalState::Requested(waiter) => Some((waiter, published(answer))),
                _ => None,
            },
    {
        match answer {
            Ok(item) => match self.item_received(id, item) {
                Some((waiter, item)) => Some((waiter, Some(item))),
                None => None,
            },
            Err(_) => match self.item_not_found(id) {
                Some(waiter) => Some((waiter, None)),
                None => None,
            },
        }
    }

    /// Takes the waiter of an unanswered request out, and the request with it.
    fn take_waiter(&mut self, id: Id) -> (taken: Option<W>)
        requires
            obeys_cmp::<Id>(),
        ensures
            match taken {
                Some(waiter) => {
                    &&& old(self)@.contains_key(id)
                    &&& old(self)@[id] == RetrievalState::<Arc<Item>, W>::Requested(waiter)
                    &&& final(self)@ == old(self)@.remove(id)
                },
                None => {
                    &&& final(self)@ == old(self)@
                    &&& !(old(self)@.contains_key(id) && old(self)@[id] is Requested)
                },
            },
    {
        match self.items.get(&id) {
            Some(RetrievalState::Requested(_)) => match self.items.remove(&id) {
                Some(RetrievalState::Requested(waiter)) => Some(waiter),
                _ => None,
            },
            _ => None,
        }
    }
}

/// What can happen to a retriever.
pub enum RetrievalEvent<Item, Id, W> {
    /// A request was submitted, or could not be.
    Submitted(Id, Result<(), String>, W),
    /// An item was received.
    Received(Id, Item),
    /// An item turned out not to exist.
    NotFound(Id),
}

impl<Item, Id, W> RetrievalEvent<Item, Id, W> {
    /// The id of the item that this event is about.
    pub open spec fn id(self) -> Id {
        match self {
            RetrievalEvent::Submitted(id, _, _) => id,
            RetrievalEvent::Received(id, _) => id,
            RetrievalEvent::NotFound(id) => id,
        }
    }

    /// Whether the event can happen to a retriever with these states: a request
    /// is submitted only for an item that nobody requested, and answered only
    /// after it was submitted.
    pub open spec fn possible(self, items: Items<Item, Id, W>) -> bool {
        self is Submitted <==> !items.contains_key(self.id())
    }

    /// The states after the event.
    pub open spec fn after(self, items: Items<Item, Id, W>) -> Items<Item, Id, W> {
        match self {
            RetrievalEvent::Submitted(id, outcome, waiter) => after_submitted(
                items,
                id,
                outcome,
                waiter,
            ),
            RetrievalEvent::Received(id, item) => after_received(items, id, item),
            RetrievalEvent::NotFound(id) => after_not_found(items, id),
        }
    }

    /// Whether the event makes waiters hear of an answer.
    pub open spec fn publishes(self, items: Items<Item, Id, W>) -> bool {
        self !is Submitted && items[self.id()] is Requested
    }
}

/// The states after `events`, one after the other.
pub open spec fn after_events<Item, Id, W>(
    items: Items<Item, Id, W>,
    events: Seq<RetrievalEvent<Item, Id, W>>,
) -> Items<Item, Id, W>
    decreases events.len(),
{
    if events.len() == 0 {
        items
    } else {
        events.last().after(after_events(items, events.drop_last()))
    }
}

/// Whether `events` can happen one after the other.
pub open spec fn possible_events<Item, Id, W>(
    items: Items<Item, Id, W>,
    events: Seq<RetrievalEvent<Item, Id, W>>,
) -> bool
    decreases events.len(),
{
    events.len() > 0 ==> {
        &&& possible_events(items, events.drop_last())
        &&& events.last().possible(after_events(items, events.drop_last()))
    }
}

/// A settled request stays as it is, whatever happens afterwards.
pub proof fn law_settled_is_final<Item, Id, W>(
    items: Items<Item, Id, W>,
    events: Seq<RetrievalEvent<Item, Id, W>>,
    id: Id,
)
    requires
        possible_events(items, events),
        items.contains_key(id),
        !(items[id] is Requested),
    ensures
        after_events(items, events).contains_key(id),
        after_events(items, events)[id] == items[id],
    decreases events.len(),
{
    if events.len() > 0 {
        law_settled_is_final(items, events.drop_last(), id);
    }
}

/// What was requested once is known for good.
pub proof fn law_requests_are_remembered<Item, Id, W>(
    items: Items<Item, Id, W>,
    events: Seq<RetrievalEvent<Item, Id, W>>,
    id: Id,
)
    requires
        possible_events(items, events),
        items.contains_key(id),
    ensures
        after_events(items, events).contains_key(id),
    decreases events.len(),
{
    if events.len() > 0 {
        law_requests_are_remembered(items, events.drop_last(), id);
    }
}

/// Nothing happens to an item by what happens to other items.
pub proof fn law_items_are_independent<Item, Id, W>(
    items: Items<Item, Id, W>,
    events: Seq<RetrievalEvent<Item, Id, W>>,
    id: Id,
)
    requires
        forall|i: int| 0 <= i < events.len() ==> (#[trigger] events[i]).id() != id,
    ensures
        after_events(items, events).contains_key(id) == items.contains_key(id),
        items.contains_key(id) ==> after_events(items, events)[id] == items[id],
    decreases events.len(),
{
    if events.len() > 0 {
        let earlier = events.drop_last();
        assert(forall|i: int| 0 <= i < earlier.len() ==> earlier[i] == events[i]);
        law_items_are_independent(items, earlier, id);
        assert(events[events.len() - 1].id() != id);
    }
}

/// Splitting a history in two: what comes first, then the rest.
proof fn lemma_events_split<Item, Id, W>(
    items: Items<Item, Id, W>,
    events: Seq<RetrievalEvent<Item, Id, W>>,
    n: int,
)
    requires
        0 <= n <= events.len(),
        possible_events(items, events),
    ensures
        possible_events(items, events.take(n)),
        possible_events(after_events(items, events.take(n)), events.skip(n)),
        after_events(items, events) == after_events(
            after_events(items, events.take(n)),
            events.skip(n),
        ),
    decreases events.len(),
{
    if n == events.len() {
        assert(events.take(n) == events);
        assert(events.skip(n).len() == 0);
    } else {
        let earlier = events.drop_last();
        lemma_events_split(items, earlier, n);
        assert(earlier.take(n) == events.take(n));
        assert(earlier.skip(n) == events.skip(n).drop_last());
        assert(events.skip(n).last() == events.last());
    }
}

/// The states in the middle of a history: possible before and after one event.
proof fn lemma_event_in_history<Item, Id, W>(
    items: Items<Item, Id, W>,
    events: Seq<RetrievalEvent<Item, Id, W>>,
    i: int,
)
    requires
        0 <= i < events.len(),
        possible_events(items, events),
    ensures
        events[i].possible(after_events(items, events.take(i))),
        after_events(items, events.take(i + 1)) == events[i].after(
            after_events(items, events.take(i)),
        ),
{
    lemma_events_split(items, events, i + 1);
    assert(events.take(i + 1).drop_last() == events.take(i));
    assert(events.take(i + 1).last() == events[i]);
}

/// Each item is requested at most once: of two events of one history that
/// submit a request, no two are about the same item.
pub proof fn law_submitted_at_most_once<Item, Id, W>(
    items: Items<Item, Id, W>,
    events: Seq<RetrievalEvent<Item, Id, W>>,
    i: int,
    j: int,
)
    requires
        possible_events(items, events),
        0 <= i < j < events.len(),
        events[i] is Submitted,
        events[j] is Submitted,
    ensures
        events[i].id() != events[j].id(),
{
    lemma_event_in_history(items, events, i);
    lemma_event_in_history(items, events, j);
    let middle = events.take(j).skip(i + 1);
    lemma_events_split(items, events, j);
    lemma_events_split(items, events.take(j), i + 1);
    assert(events.take(j).take(i + 1) == events.take(i + 1));
    law_requests_are_remembered(after_events(items, events.take(i + 1)), middle, events[i].id());
}

/// Each item is answered at most once: of two events of one history that
/// publish an answer, no two are about the same item.
pub proof fn law_published_at_most_once<Item, Id, W>(
    items: Items<Item, Id, W>,
    events: Seq<RetrievalEvent<Item, Id, W>>,
    i: int,
    j: int,
)
    requires
        possible_events(items, events),
        0 <= i < j < events.len(),
        events[i].publishes(after_events(items, events.take(i))),
        events[j].publishes(after_events(items, events.take(j))),
    ensures
        events[i].id() != events[j].id(),
{
    lemma_event_in_history(items, events, i);
    lemma_event_in_history(items, events, j);
    let middle = events.take(j).skip(i + 1);
    lemma_events_split(items, events, j);
    lemma_events_split(items, events.take(j), i + 1);
    assert(events.take(j).take(i + 1) == events.take(i + 1));
    law_settled_is_final(after_events(items, events.take(i + 1)), middle, events[i].id());
}

/// A pending item has no answer yet: once an answer was published, the item is not
/// pending any more, so that a waiter that is still watched shows nothing.
pub proof fn law_pending_item_was_not_published<Item, Id, W>(
    items: Items<Item, Id, W>,
    events: Seq<RetrievalEvent<Item, Id, W>>,
    i: int,
)
    requires
        possible_events(items, events),
        0 <= i < events.len(),
        events[i].publishes(after_events(items, events.take(i))),
    ensures
        after_events(items, events).contains_key(events[i].id()),
        !(after_events(items, events)[events[i].id()] is Requested),
{
    lemma_event_in_history(items, events, i);
    lemma_events_split(items, events, i + 1);
    law_settled_is_final(
        after_events(items, events.take(i + 1)),
        events.skip(i + 1),
        events[i].id(),
    );
}

/// Whoever asks later hears what was published: once an item was received for a
/// request that had no answer, every wait for it gives that item, whatever else
/// has happened since.
pub proof fn law_received_item_is_handed_out<Item, Id, W>(
    items: Items<Item, Id, W>,
    id: Id,
    item: Item,
    events: Seq<RetrievalEvent<Item, Id, W>>,
    step: WaitStep<'_, Item, Id, W>,
)
    requires
        items.contains_key(id),
        items[id] is Requested,
        possible_events(after_received(items, id, item), events),
        is_wait_step(after_events(after_received(items, id, item), events), id, step),
    ensures
        step == WaitStep::<Item, Id, W>::Done(Ok(Some(Arc::new(item)))),
{
    law_settled_is_final(after_received(items, id, item), events, id);
}

/// Whoever asks later for an item that turned out not to exist is told so,
/// whatever else has happened since.
pub proof fn law_missing_item_stays_missing<Item, Id, W>(
    items: Items<Item, Id, W>,
    id: Id,
    events: Seq<RetrievalEvent<Item, Id, W>>,
    step: WaitStep<'_, Item, Id, W>,
)
    requires
        items.contains_key(id),
        items[id] is Requested,
        possible_events(after_not_found(items, id), events),
        is_wait_step(after_events(after_not_found(items, id), events), id, step),
    ensures
        step == WaitStep::<Item, Id, W>::Done(Ok(None)),
{
    law_settled_is_final(after_not_found(items, id), events, id);
}

/// Whoever waited and whoever asks later hear the same: once `answer` came back for
/// a request that had none, a watched waiter that shows what was published ends the
/// wait with it, and every later wait gives it too, whatever else has happened.
pub proof fn law_watching_and_asking_later_agree<Item, Id, W, E>(
    items: Items<Item, Id, W>,
    id: Id,
    answer: Result<Item, E>,
    events: Seq<RetrievalEvent<Item, Id, W>>,
    later: WaitStep<'_, Item, Id, W>,
)
    requires
        items.contains_key(id),
        items[id] is Requested,
        possible_events(after_answered(items, id, answer), events),
        is_wait_step(after_events(after_answered(items, id, answer), events), id, later),
    ensures
        watch_step::<Item, Id>(WatchEvent::Shown(Some(published(answer)))) == WatchStep::<
            Item,
            Id,
        >::Done(Ok(published(answer))),
        later == WaitStep::<Item, Id, W>::Done(Ok(published(answer))),
{
    law_settled_is_final(after_answered(items, id, answer), events, id);
}

/// Requesting and waiting agree: a wait has a waiter to watch, an answer or an
/// error exactly when a request has it, and fails for want of a request exactly
/// when a request would be submitted.
pub proof fn law_request_and_wait_agree<Item, Id, W>(
    items: Items<Item, Id, W>,
    id: Id,
    request: RequestStep<'_, Item, Id, W>,
    wait: WaitStep<'_, Item, Id, W>,
)
    requires
        is_request_step(items, id, request),
        is_wait_step(items, id, wait),
    ensures
        match wait {
            WaitStep::Pending(waiter) => request == RequestStep::<Item, Id, W>::Pending(waiter),
            WaitStep::Done(Ok(answer)) => request == RequestStep::<Item, Id, W>::Done(
                Ok(Some(answer)),
            ),
            WaitStep::Done(Err(RetrieveError::NeverRequested(other))) => other == id
                && request is Submit,
            WaitStep::Done(Err(RetrieveError::NotSubmitted(reason))) => request matches
                RequestStep::Done(Err(error)) && is_not_submitted(error, reason@),
            WaitStep::Done(Err(RetrieveError::NotWatchable(_))) => false,
        },
{
}

/// An item that nobody requested is to be submitted, and cannot be waited for.
pub proof fn law_unknown_item_is_to_be_submitted<Item, Id, W>(
    items: Items<Item, Id, W>,
    id: Id,
    request: RequestStep<'_, Item, Id, W>,
    wait: WaitStep<'_, Item, Id, W>,
)
    requires
        !items.contains_key(id),
        is_request_step(items, id, request),
        is_wait_step(items, id, wait),
    ensures
        request is Submit,
        wait matches WaitStep::Done(Err(RetrieveError::NeverRequested(other))) && other == id,
{
}

/// Submitting a request makes the item pending, whatever other items there are:
/// whoever asks for it watches the waiter that was given, and nothing changes for
/// the other items.
pub proof fn law_submitted_item_is_pending<Item, Id, W>(
    items: Items<Item, Id, W>,
    id: Id,
    waiter: W,
    request: RequestStep<'_, Item, Id, W>,
    wait: WaitStep<'_, Item, Id, W>,
)
    requires
        is_request_step(after_submitted(items, id, Ok(()), waiter), id, request),
        is_wait_step(after_submitted(items, id, Ok(()), waiter), id, wait),
    ensures
        request matches RequestStep::Pending(watched) && *watched == waiter,
        wait matches WaitStep::Pending(watched) && *watched == waiter,
        forall|other: Id|
            other != id ==> (#[trigger] after_submitted(items, id, Ok(()), waiter).contains_key(
                other,
            ) <==> items.contains_key(other)),
        forall|other: Id|
            other != id && items.contains_key(other) ==> #[trigger] after_submitted(
                items,
                id,
                Ok(()),
                waiter,
            )[other] == items[other],
{
}

/// A request that could not be submitted fails for good: whatever happens
/// afterwards, whoever asks for the item is told the reason.
pub proof fn law_failed_submission_is_reported<Item, Id, W>(
    items: Items<Item, Id, W>,
    id: Id,
    reason: String,
    waiter: W,
    later: Seq<RetrievalEvent<Item, Id, W>>,
    request: RequestStep<'_, Item, Id, W>,
    wait: WaitStep<'_, Item, Id, W>,
)
    requires
        possible_events(after_submitted(items, id, Err(reason), waiter), later),
        is_request_step(
            after_events(after_submitted(items, id, Err(reason), waiter), later),
            id,
            request,
        ),
        is_wait_step(
            after_events(after_submitted(items, id, Err(reason), waiter), later),
            id,
            wait,
        ),
    ensures
        request matches RequestStep::Done(Err(RetrieveError::NotSubmitted(told))) && told@
            == reason@,
        wait matches WaitStep::Done(Err(RetrieveError::NotSubmitted(told))) && told@ == reason@,
        forall|other: Id|
            other != id ==> (#[trigger] after_submitted(
                items,
                id,
                Err(reason),
                waiter,
            ).contains_key(other) <==> items.contains_key(other)),
        forall|other: Id|
            other != id && items.contains_key(other) ==> #[trigger] after_submitted(
                items,
                id,
                Err(reason),
                waiter,
            )[other] == items[other],
{
    law_settled_is_final(after_submitted(items, id, Err(reason), waiter), later, id);
}

/// The whole life of an item: from its submission on it is pending with the waiter
/// that was given, through whatever happens to other items; what comes back first is
/// what it settles on, and whoever asks later is told that, whatever happens
/// afterwards. An item that came back is handed out as it came, and any error
/// counts as there being no such item.
pub proof fn law_submitted_item_is_handed_out<Item, Id, W, E>(
    items: Items<Item, Id, W>,
    id: Id,
    waiter: W,
    between: Seq<RetrievalEvent<Item, Id, W>>,
    answer: Result<Item, E>,
    later: Seq<RetrievalEvent<Item, Id, W>>,
    request: RequestStep<'_, Item, Id, W>,
    wait: WaitStep<'_, Item, Id, W>,
)
    requires
        forall|i: int| 0 <= i < between.len() ==> (#[trigger] between[i]).id() != id,
        ({
            let pending = after_events(after_submitted(items, id, Ok(()), waiter), between);
            let settled = after_answered(pending, id, answer);
            &&& possible_events(settled, later)
            &&& is_request_step(after_events(settled, later), id, request)
            &&& is_wait_step(after_events(settled, later), id, wait)
        }),
    ensures
        ({
            let pending = after_events(after_submitted(items, id, Ok(()), waiter), between);
            &&& pending.contains_key(id)
            &&& pending[id] == RetrievalState::<Arc<Item>, W>::Requested(waiter)
        }),
        match answer {
            Ok(item) => {
                &&& request matches RequestStep::Done(Ok(Some(Some(given))))
                &&& given == Arc::new(item)
            },
            Err(_) => request matches RequestStep::Done(Ok(Some(None))),
        },
        match answer {
            Ok(item) => {
                &&& wait matches WaitStep::Done(Ok(Some(given)))
                &&& given == Arc::new(item)
            },
            Err(_) => wait matches WaitStep::Done(Ok(None)),
        },
{
    let submitted = after_submitted(items, id, Ok(()), waiter);
    let pending = after_events(submitted, between);
    law_items_are_independent(submitted, between, id);
    law_settled_is_final(after_answered(pending, id, answer), later, id);
}

/// Receiving an item and learning that it does not exist are the two answers: each
/// settles the item as the answer does that carries the item, or an error.
pub proof fn law_received_and_not_found_are_the_answers<Item, Id, W, E>(
    items: Items<Item, Id, W>,
    id: Id,
    item: Item,
    error: E,
)
    ensures
        after_answered(items, id, Ok::<Item, E>(item)) == after_received(items, id, item),
        after_answered(items, id, Err::<Item, E>(error)) == after_not_found(items, id),
        published(Ok::<Item, E>(item)) == Some(Arc::new(item)),
        published(Err::<Item, E>(error)) == None::<Arc<Item>>,
{
}

/// An answer changes nothing but the pending item that it is for, and that from
/// pending to settled: a late answer changes nothing at all.
pub proof fn law_answer_settles_one_pending_item<Item, Id, W, E>(
    items: Items<Item, Id, W>,
    id: Id,
    answer: Result<Item, E>,
)
    requires
        items.contains_key(id),
    ensures
        after_answered(items, id, answer).dom() == items.dom(),
        forall|other: Id|
            other != id && items.contains_key(other) ==> #[trigger] after_answered(
                items,
                id,
                answer,
            )[other] == items[other],
        items[id] is Requested ==> match answer {
            Ok(item) => after_answered(items, id, answer)[id] == RetrievalState::<
                Arc<Item>,
                W,
            >::Found(Arc::new(item)),
            Err(_) => after_answered(items, id, answer)[id] == RetrievalState::<
                Arc<Item>,
                W,
            >::Missing,
        },
        !(items[id] is Requested) ==> after_answered(items, id, answer) == items,
{
    assert(after_answered(items, id, answer).dom() =~= items.dom());
}

/// A wait ends with exactly the answer that is shown, or with the reason why none can
/// come, and goes on as long as none is shown.
pub proof fn law_wait_ends_with_what_is_shown<Item, Id>(answer: Option<Arc<Item>>, reason: String)
    ensures
        watch_step::<Item, Id>(WatchEvent::Shown(Some(answer))) matches WatchStep::Done(
            Ok(given),
        ) && given == answer,
        watch_step::<Item, Id>(WatchEvent::Shown(None)) is WaitOn,
        watch_step::<Item, Id>(WatchEvent::Lost(reason)) matches WatchStep::Done(
            Err(RetrieveError::NotWatchable(told)),
        ) && told == reason,
{
}

} // verus!
