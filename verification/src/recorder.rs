//! Buffering of analytics events before they are sent in batches.
use vstd::prelude::*;

verus! {

/// The number of events that makes a batch due for the cloud recorder.
pub const CLOUD_BATCH_SIZE: usize = 32;

/// Events waiting to be sent; a batch is due once `batch_size` of them accumulate.
pub struct EventBuffer<T> {
    events: Vec<T>,
    batch_size: usize,
}

impl<T> View for EventBuffer<T> {
    type V = Seq<T>;

    closed spec fn view(&self) -> Seq<T> {
        self.events@
    }
}

impl<T> EventBuffer<T> {
    /// The number of events that makes a batch due.
    pub closed spec fn batch_limit(&self) -> usize {
        self.batch_size
    }

    /// The number of events that makes a batch due.
    pub fn batch_size(&self) -> (r: usize)
        ensures
            r == self.batch_limit(),
    {
        self.batch_size
    }

    /// An empty buffer.
    pub fn new(batch_size: usize) -> (r: EventBuffer<T>)
        ensures
            r@ == Seq::<T>::empty(),
            r.batch_limit() == batch_size,
    {
        let r = EventBuffer { events: Vec::new(), batch_size };
        assert(r@ =~= Seq::<T>::empty());
        r
    }

    /// Adds an event at the end; says whether a batch is now due.
    pub fn record(&mut self, event: T) -> (flush_due: bool)
        ensures
            final(self)@ == old(self)@.push(event),
            final(self).batch_limit() == old(self).batch_limit(),
            flush_due == (final(self)@.len() >= final(self).batch_limit()),
    {
        self.events.push(event);
        self.events.len() >= self.batch_size
    }

    /// The events waiting to be sent, oldest first.
    pub fn pending(&self) -> (r: &Vec<T>)
        ensures
            r@ == self@,
    {
        &self.events
    }

    /// Whether nothing waits to be sent (then a flush sends nothing).
    pub fn is_empty(&self) -> (r: bool)
        ensures
            r == (self@.len() == 0),
    {
        self.events.len() == 0
    }

    /// Forgets the pending events once the batch holding them was delivered.
    pub fn delivered(&mut self)
        ensures
            final(self)@ == Seq::<T>::empty(),
            final(self).batch_limit() == old(self).batch_limit(),
    {
        self.events.clear();
    }
}

} // verus!

verus! {

/// The pending events after recording `events` one at a time, in order, into a buffer
/// that held `start`: each `record` adds its event at the end.
pub open spec fn after_records<T>(start: Seq<T>, events: Seq<T>) -> Seq<T>
    decreases events.len(),
{
    if events.len() == 0 {
        start
    } else {
        after_records(start, events.drop_last()).push(events.last())
    }
}

/// Whether the `k`-th of a sequence of `record` calls (counting from 1) into a buffer that
/// held `start` reports a batch as due, with batch limit `limit`.
pub open spec fn due_at<T>(start: Seq<T>, events: Seq<T>, limit: usize, k: int) -> bool {
    after_records(start, events.take(k)).len() >= limit
}

/// Recording into an empty buffer without delivering: the buffer holds the events recorded
/// so far, in order; no call before the `limit`-th reports a batch due, the `limit`-th does,
/// and then the batch is exactly the first `limit` events. With the cloud batch size this
/// is a batch of the first 32 events at the 32nd call.
pub proof fn lemma_batch_sequence<T>(events: Seq<T>, limit: usize)
    requires
        1 <= limit <= events.len(),
    ensures
        forall|k: int|
            0 <= k <= events.len() ==> #[trigger] after_records(Seq::<T>::empty(), events.take(k))
                == events.take(k),
        forall|k: int| 1 <= k < limit ==> !#[trigger] due_at(Seq::<T>::empty(), events, limit, k),
        due_at(Seq::<T>::empty(), events, limit, limit as int),
        after_records(Seq::<T>::empty(), events.take(limit as int)) == events.take(limit as int),
{
    assert forall|k: int| 0 <= k <= events.len() implies #[trigger] after_records(
        Seq::<T>::empty(),
        events.take(k),
    ) == events.take(k) by {
        lemma_after_records_empty(events.take(k));
    }
    assert forall|k: int| 1 <= k < limit implies !#[trigger] due_at(
        Seq::<T>::empty(),
        events,
        limit,
        k,
    ) by {
        lemma_after_records_empty(events.take(k));
    }
    lemma_after_records_empty(events.take(limit as int));
}

proof fn lemma_after_records_empty<T>(events: Seq<T>)
    ensures
        after_records(Seq::<T>::empty(), events) == events,
    decreases events.len(),
{
    if events.len() > 0 {
        lemma_after_records_empty(events.drop_last());
        assert(events.drop_last().push(events.last()) =~= events);
    } else {
        assert(events =~= Seq::<T>::empty());
    }
}

} // verus!
