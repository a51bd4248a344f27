use vstd::prelude::*;
use std::collections::VecDeque;
use crate::frame::{frame, terminator};

verus! {

broadcast use vstd::seq_lib::group_seq_properties;

/// What became of a record handed to a sink.
#[derive(Debug)]
pub enum Submit {
    /// It waits in the queue, behind every record accepted before it.
    Queued,
    /// The queue is at capacity: the record comes back, and the producer
    /// waits for room before it offers it again.
    Full(Vec<u8>),
    /// The sink has failed or is shutting down: the record is discarded.
    Dropped,
}

/// The bounded FIFO between the producers of one sink and its single
/// consumer, which writes each record in turn.
pub struct SinkQueue {
    queue: VecDeque<Vec<u8>>,
    capacity: usize,
    failed: bool,
    closing: bool,
    accepted: Ghost<Seq<Seq<u8>>>,
    delivered: Ghost<Seq<Seq<u8>>>,
}

impl SinkQueue {
    /// The records waiting, oldest first.
    pub closed spec fn queued(&self) -> Seq<Seq<u8>> {
        self.queue@.map_values(|r: Vec<u8>| r@)
    }

    pub closed spec fn capacity(&self) -> nat {
        self.capacity as nat
    }

    /// A write to the sink has failed.
    pub closed spec fn failed(&self) -> bool {
        self.failed
    }

    /// Shutdown has begun.
    pub closed spec fn closing(&self) -> bool {
        self.closing
    }

    /// Every record accepted so far, in the order of acceptance.
    pub closed spec fn accepted(&self) -> Seq<Seq<u8>> {
        self.accepted@
    }

    /// Every record handed to the consumer so far, in order.
    pub closed spec fn delivered(&self) -> Seq<Seq<u8>> {
        self.delivered@
    }

    pub closed spec fn wf(&self) -> bool {
        &&& 0 < self.capacity
        &&& self.queue@.len() <= self.capacity
        &&& self.delivered@.len() <= self.accepted@.len()
        &&& self.delivered@ == self.accepted@.take(self.delivered@.len() as int)
        &&& !self.failed ==> self.accepted@ == self.delivered@ + self.queued()
        &&& self.failed ==> self.queue@.len() == 0
    }

    pub fn new(capacity: usize) -> (r: SinkQueue)
        requires
            capacity > 0,
        ensures
            r.wf(),
            r.capacity() == capacity,
            r.queued() == Seq::<Seq<u8>>::empty(),
            r.accepted() == Seq::<Seq<u8>>::empty(),
            r.delivered() == Seq::<Seq<u8>>::empty(),
            !r.failed(),
            !r.closing(),
    {
        let r = SinkQueue {
            queue: VecDeque::new(),
            capacity,
            failed: false,
            closing: false,
            accepted: Ghost(Seq::empty()),
            delivered: Ghost(Seq::empty()),
        };
        assert(r.queued() =~= Seq::<Seq<u8>>::empty());
        assert(r.delivered@ =~= r.accepted@.take(0));
        r
    }

    /// The number of records waiting.
    pub fn len(&self) -> (r: usize)
        ensures
            r == self.queued().len(),
    {
        self.queue.len()
    }

    /// Whether nothing is left for the consumer to write.
    pub fn is_drained(&self) -> (r: bool)
        requires
            self.wf(),
        ensures
            r == (self.queued().len() == 0),
    {
        self.queue.len() == 0
    }

    pub fn is_closing(&self) -> (r: bool)
        ensures
            r == self.closing(),
    {
        self.closing
    }

    pub fn has_failed(&self) -> (r: bool)
        ensures
            r == self.failed(),
    {
        self.failed
    }

    /// A producer offers a record. It is queued at the back unless the sink
    /// has failed or is shutting down (dropped) or the queue is at capacity
    /// (handed back).
    pub fn submit(&mut self, record: Vec<u8>) -> (r: Submit)
        requires
            old(self).wf(),
        ensures
            final(self).wf(),
            final(self).capacity() == old(self).capacity(),
            final(self).failed() == old(self).failed(),
            final(self).closing() == old(self).closing(),
            final(self).delivered() == old(self).delivered(),
            (old(self).failed() || old(self).closing()) ==> (r is Dropped && final(self).queued()
                == old(self).queued() && final(self).accepted() == old(self).accepted()),
            (!old(self).failed() && !old(self).closing() && old(self).queued().len()
                == old(self).capacity()) ==> (r matches Submit::Full(back) && back@ == record@
                && final(self).queued() == old(self).queued() && final(self).accepted() == old(self).accepted()),
            (!old(self).failed() && !old(self).closing() && old(self).queued().len() < old(self).capacity()) ==> (r is Queued && final(self).queued() == old(self).queued().push(
                record@,
            ) && final(self).accepted() == old(self).accepted().push(record@)),
    {
        if self.failed || self.closing {
            return Submit::Dropped;
        }
        if self.queue.len() == self.capacity {
            return Submit::Full(record);
        }
        let ghost rec = record@;
        let ghost before = self.queued();
        self.queue.push_back(record);
        proof {
            self.accepted@ = self.accepted@.push(rec);
        }
        assert(self.queued() =~= before.push(rec));
        assert(self.accepted@ =~= self.delivered@ + self.queued());
        assert(self.delivered@ =~= self.accepted@.take(self.delivered@.len() as int));
        Submit::Queued
    }

    /// The consumer takes the oldest waiting record, if any and the sink has
    /// not failed.
    pub fn next(&mut self) -> (r: Option<Vec<u8>>)
        requires
            old(self).wf(),
        ensures
            final(self).wf(),
            final(self).capacity() == old(self).capacity(),
            final(self).failed() == old(self).failed(),
            final(self).closing() == old(self).closing(),
            final(self).accepted() == old(self).accepted(),
            old(self).queued().len() == 0 ==> (r is None && final(self).queued() == old(self).queued() && final(self).delivered() == old(self).delivered()),
            old(self).queued().len() > 0 ==> (r matches Some(rec) && rec@ == old(self).queued()[0]
                && final(self).queued() == old(self).queued().drop_first() && final(self).delivered() == old(self).delivered().push(rec@)),
    {
        let ghost before = self.queued();
        match self.queue.pop_front() {
            None => None,
            Some(rec) => {
                proof {
                    self.delivered@ = self.delivered@.push(rec@);
                }
                assert(self.queued() =~= before.drop_first());
                assert(self.delivered@ + self.queued() =~= self.accepted@);
                assert(self.delivered@ =~= self.accepted@.take(self.delivered@.len() as int));
                Some(rec)
            },
        }
    }

    /// As `next`, for a stream sink: the record comes framed.
    pub fn next_frame(&mut self) -> (r: Option<Vec<u8>>)
        requires
            old(self).wf(),
        ensures
            final(self).wf(),
            final(self).capacity() == old(self).capacity(),
            final(self).failed() == old(self).failed(),
            final(self).closing() == old(self).closing(),
            final(self).accepted() == old(self).accepted(),
            old(self).queued().len() == 0 ==> (r is None && final(self).queued() == old(self).queued() && final(self).delivered() == old(self).delivered()),
            old(self).queued().len() > 0 ==> (r matches Some(bytes) && bytes@ == old(self).queued()[0] + terminator() && final(self).queued() == old(self).queued().drop_first()
                && final(self).delivered() == old(self).delivered().push(old(self).queued()[0])),
    {
        match self.next() {
            None => None,
            Some(rec) => Some(frame(rec.as_slice())),
        }
    }

    /// A write to the sink failed: the sink stops, and what waits is discarded.
    pub fn write_failed(&mut self)
        requires
            old(self).wf(),
        ensures
            final(self).wf(),
            final(self).failed(),
            final(self).queued() == Seq::<Seq<u8>>::empty(),
            final(self).capacity() == old(self).capacity(),
            final(self).closing() == old(self).closing(),
            final(self).accepted() == old(self).accepted(),
            final(self).delivered() == old(self).delivered(),
    {
        self.failed = true;
        self.queue.clear();
        assert(self.queued() =~= Seq::<Seq<u8>>::empty());
    }

    /// Shutdown begins: no record is accepted any more, and the consumer
    /// drains what waits.
    pub fn shutdown(&mut self)
        requires
            old(self).wf(),
        ensures
            final(self).wf(),
            final(self).closing(),
            final(self).queued() == old(self).queued(),
            final(self).capacity() == old(self).capacity(),
            final(self).failed() == old(self).failed(),
            final(self).accepted() == old(self).accepted(),
            final(self).delivered() == old(self).delivered(),
    {
        self.closing = true;
    }
}

/// For any producer, picked out by `mine`, the records of it that the sink
/// has written are the first of those it had accepted from it, in the order
/// of acceptance; once the queue is drained without a failure they are all
/// of them.
pub proof fn lemma_producer_order(q: &SinkQueue, mine: spec_fn(Seq<u8>) -> bool)
    requires
        q.wf(),
    ensures
        q.delivered().filter(mine) == q.accepted().filter(mine).take(
            q.delivered().filter(mine).len() as int,
        ),
        !q.failed() && q.queued().len() == 0 ==> q.delivered().filter(mine) == q.accepted().filter(
            mine,
        ),
{
    let d = q.delivered();
    let a = q.accepted();
    let rest = a.skip(d.len() as int);
    assert(d.len() <= a.len() && d == a.take(d.len() as int));
    assert(a =~= d + rest);
    Seq::filter_distributes_over_add(d, rest, mine);
    assert(d.filter(mine) =~= a.filter(mine).take(d.filter(mine).len() as int));
    if !q.failed() && q.queued().len() == 0 {
        assert(a =~= d + q.queued());
        assert(q.queued() =~= Seq::<Seq<u8>>::empty());
        assert(d + q.queued() =~= d);
    }
}

} // verus!
