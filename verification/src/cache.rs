//! A bounded buffer of summarized points, and the schedule on which it is
//! flushed.
//!
//! The buffer keeps points in the order in which they came.  It never holds
//! more than its capacity: a batch that does not fit pushes out the oldest
//! points, whether they were in the buffer or came earlier in the batch.

use vstd::prelude::*;
use std::collections::VecDeque;
use crate::data_manipulation::{DataPoint, DataPointView};

verus! {

/// What a list of points holds.
pub open spec fn point_views(points: Seq<DataPoint>) -> Seq<DataPointView> {
    points.map_values(|p: DataPoint| p@)
}

/// The newest `limit` of `points`, or all of them where they are fewer.
pub open spec fn newest(points: Seq<DataPointView>, limit: nat) -> Seq<DataPointView> {
    if points.len() <= limit {
        points
    } else {
        points.skip(points.len() - limit)
    }
}

/// What a drain hands out of a buffer, and what it leaves there: everything,
/// and nothing.
pub open spec fn drain_of(buffer: Seq<DataPointView>) -> (Seq<DataPointView>, Seq<DataPointView>) {
    (buffer, Seq::<DataPointView>::empty())
}

/// The buffer that a run of batches leaves, added one after the other to
/// `start` under `capacity`.
pub open spec fn after_adds(
    start: Seq<DataPointView>,
    batches: Seq<Seq<DataPointView>>,
    capacity: nat,
) -> Seq<DataPointView>
    decreases batches.len(),
{
    if batches.len() == 0 {
        start
    } else {
        newest(after_adds(start, batches.drop_last(), capacity) + batches.last(), capacity)
    }
}

/// However many batches are added, and whatever they hold, the buffer stays
/// within its capacity after each of them.
pub proof fn lemma_adds_stay_within_capacity(
    start: Seq<DataPointView>,
    batches: Seq<Seq<DataPointView>>,
    capacity: nat,
)
    requires
        start.len() <= capacity,
    ensures
        forall|k: int|
            0 <= k <= batches.len() ==> (#[trigger] after_adds(start, batches.take(k), capacity)).len()
                <= capacity,
        after_adds(start, batches, capacity).len() <= capacity,
    decreases batches.len(),
{
    if batches.len() > 0 {
        lemma_adds_stay_within_capacity(start, batches.drop_last(), capacity);
    }
    assert forall|k: int| 0 <= k <= batches.len() implies (#[trigger] after_adds(
        start,
        batches.take(k),
        capacity,
    )).len() <= capacity by {
        if k == batches.len() {
            assert(batches.take(k) =~= batches);
        } else {
            assert(batches.take(k) =~= batches.drop_last().take(k));
        }
    }
}

/// Eviction is oldest-first: one point added to a full buffer pushes out the
/// oldest point, and no other.
pub proof fn lemma_add_to_full_evicts_oldest(
    buffer: Seq<DataPointView>,
    point: DataPointView,
    capacity: nat,
)
    requires
        capacity > 0,
        buffer.len() == capacity,
    ensures
        newest(buffer + seq![point], capacity) == buffer.drop_first().push(point),
{
    assert(newest(buffer + seq![point], capacity) =~= buffer.drop_first().push(point));
}

/// What is added to a buffer that has room for it joins the buffer at its end,
/// and nothing leaves.
pub proof fn lemma_add_with_room_keeps_all(
    buffer: Seq<DataPointView>,
    batch: Seq<DataPointView>,
    capacity: nat,
)
    requires
        buffer.len() + batch.len() <= capacity,
    ensures
        newest(buffer + batch, capacity) == buffer + batch,
{
}

/// A drain leaves the buffer empty, and a second drain right after it hands
/// out nothing.
pub proof fn lemma_drain_leaves_nothing(buffer: Seq<DataPointView>)
    ensures
        drain_of(buffer).0 == buffer,
        drain_of(buffer).1.len() == 0,
        drain_of(drain_of(buffer).1).0.len() == 0,
{
}

/// What has been handed out does not come back: after a drain, the next drain
/// hands out what was added in between, and nothing of what the first one
/// took.
pub proof fn lemma_drained_points_do_not_return(
    buffer: Seq<DataPointView>,
    added: Seq<DataPointView>,
    capacity: nat,
)
    ensures
        drain_of(newest(drain_of(buffer).1 + added, capacity)).0 == newest(added, capacity),
{
    assert(drain_of(buffer).1 + added =~= added);
}

/// A first-in, first-out buffer of points with a fixed capacity.
pub struct Cache {
    inner: VecDeque<DataPoint>,
    max_size: usize,
}

impl View for Cache {
    type V = Seq<DataPointView>;

    /// The buffered points, oldest first.
    closed spec fn view(&self) -> Seq<DataPointView> {
        point_views(self.inner@)
    }
}

impl Cache {
    #[verifier::type_invariant]
    spec fn within_capacity(self) -> bool {
        self.inner@.len() <= self.max_size
    }

    /// The most points that the buffer holds.
    pub closed spec fn spec_capacity(&self) -> nat {
        self.max_size as nat
    }

    /// An empty buffer that holds at most `max_size` points.
    pub fn new(max_size: usize) -> (cache: Cache)
        ensures
            cache@ == Seq::<DataPointView>::empty(),
            cache.spec_capacity() == max_size,
    {
        let cache = Cache { inner: VecDeque::new(), max_size };
        assert(cache@ =~= Seq::<DataPointView>::empty());
        cache
    }

    /// The most points that the buffer holds.
    pub fn capacity(&self) -> (capacity: usize)
        ensures
            capacity == self.spec_capacity(),
    {
        self.max_size
    }

    /// The number of buffered points.
    pub fn len(&self) -> (len: usize)
        ensures
            len == self@.len(),
            len <= self.spec_capacity(),
    {
        proof {
            use_type_invariant(self);
        }
        self.inner.len()
    }

    /// Whether the buffer holds no point.
    pub fn is_empty(&self) -> (empty: bool)
        ensures
            empty == (self@.len() == 0),
    {
        self.inner.len() == 0
    }

    /// Appends a batch.  Where buffer and batch together exceed the capacity,
    /// the oldest points go, so that the newest remain.
    pub fn add(&mut self, data_points: Vec<DataPoint>)
        ensures
            final(self)@ == newest(old(self)@ + point_views(data_points@), old(self).spec_capacity()),
            final(self)@.len() <= final(self).spec_capacity(),
            final(self).spec_capacity() == old(self).spec_capacity(),
    {
        proof {
            use_type_invariant(&*self);
        }
        let ghost before = self.inner@;
        let ghost batch = data_points@;
        let max_size = self.max_size;
        let mut inner: VecDeque<DataPoint> = VecDeque::new();
        std::mem::swap(&mut self.inner, &mut inner);
        let incoming = data_points.len();
        let kept = if incoming < max_size {
            incoming
        } else {
            max_size
        };
        let room = max_size - kept;
        while inner.len() > room
            invariant
                inner@.len() <= before.len(),
                inner@ == before.skip(before.len() - inner@.len()),
                inner@.len() >= if before.len() < room {
                    before.len()
                } else {
                    room as nat
                },
            decreases inner@.len(),
        {
            let _ = inner.pop_front();
            proof {
                assert(inner@ =~= before.skip(before.len() - inner@.len()));
            }
        }
        let ghost remaining = inner@;
        let skipped = incoming - kept;
        let mut index: usize = 0;
        for point in it: data_points
            invariant
                it.seq() == batch,
                batch.len() == incoming,
                index == it.index(),
                skipped <= batch.len(),
                inner@ == remaining + (if index <= skipped {
                    Seq::<DataPoint>::empty()
                } else {
                    batch.subrange(skipped as int, index as int)
                }),
        {
            if index >= skipped {
                inner.push_back(point);
                proof {
                    assert(inner@ =~= remaining + batch.subrange(skipped as int, index + 1));
                }
            }
            index = index + 1;
        }
        proof {
            let all = before + batch;
            let tail = remaining + batch.subrange(skipped as int, batch.len() as int);
            assert(inner@ =~= tail);
            assert(tail =~= if all.len() <= max_size {
                all
            } else {
                all.skip(all.len() - max_size)
            });
            assert(point_views(all) =~= point_views(before) + point_views(batch));
            if all.len() <= max_size {
                assert(point_views(tail) =~= point_views(all));
            } else {
                assert(point_views(tail) =~= point_views(all).skip(all.len() - max_size));
            }
        }
        self.inner = inner;
    }

    /// Takes every point out of the buffer, oldest first.
    pub fn retrieve_and_clear(&mut self) -> (points: Vec<DataPoint>)
        ensures
            (point_views(points@), final(self)@) == drain_of(old(self)@),
            final(self).spec_capacity() == old(self).spec_capacity(),
    {
        let mut inner: VecDeque<DataPoint> = VecDeque::new();
        std::mem::swap(&mut self.inner, &mut inner);
        let ghost before = inner@;
        let mut points: Vec<DataPoint> = Vec::new();
        while inner.len() > 0
            invariant
                points@ + inner@ == before,
            decreases inner@.len(),
        {
            match inner.pop_front() {
                Some(point) => {
                    points.push(point);
                    proof {
                        assert(points@ + inner@ =~= before);
                    }
                },
                None => {},
            }
        }
        proof {
            assert(points@ =~= before);
            assert(point_views(self.inner@) =~= Seq::<DataPointView>::empty());
        }
        points
    }

    /// One turn of the flush: takes every point out of the buffer to be
    /// written, or nothing where the buffer is empty.
    pub fn periodic_flush(&mut self) -> (batch: Option<Vec<DataPoint>>)
        ensures
            match batch {
                Some(points) => {
                    &&& old(self)@.len() > 0
                    &&& (point_views(points@), final(self)@) == drain_of(old(self)@)
                },
                None => {
                    &&& old(self)@.len() == 0
                    &&& final(self)@ == old(self)@
                },
            },
            final(self).spec_capacity() == old(self).spec_capacity(),
    {
        if self.is_empty() {
            None
        } else {
            Some(self.retrieve_and_clear())
        }
    }
}

/// Where the flush stands.
#[derive(Debug, Clone, Copy, PartialEq, Eq, Structural)]
pub enum FlushState {
    /// Waiting for the next tick.
    Idle,
    /// A batch is out of the buffer and on its way to the sink.
    Flushing,
}

/// How a flush ended.
#[derive(Debug, Clone, Copy, PartialEq, Eq, Structural)]
pub enum FlushOutcome {
    /// The sink took the batch.
    Delivered,
    /// The sink failed: the batch is lost, and is not tried again.
    Discarded,
    /// No flush was under way.
    NotFlushing,
}

/// The schedule of the flush: at most one batch is under way at a time.
pub struct FlushScheduler {
    state: FlushState,
}

impl View for FlushScheduler {
    type V = FlushState;

    closed spec fn view(&self) -> FlushState {
        self.state
    }
}

impl FlushScheduler {
    /// A schedule that waits for its first tick.
    pub fn new() -> (scheduler: FlushScheduler)
        ensures
            scheduler@ == FlushState::Idle,
    {
        FlushScheduler { state: FlushState::Idle }
    }

    /// Where the flush stands.
    pub fn state(&self) -> (state: FlushState)
        ensures
            state == self@,
    {
        self.state
    }

    /// The timer ticked.  Where no flush is under way and the buffer holds
    /// points, they all leave the buffer to be written, and a flush is under
    /// way.  Otherwise nothing is to be written and nothing changes.
    pub fn on_tick(&mut self, cache: &mut Cache) -> (batch: Option<Vec<DataPoint>>)
        ensures
            final(cache).spec_capacity() == old(cache).spec_capacity(),
            match batch {
                Some(points) => {
                    &&& old(self)@ == FlushState::Idle
                    &&& old(cache)@.len() > 0
                    &&& (point_views(points@), final(cache)@) == drain_of(old(cache)@)
                    &&& final(self)@ == FlushState::Flushing
                },
                None => {
                    &&& old(self)@ == FlushState::Flushing || old(cache)@.len() == 0
                    &&& final(cache)@ == old(cache)@
                    &&& final(self)@ == old(self)@
                },
            },
    {
        match self.state {
            FlushState::Flushing => None,
            FlushState::Idle => {
                let batch = cache.periodic_flush();
                if batch.is_some() {
                    self.state = FlushState::Flushing;
                }
                batch
            },
        }
    }

    /// The sink returned.  Whether it took the batch or not, the flush is
    /// over: a batch that the sink refused is not put back.
    pub fn on_write_done(&mut self, succeeded: bool) -> (outcome: FlushOutcome)
        ensures
            final(self)@ == FlushState::Idle,
            outcome == match old(self)@ {
                FlushState::Idle => FlushOutcome::NotFlushing,
                FlushState::Flushing => if succeeded {
                    FlushOutcome::Delivered
                } else {
                    FlushOutcome::Discarded
                },
            },
    {
        let outcome = match self.state {
            FlushState::Idle => FlushOutcome::NotFlushing,
            FlushState::Flushing => if succeeded {
                FlushOutcome::Delivered
            } else {
                FlushOutcome::Discarded
            },
        };
        self.state = FlushState::Idle;
        outcome
    }
}

} // verus!
