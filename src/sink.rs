//! The consumer of emitted events, and an in-memory consumer that keeps a
//! bounded window of the most recent events.
use vstd::prelude::*;
use crate::model::{events_view, IndexEvent, IndexEventView};

verus! {

/// Receives the events of each receipt in order, and the end of each block.
pub trait SocialDBEventHandler {
    /// Every event handed to this handler so far, in order.
    spec fn handled(&self) -> Seq<IndexEventView>;

    /// The height of every block whose end was signalled so far, in order.
    spec fn flushed(&self) -> Seq<u64>;

    fn handle_index(&mut self, event: IndexEvent)
        ensures
            final(self).handled() == old(self).handled().push(event@),
            final(self).flushed() == old(self).flushed(),
    ;

    /// Called after each block.
    fn flush_events(&mut self, block_height: u64)
        ensures
            final(self).flushed() == old(self).flushed().push(block_height),
            final(self).handled() == old(self).handled(),
    ;
}

/// The window that stays after appending `added` to `resident` and dropping
/// the oldest entries beyond `max_size`.
pub open spec fn trimmed(resident: Seq<IndexEventView>, added: Seq<IndexEventView>, max_size: nat) -> Seq<IndexEventView> {
    let all = resident + added;
    if all.len() <= max_size {
        all
    } else {
        all.skip(all.len() - max_size)
    }
}

/// Buffers the events of the current block; at the end of a block appends
/// them to the resident window and trims the oldest beyond `max_size`.
pub struct BoundedEventLog {
    pending: Vec<IndexEvent>,
    resident: Vec<IndexEvent>,
    max_size: usize,
    last_flushed: Option<u64>,
    handled_log: Ghost<Seq<IndexEventView>>,
    flushed_log: Ghost<Seq<u64>>,
}

impl BoundedEventLog {
    pub closed spec fn pending_view(&self) -> Seq<IndexEventView> {
        events_view(self.pending@)
    }

    pub closed spec fn resident_view(&self) -> Seq<IndexEventView> {
        events_view(self.resident@)
    }

    pub closed spec fn max_size_spec(&self) -> nat {
        self.max_size as nat
    }

    pub closed spec fn last_flushed_spec(&self) -> Option<u64> {
        self.last_flushed
    }

    /// An empty log that keeps at most `max_size` resident events.
    pub fn new(max_size: usize) -> (r: Self)
        ensures
            r.max_size_spec() == max_size,
            r.pending_view() == Seq::<IndexEventView>::empty(),
            r.resident_view() == Seq::<IndexEventView>::empty(),
            r.last_flushed_spec() is None,
            r.handled() == Seq::<IndexEventView>::empty(),
            r.flushed() == Seq::<u64>::empty(),
    {
        let r = BoundedEventLog {
            pending: Vec::new(),
            resident: Vec::new(),
            max_size,
            last_flushed: None,
            handled_log: Ghost(Seq::empty()),
            flushed_log: Ghost(Seq::empty()),
        };
        assert(r.pending_view() =~= Seq::<IndexEventView>::empty());
        assert(r.resident_view() =~= Seq::<IndexEventView>::empty());
        r
    }

    /// Buffers one event until the end of its block.
    pub fn push(&mut self, event: IndexEvent)
        ensures
            final(self).pending_view() == old(self).pending_view().push(event@),
            final(self).resident_view() == old(self).resident_view(),
            final(self).max_size_spec() == old(self).max_size_spec(),
            final(self).last_flushed_spec() == old(self).last_flushed_spec(),
            final(self).handled() == old(self).handled().push(event@),
            final(self).flushed() == old(self).flushed(),
    {
        let ghost e = event@;
        self.handled_log = Ghost(self.handled_log@.push(e));
        self.pending.push(event);
        assert(self.pending_view() =~= old(self).pending_view().push(e));
    }

    /// Ends a block: the buffered events join the resident window, whose
    /// oldest entries are dropped beyond the maximum.
    pub fn flush(&mut self, block_height: u64)
        ensures
            final(self).resident_view().len() <= final(self).max_size_spec(),
            final(self).pending_view() == Seq::<IndexEventView>::empty(),
            final(self).resident_view() == trimmed(old(self).resident_view(), old(self).pending_view(), old(self).max_size_spec()),
            final(self).max_size_spec() == old(self).max_size_spec(),
            final(self).last_flushed_spec() == Some(block_height),
            final(self).flushed() == old(self).flushed().push(block_height),
            final(self).handled() == old(self).handled(),
    {
        self.flushed_log = Ghost(self.flushed_log@.push(block_height));
        let ghost all = old(self).resident_view() + old(self).pending_view();
        self.resident.append(&mut self.pending);
        assert(self.resident_view() =~= all);
        assert(self.pending_view() =~= Seq::<IndexEventView>::empty());
        if self.resident.len() > self.max_size {
            let excess: usize = self.resident.len() - self.max_size;
            // the oldest `excess` entries leave, the rest keep their order
            let kept = self.resident.split_off(excess);
            self.resident = kept;
            assert(self.resident_view() =~= all.skip(all.len() - self.max_size));
        }
        self.last_flushed = Some(block_height);
    }

    /// The resident window, oldest first.
    pub fn resident(&self) -> (r: &Vec<IndexEvent>)
        ensures
            events_view(r@) == self.resident_view(),
    {
        &self.resident
    }

    /// The events buffered for the current block.
    pub fn pending(&self) -> (r: &Vec<IndexEvent>)
        ensures
            events_view(r@) == self.pending_view(),
    {
        &self.pending
    }

    /// The largest number of resident events.
    pub fn max_size(&self) -> (r: usize)
        ensures
            r == self.max_size_spec(),
    {
        self.max_size
    }

    /// The height of the last block that ended, if any.
    pub fn last_flushed(&self) -> (r: Option<u64>)
        ensures
            r == self.last_flushed_spec(),
    {
        self.last_flushed
    }
}

impl SocialDBEventHandler for BoundedEventLog {
    closed spec fn handled(&self) -> Seq<IndexEventView> {
        self.handled_log@
    }

    closed spec fn flushed(&self) -> Seq<u64> {
        self.flushed_log@
    }

    fn handle_index(&mut self, event: IndexEvent) {
        self.push(event);
    }

    fn flush_events(&mut self, block_height: u64) {
        self.flush(block_height);
    }
}

} // verus!
