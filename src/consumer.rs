//! The ring-buffer consumer: which buffers it reads, how each batch of
//! arrived records is decoded, and when its poll loop ends.
use vstd::prelude::*;
use crate::lifecycle::{has_maps, PipelineError, ProgramHandle};
use crate::record::{decode, decodes_to, DecodeError, EventRecord, RECORD_SIZE};

verus! {

/// Number of records in `rs` that have the record size.
pub open spec fn well_formed_count(rs: Seq<Seq<u8>>) -> nat
    decreases rs.len(),
{
    if rs.len() == 0 {
        0
    } else {
        well_formed_count(rs.drop_last()) + if rs.last().len() == RECORD_SIZE {
            1nat
        } else {
            0nat
        }
    }
}

/// The byte contents of each record of a batch.
pub open spec fn batch_view(records: Seq<Vec<u8>>) -> Seq<Seq<u8>> {
    records.map_values(|r: Vec<u8>| r@)
}

/// The mathematical value of a [`Consumer`].
pub struct ConsumerView {
    pub buffers: Seq<usize>,
    pub dispatched: nat,
    pub failures: nat,
}

/// What the poll loop does after one poll.
#[derive(Debug, Clone, Copy, PartialEq, Eq, Structural)]
pub enum LoopControl {
    /// Poll again.
    Continue,
    /// Stop: cancellation was requested.
    Finish,
    /// Stop with this error.
    Fail(PipelineError),
}

/// A single consumer of one or more ring buffers of a program.
pub struct Consumer {
    buffers: Vec<usize>,
    dispatched: u64,
    failures: u64,
}

impl View for Consumer {
    type V = ConsumerView;

    closed spec fn view(&self) -> ConsumerView {
        ConsumerView {
            buffers: self.buffers@,
            dispatched: self.dispatched as nat,
            failures: self.failures as nat,
        }
    }
}

impl Consumer {
    /// A consumer with no buffer and nothing dispatched.
    pub fn new() -> (r: Consumer)
        ensures
            r@ == (ConsumerView { buffers: Seq::empty(), dispatched: 0, failures: 0 }),
    {
        Consumer { buffers: Vec::new(), dispatched: 0, failures: 0 }
    }

    /// Registers the ring buffer named `name` among the program's maps, and
    /// returns its slot in this consumer.
    pub fn register(&mut self, program: &ProgramHandle, name: &str) -> (r: Result<
        usize,
        PipelineError,
    >)
        requires
            has_maps(program@.stage),
        ensures
            r is Ok <==> exists|i: int|
                0 <= i < program@.maps.len() && #[trigger] program@.maps[i] == name@,
            r matches Err(e) ==> e == PipelineError::Config && final(self)@ == old(self)@,
            r matches Ok(slot) ==> {
                &&& slot == old(self)@.buffers.len()
                &&& final(self)@.dispatched == old(self)@.dispatched
                &&& final(self)@.failures == old(self)@.failures
                &&& final(self)@.buffers.len() == slot + 1
                &&& final(self)@.buffers.subrange(0, slot as int) == old(self)@.buffers
                &&& program@.maps[final(self)@.buffers[slot as int] as int] == name@
            },
    {
        match program.map_index(name) {
            Some(i) => {
                let slot = self.buffers.len();
                self.buffers.push(i);
                assert(self.buffers@.subrange(0, slot as int) =~= old(self)@.buffers);
                Ok(slot)
            },
            None => Err(PipelineError::Config),
        }
    }

    /// Number of buffers registered.
    pub fn buffer_count(&self) -> (r: usize)
        ensures
            r == self@.buffers.len(),
    {
        self.buffers.len()
    }

    /// Number of records decoded so far.
    pub fn dispatched(&self) -> (r: u64)
        ensures
            r == self@.dispatched,
    {
        self.dispatched
    }

    /// Number of records that failed to decode so far.
    pub fn decode_failures(&self) -> (r: u64)
        ensures
            r == self@.failures,
    {
        self.failures
    }

    /// Decodes the records that arrived from one buffer, in their arrival
    /// order; a record that fails to decode is reported in its place and the
    /// following ones are still decoded.
    pub fn dispatch(&mut self, records: &Vec<Vec<u8>>) -> (r: Vec<Result<EventRecord, DecodeError>>)
        requires
            old(self)@.dispatched + records@.len() <= u64::MAX,
            old(self)@.failures + records@.len() <= u64::MAX,
        ensures
            r@.len() == records@.len(),
            forall|i: int| 0 <= i < records@.len() ==> decodes_to(records@[i]@, #[trigger] r@[i]),
            final(self)@.buffers == old(self)@.buffers,
            final(self)@.dispatched == old(self)@.dispatched + well_formed_count(
                batch_view(records@),
            ),
            final(self)@.failures + well_formed_count(batch_view(records@)) == old(self)@.failures
                + records@.len(),
    {
        let mut r: Vec<Result<EventRecord, DecodeError>> = Vec::new();
        let mut i: usize = 0;
        while i < records.len()
            invariant
                i <= records@.len(),
                r@.len() == i,
                forall|k: int| 0 <= k < i ==> decodes_to(records@[k]@, #[trigger] r@[k]),
                self.buffers@ == old(self)@.buffers,
                well_formed_count(batch_view(records@.subrange(0, i as int))) <= i,
                self.dispatched == old(self)@.dispatched + well_formed_count(
                    batch_view(records@.subrange(0, i as int)),
                ),
                self.failures + well_formed_count(batch_view(records@.subrange(0, i as int)))
                    == old(self)@.failures + i,
                old(self)@.dispatched + records@.len() <= u64::MAX,
                old(self)@.failures + records@.len() <= u64::MAX,
            decreases records@.len() - i,
        {
            assert(batch_view(records@.subrange(0, i + 1)).drop_last() =~= batch_view(
                records@.subrange(0, i as int),
            ));
            let out = decode(records[i].as_slice());
            if out.is_ok() {
                self.dispatched = self.dispatched + 1;
            } else {
                self.failures = self.failures + 1;
            }
            r.push(out);
            i = i + 1;
        }
        assert(records@.subrange(0, i as int) =~= records@);
        r
    }
}

/// The poll loop's decision after one poll: a failed poll ends it with
/// `PipelineError::Poll`; otherwise it ends when cancellation was requested
/// and goes on when not.
pub fn after_poll(poll_ok: bool, cancelled: bool) -> (r: LoopControl)
    ensures
        !poll_ok ==> r == LoopControl::Fail(PipelineError::Poll),
        poll_ok && cancelled ==> r == LoopControl::Finish,
        poll_ok && !cancelled ==> r == LoopControl::Continue,
{
    if !poll_ok {
        LoopControl::Fail(PipelineError::Poll)
    } else if cancelled {
        LoopControl::Finish
    } else {
        LoopControl::Continue
    }
}

} // verus!
