//! The bounded queue of mesh requests between the level-of-detail traversal
//! and the mesh builder. A full queue refuses a request and hands it back.
use vstd::prelude::*;
use crate::face::Face;
use concurrent_queue::{ConcurrentQueue, PushError};

verus! {

/// The number of requests a queue made by `default` can hold.
pub const DEFAULT_QUEUE_CAPACITY: usize = 1000;

#[derive(Clone, Copy, Debug, PartialEq, Eq, Structural)]
pub enum MeshRequestKind {
    /// Build the patch of a node that a split created.
    Create,
    /// Tear down the patch of a node that a merge detached.
    Remove,
}

/// A request for the mesh builder, naming a node of one face tree by index.
#[derive(Clone, Copy, Debug, PartialEq, Eq, Structural)]
pub struct MeshRequest {
    pub kind: MeshRequestKind,
    pub face: Face,
    pub node: usize,
    pub scale: u32,
}

/// A request the queue did not take, handed back to the caller.
#[derive(Clone, Copy, Debug, PartialEq, Eq, Structural)]
pub enum ScheduleError {
    /// The queue held as many requests as it can.
    Full(MeshRequest),
    /// The queue was closed.
    Closed(MeshRequest),
}

/// concurrent_queue::ConcurrentQueue, carried as an opaque value; what it
/// holds is spoken of through `queued`, `queue_bound` and `queue_closed`.
#[verifier::external_type_specification]
#[verifier::external_body]
#[verifier::reject_recursive_types(T)]
pub struct ExConcurrentQueue<T>(ConcurrentQueue<T>);

/// The requests a queue holds, oldest first.
pub uninterp spec fn queued(q: ConcurrentQueue<MeshRequest>) -> Seq<MeshRequest>;

/// The number of requests a queue was made to hold.
pub uninterp spec fn queue_bound(q: ConcurrentQueue<MeshRequest>) -> nat;

/// Whether a queue was closed.
pub uninterp spec fn queue_closed(q: ConcurrentQueue<MeshRequest>) -> bool;

/// Relies on ConcurrentQueue::bounded: an empty, open queue for at most `cap`
/// items; it panics on a capacity of zero.
#[verifier::external_body]
fn new_bounded_queue(cap: usize) -> (r: ConcurrentQueue<MeshRequest>)
    requires
        cap > 0,
    ensures
        queued(r) == Seq::<MeshRequest>::empty(),
        queue_bound(r) == cap,
        !queue_closed(r),
{
    ConcurrentQueue::bounded(cap)
}

/// Relies on ConcurrentQueue::push: the item goes to the back of an open
/// queue with room, and is otherwise handed back in a `PushError` that says
/// whether the queue was full or closed.
#[verifier::external_body]
fn push_request(q: &mut ConcurrentQueue<MeshRequest>, request: MeshRequest) -> (r: Result<
    (),
    ScheduleError,
>)
    ensures
        queue_bound(*final(q)) == queue_bound(*old(q)),
        queue_closed(*final(q)) == queue_closed(*old(q)),
        r is Ok <==> !queue_closed(*old(q)) && queued(*old(q)).len() < queue_bound(*old(q)),
        r is Ok ==> queued(*final(q)) == queued(*old(q)).push(request),
        r is Err ==> queued(*final(q)) == queued(*old(q)),
        r matches Err(ScheduleError::Full(x)) ==> x == request && !queue_closed(*old(q)),
        r matches Err(ScheduleError::Closed(x)) ==> x == request && queue_closed(*old(q)),
{
    match q.push(request) {
        Ok(()) => Ok(()),
        Err(PushError::Full(x)) => Err(ScheduleError::Full(x)),
        Err(PushError::Closed(x)) => Err(ScheduleError::Closed(x)),
    }
}

/// Relies on ConcurrentQueue::pop: the oldest item leaves the queue; an
/// empty queue gives an error.
#[verifier::external_body]
fn pop_request(q: &mut ConcurrentQueue<MeshRequest>) -> (r: Option<MeshRequest>)
    ensures
        queue_bound(*final(q)) == queue_bound(*old(q)),
        queue_closed(*final(q)) == queue_closed(*old(q)),
        queued(*old(q)).len() == 0 ==> r is None && queued(*final(q)) == queued(*old(q)),
        queued(*old(q)).len() > 0 ==> r == Some(queued(*old(q))[0]) && queued(*final(q))
            == queued(*old(q)).drop_first(),
{
    q.pop().ok()
}

/// The bounded queue of mesh requests.
pub struct MeshComputer {
    queue: ConcurrentQueue<MeshRequest>,
    pending: usize,
    capacity: usize,
}

impl View for MeshComputer {
    type V = Seq<MeshRequest>;

    closed spec fn view(&self) -> Seq<MeshRequest> {
        queued(self.queue)
    }
}

impl MeshComputer {
    pub closed spec fn wf(&self) -> bool {
        &&& self.pending == queued(self.queue).len()
        &&& self.capacity == queue_bound(self.queue)
        &&& !queue_closed(self.queue)
        &&& self.pending <= self.capacity
        &&& self.capacity > 0
    }

    /// The number of requests the queue can hold.
    pub closed spec fn capacity_spec(&self) -> nat {
        self.capacity as nat
    }

    /// An empty queue for at most `capacity` requests.
    pub fn with_capacity(capacity: usize) -> (r: MeshComputer)
        requires
            capacity > 0,
        ensures
            r.wf(),
            r@ == Seq::<MeshRequest>::empty(),
            r.capacity_spec() == capacity,
    {
        MeshComputer { queue: new_bounded_queue(capacity), pending: 0, capacity }
    }

    pub fn capacity(&self) -> (r: usize)
        ensures
            r == self.capacity_spec(),
    {
        self.capacity
    }

    /// The number of requests waiting.
    pub fn len(&self) -> (r: usize)
        requires
            self.wf(),
        ensures
            r == self@.len(),
    {
        self.pending
    }

    /// How many more requests the queue takes before it is full.
    pub fn room(&self) -> (r: usize)
        requires
            self.wf(),
        ensures
            self@.len() <= self.capacity_spec(),
            r == self.capacity_spec() - self@.len(),
    {
        self.capacity - self.pending
    }

    /// Appends `request`, or hands it back in `ScheduleError::Full` when the
    /// queue already holds as many requests as it can; then nothing changes.
    pub fn schedule(&mut self, request: MeshRequest) -> (r: Result<(), ScheduleError>)
        requires
            old(self).wf(),
        ensures
            final(self).wf(),
            final(self).capacity_spec() == old(self).capacity_spec(),
            old(self)@.len() < old(self).capacity_spec() ==> r is Ok && final(self)@ == old(self)@.push(request),
            old(self)@.len() >= old(self).capacity_spec() ==> r == Err::<(), ScheduleError>(
                ScheduleError::Full(request),
            ) && final(self)@ == old(self)@,
    {
        let r = push_request(&mut self.queue, request);
        if r.is_ok() {
            self.pending = self.pending + 1;
        }
        r
    }

    /// Takes every waiting request out of the queue, oldest first.
    pub fn drain(&mut self) -> (r: Vec<MeshRequest>)
        requires
            old(self).wf(),
        ensures
            final(self).wf(),
            final(self).capacity_spec() == old(self).capacity_spec(),
            r@ == old(self)@,
            final(self)@ == Seq::<MeshRequest>::empty(),
    {
        let mut out: Vec<MeshRequest> = Vec::new();
        loop
            invariant
                self.wf(),
                self.capacity_spec() == old(self).capacity_spec(),
                out@ + self@ == old(self)@,
            ensures
                self.wf(),
                self.capacity_spec() == old(self).capacity_spec(),
                out@ == old(self)@,
                self@ == Seq::<MeshRequest>::empty(),
            decreases self.pending,
        {
            match pop_request(&mut self.queue) {
                None => {
                    assert(self@ =~= Seq::<MeshRequest>::empty());
                    assert(out@ =~= old(self)@);
                    break;
                },
                Some(x) => {
                    let ghost before = out@;
                    self.pending = self.pending - 1;
                    out.push(x);
                    assert(out@ + self@ =~= before + seq![x] + self@);
                },
            }
        }
        out
    }
}

impl Default for MeshComputer {
    fn default() -> (r: MeshComputer)
        ensures
            r.wf(),
            r@ == Seq::<MeshRequest>::empty(),
            r.capacity_spec() == DEFAULT_QUEUE_CAPACITY,
    {
        MeshComputer::with_capacity(DEFAULT_QUEUE_CAPACITY)
    }
}

/// Requests scheduled one after another into an empty queue, each accepted,
/// come out of a drain in the order they went in.
pub proof fn lemma_schedule_then_drain_in_order(
    states: Seq<Seq<MeshRequest>>,
    requests: Seq<MeshRequest>,
    drained: Seq<MeshRequest>,
)
    requires
        states.len() == requests.len() + 1,
        states[0] == Seq::<MeshRequest>::empty(),
        forall|k: int| 0 <= k < requests.len() ==> #[trigger] states[k + 1] == states[k].push(requests[k]),
        drained == states[requests.len() as int],
    ensures
        drained == requests,
    decreases requests.len(),
{
    if requests.len() > 0 {
        let n = requests.len() - 1;
        let prefix = requests.take(n as int);
        let earlier = states.take(n + 1);
        assert forall|k: int| 0 <= k < prefix.len() implies #[trigger] earlier[k + 1] == earlier[k].push(
            prefix[k],
        ) by {
            assert(states[k + 1] == states[k].push(requests[k]));
        }
        lemma_schedule_then_drain_in_order(earlier, prefix, states[n as int]);
        assert(states[n + 1] == states[n as int].push(requests[n as int]));
        assert(requests =~= prefix.push(requests[n as int]));
    } else {
        assert(requests =~= Seq::<MeshRequest>::empty());
    }
}

} // verus!
