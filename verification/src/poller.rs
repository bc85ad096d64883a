//! Background polling.
//!
//! Each [`Poller`] stands for a thread that re-runs one fetch on a timer, so
//! the draw loop never blocks on a cluster command. Sources are independent:
//! they each pick their own interval, and a slow one cannot hold up the rest.
//!
//! The thread itself, and the channels to it and from it, are the program's:
//! it carries what [`Poller::take_requests`] hands out to the worker, and what
//! the worker fetched back to [`Poller::deliver`]. What the worker does
//! between two fetches is [`Worker`]'s to say.

use vstd::prelude::*;

verus! {

/// A fetch running on its own thread, repeated every interval.
///
/// `Req` is whatever the fetch needs to know — a scope, a partition, a job id.
/// It is sent back alongside each result so the UI can drop one that a later
/// [`Poller::request`] has already made stale.
pub struct Poller<Req, Out> {
    /// Seconds between one fetch and the next.
    pub interval: u64,
    /// Immediate-fetch requests the worker has not been given yet, oldest
    /// first, each carrying the `Req` to use from then on.
    pub requests: Vec<Req>,
    /// What the worker has fetched and nobody has read yet, oldest first.
    pub results: Vec<(Req, Result<Out, String>)>,
}

impl<Req, Out> Poller<Req, Out> {
    /// Poll every `interval` seconds, with one fetch straight away.
    ///
    /// The interval is the gap *between* fetches, not the period: a slow
    /// command backs itself off instead of piling up overlapping runs.
    pub fn spawn(interval: u64, initial: Req) -> (r: Self)
        ensures
            r.interval == interval,
            r.requests@ == seq![initial],
            r.results@.len() == 0,
    {
        let mut requests: Vec<Req> = Vec::new();
        requests.push(initial);
        Poller { interval, requests, results: Vec::new() }
    }

    /// Ask for a fetch right away, and for `request` to apply to later polls.
    pub fn request(&mut self, request: Req)
        ensures
            final(self).interval == old(self).interval,
            final(self).requests@ == old(self).requests@.push(request),
            final(self).results == old(self).results,
    {
        self.requests.push(request);
    }

    /// Everything that has arrived since the last call, oldest first.
    pub fn drain(&mut self) -> (r: Vec<(Req, Result<Out, String>)>)
        ensures
            r@ == old(self).results@,
            final(self).interval == old(self).interval,
            final(self).requests == old(self).requests,
            final(self).results@.len() == 0,
    {
        let mut r: Vec<(Req, Result<Out, String>)> = Vec::new();
        r.append(&mut self.results);
        r
    }

    /// Every request the worker has still to be given, oldest first.
    pub fn take_requests(&mut self) -> (r: Vec<Req>)
        ensures
            r@ == old(self).requests@,
            final(self).interval == old(self).interval,
            final(self).requests@.len() == 0,
            final(self).results == old(self).results,
    {
        let mut r: Vec<Req> = Vec::new();
        r.append(&mut self.requests);
        r
    }

    /// Take in what the worker fetched for `request`.
    pub fn deliver(&mut self, request: Req, result: Result<Out, String>)
        ensures
            final(self).interval == old(self).interval,
            final(self).requests == old(self).requests,
            final(self).results@ == old(self).results@.push((request, result)),
    {
        self.results.push((request, result));
    }
}

/// What ended the worker's wait after a fetch.
pub enum Wait<Req> {
    /// Somebody asked for a fetch now.
    Asked(Req),
    /// The interval passed.
    TimedOut,
    /// The UI is gone.
    Disconnected,
}

/// The worker's side of a [`Poller`]: what it fetches next.
pub struct Worker<Req> {
    pub request: Req,
}

/// The request a worker fetches with after one wait, given the one before it.
pub open spec fn after_wait<Req>(request: Req, wait: Wait<Req>) -> Req {
    match wait {
        Wait::Asked(next) => next,
        _ => request,
    }
}

/// The request a worker fetches with, after waits that ended like `waits`,
/// oldest first.
pub open spec fn request_after<Req>(initial: Req, waits: Seq<Wait<Req>>) -> Req
    decreases waits.len(),
{
    if waits.len() == 0 {
        initial
    } else {
        after_wait(request_after(initial, waits.drop_last()), waits.last())
    }
}

impl<Req> Worker<Req> {
    /// A worker whose first fetch is for `initial`.
    pub fn starting(initial: Req) -> (r: Self)
        ensures
            r.request == initial,
    {
        Worker { request: initial }
    }

    /// Go on after a wait, or report that there is nobody left to fetch for.
    pub fn wake(&mut self, wait: Wait<Req>) -> (fetch: bool)
        ensures
            fetch == !(wait is Disconnected),
            final(self).request == after_wait(old(self).request, wait),
    {
        match wait {
            Wait::Asked(next) => {
                self.request = next;
                true
            },
            Wait::TimedOut => true,
            Wait::Disconnected => false,
        }
    }
}

/// A request applies to every later poll, until another one is made: however
/// often the worker wakes up for its interval alone, it fetches what it was
/// last asked for.
pub proof fn lemma_a_request_lasts<Req>(
    initial: Req,
    before: Seq<Wait<Req>>,
    request: Req,
    after: Seq<Wait<Req>>,
)
    requires
        forall|i: int| 0 <= i < after.len() ==> !(#[trigger] after[i] is Asked),
    ensures
        request_after(initial, before.push(Wait::Asked(request)) + after) == request,
    decreases after.len(),
{
    let waits = before.push(Wait::Asked(request)) + after;
    if after.len() == 0 {
        assert(waits == before.push(Wait::Asked(request)));
    } else {
        assert(waits.drop_last() == before.push(Wait::Asked(request)) + after.drop_last());
        assert(!(after[after.len() - 1] is Asked));
        lemma_a_request_lasts(initial, before, request, after.drop_last());
    }
}

/// Without a request a worker fetches what it started with, however often it
/// wakes up.
pub proof fn lemma_a_worker_keeps_to_its_first_request<Req>(initial: Req, waits: Seq<Wait<Req>>)
    requires
        forall|i: int| 0 <= i < waits.len() ==> !(#[trigger] waits[i] is Asked),
    ensures
        request_after(initial, waits) == initial,
    decreases waits.len(),
{
    if waits.len() > 0 {
        assert(!(waits[waits.len() - 1] is Asked));
        lemma_a_worker_keeps_to_its_first_request(initial, waits.drop_last());
    }
}

/// What the worker delivers is drained once, behind what it delivered before.
pub proof fn lemma_nothing_is_lost_or_read_twice<Req, Out>(
    before: &mut Poller<Req, Out>,
    request: Req,
    result: Result<Out, String>,
    after: &mut Poller<Req, Out>,
    drained: Vec<(Req, Result<Out, String>)>,
)
    requires
        call_ensures(Poller::<Req, Out>::deliver, (before, request, result), ()),
        *old(after) == *final(before),
        call_ensures(Poller::<Req, Out>::drain, (after,), drained),
    ensures
        drained@ == old(before).results@.push((request, result)),
        final(after).results@.len() == 0,
        final(after).requests@ == old(before).requests@,
        final(after).interval == old(before).interval,
{
}

/// What is asked for is taken once, behind what was asked for before.
pub proof fn lemma_requests_are_taken_in_order<Req, Out>(
    before: &mut Poller<Req, Out>,
    request: Req,
    after: &mut Poller<Req, Out>,
    taken: Vec<Req>,
)
    requires
        call_ensures(Poller::<Req, Out>::request, (before, request), ()),
        *old(after) == *final(before),
        call_ensures(Poller::<Req, Out>::take_requests, (after,), taken),
    ensures
        taken@ == old(before).requests@.push(request),
        final(after).requests@.len() == 0,
        final(after).results@ == old(before).results@,
        final(after).interval == old(before).interval,
{
}

/// A worker fetches what it is asked for, fetches again what it last fetched
/// when its interval has passed, and stops when there is nobody left.
pub proof fn lemma_what_wakes_a_worker<Req>(worker: &mut Worker<Req>, wait: Wait<Req>, fetch: bool)
    requires
        call_ensures(Worker::<Req>::wake, (worker, wait), fetch),
    ensures
        wait matches Wait::Asked(request) ==> fetch && final(worker).request == request,
        wait is TimedOut ==> fetch && final(worker).request == old(worker).request,
        wait is Disconnected ==> !fetch,
{
}

} // verus!
