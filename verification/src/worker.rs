//! The crawl coordinator and the worker pool's coordination state.
//!
//! `WorkerMaster` owns the dedup registry (every address ever accepted), the
//! work queue, and the bookkeeping of a fixed pool of workers.  The actual
//! threads, the blocking, and the network fetches live outside the library;
//! every decision they need — whether an address is new, which work item a
//! worker gets next, what a fetched page contributes — is taken here, under
//! one exclusive borrow at a time, which is what makes the check-then-act of
//! `submit_url` atomic.
//!
//! `MasterModel` is the mathematical state the contracts speak of; each
//! operation's effect is one total function on that state.

use vstd::prelude::*;

use crate::parser::{extracted, LinkParser};
use crate::views_of;

verus! {

/// One unit of crawl work handed to exactly one worker.  The type is open to
/// extension; `Stop` tells the receiving worker to terminate its loop.
pub enum WorkerMessage {
    Work(String),
    Stop,
}

/// The mathematical state of the coordinator.
#[verifier::ext_equal]
pub ghost struct MasterModel {
    /// Every address ever accepted, in submission order, without duplicates:
    /// the dedup registry.  It only ever grows.
    pub seen: Seq<Seq<char>>,
    /// The accepted addresses not yet handed to a worker, oldest first.
    pub queue: Seq<Seq<char>>,
    /// The addresses whose fetch has been started.
    pub dispatched: Set<Seq<char>>,
    /// How many work items have been handed out in all.
    pub attempts: int,
    /// The size of the worker pool, fixed at construction.
    pub worker_count: int,
    /// Workers waiting for a message.
    pub idle: int,
    /// Workers with a fetch in flight.
    pub active: int,
    /// Workers that have taken the stop signal.
    pub terminated: int,
    /// Whether the crawl has been told to stop.
    pub stopped: bool,
}

impl MasterModel {
    /// The coordinator's invariant: the worker counts partition the pool, and
    /// every accepted address is in exactly one of the two places — still
    /// queued, or dispatched — and never in either twice.
    pub open spec fn inv(self) -> bool {
        &&& self.worker_count >= 1
        &&& self.idle >= 0
        &&& self.active >= 0
        &&& self.terminated >= 0
        &&& self.idle + self.active + self.terminated == self.worker_count
        &&& self.seen.no_duplicates()
        &&& self.queue.no_duplicates()
        &&& forall|x: Seq<char>| #[trigger] self.queue.contains(x) ==> self.seen.contains(x)
        &&& forall|x: Seq<char>| #[trigger] self.dispatched.contains(x) ==> self.seen.contains(x)
        &&& forall|x: Seq<char>| #[trigger] self.queue.contains(x) ==> !self.dispatched.contains(x)
        &&& forall|x: Seq<char>| #[trigger] self.seen.contains(x)
            ==> self.queue.contains(x) || self.dispatched.contains(x)
        &&& self.dispatched.finite()
        &&& self.attempts == self.dispatched.len()
    }
}

/// The coordinator's state right after construction.
pub open spec fn initial_model(worker_count: int) -> MasterModel {
    MasterModel {
        seen: Seq::empty(),
        queue: Seq::empty(),
        dispatched: Set::empty(),
        attempts: 0,
        worker_count: worker_count,
        idle: worker_count,
        active: 0,
        terminated: 0,
        stopped: false,
    }
}

/// What one submission does: nothing once the crawl is stopped or for an
/// address already accepted; otherwise the address is recorded and enqueued.
pub open spec fn submit_spec(m: MasterModel, url: Seq<char>) -> MasterModel {
    if m.stopped || m.seen.contains(url) {
        m
    } else {
        MasterModel { seen: m.seen.push(url), queue: m.queue.push(url), ..m }
    }
}

/// Submitting a whole sequence of addresses, in order.
pub open spec fn submit_all_spec(m: MasterModel, urls: Seq<Seq<char>>) -> MasterModel
    decreases urls.len(),
{
    if urls.len() == 0 {
        m
    } else {
        submit_all_spec(submit_spec(m, urls[0]), urls.drop_first())
    }
}

/// An idle worker takes the stop signal and terminates.
pub open spec fn take_stop_spec(m: MasterModel) -> MasterModel {
    MasterModel { idle: m.idle - 1, terminated: m.terminated + 1, ..m }
}

/// An idle worker takes the oldest work item and begins its fetch.
pub open spec fn take_work_spec(m: MasterModel) -> MasterModel {
    MasterModel {
        queue: m.queue.drop_first(),
        dispatched: m.dispatched.insert(m.queue[0]),
        attempts: m.attempts + 1,
        idle: m.idle - 1,
        active: m.active + 1,
        ..m
    }
}

/// A worker's fetch has ended, successfully or not; the worker is idle again.
pub open spec fn finish_spec(m: MasterModel) -> MasterModel {
    MasterModel { active: m.active - 1, idle: m.idle + 1, ..m }
}

/// The crawl is told to stop.
pub open spec fn stop_spec(m: MasterModel) -> MasterModel {
    MasterModel { stopped: true, ..m }
}

pub proof fn lemma_submit_preserves_inv(m: MasterModel, url: Seq<char>)
    requires
        m.inv(),
    ensures
        submit_spec(m, url).inv(),
{
    broadcast use vstd::seq_lib::group_seq_properties;

    if !m.stopped && !m.seen.contains(url) {
        let m2 = submit_spec(m, url);
        assert forall|i: int, j: int|
            0 <= i < m2.seen.len() && 0 <= j < m2.seen.len() && i != j
                implies m2.seen[i] != m2.seen[j] by {
            if i < m.seen.len() && j < m.seen.len() {
            } else if j == m.seen.len() {
                assert(m.seen.contains(m.seen[i]));
            } else {
                assert(m.seen.contains(m.seen[j]));
            }
        }
        assert forall|i: int, j: int|
            0 <= i < m2.queue.len() && 0 <= j < m2.queue.len() && i != j
                implies m2.queue[i] != m2.queue[j] by {
            if i < m.queue.len() && j < m.queue.len() {
            } else if j == m.queue.len() {
                assert(m.queue.contains(m.queue[i]));
            } else {
                assert(m.queue.contains(m.queue[j]));
            }
        }
    }
}

/// However many submissions arrive, in whatever order and with whatever
/// duplications, the invariant is kept: the registry stays duplicate-free and
/// at most one work item per distinct address is ever queued or dispatched.
pub proof fn lemma_submit_all_preserves_inv(m: MasterModel, urls: Seq<Seq<char>>)
    requires
        m.inv(),
    ensures
        submit_all_spec(m, urls).inv(),
    decreases urls.len(),
{
    if urls.len() > 0 {
        lemma_submit_preserves_inv(m, urls[0]);
        lemma_submit_all_preserves_inv(submit_spec(m, urls[0]), urls.drop_first());
    }
}

/// Submitting addresses one by one, left to right, is submitting them all.
pub proof fn lemma_submit_all_snoc(m: MasterModel, urls: Seq<Seq<char>>, url: Seq<char>)
    ensures
        submit_all_spec(m, urls.push(url)) == submit_spec(submit_all_spec(m, urls), url),
    decreases urls.len(),
{
    let p = urls.push(url);
    assert(submit_all_spec(m, p) == submit_all_spec(submit_spec(m, p[0]), p.drop_first()));
    if urls.len() == 0 {
        assert(p[0] == url);
        assert(p.drop_first() =~= Seq::<Seq<char>>::empty());
        assert(submit_all_spec(submit_spec(m, url), p.drop_first()) == submit_spec(m, url));
        assert(submit_all_spec(m, urls) == m);
    } else {
        assert(p[0] == urls[0]);
        assert(p.drop_first() =~= urls.drop_first().push(url));
        lemma_submit_all_snoc(submit_spec(m, urls[0]), urls.drop_first(), url);
        assert(submit_all_spec(m, urls) == submit_all_spec(submit_spec(m, urls[0]), urls.drop_first()));
    }
}

pub proof fn lemma_take_stop_preserves_inv(m: MasterModel)
    requires
        m.inv(),
        m.idle >= 1,
    ensures
        take_stop_spec(m).inv(),
{
}

pub proof fn lemma_take_work_preserves_inv(m: MasterModel)
    requires
        m.inv(),
        m.idle >= 1,
        m.queue.len() > 0,
    ensures
        take_work_spec(m).inv(),
{
    broadcast use vstd::seq_lib::group_seq_properties;
    broadcast use vstd::set::group_set_axioms;

    let m2 = take_work_spec(m);
    let q0 = m.queue[0];
    assert(m.queue.contains(q0));
    assert forall|i: int, j: int|
        0 <= i < m2.queue.len() && 0 <= j < m2.queue.len() && i != j
            implies m2.queue[i] != m2.queue[j] by {
        assert(m2.queue[i] == m.queue[i + 1]);
        assert(m2.queue[j] == m.queue[j + 1]);
    }
    assert forall|x: Seq<char>| #[trigger] m2.queue.contains(x) implies m.queue.contains(x) && x
        != q0 by {
        let i = choose|i: int| 0 <= i < m2.queue.len() && m2.queue[i] == x;
        assert(m.queue[i + 1] == x);
    }
    assert forall|x: Seq<char>| #[trigger] m2.seen.contains(x) implies m2.queue.contains(x)
        || m2.dispatched.contains(x) by {
        if m.queue.contains(x) {
            let i = choose|i: int| 0 <= i < m.queue.len() && m.queue[i] == x;
            if i == 0 {
                assert(m2.dispatched.contains(x));
            } else {
                assert(m2.queue[i - 1] == x);
                assert(m2.queue.contains(x));
            }
        }
    }
    assert(!m.dispatched.contains(q0));
}

pub proof fn lemma_finish_preserves_inv(m: MasterModel)
    requires
        m.inv(),
        m.active >= 1,
    ensures
        finish_spec(m).inv(),
{
}

pub proof fn lemma_stop_preserves_inv(m: MasterModel)
    requires
        m.inv(),
    ensures
        stop_spec(m).inv(),
{
}

/// Dedup correctness, the standing half: however submissions and fetches were
/// interleaved, no more fetch attempts have been handed out than distinct
/// addresses accepted, and never two for the same address.
pub proof fn lemma_dedup_at_most_once(m: MasterModel)
    requires
        m.inv(),
    ensures
        m.attempts == m.dispatched.len(),
        m.attempts <= m.seen.len(),
{
    broadcast use vstd::set::group_set_axioms;
    broadcast use vstd::seq_lib::seq_to_set_is_finite;

    assert(m.dispatched.subset_of(m.seen.to_set()));
    vstd::set_lib::lemma_len_subset(m.dispatched, m.seen.to_set());
    m.seen.unique_seq_to_set();
}

/// Dedup correctness, the completed half: once the queue has drained, the
/// fetched addresses are exactly the distinct addresses ever submitted — one
/// fetch attempt per distinct address, no more and no less.
pub proof fn lemma_dedup_complete(m: MasterModel)
    requires
        m.inv(),
        m.queue.len() == 0,
    ensures
        m.attempts == m.seen.len(),
        forall|x: Seq<char>| m.dispatched.contains(x) <==> m.seen.contains(x),
{
    broadcast use vstd::set::group_set_axioms;
    broadcast use vstd::seq_lib::seq_to_set_is_finite;

    assert(m.dispatched =~= m.seen.to_set());
    m.seen.unique_seq_to_set();
}

/// Idempotence: a second submission of the same address, at any point after
/// the first, is a silent no-op.
pub proof fn lemma_submit_idempotent(m: MasterModel, url: Seq<char>)
    ensures
        submit_spec(submit_spec(m, url), url) == submit_spec(m, url),
{
    if !m.stopped && !m.seen.contains(url) {
        assert(submit_spec(m, url).seen[m.seen.len() as int] == url);
        assert(submit_spec(m, url).seen.contains(url));
    }
}

/// Submitting an address twice before it is dequeued leaves exactly one queued
/// item for it: the queue held no item for it before, and afterwards holds the
/// old items plus one.
pub proof fn lemma_submit_twice_once_queued(m: MasterModel, url: Seq<char>)
    requires
        m.inv(),
        !m.stopped,
        !m.seen.contains(url),
    ensures
        !m.queue.contains(url),
        submit_spec(submit_spec(m, url), url).queue == m.queue.push(url),
{
    lemma_submit_idempotent(m, url);
}

/// Bounded concurrency: with a pool of `worker_count` workers, no more than
/// `worker_count` fetches are ever outstanding at once.
pub proof fn lemma_bounded_concurrency(m: MasterModel)
    requires
        m.inv(),
    ensures
        0 <= m.active <= m.worker_count,
{
}

/// Fetch failure isolation: a failed fetch only returns its worker to the
/// pool — the registry and the queued work are untouched, and with a worker
/// idle again every queued address is still processed as before.
pub proof fn lemma_failure_isolation(m: MasterModel)
    requires
        m.inv(),
        m.active >= 1,
    ensures
        finish_spec(m).inv(),
        finish_spec(m).queue == m.queue,
        finish_spec(m).seen == m.seen,
        finish_spec(m).idle == m.idle + 1,
{
}

/// Shutdown completeness: once stopped, no submission changes the state any
/// more, and once every worker has taken the stop signal none is idle or has
/// a fetch in flight, so no further fetch ever starts.
pub proof fn lemma_shutdown_complete(m: MasterModel, url: Seq<char>)
    requires
        m.inv(),
    ensures
        stop_spec(m).inv(),
        submit_spec(stop_spec(m), url) == stop_spec(m),
        m.terminated == m.worker_count ==> m.active == 0 && m.idle == 0,
{
}

/// Whether some string of `v` holds the same characters as `url`.
fn contains_url(v: &Vec<String>, url: &String) -> (b: bool)
    ensures
        b == views_of(v@).contains(url@),
{
    let mut i: usize = 0;
    while i < v.len()
        invariant
            i <= v.len(),
            forall|k: int| 0 <= k < i ==> views_of(v@)[k] != url@,
        decreases v.len() - i,
    {
        if v[i] == *url {
            assert(views_of(v@)[i as int] == url@);
            return true;
        }
        i = i + 1;
    }
    false
}

/// The coordinator: the owner of the dedup registry, the work queue, and the
/// worker pool's coordination state.  `submit_url` is the single public
/// mutating entry for new work.
pub struct WorkerMaster {
    seen_urls: Vec<String>,
    queue: Vec<String>,
    worker_count: u32,
    idle_workers: u32,
    active_workers: u32,
    stopped_workers: u32,
    stopped: bool,
    dispatched: Ghost<Set<Seq<char>>>,
    attempts: Ghost<int>,
}

impl WorkerMaster {
    /// The mathematical state this coordinator is in.
    pub closed spec fn model(self) -> MasterModel {
        MasterModel {
            seen: views_of(self.seen_urls@),
            queue: views_of(self.queue@),
            dispatched: self.dispatched@,
            attempts: self.attempts@,
            worker_count: self.worker_count as int,
            idle: self.idle_workers as int,
            active: self.active_workers as int,
            terminated: self.stopped_workers as int,
            stopped: self.stopped,
        }
    }

    pub open spec fn inv(self) -> bool {
        self.model().inv()
    }

    /// Creates the coordinator of a pool of `worker_count` workers, with an
    /// empty registry and an empty queue; every worker starts idle.
    pub fn new(worker_count: u32) -> (m: WorkerMaster)
        requires
            worker_count >= 1,
        ensures
            m.inv(),
            m.model() == initial_model(worker_count as int),
    {
        let m = WorkerMaster {
            seen_urls: Vec::new(),
            queue: Vec::new(),
            worker_count: worker_count,
            idle_workers: worker_count,
            active_workers: 0,
            stopped_workers: 0,
            stopped: false,
            dispatched: Ghost(Set::empty()),
            attempts: Ghost(0),
        };
        proof {
            broadcast use vstd::set::group_set_axioms;

            assert(m.model() =~= initial_model(worker_count as int));
        }
        m
    }

    /// The sole dedup/enqueue gate.  Under the one exclusive borrow of `self`
    /// it checks membership and, only for a never-seen address while the crawl
    /// is running, records the address and enqueues a work item for it; a
    /// duplicate or late submission is a silent no-op.
    pub fn submit_url(&mut self, url: String)
        requires
            old(self).inv(),
        ensures
            final(self).inv(),
            final(self).model() == submit_spec(old(self).model(), url@),
    {
        proof {
            lemma_submit_preserves_inv(old(self).model(), url@);
        }
        if self.stopped {
            return;
        }
        if !contains_url(&self.seen_urls, &url) {
            let ghost pre = self.model();
            let ghost uv = url@;
            self.seen_urls.push(url.clone());
            self.queue.push(url);
            proof {
                assert(self.model().seen =~= pre.seen.push(uv));
                assert(self.model().queue =~= pre.queue.push(uv));
                assert(self.model() =~= submit_spec(old(self).model(), uv));
            }
        }
    }

    /// Hands the next message to an idle worker: the stop signal once the
    /// crawl is stopped (so an idle worker reacts to shutdown immediately,
    /// and never starts further work), else the oldest queued work item, else
    /// nothing and the worker keeps waiting.  Each queued item is handed out
    /// exactly once, to exactly one worker.
    pub fn next_message(&mut self) -> (msg: Option<WorkerMessage>)
        requires
            old(self).inv(),
            old(self).model().idle >= 1,
        ensures
            final(self).inv(),
            (match msg {
                Some(WorkerMessage::Stop) => {
                    &&& old(self).model().stopped
                    &&& final(self).model() == take_stop_spec(old(self).model())
                },
                Some(WorkerMessage::Work(u)) => {
                    &&& !old(self).model().stopped
                    &&& old(self).model().queue.len() > 0
                    &&& u@ == old(self).model().queue[0]
                    &&& !old(self).model().dispatched.contains(u@)
                    &&& final(self).model() == take_work_spec(old(self).model())
                },
                None => {
                    &&& !old(self).model().stopped
                    &&& old(self).model().queue.len() == 0
                    &&& final(self).model() == old(self).model()
                },
            }),
    {
        if self.stopped {
            self.idle_workers = self.idle_workers - 1;
            self.stopped_workers = self.stopped_workers + 1;
            proof {
                lemma_take_stop_preserves_inv(old(self).model());
                assert(self.model() =~= take_stop_spec(old(self).model()));
            }
            Some(WorkerMessage::Stop)
        } else if self.queue.len() > 0 {
            let u = self.queue.remove(0);
            let ghost uv = u@;
            self.idle_workers = self.idle_workers - 1;
            self.active_workers = self.active_workers + 1;
            self.dispatched = Ghost(self.dispatched@.insert(uv));
            self.attempts = Ghost(self.attempts@ + 1);
            proof {
                lemma_take_work_preserves_inv(old(self).model());
                assert(old(self).model().queue.contains(uv));
                assert(self.model().queue =~= old(self).model().queue.drop_first());
                assert(self.model() =~= take_work_spec(old(self).model()));
            }
            Some(WorkerMessage::Work(u))
        } else {
            proof {
                assert(self.model() =~= old(self).model());
            }
            None
        }
    }

    /// A worker reports that its fetch for one work item is over.
    pub fn finish_fetch(&mut self)
        requires
            old(self).inv(),
            old(self).model().active >= 1,
        ensures
            final(self).inv(),
            final(self).model() == finish_spec(old(self).model()),
    {
        self.active_workers = self.active_workers - 1;
        self.idle_workers = self.idle_workers + 1;
        proof {
            lemma_finish_preserves_inv(old(self).model());
            assert(self.model() =~= finish_spec(old(self).model()));
        }
    }

    /// The whole non-network step of a worker for one work item: on a fetched
    /// page body, extract the page's links and submit each in order; on a
    /// fetch failure nothing is submitted — the failure is terminal for that
    /// address and isolated from the rest of the crawl.  Either way the
    /// worker's fetch is over afterwards.
    pub fn process_fetched(&mut self, url: String, body: Option<&str>)
        requires
            old(self).inv(),
            old(self).model().active >= 1,
        ensures
            final(self).inv(),
            (match body {
                Some(text) => final(self).model() == finish_spec(
                    submit_all_spec(old(self).model(), extracted(url@, text@)),
                ),
                None => final(self).model() == finish_spec(old(self).model()),
            }),
    {
        let ghost m0 = self.model();
        if let Some(text) = body {
            let ghost uv = url@;
            let parser = LinkParser::new(url);
            let links = parser.parse(text);
            let ghost ls = views_of(links@);
            let mut k: usize = 0;
            proof {
                assert(ls.take(0) =~= Seq::<Seq<char>>::empty());
                assert(ls == extracted(uv, text@));
            }
            while k < links.len()
                invariant
                    self.inv(),
                    ls == views_of(links@),
                    k <= links.len(),
                    self.model() == submit_all_spec(m0, ls.take(k as int)),
                    self.model().active == m0.active,
                decreases links.len() - k,
            {
                self.submit_url(links[k].clone());
                proof {
                    assert(ls.take(k as int + 1) =~= ls.take(k as int).push(ls[k as int]));
                    lemma_submit_all_snoc(m0, ls.take(k as int), ls[k as int]);
                }
                k = k + 1;
            }
            proof {
                assert(ls.take(links.len() as int) =~= ls);
            }
        }
        self.finish_fetch();
    }

    /// Stops the crawl: no further submission is accepted, and every worker is
    /// told to stop the next time it asks for a message.  Waiting for the
    /// workers to actually terminate is the surrounding runtime's part;
    /// `lemma_shutdown_complete` says what holds once they all have.
    pub fn shutdown(&mut self)
        requires
            old(self).inv(),
        ensures
            final(self).inv(),
            final(self).model() == stop_spec(old(self).model()),
    {
        self.stopped = true;
        proof {
            lemma_stop_preserves_inv(old(self).model());
            assert(self.model() =~= stop_spec(old(self).model()));
        }
    }
}

} // verus!
