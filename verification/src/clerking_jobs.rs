//! The store of clerking jobs: the queue of each clerk, the results of each
//! snapshot, and the jobs each clerk has done.

use vstd::prelude::*;

use crate::errors::{SdaServerError, SdaServerResult};
use crate::ids::{AgentId, ClerkingJobId, SnapshotId};
use crate::resources::{ClerkingJob, ClerkingJobView, ClerkingResult};
use crate::table::{inner_view, lemma_table_lengths, Table};

verus! {

/// The message when a result comes for a job that is not queued.
pub open spec fn job_not_found_message() -> Seq<char> {
    "Job not found"@
}

/// The jobs of the results, in order.
pub open spec fn result_jobs(results: Seq<ClerkingResult>) -> Seq<ClerkingJobId> {
    results.map_values(|r: ClerkingResult| r.job)
}

/// The queues seen as maps from clerk to job id to job view.
pub open spec fn queue_views(queue: Map<u128, Table<ClerkingJob>>) -> Map<
    u128,
    Map<u128, ClerkingJobView>,
> {
    queue.map_values(|t: Table<ClerkingJob>| t@.map_values(|j: ClerkingJob| j@))
}

/// The queues with one more job for its clerk.
pub open spec fn add_job(
    queues: Map<u128, Map<u128, ClerkingJobView>>,
    job: ClerkingJobView,
) -> Map<u128, Map<u128, ClerkingJobView>> {
    queues.insert(
        job.clerk.0,
        if queues.contains_key(job.clerk.0) {
            queues[job.clerk.0]
        } else {
            Map::empty()
        }.insert(job.id.0, job),
    )
}

/// The queues with the jobs added in order.
pub open spec fn add_jobs(
    queues: Map<u128, Map<u128, ClerkingJobView>>,
    jobs: Seq<ClerkingJobView>,
) -> Map<u128, Map<u128, ClerkingJobView>>
    decreases jobs.len(),
{
    if jobs.len() == 0 {
        queues
    } else {
        add_job(add_jobs(queues, jobs.drop_last()), jobs.last())
    }
}

/// Two results agree on job, clerk and encryption bytes.
pub open spec fn same_result(a: ClerkingResult, b: ClerkingResult) -> bool {
    a.job == b.job && a.clerk == b.clerk && a.encryption@ == b.encryption@
}

/// What filing the result of a queued job leaves behind (see
/// `ClerkingJobStore::create_clerking_result`).
pub open spec fn result_filing(
    old: ClerkingJobStore,
    new: ClerkingJobStore,
    result: ClerkingResult,
    res: SdaServerResult<()>,
) -> bool {
    let queued = inner_view(old.queue@, result.clerk.0);
    &&& (res is Ok <==> queued.contains_key(result.job.0))
    &&& (res matches Err(SdaServerError::Msg(msg)) ==> msg@ == job_not_found_message() && new == old)
    &&& (res is Ok ==> {
        let job = queued[result.job.0];
        &&& new.queue@.dom() == old.queue@.dom()
        &&& new.queue@[result.clerk.0]@ == old.queue@[result.clerk.0]@.remove(result.job.0)
        &&& forall|x: u128|
            x != result.clerk.0 && #[trigger] old.queue@.contains_key(x) ==> new.queue@[x]
                == old.queue@[x]
        &&& new.results@.dom() == old.results@.dom().insert(job.snapshot.0)
        &&& new.results@[job.snapshot.0]@ == inner_view(old.results@, job.snapshot.0).insert(
            result.job.0,
            result,
        )
        &&& forall|x: u128|
            x != job.snapshot.0 && #[trigger] old.results@.contains_key(x) ==> new.results@[x]
                == old.results@[x]
        &&& new.done@.dom() == old.done@.dom().insert(result.clerk.0)
        &&& new.done@[result.clerk.0]@ == inner_view(old.done@, result.clerk.0).insert(
            result.job.0,
            job,
        )
        &&& forall|x: u128|
            x != result.clerk.0 && #[trigger] old.done@.contains_key(x) ==> new.done@[x]
                == old.done@[x]
    })
}

/// Jobs waiting for clerks, results, and jobs done.
pub struct ClerkingJobStore {
    /// Jobs waiting, by clerk id, then by job id.
    pub queue: Table<Table<ClerkingJob>>,
    /// Results, by snapshot id, then by job id.
    pub results: Table<Table<ClerkingResult>>,
    /// Jobs done, by clerk id, then by job id.
    pub done: Table<Table<ClerkingJob>>,
}

/// The clerking job store, as a daemon keeps it in a JSON file store.
pub type JfsClerkingJobStore = ClerkingJobStore;

impl ClerkingJobStore {
    /// The first job, in id order, waiting for a clerk.
    pub open spec fn first_queued(&self, clerk: AgentId) -> Option<ClerkingJob> {
        if self.queue@.contains_key(clerk.0) && self.queue@[clerk.0].keys().len() > 0 {
            Some(self.queue@[clerk.0].values()[0])
        } else {
            None
        }
    }

    /// The results of a snapshot, in job id order.
    pub open spec fn results_of(&self, snapshot: SnapshotId) -> Seq<ClerkingResult> {
        if self.results@.contains_key(snapshot.0) {
            self.results@[snapshot.0].values()
        } else {
            Seq::empty()
        }
    }

    /// Every job is kept under its clerk and its own id, every result under
    /// its job's id.
    pub open spec fn keyed_by_id(&self) -> bool {
        &&& jobs_keyed(queue_views(self.queue@))
        &&& results_keyed(self.results@)
        &&& jobs_keyed(queue_views(self.done@))
    }

    pub fn new() -> (s: ClerkingJobStore)
        ensures
            s.keyed_by_id(),
            s.queue@ == Map::<u128, Table<ClerkingJob>>::empty(),
            s.results@ == Map::<u128, Table<ClerkingResult>>::empty(),
            s.done@ == Map::<u128, Table<ClerkingJob>>::empty(),
    {
        ClerkingJobStore { queue: Table::new(), results: Table::new(), done: Table::new() }
    }

    /// Queues a job for its clerk, in place of any earlier job with its id.
    pub fn enqueue_clerking_job(&mut self, job: ClerkingJob)
        ensures
            old(self).keyed_by_id() ==> final(self).keyed_by_id(),
            final(self).queue@.dom() == old(self).queue@.dom().insert(job.clerk.0),
            forall|x: u128|
                x != job.clerk.0 && #[trigger] old(self).queue@.contains_key(x) ==> final(self).queue@[x] == old(self).queue@[x],
            final(self).queue@[job.clerk.0]@ == inner_view(old(self).queue@, job.clerk.0).insert(
                job.id.0,
                job,
            ),
            queue_views(final(self).queue@) == add_job(queue_views(old(self).queue@), job@),
            final(self).results == old(self).results,
            final(self).done == old(self).done,
    {
        let clerk = job.clerk.0;
        let id = job.id.0;
        let ghost view = job@;
        self.queue.upsert_in(clerk, id, job);
        proof {
            let q = queue_views(final(self).queue@);
            let expected = add_job(queue_views(old(self).queue@), view);
            assert(q.dom() =~= expected.dom());
            assert forall|x: u128| #[trigger] q.contains_key(x) implies q[x] == expected[x] by {
                if x == clerk {
                    assert(q[x] =~= expected[x]);
                }
            }
            assert(q =~= expected);
        }
    }

    /// The first job, in id order, waiting for the clerk.
    pub fn poll_clerking_job(&self, clerk: &AgentId) -> (job: Option<&ClerkingJob>)
        ensures
            match self.first_queued(*clerk) {
                Some(first) => job matches Some(j) && *j == first,
                None => job is None,
            },
    {
        match self.queue.get(clerk.0) {
            Some(jobs) => {
                proof {
                    lemma_table_lengths(*jobs);
                }
                if jobs.len() > 0 {
                    Some(jobs.value_at(0))
                } else {
                    None
                }
            },
            None => None,
        }
    }

    /// The job with the given id waiting for the clerk.
    pub fn get_clerking_job(&self, clerk: &AgentId, job: &ClerkingJobId) -> (found: Option<
        &ClerkingJob,
    >)
        ensures
            found is Some <==> inner_view(self.queue@, clerk.0).contains_key(job.0),
            found matches Some(j) ==> *j == inner_view(self.queue@, clerk.0)[job.0],
    {
        self.queue.get_in(clerk.0, job.0)
    }

    /// Records the result of a queued job: the result is filed under the
    /// job's snapshot, and the job moves from the clerk's queue to the jobs
    /// the clerk has done.
    pub fn create_clerking_result(&mut self, result: ClerkingResult) -> (res: SdaServerResult<()>)
        ensures
            old(self).keyed_by_id() ==> final(self).keyed_by_id(),
            result_filing(*old(self), *final(self), result, res),
    {
        if self.queue.get_in(result.clerk.0, result.job.0).is_none() {
            return Err(SdaServerError::Msg(String::from_str("Job not found")));
        }
        let clerk = result.clerk.0;
        let id = result.job.0;
        let job = match self.queue.remove_in(clerk, id) {
            Some(job) => job,
            None => {
                return Err(SdaServerError::Msg(String::from_str("Job not found")));
            },
        };
        let snapshot = job.snapshot.0;
        self.results.upsert_in(snapshot, id, result);
        self.done.upsert_in(clerk, id, job);
        proof {
            if old(self).keyed_by_id() {
                assert(result_filing(*old(self), *self, result, Ok::<(), SdaServerError>(())));
                lemma_filing_keyed(*old(self), *self, result, Ok::<(), SdaServerError>(()));
            }
        }
        Ok(())
    }

    /// The jobs of the results of a snapshot, in job id order.
    pub fn list_results(&self, snapshot: &SnapshotId) -> (jobs: Vec<ClerkingJobId>)
        ensures
            jobs@ == result_jobs(self.results_of(*snapshot)),
    {
        let mut jobs: Vec<ClerkingJobId> = Vec::new();
        match self.results.get(snapshot.0) {
            Some(results) => {
                proof {
                    lemma_table_lengths(*results);
                }
                let n = results.len();
                let mut i: usize = 0;
                while i < n
                    invariant
                        n == results.values().len(),
                        n == results.keys().len(),
                        i <= n,
                        jobs@ == result_jobs(results.values().take(i as int)),
                    decreases n - i,
                {
                    let r = results.value_at(i);
                    jobs.push(r.job);
                    assert(jobs@ =~= result_jobs(results.values().take(i + 1)));
                    i = i + 1;
                }
                assert(results.values().take(n as int) =~= results.values());
            },
            None => {
                assert(jobs@ =~= result_jobs(Seq::empty()));
            },
        }
        jobs
    }

    /// The result of the job in the results of the snapshot.
    pub fn get_result(&self, snapshot: &SnapshotId, job: &ClerkingJobId) -> (found: Option<
        &ClerkingResult,
    >)
        ensures
            found is Some <==> inner_view(self.results@, snapshot.0).contains_key(job.0),
            found matches Some(r) ==> *r == inner_view(self.results@, snapshot.0)[job.0],
    {
        self.results.get_in(snapshot.0, job.0)
    }

    /// Copies of the results of a snapshot, in job id order.
    pub fn collect_results(&self, snapshot: &SnapshotId) -> (copies: Vec<ClerkingResult>)
        ensures
            copies@.len() == self.results_of(*snapshot).len(),
            forall|i: int|
                0 <= i < copies@.len() ==> same_result(
                    #[trigger] copies@[i],
                    self.results_of(*snapshot)[i],
                ),
    {
        let mut copies: Vec<ClerkingResult> = Vec::new();
        match self.results.get(snapshot.0) {
            Some(results) => {
                proof {
                    lemma_table_lengths(*results);
                }
                let n = results.len();
                let mut i: usize = 0;
                while i < n
                    invariant
                        n == results.values().len(),
                        n == results.keys().len(),
                        i <= n,
                        copies@.len() == i,
                        forall|k: int|
                            0 <= k < i ==> same_result(#[trigger] copies@[k], results.values()[k]),
                    decreases n - i,
                {
                    copies.push(results.value_at(i).clone());
                    i = i + 1;
                }
            },
            None => {},
        }
        copies
    }
}

/// Filing a result takes its job off the clerk's queue, records the
/// result under the job's snapshot and the job among the clerk's done jobs.
pub proof fn law_filed_job_is_done(
    before: ClerkingJobStore,
    after: ClerkingJobStore,
    result: ClerkingResult,
)
    requires
        result_filing(before, after, result, Ok::<(), SdaServerError>(())),
    ensures
        !inner_view(after.queue@, result.clerk.0).contains_key(result.job.0),
        inner_view(after.results@, inner_view(before.queue@, result.clerk.0)[result.job.0].snapshot.0)[result.job.0]
            == result,
        inner_view(after.done@, result.clerk.0)[result.job.0] == inner_view(
            before.queue@,
            result.clerk.0,
        )[result.job.0],
{
}

/// A job's result is filed once: filing it again is refused.
pub proof fn law_result_filed_once(
    before: ClerkingJobStore,
    middle: ClerkingJobStore,
    after: ClerkingJobStore,
    result: ClerkingResult,
    again: ClerkingResult,
    res: SdaServerResult<()>,
)
    requires
        result_filing(before, middle, result, Ok::<(), SdaServerError>(())),
        again.clerk == result.clerk,
        again.job == result.job,
        result_filing(middle, after, again, res),
    ensures
        res matches Err(SdaServerError::Msg(msg)) && msg@ == job_not_found_message(),
        after == middle,
{
    law_filed_job_is_done(before, middle, result);
}

/// Filing a result takes only its own job off the queues: every other job
/// of every clerk stays queued as it was, and nothing is queued that was
/// not queued before.
pub proof fn law_filing_keeps_other_jobs(
    before: ClerkingJobStore,
    after: ClerkingJobStore,
    result: ClerkingResult,
)
    requires
        result_filing(before, after, result, Ok::<(), SdaServerError>(())),
    ensures
        forall|c: u128, k: u128|
            #![trigger inner_view(after.queue@, c).contains_key(k)]
            #![trigger inner_view(before.queue@, c).contains_key(k)]
            c != result.clerk.0 || k != result.job.0 ==> {
                &&& inner_view(after.queue@, c).contains_key(k) == inner_view(
                    before.queue@,
                    c,
                ).contains_key(k)
                &&& inner_view(before.queue@, c).contains_key(k) ==> inner_view(after.queue@, c)[k]
                    == inner_view(before.queue@, c)[k]
            },
{
}

/// Every job in the queues after adding jobs was queued before under the
/// same clerk and id and is unchanged, or is one of the jobs added.
pub proof fn law_added_jobs_come_from(
    queues: Map<u128, Map<u128, ClerkingJobView>>,
    jobs: Seq<ClerkingJobView>,
)
    ensures
        forall|c: u128, k: u128|
            add_jobs(queues, jobs).contains_key(c) && #[trigger] add_jobs(queues, jobs)[c].contains_key(k)
                ==> (queues.contains_key(c) && queues[c].contains_key(k) && add_jobs(queues, jobs)[c][k]
                == queues[c][k]) || exists|i: int|
                0 <= i < jobs.len() && #[trigger] jobs[i] == add_jobs(queues, jobs)[c][k],
    decreases jobs.len(),
{
    if jobs.len() > 0 {
        let rest = jobs.drop_last();
        let n = jobs.len() - 1;
        law_added_jobs_come_from(queues, rest);
        assert(jobs.last() == jobs[n]);
        assert forall|c: u128, k: u128|
            add_jobs(queues, jobs).contains_key(c) && #[trigger] add_jobs(queues, jobs)[c].contains_key(k)
                implies (queues.contains_key(c) && queues[c].contains_key(k) && add_jobs(queues, jobs)[c][k]
                == queues[c][k]) || exists|i: int|
                0 <= i < jobs.len() && #[trigger] jobs[i] == add_jobs(queues, jobs)[c][k] by {
            if c == jobs.last().clerk.0 && k == jobs.last().id.0 {
                assert(jobs[n] == add_jobs(queues, jobs)[c][k]);
            } else {
                assert(add_jobs(queues, rest).contains_key(c));
                assert(add_jobs(queues, rest)[c].contains_key(k));
                assert(add_jobs(queues, jobs)[c][k] == add_jobs(queues, rest)[c][k]);
                if !(queues.contains_key(c) && queues[c].contains_key(k) && add_jobs(queues, rest)[c][k]
                    == queues[c][k]) {
                    let i = choose|i: int|
                        0 <= i < rest.len() && #[trigger] rest[i] == add_jobs(queues, rest)[c][k];
                    assert(jobs[i] == rest[i]);
                }
            }
        }
    }
}

/// Adding jobs leaves the queue of an agent none of them is for unchanged.
pub proof fn law_jobs_leave_other_queues(
    queues: Map<u128, Map<u128, ClerkingJobView>>,
    jobs: Seq<ClerkingJobView>,
    clerk: AgentId,
)
    requires
        forall|i: int| 0 <= i < jobs.len() ==> #[trigger] jobs[i].clerk != clerk,
    ensures
        add_jobs(queues, jobs).contains_key(clerk.0) == queues.contains_key(clerk.0),
        queues.contains_key(clerk.0) ==> add_jobs(queues, jobs)[clerk.0] == queues[clerk.0],
    decreases jobs.len(),
{
    if jobs.len() > 0 {
        assert(jobs.last() == jobs[jobs.len() - 1]);
        law_jobs_leave_other_queues(queues, jobs.drop_last(), clerk);
    }
}

/// Each job added is queued for its clerk under its id: itself, or a later
/// job for the same clerk under the same id.
pub proof fn law_added_jobs_are_queued(
    queues: Map<u128, Map<u128, ClerkingJobView>>,
    jobs: Seq<ClerkingJobView>,
    j: int,
)
    requires
        0 <= j < jobs.len(),
    ensures
        add_jobs(queues, jobs).contains_key(jobs[j].clerk.0),
        add_jobs(queues, jobs)[jobs[j].clerk.0].contains_key(jobs[j].id.0),
        exists|k: int|
            j <= k < jobs.len() && #[trigger] jobs[k].clerk == jobs[j].clerk && jobs[k].id
                == jobs[j].id && add_jobs(queues, jobs)[jobs[j].clerk.0][jobs[j].id.0] == jobs[k],
    decreases jobs.len(),
{
    let last = jobs.last();
    let n = jobs.len() - 1;
    assert(last == jobs[n]);
    if j < n {
        let rest = jobs.drop_last();
        assert(rest[j] == jobs[j]);
        law_added_jobs_are_queued(queues, rest, j);
        let k = choose|k: int|
            j <= k < rest.len() && #[trigger] rest[k].clerk == rest[j].clerk && rest[k].id
                == rest[j].id && add_jobs(queues, rest)[rest[j].clerk.0][rest[j].id.0] == rest[k];
        assert(rest[k] == jobs[k]);
        if last.clerk == jobs[j].clerk && last.id == jobs[j].id {
            assert(jobs[n].clerk == jobs[j].clerk);
        } else {
            assert(jobs[k].clerk == jobs[j].clerk);
        }
    } else {
        assert(jobs[j].clerk == jobs[j].clerk);
    }
}

/// Every job of the queues is kept under its clerk and its own id.
pub open spec fn jobs_keyed(queues: Map<u128, Map<u128, ClerkingJobView>>) -> bool {
    forall|c: u128, k: u128|
        queues.contains_key(c) && #[trigger] queues[c].contains_key(k) ==> queues[c][k].clerk.0 == c
            && queues[c][k].id.0 == k
}

/// Adding jobs keeps every job under its clerk and its own id.
pub proof fn lemma_add_jobs_keyed(queues: Map<u128, Map<u128, ClerkingJobView>>, jobs: Seq<ClerkingJobView>)
    requires
        jobs_keyed(queues),
    ensures
        jobs_keyed(add_jobs(queues, jobs)),
    decreases jobs.len(),
{
    if jobs.len() > 0 {
        lemma_add_jobs_keyed(queues, jobs.drop_last());
    }
}

/// Every result is kept under its job's id.
pub open spec fn results_keyed(results: Map<u128, Table<ClerkingResult>>) -> bool {
    forall|s: u128, k: u128|
        results.contains_key(s) && #[trigger] results[s]@.contains_key(k) ==> results[s]@[k].job.0 == k
}

/// Filing a result keeps jobs under their clerk and id and results under
/// their job's id.
pub proof fn lemma_filing_keyed(
    old: ClerkingJobStore,
    new: ClerkingJobStore,
    result: ClerkingResult,
    res: SdaServerResult<()>,
)
    requires
        result_filing(old, new, result, res),
        jobs_keyed(queue_views(old.queue@)),
        results_keyed(old.results@),
        jobs_keyed(queue_views(old.done@)),
    ensures
        jobs_keyed(queue_views(new.queue@)),
        results_keyed(new.results@),
        jobs_keyed(queue_views(new.done@)),
{
    if res is Ok {
        let c = result.clerk.0;
        let queued = inner_view(old.queue@, c);
        let job = queued[result.job.0];
        assert(queue_views(old.queue@)[c].contains_key(result.job.0));
        assert(job@.clerk.0 == c && job@.id.0 == result.job.0);
        assert forall|x: u128, k: u128|
            queue_views(new.queue@).contains_key(x) && #[trigger] queue_views(new.queue@)[x].contains_key(k)
                implies queue_views(new.queue@)[x][k].clerk.0 == x && queue_views(new.queue@)[x][k].id.0 == k by {
            assert(queue_views(old.queue@).contains_key(x));
            assert(queue_views(old.queue@)[x].contains_key(k));
        }
        assert forall|x: u128, k: u128|
            queue_views(new.done@).contains_key(x) && #[trigger] queue_views(new.done@)[x].contains_key(k)
                implies queue_views(new.done@)[x][k].clerk.0 == x && queue_views(new.done@)[x][k].id.0 == k by {
            if x != c {
                assert(queue_views(old.done@).contains_key(x));
                assert(queue_views(old.done@)[x].contains_key(k));
            } else if k != result.job.0 {
                assert(queue_views(old.done@).contains_key(x));
                assert(queue_views(old.done@)[x].contains_key(k));
            }
        }
    }
}

} // verus!
