//! The job store.

use vstd::prelude::*;

use crate::models::{Job, JobError, JobView};

verus! {

/// The stored jobs, in the order they were pushed.
pub struct AppState {
    jobs: Vec<Job>,
}

/// The views of a sequence of jobs.
pub open spec fn job_views(jobs: Seq<Job>) -> Seq<JobView> {
    jobs.map_values(|j: Job| j@)
}

/// The position of the first job with this id, if any.
pub open spec fn first_index_of(jobs: Seq<JobView>, id: u64) -> Option<int>
    decreases jobs.len(),
{
    if jobs.len() == 0 {
        None
    } else if jobs[0].id == id {
        Some(0)
    } else {
        match first_index_of(jobs.drop_first(), id) {
            Some(i) => Some(i + 1),
            None => None,
        }
    }
}

/// The first job with this id, if any.
pub open spec fn find_job(jobs: Seq<JobView>, id: u64) -> Option<JobView> {
    match first_index_of(jobs, id) {
        Some(i) => Some(jobs[i]),
        None => None,
    }
}

/// `first_index_of` finds the first position whose job has the id.
pub proof fn lemma_first_index_of(jobs: Seq<JobView>, id: u64)
    ensures
        match first_index_of(jobs, id) {
            Some(i) => 0 <= i < jobs.len() && jobs[i].id == id && forall|k: int|
                0 <= k < i ==> jobs[k].id != id,
            None => forall|k: int| 0 <= k < jobs.len() ==> jobs[k].id != id,
        },
    decreases jobs.len(),
{
    if jobs.len() > 0 && jobs[0].id != id {
        lemma_first_index_of(jobs.drop_first(), id);
        assert forall|k: int| 1 <= k < jobs.len() implies jobs[k] == jobs.drop_first()[k - 1] by {}
    }
}

impl View for AppState {
    type V = Seq<JobView>;

    closed spec fn view(&self) -> Seq<JobView> {
        job_views(self.jobs@)
    }
}

impl AppState {
    /// An empty store.
    pub fn new() -> (state: AppState)
        ensures
            state@ == Seq::<JobView>::empty(),
    {
        let state = AppState { jobs: Vec::new() };
        assert(state@ =~= Seq::<JobView>::empty());
        state
    }

    /// A copy of every stored job, in order.
    pub fn list(&self) -> (jobs: Vec<Job>)
        ensures
            job_views(jobs@) == self@,
    {
        let mut out: Vec<Job> = Vec::new();
        let n = self.jobs.len();
        for i in 0..n
            invariant
                n == self.jobs@.len(),
                out@.len() == i,
                forall|k: int| 0 <= k < i ==> (#[trigger] out@[k])@ == self.jobs@[k]@,
        {
            out.push(self.jobs[i].copy());
        }
        assert(job_views(out@) =~= self@);
        out
    }

    /// Appends a job.
    pub fn push(&mut self, job: Job)
        ensures
            final(self)@ == old(self)@.push(job@),
    {
        self.jobs.push(job);
        assert(job_views(self.jobs@) =~= job_views(old(self).jobs@).push(job@));
    }

    /// The first stored job with this id, or `NotFound(id)`.
    pub fn find_by_id(&self, id: u64) -> (res: Result<Job, JobError>)
        ensures
            match find_job(self@, id) {
                Some(j) => res matches Ok(job) && job@ == j,
                None => res matches Err(JobError::NotFound(n)) && n == id,
            },
    {
        proof {
            lemma_first_index_of(self@, id);
        }
        let n = self.jobs.len();
        for i in 0..n
            invariant
                n == self.jobs@.len(),
                self@ == job_views(self.jobs@),
                forall|k: int| 0 <= k < i ==> self.jobs@[k].id != id,
        {
            if self.jobs[i].id == id {
                proof {
                    lemma_first_index_of(self@, id);
                    let f = first_index_of(self@, id);
                    assert(self@[i as int].id == id);
                    if f is None {
                        assert(false);
                    } else {
                        let fi = f->0;
                        if fi < i {
                            assert(self.jobs@[fi].id != id);
                            assert(self@[fi] == self.jobs@[fi]@);
                        } else if fi > i {
                            assert(self@[i as int] == self.jobs@[i as int]@);
                        }
                    }
                }
                return Ok(self.jobs[i].copy());
            }
        }
        proof {
            if first_index_of(self@, id) is Some {
                let fi = first_index_of(self@, id)->0;
                assert(self@[fi] == self.jobs@[fi]@);
            }
        }
        Err(JobError::NotFound(id))
    }
}

/// A pushed job is listed last, after every job that was there before:
/// `after` is `before` once `AppState::push` has stored `job`, and `listed`
/// is what `AppState::list` answers on `after`.
pub proof fn law_push_then_list(before: AppState, job: Job, after: AppState, listed: Seq<Job>)
    requires
        after@ == before@.push(job@),
        job_views(listed) == after@,
    ensures
        listed.len() == before@.len() + 1,
        listed.last()@ == job@,
        job_views(listed.subrange(0, before@.len() as int)) == before@,
{
    assert(job_views(listed).len() == listed.len());
    assert(job_views(listed)[before@.len() as int] == listed.last()@);
    assert(job_views(listed.subrange(0, before@.len() as int)) =~= before@) by {
        assert forall|k: int| 0 <= k < before@.len() implies #[trigger] job_views(
            listed.subrange(0, before@.len() as int),
        )[k] == before@[k] by {
            assert(job_views(listed)[k] == listed[k]@);
        }
    }
}

/// A pushed job is found by its id unless an earlier job has the same id,
/// in which case that earlier job is found.
pub proof fn law_find_after_push(before: Seq<JobView>, job: JobView)
    ensures
        find_job(before, job.id) is None ==> find_job(before.push(job), job.id) == Some(job),
        find_job(before, job.id) is Some ==> find_job(before.push(job), job.id) == find_job(
            before,
            job.id,
        ),
{
    let after = before.push(job);
    lemma_first_index_of(before, job.id);
    lemma_first_index_of(after, job.id);
    let fa = first_index_of(after, job.id);
    let fb = first_index_of(before, job.id);
    assert(after[before.len() as int] == job);
    if fb is None {
        if fa is Some && fa->0 < before.len() {
            assert(after[fa->0] == before[fa->0]);
        }
    } else {
        let b = fb->0;
        assert(after[b] == before[b]);
        if fa is Some {
            let a = fa->0;
            if a < b {
                assert(after[a] == before[a]);
            }
        }
    }
}

/// Pushing a job with another id leaves what every other id finds unchanged.
pub proof fn law_push_keeps_other_ids(before: Seq<JobView>, job: JobView, id: u64)
    requires
        id != job.id,
    ensures
        find_job(before.push(job), id) == find_job(before, id),
{
    let after = before.push(job);
    lemma_first_index_of(before, id);
    lemma_first_index_of(after, id);
    let fa = first_index_of(after, id);
    let fb = first_index_of(before, id);
    assert(after[before.len() as int] == job);
    if fb is None {
        if fa is Some && fa->0 < before.len() {
            assert(after[fa->0] == before[fa->0]);
        }
    } else {
        let b = fb->0;
        assert(after[b] == before[b]);
        if fa is Some {
            let a = fa->0;
            if a < b {
                assert(after[a] == before[a]);
            }
        }
    }
}

} // verus!
