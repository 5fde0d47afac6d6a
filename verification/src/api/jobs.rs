//! The job endpoints: list, create and fetch one.

use vstd::prelude::*;

use crate::models::{Job, JobError, JobView, NewJob};
use crate::state::{find_job, job_views, AppState};

verus! {

/// Every stored job.
pub fn list_jobs(state: &AppState) -> (jobs: Vec<Job>)
    ensures
        job_views(jobs@) == state@,
{
    state.list()
}

/// Stores a job with the submitted id and name.
pub fn create_job(state: &mut AppState, new: NewJob) -> (res: Result<(), JobError>)
    ensures
        res is Ok,
        final(state)@ == old(state)@.push(JobView { id: new.id, name: new.name@ }),
{
    let job = Job { id: new.id, name: new.name };
    state.push(job);
    Ok(())
}

/// The stored job with this id.
pub fn get_job(state: &AppState, id: u64) -> (res: Result<Job, JobError>)
    ensures
        match find_job(state@, id) {
            Some(j) => res matches Ok(job) && job@ == j,
            None => res matches Err(JobError::NotFound(n)) && n == id,
        },
{
    state.find_by_id(id)
}

} // verus!
