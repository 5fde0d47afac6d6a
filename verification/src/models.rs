//! The job records kept by the job store.

use vstd::prelude::*;

verus! {

/// A job as submitted.
#[derive(Debug)]
pub struct NewJob {
    pub id: u64,
    pub name: String,
}

/// A stored job.
#[derive(Clone, Debug, PartialEq, Eq)]
pub struct Job {
    pub id: u64,
    pub name: String,
}

pub struct JobView {
    pub id: u64,
    pub name: Seq<char>,
}

impl View for Job {
    type V = JobView;

    open spec fn view(&self) -> JobView {
        JobView { id: self.id, name: self.name@ }
    }
}

impl Job {
    /// A copy of this job.
    pub fn copy(&self) -> (job: Job)
        ensures
            job@ == self@,
    {
        Job { id: self.id, name: self.name.clone() }
    }
}

/// Why a job request failed.
#[derive(Debug, PartialEq, Eq)]
pub enum JobError {
    /// No stored job has this id.
    NotFound(u64),
}

} // verus!
