//! Sequential driving of the external build engine over resolved jobs.
//!
//! The engine call itself is I/O performed by the caller; this module holds
//! the decisions: which job to run next, and that after the first failure
//! no further job is ever issued.  The caller asks [`BuildOrchestrator::next_job`]
//! for the next job's index, performs that build, and hands the outcome to
//! [`BuildOrchestrator::record`]; [`BuildOrchestrator::outcome`] is the
//! final verdict.

use crate::config::RenderConfig;
use vstd::prelude::*;

verus! {

/// One language's build failed: the run stops, earlier outputs stay.
#[derive(Debug, PartialEq)]
pub struct BuildError {
    /// The language whose build failed.
    pub language: String,
    /// What the build engine reported.
    pub message: String,
}

impl Clone for BuildError {
    /// A copy equal to the original.
    fn clone(&self) -> (r: BuildError)
        ensures
            r == *self,
    {
        BuildError { language: self.language.clone(), message: self.message.clone() }
    }
}

/// The state of one sequential run over a resolved job list: how many jobs
/// have succeeded, and the first failure if one occurred.
#[derive(Debug, PartialEq)]
pub struct BuildOrchestrator {
    /// Index of the next job to run; all earlier jobs succeeded.
    pub next: usize,
    /// The first failure, after which no further job is issued.
    pub failure: Option<BuildError>,
}

impl BuildOrchestrator {
    /// The index the orchestrator will issue next, or `None` when the run
    /// is over: every job has been built, or an earlier one failed.
    pub open spec fn spec_next_job(self, config: RenderConfig) -> Option<int> {
        if self.failure is Some || self.next >= config.0@.len() {
            None
        } else {
            Some(self.next as int)
        }
    }

    /// A fresh run: nothing built, nothing failed.
    pub fn new() -> (r: BuildOrchestrator)
        ensures
            r.next == 0,
            r.failure is None,
    {
        BuildOrchestrator { next: 0, failure: None }
    }

    /// Index of the next job to build, or `None` when the run is over.
    pub fn next_job(&self, config: &RenderConfig) -> (r: Option<usize>)
        ensures
            r matches Some(i) ==> self.spec_next_job(*config) == Some(i as int),
            r is None ==> self.spec_next_job(*config) is None,
    {
        if self.failure.is_some() {
            None
        } else if self.next < config.0.len() {
            Some(self.next)
        } else {
            None
        }
    }

    /// Records the engine's outcome for the job last issued by `next_job`.
    /// Success moves on to the next job; failure ends the run, naming the
    /// failed job's language and wrapping the engine's message.
    pub fn record(&mut self, config: &RenderConfig, outcome: Result<(), String>)
        requires
            old(self).spec_next_job(*config) is Some,
        ensures
            outcome is Ok ==> final(self).next == old(self).next + 1,
            outcome is Ok ==> final(self).failure is None,
            outcome matches Err(m) ==> final(self).next == old(self).next,
            outcome matches Err(m) ==> (final(self).failure matches Some(e) && e.language@
                == config.0@[old(self).next as int].language@ && e.message@ == m@),
    {
        match outcome {
            Ok(()) => {
                let n: usize = config.0.len();
                proof {
                    assert(self.next < n);
                }
                self.next = self.next + 1;
            },
            Err(m) => {
                let item = &config.0[self.next];
                self.failure = Some(BuildError { language: item.language.clone(), message: m });
            },
        }
    }

    /// The final verdict of a run: `Ok` when no job failed, else the first
    /// failure.
    pub fn outcome(self) -> (r: Result<(), BuildError>)
        ensures
            self.failure is None ==> r is Ok,
            self.failure matches Some(e) ==> r == Result::<(), BuildError>::Err(e),
    {
        match self.failure {
            Some(e) => Err(e),
            None => Ok(()),
        }
    }

    /// Law: once a job has failed, the orchestrator never issues another,
    /// so the jobs after the first failure are never attempted.
    pub proof fn lemma_short_circuit(self, config: RenderConfig)
        requires
            self.failure is Some,
        ensures
            self.spec_next_job(config) is None,
    {
    }

}

} // verus!
