//! The experiment daemon's status record and how each step of its job
//! loop changes it.
use vstd::prelude::*;

verus! {

/// How many finished jobs the status file remembers.
pub const MAX_RECENT: usize = 20;

/// One job as shown by `wezel experiment daemon status`.
#[derive(Debug, Clone)]
pub struct JobStatus {
    pub id: u64,
    pub experiment: String,
    pub commit_sha: String,
    pub status: String,
    pub error: Option<String>,
}

/// The recent jobs after one more finished: appended, and the oldest
/// dropped once there are more than `MAX_RECENT`.
pub open spec fn spec_push_recent(recent: Seq<JobStatus>, finished: JobStatus) -> Seq<JobStatus> {
    let r = recent.push(finished);
    if r.len() > MAX_RECENT {
        r.drop_first()
    } else {
        r
    }
}

/// Records a finished job in the recent-jobs list.
pub fn push_recent(recent: &mut Vec<JobStatus>, finished: JobStatus)
    ensures
        final(recent)@ == spec_push_recent(old(recent)@, finished),
{
    recent.push(finished);
    if recent.len() > MAX_RECENT {
        recent.remove(0);
    }
}

/// The recent-jobs list never outgrows its bound, and the job just
/// finished is always its newest entry.
pub proof fn law_recent_jobs_bounded(recent: Seq<JobStatus>, finished: JobStatus)
    requires
        recent.len() <= MAX_RECENT,
    ensures
        spec_push_recent(recent, finished).len() <= MAX_RECENT,
        spec_push_recent(recent, finished).last() == finished,
{
}


pub open spec fn opt_str(v: Option<String>) -> Option<Seq<char>> {
    match v {
        Some(s) => Some(s@),
        None => None,
    }
}

/// The status a finished job is recorded with: `complete` without an
/// error, `failed` with the error message otherwise.
pub open spec fn finished_ok(j: JobStatus, id: u64, experiment: Seq<char>, sha: Seq<char>, error: Option<Seq<char>>) -> bool {
    &&& j.id == id
    &&& j.experiment@ == experiment
    &&& j.commit_sha@ == sha
    &&& j.status@ == (if error is None {
        "complete"@
    } else {
        "failed"@
    })
    &&& opt_str(j.error) == error
}

/// What the daemon's status file holds.
#[derive(Debug)]
pub struct DaemonStatus {
    pub pid: u32,
    pub upstream: String,
    pub server_url: String,
    pub started_at: String,
    pub current_job: Option<JobStatus>,
    pub recent: Vec<JobStatus>,
}

impl DaemonStatus {
    pub open spec fn wf(&self) -> bool {
        self.recent@.len() <= MAX_RECENT
    }

    /// A daemon that just started: no job yet.
    pub fn new(pid: u32, upstream: String, server_url: String, started_at: String) -> (r: Self)
        ensures
            r.wf(),
            r.pid == pid,
            r.upstream@ == upstream@,
            r.server_url@ == server_url@,
            r.started_at@ == started_at@,
            r.current_job is None,
            r.recent@.len() == 0,
    {
        DaemonStatus { pid, upstream, server_url, started_at, current_job: None, recent: Vec::new() }
    }

    /// The server had no job for us.
    pub fn idle(&mut self)
        ensures
            final(self).current_job is None,
            final(self).recent@ == old(self).recent@,
            final(self).pid == old(self).pid,
            final(self).upstream@ == old(self).upstream@,
            final(self).server_url@ == old(self).server_url@,
            final(self).started_at@ == old(self).started_at@,
    {
        self.current_job = None;
    }

    /// A job was claimed and is now running.
    pub fn claimed(&mut self, id: u64, experiment: &str, commit_sha: &str)
        ensures
            final(self).current_job matches Some(j) && j.id == id && j.experiment@ == experiment@
                && j.commit_sha@ == commit_sha@ && j.status@ == "running"@ && j.error is None,
            final(self).recent@ == old(self).recent@,
            final(self).pid == old(self).pid,
            final(self).upstream@ == old(self).upstream@,
            final(self).server_url@ == old(self).server_url@,
            final(self).started_at@ == old(self).started_at@,
    {
        self.current_job = Some(JobStatus {
            id,
            experiment: experiment.to_string(),
            commit_sha: commit_sha.to_string(),
            status: "running".to_string(),
            error: None,
        });
    }

    /// The running job ended, with `error` when it failed. Returns the
    /// status to report for the job on the server.
    pub fn finished(&mut self, id: u64, experiment: &str, commit_sha: &str, error: Option<String>) -> (reported: &'static str)
        requires
            old(self).wf(),
        ensures
            final(self).wf(),
            final(self).current_job is None,
            final(self).recent@.len() > 0,
            final(self).recent@ == spec_push_recent(old(self).recent@, final(self).recent@.last()),
            finished_ok(final(self).recent@.last(), id, experiment@, commit_sha@, opt_str(error)),
            reported@ == (if error is None {
                "complete"@
            } else {
                "failed"@
            }),
            final(self).pid == old(self).pid,
            final(self).upstream@ == old(self).upstream@,
            final(self).server_url@ == old(self).server_url@,
            final(self).started_at@ == old(self).started_at@,
    {
        let ghost err = opt_str(error);
        let failed = error.is_some();
        let job = JobStatus {
            id,
            experiment: experiment.to_string(),
            commit_sha: commit_sha.to_string(),
            status: if failed {
                "failed".to_string()
            } else {
                "complete".to_string()
            },
            error,
        };
        assert(finished_ok(job, id, experiment@, commit_sha@, err));
        self.current_job = None;
        push_recent(&mut self.recent, job);
        if failed {
            "failed"
        } else {
            "complete"
        }
    }
}

} // verus!
