//! What the scheduler does with a worker's report: it records heartbeats,
//! counts the jobs each worker runs, and answers the client whose job ended.
use vstd::prelude::*;

use super::pool::{HeartbeatMap, LoadMap};
use crate::http::response::{reason_body, response_text, result_body, Response, StatusCode};
use crate::workers::model::WorkerSignal;

verus! {

/// What is left to do after a report.
pub enum FeedbackAction {
    /// Nothing to send.
    Nothing,
    /// Send `response` to the client that waits for job `j_id`, then forget
    /// the job.
    Respond { j_id: usize, response: Response },
}

/// The load map after worker `w_id` started a job.
pub open spec fn started_loads(m: Map<usize, usize>, w_id: usize) -> Map<usize, usize> {
    m.insert(
        w_id,
        if m.contains_key(w_id) {
            (m[w_id] + 1) as usize
        } else {
            1
        },
    )
}

/// The load map after worker `w_id` ended a job; the count moves only when a
/// client waits for the job and the worker has a job counted.
pub open spec fn ended_loads(m: Map<usize, usize>, w_id: usize, job_waiting: bool) -> Map<usize, usize> {
    if job_waiting && m.contains_key(w_id) && m[w_id] != 0 {
        m.insert(w_id, (m[w_id] - 1) as usize)
    } else {
        m
    }
}

/// A job's end that no client waits for leaves the load map as it is; one
/// that a client waits for takes one job off the worker's count, where it
/// has any, and leaves every other worker's count as it is.
pub proof fn lemma_ended_loads(m: Map<usize, usize>, w_id: usize, job_waiting: bool)
    ensures
        !job_waiting ==> ended_loads(m, w_id, job_waiting) == m,
        ended_loads(m, w_id, job_waiting).dom() == m.dom(),
        forall|k: usize| k != w_id && m.contains_key(k) ==> #[trigger] ended_loads(m, w_id, job_waiting)[k] == m[k],
        job_waiting && m.contains_key(w_id) && m[w_id] > 0 ==> ended_loads(m, w_id, job_waiting)[w_id] == m[w_id]
            - 1,
        m.contains_key(w_id) && m[w_id] == 0 ==> ended_loads(m, w_id, job_waiting)[w_id] == 0,
{
    if job_waiting && m.contains_key(w_id) && m[w_id] != 0 {
        assert(m.insert(w_id, (m[w_id] - 1) as usize).dom() =~= m.dom());
    }
}

/// A job's start adds one job to the worker's count (counting from none
/// where it had no entry) and leaves every other worker's count as it is.
pub proof fn lemma_started_loads(m: Map<usize, usize>, w_id: usize)
    requires
        m.contains_key(w_id) ==> m[w_id] < usize::MAX,
    ensures
        started_loads(m, w_id).contains_key(w_id),
        started_loads(m, w_id)[w_id] == if m.contains_key(w_id) {
            m[w_id] + 1
        } else {
            1
        },
        started_loads(m, w_id).dom() == m.dom().insert(w_id),
        forall|k: usize| k != w_id && m.contains_key(k) ==> #[trigger] started_loads(m, w_id)[k] == m[k],
{
}

/// A report may be handled: a worker that starts a job has fewer than
/// `usize::MAX` jobs counted.
pub open spec fn feedback_allowed(loads: Map<usize, usize>, signal: WorkerSignal) -> bool {
    match signal {
        WorkerSignal::Working { w_id, .. } => loads.contains_key(w_id) ==> loads[w_id] < usize::MAX,
        _ => true,
    }
}

/// Handles one report of a worker, received at time `now`. `job_waiting`
/// tells whether a client still waits for the job the report is about.
pub fn handle_feedback(
    loads: &mut LoadMap,
    beats: &mut HeartbeatMap,
    signal: WorkerSignal,
    job_waiting: bool,
    now: u64,
) -> (r: FeedbackAction)
    requires
        old(loads).wf(),
        old(beats).wf(),
        feedback_allowed(old(loads)@, signal),
    ensures
        final(loads).wf(),
        final(beats).wf(),
        match signal {
            WorkerSignal::HeartBeat { w_id } => {
                &&& final(beats)@ == old(beats)@.insert(w_id, now)
                &&& final(loads)@ == old(loads)@
                &&& r is Nothing
            },
            WorkerSignal::Working { w_id, .. } => {
                &&& final(loads)@ == started_loads(old(loads)@, w_id)
                &&& final(beats)@ == old(beats)@
                &&& r is Nothing
            },
            WorkerSignal::Finished { w_id, j_id, result } => {
                &&& final(loads)@ == ended_loads(old(loads)@, w_id, job_waiting)
                &&& final(beats)@ == old(beats)@
                &&& if job_waiting {
                    r matches FeedbackAction::Respond { j_id: j, response } && j == j_id
                        && response.resp@ == response_text(StatusCode::Success, result_body(result@))
                } else {
                    r is Nothing
                }
            },
            WorkerSignal::Failed { w_id, j_id, reason } => {
                &&& final(loads)@ == ended_loads(old(loads)@, w_id, job_waiting)
                &&& final(beats)@ == old(beats)@
                &&& if job_waiting {
                    r matches FeedbackAction::Respond { j_id: j, response } && j == j_id
                        && response.resp@ == response_text(
                        StatusCode::IntServerError,
                        reason_body(reason@),
                    )
                } else {
                    r is Nothing
                }
            },
        },
        !job_waiting && (signal is Finished || signal is Failed) ==> final(loads)@ == old(loads)@
            && r is Nothing,
        job_waiting && (signal is Finished || signal is Failed) ==> r is Respond,
{
    match signal {
        WorkerSignal::HeartBeat { w_id } => {
            beats.insert(w_id, now);
            FeedbackAction::Nothing
        },
        WorkerSignal::Working { w_id, j_id: _ } => {
            match loads.get(w_id) {
                Some(load) => loads.insert(w_id, load + 1),
                None => loads.insert(w_id, 1),
            }
            FeedbackAction::Nothing
        },
        WorkerSignal::Finished { w_id, j_id, result } => {
            if !job_waiting {
                return FeedbackAction::Nothing;
            }
            end_job(loads, w_id);
            let response = Response::json(StatusCode::Success, result, None);
            FeedbackAction::Respond { j_id, response }
        },
        WorkerSignal::Failed { w_id, j_id, reason } => {
            if !job_waiting {
                return FeedbackAction::Nothing;
            }
            end_job(loads, w_id);
            let response = Response::json(StatusCode::IntServerError, Vec::new(), Some(reason));
            FeedbackAction::Respond { j_id, response }
        },
    }
}

/// Counts one job fewer for worker `w_id`, if it has any counted.
fn end_job(loads: &mut LoadMap, w_id: usize)
    requires
        old(loads).wf(),
    ensures
        final(loads).wf(),
        final(loads)@ == ended_loads(old(loads)@, w_id, true),
{
    match loads.get(w_id) {
        Some(load) => {
            if load != 0 {
                loads.insert(w_id, load - 1);
            }
        },
        None => {},
    }
}

/// A job that starts and then ends while its client waits leaves the load
/// map as it was, when the worker had an entry; a worker without one is left
/// with an entry of no jobs.
pub proof fn lemma_start_then_end(m: Map<usize, usize>, w_id: usize)
    requires
        m.contains_key(w_id) ==> m[w_id] < usize::MAX,
    ensures
        m.contains_key(w_id) ==> ended_loads(started_loads(m, w_id), w_id, true) == m,
        !m.contains_key(w_id) ==> ended_loads(started_loads(m, w_id), w_id, true) == m.insert(w_id, 0),
{
    if m.contains_key(w_id) {
        assert(ended_loads(started_loads(m, w_id), w_id, true) =~= m);
    } else {
        assert(ended_loads(started_loads(m, w_id), w_id, true) =~= m.insert(w_id, 0));
    }
}

} // verus!
