//! Handing a client's job to a worker: the least loaded worker takes it under
//! a fresh job number, or the client is told why no worker could.
use vstd::prelude::*;

use super::utils::{contains_id, JobIds, WorkerRegistry};
use crate::http::response::{reason_body, response_text, Response, StatusCode};

verus! {

/// Entry `i` of `s` is the first among those with the fewest jobs.
pub open spec fn least_loaded_at(s: Seq<(usize, usize)>, i: int) -> bool {
    &&& 0 <= i < s.len()
    &&& forall|j: int| 0 <= j < s.len() ==> s[i].1 <= #[trigger] s[j].1
    &&& forall|j: int| 0 <= j < i ==> s[i].1 < #[trigger] s[j].1
}

/// Worker `id` is the one a job goes to, seeing the load map entries `s`.
pub open spec fn picked_worker(s: Seq<(usize, usize)>, id: usize) -> bool {
    exists|i: int| least_loaded_at(s, i) && #[trigger] s[i].0 == id
}

/// At most one entry is the first with the fewest jobs, so the pick is
/// determined by the load map.
pub proof fn lemma_pick_unique(s: Seq<(usize, usize)>, a: usize, b: usize)
    requires
        picked_worker(s, a),
        picked_worker(s, b),
    ensures
        a == b,
{
    let i = choose|i: int| least_loaded_at(s, i) && #[trigger] s[i].0 == a;
    let k = choose|k: int| least_loaded_at(s, k) && #[trigger] s[k].0 == b;
    if i < k {
        assert(s[k].1 < s[i].1);
    } else if k < i {
        assert(s[i].1 < s[k].1);
    }
}

/// The reason given when the load map is empty.
pub open spec fn no_workers_reason() -> Seq<char> {
    "Failed to attach task to a worker because there are no workers"@
}

/// The reason given when the picked worker is not in the pool.
pub open spec fn inconsistent_ids_reason() -> Seq<char> {
    "Failed to attach task to a worker because of inconsistent worker id's"@
}

/// Where a client's job goes.
pub enum Dispatch {
    /// Send the job to worker `w_id` under job number `j_id`.
    Send { w_id: usize, j_id: usize },
    /// No worker can take the job: answer the client with `response`.
    Reject { response: Response },
}

/// Picks the worker for a new job: the first, in load map order, among those
/// with the fewest jobs. When that worker is in the pool the job gets the
/// next job number; otherwise the client gets an error response.
pub fn dispatch_job(registry: &WorkerRegistry, job_ids: &mut JobIds) -> (r: Dispatch)
    requires
        registry.wf(),
    ensures
        ({
            let s = registry.loads.order();
            match r {
                Dispatch::Send { w_id, j_id } => {
                    &&& picked_worker(s, w_id)
                    &&& registry.ids@.contains(w_id)
                    &&& j_id == old(job_ids).next_id()
                    &&& final(job_ids).next_id() == if old(job_ids).next_id() == usize::MAX {
                        0
                    } else {
                        (old(job_ids).next_id() + 1) as usize
                    }
                },
                Dispatch::Reject { response } => {
                    &&& final(job_ids).next_id() == old(job_ids).next_id()
                    &&& if s.len() == 0 {
                        response.resp@ == response_text(
                            StatusCode::IntServerError,
                            reason_body(no_workers_reason()),
                        )
                    } else {
                        &&& exists|id: usize| picked_worker(s, id) && !registry.ids@.contains(id)
                        &&& response.resp@ == response_text(
                            StatusCode::IntServerError,
                            reason_body(inconsistent_ids_reason()),
                        )
                    }
                },
            }
        }),
        registry.loads.order().len() > 0 && (forall|id: usize|
            picked_worker(registry.loads.order(), id) ==> registry.ids@.contains(id)) ==> r is Send,
{
    match registry.least_loaded() {
        None => {
            let reason = String::from_str("Failed to attach task to a worker because there are no workers");
            Dispatch::Reject { response: Response::json(StatusCode::IntServerError, Vec::new(), Some(reason)) }
        },
        Some(id) => {
            proof {
                let s = registry.loads.order();
                let i = choose|i: int|
                    0 <= i < s.len() && #[trigger] s[i].0 == id && (forall|j: int|
                        0 <= j < s.len() ==> s[i].1 <= #[trigger] s[j].1) && (forall|j: int|
                        0 <= j < i ==> s[i].1 < #[trigger] s[j].1);
                assert(least_loaded_at(s, i));
                assert(picked_worker(s, id));
            }
            if contains_id(&registry.ids, id) {
                let j_id = job_ids.generate_job_id();
                Dispatch::Send { w_id: id, j_id }
            } else {
                proof {
                    assert forall|other: usize| picked_worker(registry.loads.order(), other) implies other == id by {
                        lemma_pick_unique(registry.loads.order(), other, id);
                    }
                }
                let reason = String::from_str(
                    "Failed to attach task to a worker because of inconsistent worker id's",
                );
                Dispatch::Reject { response: Response::json(StatusCode::IntServerError, Vec::new(), Some(reason)) }
            }
        },
    }
}

} // verus!
