use serverless::http::response::{Response, StatusCode};
use serverless::scheduler::cache_control::{module_plan, plan_fits, CacheChoice};
use serverless::scheduler::cache_tick::{cache_tick, TickEntry};
use serverless::scheduler::eviction::{EvictionQueue, RoomOutcome};
use serverless::scheduler::dispatch::{dispatch_job, Dispatch};
use serverless::scheduler::feedback::{handle_feedback, FeedbackAction};
use serverless::scheduler::monitors::{dead_workers, load_command};
use serverless::scheduler::pool::{HeartbeatMap, LoadMap};
use serverless::scheduler::stats::{
    handle_telemetry, record_new_module, telemetry_fits, ModuleStats, StatsTable, TelemetryAction,
};
use serverless::scheduler::types::{GCCSignal, SchedulerCommand};
use serverless::scheduler::utils::{handle_load, JobIds, PoolChange, WorkerRegistry};
use serverless::workers::model::{CacheErr, CacherTelemetry, WorkerSignal};

const SEC: u64 = 1_000_000_000;

#[test]
fn model_id_gen() {
    let mut ids = JobIds::new();
    let id = ids.generate_job_id();
    assert!(id > 0);
}

#[test]
fn utils_id_gen() {
    let mut ids = JobIds::new();
    let id = ids.generate_job_id();
    assert!(id > 0);
}

#[test]
fn job_ids_count_up_from_one() {
    let mut ids = JobIds::new();
    assert_eq!(ids.generate_job_id(), 1);
    assert_eq!(ids.generate_job_id(), 2);
    assert_eq!(ids.generate_job_id(), 3);
}

fn loads_of(pairs: &[(usize, usize)]) -> LoadMap {
    let mut m = LoadMap::new();
    for (id, load) in pairs {
        m.insert(*id, *load);
    }
    m
}

#[test]
fn load_map_keeps_first_order_and_replaces() {
    let mut m = loads_of(&[(3, 1), (1, 2)]);
    m.insert(3, 9);
    assert_eq!(m.entries(), vec![(3, 9), (1, 2)]);
    assert_eq!(m.get(1), Some(2));
    m.remove(3);
    assert_eq!(m.get(3), None);
    assert_eq!(m.len(), 1);
}

#[test]
fn initial_pool_is_numbered_from_one() {
    let r = WorkerRegistry::initial(3);
    assert_eq!(r.ids, vec![1, 2, 3]);
    assert_eq!(r.loads.entries(), vec![(1, 0), (2, 0), (3, 0)]);
}

#[test]
fn upgrade_numbers_after_pool_size() {
    let mut r = WorkerRegistry::initial(2);
    let added = r.upgrade(2);
    assert_eq!(added, vec![3, 4]);
    assert_eq!(r.ids, vec![1, 2, 3, 4]);
    assert_eq!(r.loads.get(4), Some(0));
}

#[test]
fn downgrade_stops_only_present_workers() {
    let mut r = WorkerRegistry::initial(5);
    let stopped = r.downgrade(&vec![4, 2, 9]);
    assert_eq!(stopped, vec![2, 4]);
    assert_eq!(r.ids, vec![1, 3, 5]);
    assert_eq!(r.loads.get(2), None);
    assert_eq!(r.loads.get(4), None);
    assert_eq!(r.loads.get(5), Some(0));
}

#[test]
fn upgrade_after_downgrade_can_reuse_ids() {
    let mut r = WorkerRegistry::initial(8);
    r.downgrade(&vec![1, 2, 3, 4]);
    let added = r.upgrade(4);
    assert_eq!(added, vec![5, 6, 7, 8]);
    assert_eq!(r.ids, vec![5, 6, 7, 8, 5, 6, 7, 8]);
}

#[test]
fn drop_dead_worker_removes_one() {
    let mut r = WorkerRegistry::initial(3);
    assert!(r.drop_dead_worker(2));
    assert_eq!(r.ids, vec![1, 3]);
    assert!(!r.drop_dead_worker(2));
    assert_eq!(r.loads.get(2), None);
}

#[test]
fn handle_load_carries_out_commands() {
    let mut r = WorkerRegistry::initial(2);
    match handle_load(&mut r, SchedulerCommand::Upgrade(1)) {
        PoolChange::Started(ids) => assert_eq!(ids, vec![3]),
        _ => panic!("expected started workers"),
    }
    match handle_load(&mut r, SchedulerCommand::Downgrade(vec![1])) {
        PoolChange::Stopped(ids) => assert_eq!(ids, vec![1]),
        _ => panic!("expected stopped workers"),
    }
    match handle_load(&mut r, SchedulerCommand::DropDeadWorker(7)) {
        PoolChange::Dropped { id, found } => {
            assert_eq!(id, 7);
            assert!(!found);
        }
        _ => panic!("expected a drop"),
    }
    assert_eq!(r.ids, vec![2, 3]);
}

#[test]
fn least_loaded_takes_first_minimum() {
    let mut r = WorkerRegistry::initial(3);
    r.loads.insert(1, 2);
    r.loads.insert(2, 1);
    r.loads.insert(3, 1);
    assert_eq!(r.least_loaded(), Some(2));
    let empty = WorkerRegistry { ids: Vec::new(), loads: LoadMap::new() };
    assert_eq!(empty.least_loaded(), None);
}

#[test]
fn load_monitor_shrinks_idle_pool() {
    let m = loads_of(&[(1, 0), (2, 5), (3, 0), (4, 0), (5, 0), (6, 0), (7, 1), (8, 0)]);
    match load_command(&m, 16) {
        Some(SchedulerCommand::Downgrade(ids)) => assert_eq!(ids, vec![1, 3, 4, 5]),
        _ => panic!("expected a downgrade"),
    }
}

#[test]
fn load_monitor_keeps_small_pool() {
    let m = loads_of(&[(1, 0), (2, 0), (3, 0), (4, 0), (5, 0), (6, 0), (7, 0)]);
    assert!(load_command(&m, 16).is_none());
}

#[test]
fn load_monitor_grows_busy_pool() {
    let m = loads_of(&[(1, 4), (2, 4), (3, 9), (4, 1)]);
    assert!(matches!(load_command(&m, 8), Some(SchedulerCommand::Upgrade(4))));
    assert!(load_command(&m, 7).is_none());
    let two_of_four = loads_of(&[(1, 4), (2, 4), (3, 1), (4, 1)]);
    assert!(load_command(&two_of_four, 8).is_none());
    let empty = LoadMap::new();
    assert!(matches!(load_command(&empty, 4), Some(SchedulerCommand::Upgrade(4))));
}

#[test]
fn heartbeat_monitor_finds_silent_workers() {
    let mut beats = HeartbeatMap::new();
    beats.insert(1, 10 * SEC);
    beats.insert(2, 3 * SEC);
    beats.insert(3, 4 * SEC);
    beats.insert(4, 20 * SEC);
    assert_eq!(dead_workers(&beats, 10 * SEC), vec![2]);
    assert_eq!(dead_workers(&beats, 0), Vec::<usize>::new());
}

#[test]
fn feedback_counts_jobs_and_answers() {
    let mut loads = loads_of(&[(1, 0)]);
    let mut beats = HeartbeatMap::new();
    let a = handle_feedback(&mut loads, &mut beats, WorkerSignal::Working { w_id: 1, j_id: 7 }, true, 0);
    assert!(matches!(a, FeedbackAction::Nothing));
    assert_eq!(loads.get(1), Some(1));
    let done = handle_feedback(
        &mut loads,
        &mut beats,
        WorkerSignal::Finished { w_id: 1, j_id: 7, result: b"42".to_vec() },
        true,
        0,
    );
    match done {
        FeedbackAction::Respond { j_id, response } => {
            assert_eq!(j_id, 7);
            assert_eq!(response.resp, Response::json(StatusCode::Success, b"42".to_vec(), None).resp);
        }
        _ => panic!("expected an answer"),
    }
    assert_eq!(loads.get(1), Some(0));
}

#[test]
fn feedback_failure_and_unknown_job() {
    let mut loads = loads_of(&[(1, 1)]);
    let mut beats = HeartbeatMap::new();
    let failed = handle_feedback(
        &mut loads,
        &mut beats,
        WorkerSignal::Failed { w_id: 1, j_id: 3, reason: "trap".to_string() },
        true,
        0,
    );
    match failed {
        FeedbackAction::Respond { j_id, response } => {
            assert_eq!(j_id, 3);
            assert_eq!(
                response.resp,
                "HTTP/1.1 500 Internal Server Error\r\nContent-Length: 17\r\nContent-Type: application/json\r\n\r\n{\"reason\":\"trap\"}"
            );
        }
        _ => panic!("expected an answer"),
    }
    assert_eq!(loads.get(1), Some(0));
    let orphan = handle_feedback(
        &mut loads,
        &mut beats,
        WorkerSignal::Finished { w_id: 1, j_id: 4, result: Vec::new() },
        false,
        0,
    );
    assert!(matches!(orphan, FeedbackAction::Nothing));
    let new_worker = handle_feedback(&mut loads, &mut beats, WorkerSignal::Working { w_id: 9, j_id: 5 }, true, 0);
    assert!(matches!(new_worker, FeedbackAction::Nothing));
    assert_eq!(loads.get(9), Some(1));
    handle_feedback(&mut loads, &mut beats, WorkerSignal::HeartBeat { w_id: 9 }, false, 77);
    assert_eq!(beats.get(9), Some(77));
}

#[test]
fn dispatch_picks_least_loaded_worker() {
    let mut r = WorkerRegistry::initial(2);
    r.loads.insert(1, 3);
    let mut ids = JobIds::new();
    match dispatch_job(&r, &mut ids) {
        Dispatch::Send { w_id, j_id } => {
            assert_eq!(w_id, 2);
            assert_eq!(j_id, 1);
        }
        _ => panic!("expected the job to be sent"),
    }
}

#[test]
fn dispatch_refuses_without_workers() {
    let r = WorkerRegistry { ids: Vec::new(), loads: LoadMap::new() };
    let mut ids = JobIds::new();
    match dispatch_job(&r, &mut ids) {
        Dispatch::Reject { response } => assert!(response
            .resp
            .ends_with("{\"reason\":\"Failed to attach task to a worker because there are no workers\"}")),
        _ => panic!("expected a refusal"),
    }
    let stray = WorkerRegistry { ids: vec![1], loads: loads_of(&[(5, 0)]) };
    match dispatch_job(&stray, &mut ids) {
        Dispatch::Reject { response } => assert!(response
            .resp
            .contains("because of inconsistent worker id's")),
        _ => panic!("expected a refusal"),
    }
    assert_eq!(ids.generate_job_id(), 1);
}

#[test]
fn telemetry_records_and_updates_stats() {
    let mut t = StatsTable::new();
    let path = "/invoke/f".to_string();
    let a = handle_telemetry(&mut t, CacherTelemetry::ModuleUsed { path: path.clone() }, 5);
    match a {
        TelemetryAction::LookUpMemory { path: p, cached } => {
            assert_eq!(p, path);
            assert!(!cached);
        }
        _ => panic!("expected a lookup"),
    }
    assert!(record_new_module(&mut t, path.clone(), 100, false, 5));
    assert_eq!(t.memory_usage(), 100);
    let s = t.get(&path).unwrap();
    assert_eq!((s.invokations, s.cached_instances, s.first_invocation), (1, 0, 5));
    handle_telemetry(&mut t, CacherTelemetry::ModuleUsed { path: path.clone() }, 9);
    let s = t.get(&path).unwrap();
    assert_eq!((s.invokations, s.last_invocation, s.pre_last_invocation), (2, 9, Some(5)));
    handle_telemetry(&mut t, CacherTelemetry::ModuleCached { path: path.clone() }, 10);
    assert_eq!(t.get(&path).unwrap().cached_instances, 1);
    t.set(path.clone(), ModuleStats { memory_usage: 40, ..t.get(&path).unwrap() });
    handle_telemetry(&mut t, CacherTelemetry::ModuleEvicted { path: path.clone() }, 11);
    let s = t.get(&path).unwrap();
    assert_eq!((s.cached_instances, s.last_eviction), (0, Some(11)));
    assert_eq!(t.memory_usage(), 60);
}

#[test]
fn telemetry_refuses_negative_memory_and_ignores_failures() {
    let mut t = StatsTable::new();
    assert!(!record_new_module(&mut t, "/invoke/g".to_string(), -1, true, 0));
    assert!(t.get(&"/invoke/g".to_string()).is_none());
    let a = handle_telemetry(
        &mut t,
        CacherTelemetry::FailedToCache { path: "/invoke/g".to_string(), error: CacheErr::NotFound },
        0,
    );
    assert!(matches!(a, TelemetryAction::Done));
    let evict_unknown = handle_telemetry(&mut t, CacherTelemetry::ModuleEvicted { path: "/x".to_string() }, 0);
    assert!(matches!(evict_unknown, TelemetryAction::Done));
    assert_eq!(t.memory_usage(), 0);
}

fn stats(memory: usize, invokations: u64, first: u64, last: u64, pre: Option<u64>, cached: u64) -> ModuleStats {
    ModuleStats {
        memory_usage: memory,
        invokations,
        first_invocation: first,
        last_invocation: last,
        pre_last_invocation: pre,
        last_eviction: None,
        cached_instances: cached,
    }
}

#[test]
fn plan_caches_reused_module_that_fits() {
    let s = stats(1_000, 5, 0, 100 * SEC, Some(90 * SEC), 0);
    let p = module_plan(&s, false, 110 * SEC, 4, 10_000);
    assert!(matches!(p.caching, CacheChoice::Cache));
    assert!(!p.evict_stale);
    assert_eq!(p.candidate, None);
    assert_eq!(p.use_secs, 110);
}

#[test]
fn plan_needs_room_when_memory_is_short() {
    let s = stats(200_000_000, 5, 0, 100 * SEC, Some(90 * SEC), 0);
    let p = module_plan(&s, false, 110 * SEC, 2, 112_000_000);
    match p.caching {
        CacheChoice::NeedsRoom { needed } => assert_eq!(needed, 512_000_000),
        _ => panic!("expected a lack of room"),
    }
}

#[test]
fn plan_evicts_stale_and_lists_rare_modules() {
    let s = stats(10, 2, 0, 10 * SEC, None, 3);
    let p = module_plan(&s, false, 200 * SEC, 4, 0);
    assert!(matches!(p.caching, CacheChoice::Nothing));
    assert!(p.evict_stale);
    assert_eq!(p.candidate, Some(30));
    let busy = stats(10, 100, 0, 10 * SEC, None, 3);
    assert_eq!(module_plan(&busy, false, 200 * SEC, 4, 0).candidate, None);
    let forbidden = module_plan(&s, true, 200 * SEC, 4, 0);
    assert!(!forbidden.evict_stale && forbidden.candidate.is_none());
}

#[test]
fn eviction_queue_takes_least_used_first() {
    let mut q = EvictionQueue::new();
    assert!(q.offer("/invoke/a".to_string(), 100, 0.04f64.to_bits()));
    assert!(q.offer("/invoke/b".to_string(), 300, 0.01f64.to_bits()));
    assert!(q.offer("/invoke/c".to_string(), 200, 0.02f64.to_bits()));
    assert_eq!(q.len(), 3);
    match q.make_room(250, 0.5f64.to_bits()) {
        RoomOutcome::Evicted { path, total } => {
            assert_eq!(path, "/invoke/b");
            assert_eq!(total, 300);
        }
        _ => panic!("expected an eviction"),
    }
    assert_eq!(q.len(), 2);
    assert!(matches!(q.make_room(250, 0.5f64.to_bits()), RoomOutcome::Stuck));
    assert!(matches!(q.make_room(0, 0.5f64.to_bits()), RoomOutcome::Fits));
    q.clear();
    assert!(matches!(q.make_room(1, 0.5f64.to_bits()), RoomOutcome::GiveUp));
}

#[test]
fn eviction_queue_refuses_more_used_candidates() {
    let mut q = EvictionQueue::new();
    q.offer("/invoke/a".to_string(), 500, 0.04f64.to_bits());
    assert!(matches!(q.make_room(100, 0.03f64.to_bits()), RoomOutcome::Stuck));
    assert!(matches!(q.make_room(100, f64::INFINITY.to_bits()), RoomOutcome::Evicted { .. }));
}

#[test]
fn eviction_queue_updates_repeated_candidate() {
    let mut q = EvictionQueue::new();
    q.offer("/invoke/a".to_string(), 5, 0.01f64.to_bits());
    q.offer("/invoke/a".to_string(), 5, 0.04f64.to_bits());
    assert_eq!(q.len(), 1);
    q.offer("/invoke/b".to_string(), 5, 0.02f64.to_bits());
    match q.make_room(5, 1.0f64.to_bits()) {
        RoomOutcome::Evicted { path, .. } => assert_eq!(path, "/invoke/b"),
        _ => panic!("expected an eviction"),
    }
}

#[test]
fn plan_fits_detects_overflow() {
    let s = stats(usize::MAX, 5, 0, 100 * SEC, Some(90 * SEC), 0);
    assert!(!plan_fits(&s, 110 * SEC, 2, 0));
    assert!(plan_fits(&s, 110 * SEC, 1, 0));
    let old = stats(usize::MAX, 5, 0, 10 * SEC, Some(5 * SEC), 0);
    assert!(plan_fits(&old, 110 * SEC, 2, 0));
    let cached = stats(usize::MAX / 2 + 1, 5, 0, 0, None, 2);
    assert!(!plan_fits(&cached, 0, 1, 0));
}

#[test]
fn telemetry_fits_guards_eviction() {
    let mut t = StatsTable::new();
    let path = "/invoke/f".to_string();
    assert!(record_new_module(&mut t, path.clone(), 10, true, 0));
    let evict = CacherTelemetry::ModuleEvicted { path: path.clone() };
    assert!(!telemetry_fits(&t, &evict));
    assert!(record_new_module(&mut t, "/invoke/g".to_string(), 5, false, 0));
    assert!(telemetry_fits(&t, &evict));
    assert!(telemetry_fits(&t, &CacherTelemetry::ModuleUsed { path }));
}

#[test]
fn start_then_end_restores_load() {
    let mut loads = loads_of(&[(1, 3)]);
    let mut beats = HeartbeatMap::new();
    handle_feedback(&mut loads, &mut beats, WorkerSignal::Working { w_id: 1, j_id: 1 }, true, 0);
    handle_feedback(&mut loads, &mut beats, WorkerSignal::Failed { w_id: 1, j_id: 1, reason: String::new() }, true, 0);
    assert_eq!(loads.get(1), Some(3));
}

#[test]
fn cache_then_evict_restores_memory() {
    let mut t = StatsTable::new();
    assert!(record_new_module(&mut t, "/invoke/a".to_string(), 7, false, 0));
    assert!(record_new_module(&mut t, "/invoke/b".to_string(), 30, true, 0));
    handle_telemetry(&mut t, CacherTelemetry::ModuleEvicted { path: "/invoke/b".to_string() }, 1);
    assert_eq!(t.memory_usage(), 7);
    assert_eq!(t.get(&"/invoke/b".to_string()).unwrap().cached_instances, 0);
}

#[test]
fn load_commands_keep_pool_bounds() {
    let mut r = WorkerRegistry::initial(8);
    let cmd = load_command(&r.loads, 20).unwrap();
    handle_load(&mut r, cmd);
    assert_eq!(r.ids.len(), 4);
    for id in 1..=4 {
        r.loads.insert(id + 4, 5);
    }
    let cmd = load_command(&r.loads, 8).unwrap();
    handle_load(&mut r, cmd);
    assert_eq!(r.ids.len(), 8);
    assert!(load_command(&r.loads, 8).is_none());
}

fn entry(path: &str, s: ModuleStats, forbidden: bool, now: u64) -> TickEntry {
    TickEntry { path: path.to_string(), stats: s, forbidden, now, rate_bits: 0 }
}

#[test]
fn cache_tick_caches_reused_and_drops_stale() {
    let now = 1000 * SEC;
    let pass = vec![
        entry("/hot", stats(10, 2, now - 40 * SEC, now - 10 * SEC, Some(now - 20 * SEC), 0), false, now),
        entry("/old", stats(10, 1, 10 * SEC, 20 * SEC, None, 0), false, now),
        entry("/secret", stats(10, 2, now - 40 * SEC, now - 10 * SEC, Some(now - 20 * SEC), 0), true, now),
    ];
    let (signals, stuck) = cache_tick(&pass, 2, 0);
    assert!(!stuck);
    assert_eq!(signals.len(), 2);
    assert!(matches!(&signals[0], GCCSignal::CacheModule { path } if path == "/hot"));
    assert!(matches!(&signals[1], GCCSignal::EvictModule { path } if path == "/old"));
}

#[test]
fn cache_tick_without_candidates_gives_up_on_a_module_that_does_not_fit() {
    let now = 1000 * SEC;
    let pass = vec![entry("/big", stats(400_000_000, 2, now - 40 * SEC, now - 10 * SEC, Some(now - 20 * SEC), 0), false, now)];
    let (signals, stuck) = cache_tick(&pass, 2, 0);
    assert!(!stuck);
    assert!(signals.is_empty());
}

#[test]
fn fresh_job_ids_grow() {
    let mut ids = JobIds::new();
    let a = ids.generate_job_id();
    let b = ids.generate_job_id();
    let c = ids.generate_job_id();
    assert_eq!((a, b, c), (1, 2, 3));
}

fn rated(path: &str, s: ModuleStats, now: u64, rate: f64) -> TickEntry {
    TickEntry { path: path.to_string(), stats: s, forbidden: false, now, rate_bits: rate.to_bits() }
}

#[test]
fn cache_tick_evicts_a_candidate_to_make_room() {
    let now = 1000 * SEC;
    let pass = vec![
        rated("/cold", stats(300_000_000, 1, 0, now - 10 * SEC, None, 2), now, 0.001),
        rated("/big", stats(260_000_000, 2, now - 40 * SEC, now - 10 * SEC, Some(now - 20 * SEC), 0), now, 0.5),
    ];
    let (signals, stuck) = cache_tick(&pass, 2, 0);
    assert!(!stuck);
    assert_eq!(signals.len(), 2);
    assert!(matches!(&signals[0], GCCSignal::EvictModule { path } if path == "/cold"));
    assert!(matches!(&signals[1], GCCSignal::CacheModule { path } if path == "/big"));
}

#[test]
fn cache_tick_gets_stuck_on_a_more_used_candidate() {
    let now = 1000 * SEC;
    let pass = vec![
        rated("/cold", stats(300_000_000, 1, 0, now - 10 * SEC, None, 2), now, 0.001),
        rated("/big", stats(260_000_000, 2, now - 40 * SEC, now - 10 * SEC, Some(now - 20 * SEC), 0), now, 0.0001),
        rated("/old", stats(10, 1, 10 * SEC, 20 * SEC, None, 0), now, 0.5),
    ];
    let (signals, stuck) = cache_tick(&pass, 2, 0);
    assert!(stuck);
    assert!(signals.is_empty());
}
