use longrunner::channel::CHANNEL_CAPACITY;
use longrunner::coordinator::{
    Cancellation, LongRunner, LongRunnerError, Settlement, Started, CANCEL_GRACE_MILLIS,
};
use longrunner::messages::{Call, Emission, Request, RequestMessage, Response};
use longrunner::process::{
    Job, LongRunnerProcess, Pool, ProcessEmission, ProcessRequest, ProcessTools, Status,
};
use longrunner::router::LongRunnerCtx;

fn job(origin: u128) -> Job {
    Job { origin, pausable: true }
}

fn fresh_tools(started: Started) -> ProcessTools {
    match started {
        Started::Fresh(tools) => tools,
        Started::Resumed { .. } => panic!("expected a fresh start"),
    }
}

fn running(runner: &mut LongRunner, id: u128, job: Job) -> ProcessTools {
    runner.enqueue(id, job).unwrap();
    fresh_tools(runner.run(id).unwrap())
}

fn emit(text: &str) -> ProcessEmission {
    ProcessEmission::Emit(String::from(text))
}

fn log(lines: &[&str]) -> ProcessEmission {
    ProcessEmission::Log(lines.iter().map(|line| String::from(*line)).collect())
}

#[test]
fn new_coordinator_is_empty() {
    let runner = LongRunner::new();
    assert!(!runner.contains(1));
    assert_eq!(runner.pool_of(1), None);
    assert!(runner.ids_in(Pool::Queued).is_empty());
    assert_eq!(runner.status(1), Err(LongRunnerError::UnknownProcess));
    assert!(runner.process(1).is_none());
}

#[test]
fn queue_adds_a_queued_process_at_the_end_of_the_line() {
    let mut runner = LongRunner::new();
    let first = runner.queue(job(10)).unwrap();
    let second = runner.queue(Job { origin: 11, pausable: false }).unwrap();
    assert_eq!(runner.ids_in(Pool::Queued), vec![first, second]);
    assert_eq!(runner.pool_of(first), Some(Pool::Queued));
    assert_eq!(runner.status(second), Ok(Status::Queued));
    let process = runner.process(second).unwrap();
    assert_eq!(process.guid(), second);
    assert_eq!(process.origin(), 11);
    assert!(!process.is_pausable());
    assert!(!process.is_bound());
    assert!(!process.is_cancel_requested());
    assert!(process.log().is_empty());
    assert!(runner.process(first).unwrap().is_pausable());
}

#[test]
fn enqueue_refuses_an_identifier_that_is_taken() {
    let mut runner = LongRunner::new();
    assert_eq!(runner.enqueue(1, job(10)), Ok(()));
    assert_eq!(runner.enqueue(1, job(11)), Err(LongRunnerError::IdCollision));
    assert_eq!(runner.ids_in(Pool::Queued), vec![1]);
    assert_eq!(runner.process(1).unwrap().origin(), 10);
    runner.kill(1).unwrap();
    assert_eq!(runner.enqueue(1, job(12)), Err(LongRunnerError::IdCollision));
    assert_eq!(runner.status(1), Ok(Status::Stopped));
}

#[test]
fn run_moves_a_queued_process_to_the_running_pool() {
    let mut runner = LongRunner::new();
    runner.enqueue(1, job(10)).unwrap();
    runner.enqueue(2, job(10)).unwrap();
    runner.enqueue(3, job(10)).unwrap();
    assert!(matches!(runner.run(2), Ok(Started::Fresh(_))));
    assert_eq!(runner.ids_in(Pool::Queued), vec![1, 3]);
    assert_eq!(runner.pool_of(2), Some(Pool::Running));
    assert_eq!(runner.status(2), Ok(Status::Running));
    assert!(runner.process(2).unwrap().is_bound());
    assert_eq!(runner.pool_of(1), Some(Pool::Queued));
    assert_eq!(runner.pool_of(3), Some(Pool::Queued));
}

#[test]
fn run_fails_for_a_process_that_is_neither_queued_nor_paused() {
    let mut runner = LongRunner::new();
    assert!(matches!(runner.run(1), Err(LongRunnerError::UnknownProcess)));
    let _tools = running(&mut runner, 1, job(10));
    assert!(matches!(runner.run(1), Err(LongRunnerError::UnknownProcess)));
    assert_eq!(runner.status(1), Ok(Status::Running));
    runner.finish(1, String::from("done")).unwrap();
    assert!(matches!(runner.run(1), Err(LongRunnerError::UnknownProcess)));
    assert_eq!(runner.status(1), Ok(Status::Finished(String::from("done"))));
}

#[test]
fn pause_signals_the_process_and_moves_it_to_the_paused_pool() {
    let mut runner = LongRunner::new();
    let mut tools = running(&mut runner, 1, job(10));
    assert_eq!(runner.pause(1), Ok(true));
    assert_eq!(runner.pool_of(1), Some(Pool::Paused));
    assert_eq!(runner.status(1), Ok(Status::Paused));
    assert_eq!(tools.requests.try_recv().ok(), Some(ProcessRequest::Pause));
    assert!(tools.requests.try_recv().is_err());
    assert!(runner.process(1).unwrap().is_bound());
}

#[test]
fn pause_of_a_process_that_cannot_be_suspended_is_unsupported() {
    let mut runner = LongRunner::new();
    let mut tools = running(&mut runner, 1, Job { origin: 10, pausable: false });
    assert_eq!(runner.pause(1), Err(LongRunnerError::Unsupported));
    assert_eq!(runner.status(1), Ok(Status::Running));
    assert!(tools.requests.try_recv().is_err());
}

#[test]
fn pause_fails_for_a_process_that_is_not_running() {
    let mut runner = LongRunner::new();
    assert_eq!(runner.pause(1), Err(LongRunnerError::UnknownProcess));
    runner.enqueue(1, job(10)).unwrap();
    assert_eq!(runner.pause(1), Err(LongRunnerError::UnknownProcess));
    runner.enqueue(2, Job { origin: 10, pausable: false }).unwrap();
    assert_eq!(runner.pause(2), Err(LongRunnerError::UnknownProcess));
    let _tools = fresh_tools(runner.run(1).unwrap());
    runner.pause(1).unwrap();
    assert_eq!(runner.pause(1), Err(LongRunnerError::UnknownProcess));
    assert_eq!(runner.status(1), Ok(Status::Paused));
}

#[test]
fn run_continues_a_paused_process() {
    let mut runner = LongRunner::new();
    let mut tools = running(&mut runner, 1, job(10));
    runner.pause(1).unwrap();
    match runner.run(1) {
        Ok(Started::Resumed { signalled }) => assert!(signalled),
        _ => panic!("expected the process to be continued"),
    }
    assert_eq!(runner.status(1), Ok(Status::Running));
    assert_eq!(tools.requests.try_recv().ok(), Some(ProcessRequest::Pause));
    assert_eq!(tools.requests.try_recv().ok(), Some(ProcessRequest::Resume));
}

#[test]
fn a_signal_that_the_process_cannot_take_is_reported() {
    let mut runner = LongRunner::new();
    let tools = running(&mut runner, 1, job(10));
    drop(tools);
    assert_eq!(runner.pause(1), Ok(false));
    assert_eq!(runner.status(1), Ok(Status::Paused));
    match runner.run(1) {
        Ok(Started::Resumed { signalled }) => assert!(!signalled),
        _ => panic!("expected the process to be continued"),
    }
    assert_eq!(runner.cancel(1), Ok(Cancellation::Pending { signalled: false }));
}

#[test]
fn kill_stops_a_live_process_whatever_it_does() {
    let mut runner = LongRunner::new();
    runner.enqueue(1, job(10)).unwrap();
    let _running = running(&mut runner, 2, job(10));
    let _paused = running(&mut runner, 3, job(10));
    runner.pause(3).unwrap();
    for id in [1, 2, 3] {
        assert_eq!(runner.kill(id), Ok(()));
        assert_eq!(runner.status(id), Ok(Status::Stopped));
        assert_eq!(runner.pool_of(id), Some(Pool::Finished));
        assert!(!runner.is_live(id));
        assert!(!runner.process(id).unwrap().is_bound());
    }
    assert!(runner.ids_in(Pool::Queued).is_empty());
}

#[test]
fn kill_closes_the_channels_of_the_process() {
    let mut runner = LongRunner::new();
    let mut tools = running(&mut runner, 1, job(10));
    runner.kill(1).unwrap();
    assert!(tools.emitter.try_send(emit("too late")).is_err());
    assert_eq!(
        tools.requests.try_recv(),
        Err(tokio::sync::mpsc::error::TryRecvError::Disconnected)
    );
}

#[test]
fn kill_fails_for_unknown_and_for_ended_processes() {
    let mut runner = LongRunner::new();
    assert_eq!(runner.kill(1), Err(LongRunnerError::UnknownProcess));
    let _tools = running(&mut runner, 1, job(10));
    runner.fail(1, String::from("boom")).unwrap();
    assert_eq!(runner.kill(1), Err(LongRunnerError::UnknownProcess));
    assert_eq!(runner.status(1), Ok(Status::Errored(String::from("boom"))));
    runner.enqueue(2, job(10)).unwrap();
    runner.kill(2).unwrap();
    assert_eq!(runner.kill(2), Err(LongRunnerError::UnknownProcess));
}

#[test]
fn cancel_stops_queued_and_paused_processes_at_once() {
    let mut runner = LongRunner::new();
    runner.enqueue(1, job(10)).unwrap();
    let _tools = running(&mut runner, 2, job(10));
    runner.pause(2).unwrap();
    assert_eq!(runner.cancel(1), Ok(Cancellation::Stopped));
    assert_eq!(runner.cancel(2), Ok(Cancellation::Stopped));
    assert_eq!(runner.status(1), Ok(Status::Stopped));
    assert_eq!(runner.status(2), Ok(Status::Stopped));
    assert!(runner.ids_in(Pool::Queued).is_empty());
}

#[test]
fn cancel_asks_a_running_process_to_wind_down() {
    let mut runner = LongRunner::new();
    let mut tools = running(&mut runner, 1, job(10));
    assert_eq!(runner.cancel(1), Ok(Cancellation::Pending { signalled: true }));
    assert_eq!(runner.status(1), Ok(Status::Running));
    assert!(runner.is_live(1));
    assert!(runner.process(1).unwrap().is_cancel_requested());
    assert_eq!(tools.requests.try_recv().ok(), Some(ProcessRequest::Cancel));
}

#[test]
fn an_acknowledged_cancel_is_settled_gracefully() {
    let mut runner = LongRunner::new();
    let _tools = running(&mut runner, 1, job(10));
    runner.cancel(1).unwrap();
    assert_eq!(runner.settle_cancel(1, true), Ok(Settlement::Graceful));
    assert_eq!(runner.status(1), Ok(Status::Stopped));
    assert!(!runner.process(1).unwrap().is_cancel_requested());
    assert_eq!(runner.settle_cancel(1, true), Err(LongRunnerError::UnknownProcess));
}

#[test]
fn a_cancel_without_acknowledgement_is_forced() {
    let mut runner = LongRunner::new();
    let _tools = running(&mut runner, 1, job(10));
    runner.cancel(1).unwrap();
    assert_eq!(runner.settle_cancel(1, false), Ok(Settlement::Forced));
    assert_eq!(runner.status(1), Ok(Status::Stopped));
    assert_eq!(runner.pool_of(1), Some(Pool::Finished));
}

#[test]
fn settling_without_a_pending_cancel_is_forced() {
    let mut runner = LongRunner::new();
    let _tools = running(&mut runner, 1, job(10));
    assert_eq!(runner.settle_cancel(1, true), Ok(Settlement::Forced));
    assert_eq!(runner.status(1), Ok(Status::Stopped));
    assert_eq!(runner.settle_cancel(2, true), Err(LongRunnerError::UnknownProcess));
}

#[test]
fn cancel_fails_for_unknown_and_for_ended_processes() {
    let mut runner = LongRunner::new();
    assert_eq!(runner.cancel(1), Err(LongRunnerError::UnknownProcess));
    runner.enqueue(1, job(10)).unwrap();
    runner.cancel(1).unwrap();
    assert_eq!(runner.cancel(1), Err(LongRunnerError::UnknownProcess));
}

#[test]
fn the_grace_period_is_five_seconds() {
    assert_eq!(CANCEL_GRACE_MILLIS, 5_000);
}

#[test]
fn finish_and_fail_end_only_a_running_process() {
    let mut runner = LongRunner::new();
    runner.enqueue(1, job(10)).unwrap();
    assert_eq!(runner.finish(1, String::from("r")), Err(LongRunnerError::UnknownProcess));
    assert_eq!(runner.fail(1, String::from("e")), Err(LongRunnerError::UnknownProcess));
    assert_eq!(runner.status(1), Ok(Status::Queued));
    let _tools = fresh_tools(runner.run(1).unwrap());
    runner.pause(1).unwrap();
    assert_eq!(runner.finish(1, String::from("r")), Err(LongRunnerError::UnknownProcess));
    runner.run(1).unwrap();
    assert_eq!(runner.finish(1, String::from("result")), Ok(()));
    assert_eq!(runner.status(1), Ok(Status::Finished(String::from("result"))));
    assert_eq!(runner.fail(1, String::from("e")), Err(LongRunnerError::UnknownProcess));
    assert_eq!(runner.finish(9, String::from("r")), Err(LongRunnerError::UnknownProcess));

    let _other = running(&mut runner, 2, job(10));
    assert_eq!(runner.fail(2, String::from("disk full")), Ok(()));
    assert_eq!(runner.status(2), Ok(Status::Errored(String::from("disk full"))));
    assert_eq!(runner.pool_of(2), Some(Pool::Finished));
    assert!(!runner.process(2).unwrap().is_bound());
}

#[test]
fn status_is_a_copy() {
    let mut runner = LongRunner::new();
    let _tools = running(&mut runner, 1, job(10));
    let before = runner.status(1).unwrap();
    runner.finish(1, String::from("result")).unwrap();
    assert_eq!(before, Status::Running);
    assert_eq!(runner.status(1), Ok(Status::Finished(String::from("result"))));
}

#[test]
fn absorb_wraps_a_result_with_the_correlation_id() {
    let mut runner = LongRunner::new();
    let _tools = running(&mut runner, 1, job(10));
    assert_eq!(runner.absorb(1, emit("beat")), Ok(Some(Emission::result(10, String::from("beat")))));
    assert!(runner.log(1).unwrap().is_empty());
}

#[test]
fn absorb_appends_log_lines_to_the_log() {
    let mut runner = LongRunner::new();
    let _tools = running(&mut runner, 1, job(10));
    assert_eq!(runner.absorb(1, log(&["a", "b"])), Ok(None));
    assert_eq!(runner.absorb(1, log(&[])), Ok(None));
    assert_eq!(runner.absorb(1, log(&["c"])), Ok(None));
    assert_eq!(runner.log(1), Ok(vec![String::from("a"), String::from("b"), String::from("c")]));
    assert_eq!(runner.process(1).unwrap().log().len(), 3);
    runner.kill(1).unwrap();
    assert_eq!(runner.log(1).unwrap().len(), 3);
    assert_eq!(runner.log(2), Err(LongRunnerError::UnknownProcess));
}

#[test]
fn absorb_fails_for_a_process_that_is_not_running() {
    let mut runner = LongRunner::new();
    assert_eq!(runner.absorb(1, emit("x")), Err(LongRunnerError::UnknownProcess));
    runner.enqueue(1, job(10)).unwrap();
    assert_eq!(runner.absorb(1, log(&["x"])), Err(LongRunnerError::UnknownProcess));
    assert!(runner.log(1).unwrap().is_empty());
}

#[test]
fn forward_drains_the_channel_in_send_order() {
    let mut runner = LongRunner::new();
    let tools = running(&mut runner, 1, job(10));
    tools.emitter.try_send(emit("one")).unwrap();
    tools.emitter.try_send(log(&["started", "working"])).unwrap();
    tools.emitter.try_send(emit("two")).unwrap();
    tools.emitter.try_send(log(&["done"])).unwrap();
    tools.emitter.try_send(emit("three")).unwrap();
    let pushed = runner.forward(1).unwrap();
    assert_eq!(
        pushed,
        vec![
            Emission { guid: 10, message: Response::LongRunner(String::from("one")) },
            Emission { guid: 10, message: Response::LongRunner(String::from("two")) },
            Emission { guid: 10, message: Response::LongRunner(String::from("three")) },
        ]
    );
    assert_eq!(
        runner.log(1).unwrap(),
        vec![String::from("started"), String::from("working"), String::from("done")]
    );
    assert_eq!(runner.forward(1), Ok(vec![]));
    assert_eq!(runner.status(1), Ok(Status::Running));
}

#[test]
fn forward_takes_at_most_one_channel_full_at_a_time() {
    let mut runner = LongRunner::new();
    let tools = running(&mut runner, 1, job(10));
    let mut sent: usize = 0;
    while sent < CHANNEL_CAPACITY {
        tools.emitter.try_send(emit("x")).unwrap();
        sent += 1;
    }
    assert!(tools.emitter.try_send(emit("overflow")).is_err());
    assert_eq!(runner.forward(1).unwrap().len(), CHANNEL_CAPACITY);
    tools.emitter.try_send(emit("next")).unwrap();
    assert_eq!(runner.forward(1), Ok(vec![Emission::result(10, String::from("next"))]));
}

#[test]
fn forward_fails_for_a_process_that_is_not_running() {
    let mut runner = LongRunner::new();
    assert_eq!(runner.forward(1), Err(LongRunnerError::UnknownProcess));
    let tools = running(&mut runner, 1, job(10));
    tools.emitter.try_send(emit("kept")).unwrap();
    runner.pause(1).unwrap();
    assert_eq!(runner.forward(1), Err(LongRunnerError::UnknownProcess));
    runner.run(1).unwrap();
    assert_eq!(runner.forward(1), Ok(vec![Emission::result(10, String::from("kept"))]));
}

#[test]
fn serve_queues_and_runs_a_process_for_the_call() {
    let mut runner = LongRunner::new();
    let call = Call { guid: 40, request: Request { message: RequestMessage::Heartbeat } };
    let accepted = runner.serve_as(7, call).unwrap();
    assert_eq!(accepted.process, 7);
    assert_eq!(accepted.ack, Emission::ack(40));
    assert_eq!(accepted.reply, Response::Ack(40));
    assert_eq!(runner.status(7), Ok(Status::Running));
    assert!(runner.ids_in(Pool::Queued).is_empty());
    let process = runner.process(7).unwrap();
    assert_eq!(process.origin(), 40);
    assert!(process.is_pausable());
    assert!(process.is_bound());
    assert!(matches!(runner.serve_as(7, call), Err(LongRunnerError::IdCollision)));

    accepted.tools.emitter.try_send(emit("beat")).unwrap();
    assert_eq!(runner.forward(7), Ok(vec![Emission::result(40, String::from("beat"))]));
}

#[test]
fn serve_leaves_the_same_state_as_queue_then_run() {
    let call = Call { guid: 40, request: Request { message: RequestMessage::Heartbeat } };
    let mut served = LongRunner::new();
    served.enqueue(1, job(9)).unwrap();
    let _a = served.serve_as(7, call).unwrap();

    let mut stepwise = LongRunner::new();
    stepwise.enqueue(1, job(9)).unwrap();
    stepwise.enqueue(7, Job::for_call(call)).unwrap();
    let _b = stepwise.run(7).unwrap();

    for pool in [Pool::Queued, Pool::Running, Pool::Paused, Pool::Finished] {
        assert_eq!(served.ids_in(pool), stepwise.ids_in(pool));
    }
    for id in [1, 7] {
        assert_eq!(served.status(id), stepwise.status(id));
        let left = served.process(id).unwrap();
        let right = stepwise.process(id).unwrap();
        assert_eq!(left.origin(), right.origin());
        assert_eq!(left.is_pausable(), right.is_pausable());
        assert_eq!(left.is_bound(), right.is_bound());
    }
}

#[test]
fn heartbeat_request_is_acknowledged_once() {
    let mut ctx: LongRunnerCtx<&str> = LongRunnerCtx::new();
    let mut runner = LongRunner::new();
    let subscriber = ctx.register(1, "cb");
    let call = ctx.send(&subscriber, Request { message: RequestMessage::Heartbeat }).unwrap();
    let guid = call.guid;

    let accepted = runner.serve(call).unwrap();
    assert_eq!(runner.status(accepted.process), Ok(Status::Running));
    assert_eq!(accepted.ack, Emission { guid, message: Response::Ack(guid) });

    let mut invoked: Vec<(u128, Response)> = Vec::new();
    let delivery = ctx.receive(accepted.ack).unwrap();
    for id in delivery.subscribers.iter() {
        assert_eq!(ctx.reducer(*id), Some(&"cb"));
        invoked.push((*id, delivery.payload.clone()));
    }
    assert_eq!(invoked, vec![(subscriber, Response::Ack(guid))]);
    assert!(!ctx.is_pending(guid));

    accepted.tools.emitter.try_send(emit("beat")).unwrap();
    for emission in runner.forward(accepted.process).unwrap() {
        assert_eq!(emission.guid, guid);
        assert_eq!(ctx.receive(emission), None);
    }
    assert_eq!(invoked.len(), 1);
}

#[test]
fn emissions_of_one_process_reach_the_callback_in_order() {
    let mut ctx: LongRunnerCtx<&str> = LongRunnerCtx::new();
    let mut runner = LongRunner::new();
    ctx.register(1, "cb");
    let tools = running(&mut runner, 5, job(77));
    tools.emitter.try_send(emit("e1")).unwrap();
    tools.emitter.try_send(emit("e2")).unwrap();
    let mut seen: Vec<Response> = Vec::new();
    for emission in runner.forward(5).unwrap() {
        ctx.subscribe(77, 1);
        let delivery = ctx.receive(emission).unwrap();
        assert_eq!(delivery.subscribers, vec![1]);
        seen.push(delivery.payload);
    }
    assert_eq!(
        seen,
        vec![
            Response::LongRunner(String::from("e1")),
            Response::LongRunner(String::from("e2")),
        ]
    );
}

#[test]
fn errors_have_words() {
    assert_eq!(LongRunnerError::UnknownProcess.describe(), "unknown process");
    assert_eq!(LongRunnerError::Unsupported.describe(), "unsupported operation");
    assert_eq!(LongRunnerError::IdCollision.describe(), "identifier already in use");
}

#[test]
fn ended_processes_keep_their_status() {
    let mut runner = LongRunner::new();
    let _tools = running(&mut runner, 1, job(10));
    runner.finish(1, String::from("result")).unwrap();
    let _ = runner.run(1);
    let _ = runner.pause(1);
    let _ = runner.cancel(1);
    let _ = runner.kill(1);
    let _ = runner.settle_cancel(1, true);
    let _ = runner.fail(1, String::from("late"));
    let _ = runner.absorb(1, emit("late"));
    let _ = runner.forward(1);
    assert_eq!(runner.status(1), Ok(Status::Finished(String::from("result"))));
    assert_eq!(runner.pool_of(1), Some(Pool::Finished));
}

#[test]
fn each_process_is_listed_in_exactly_one_pool() {
    let mut runner = LongRunner::new();
    let pools = [Pool::Queued, Pool::Running, Pool::Paused, Pool::Finished];
    let mut kept = Vec::new();
    for id in 1..=6u128 {
        runner.enqueue(id, job(100 + id)).unwrap();
    }
    for id in [2, 3, 4, 5, 6] {
        kept.push(fresh_tools(runner.run(id).unwrap()));
    }
    runner.pause(3).unwrap();
    runner.pause(4).unwrap();
    runner.run(4).unwrap();
    runner.finish(5, String::from("done")).unwrap();
    runner.kill(6).unwrap();
    assert_eq!(runner.ids_in(Pool::Queued), vec![1]);
    assert_eq!(runner.ids_in(Pool::Running), vec![2, 4]);
    assert_eq!(runner.ids_in(Pool::Paused), vec![3]);
    assert_eq!(runner.ids_in(Pool::Finished), vec![5, 6]);
    for id in 1..=6u128 {
        let listed: Vec<Pool> =
            pools.iter().copied().filter(|pool| runner.ids_in(*pool).contains(&id)).collect();
        assert_eq!(listed, vec![runner.pool_of(id).unwrap()]);
        assert_eq!(runner.pool_of(id), Some(runner.status(id).unwrap().pool()));
    }
    for pool in pools {
        assert!(!runner.ids_in(pool).contains(&7));
    }
}

#[test]
fn pools_keep_the_order_of_arrival() {
    let mut runner = LongRunner::new();
    let mut kept = Vec::new();
    for id in [10, 20, 30, 40] {
        runner.enqueue(id, job(1)).unwrap();
    }
    for id in [30, 10, 40, 20] {
        kept.push(fresh_tools(runner.run(id).unwrap()));
    }
    assert_eq!(runner.ids_in(Pool::Running), vec![30, 10, 40, 20]);
    runner.pause(40).unwrap();
    runner.pause(30).unwrap();
    assert_eq!(runner.ids_in(Pool::Running), vec![10, 20]);
    assert_eq!(runner.ids_in(Pool::Paused), vec![40, 30]);
    runner.run(40).unwrap();
    assert_eq!(runner.ids_in(Pool::Running), vec![10, 20, 40]);
    runner.kill(20).unwrap();
    runner.cancel(30).unwrap();
    runner.fail(10, String::from("boom")).unwrap();
    assert_eq!(runner.ids_in(Pool::Finished), vec![20, 30, 10]);
    assert_eq!(runner.ids_in(Pool::Running), vec![40]);
    assert!(runner.ids_in(Pool::Paused).is_empty());
    assert!(runner.ids_in(Pool::Queued).is_empty());
}

#[test]
fn forward_all_drains_every_running_process_in_pool_order() {
    let mut runner = LongRunner::new();
    let first = running(&mut runner, 1, job(100));
    let second = running(&mut runner, 2, job(200));
    let third = running(&mut runner, 3, job(300));
    runner.enqueue(4, job(400)).unwrap();
    second.emitter.try_send(emit("b1")).unwrap();
    first.emitter.try_send(emit("a1")).unwrap();
    third.emitter.try_send(emit("c1")).unwrap();
    first.emitter.try_send(log(&["a-log"])).unwrap();
    first.emitter.try_send(emit("a2")).unwrap();
    second.emitter.try_send(log(&["b-log"])).unwrap();
    runner.pause(3).unwrap();
    let pushed = runner.forward_all();
    assert_eq!(
        pushed,
        vec![
            Emission::result(100, String::from("a1")),
            Emission::result(100, String::from("a2")),
            Emission::result(200, String::from("b1")),
        ]
    );
    assert_eq!(runner.log(1), Ok(vec![String::from("a-log")]));
    assert_eq!(runner.log(2), Ok(vec![String::from("b-log")]));
    assert!(runner.log(3).unwrap().is_empty());
    assert_eq!(runner.ids_in(Pool::Running), vec![1, 2]);
    assert_eq!(runner.ids_in(Pool::Paused), vec![3]);
    assert_eq!(runner.ids_in(Pool::Queued), vec![4]);
    assert!(runner.forward_all().is_empty());
    runner.run(3).unwrap();
    assert_eq!(runner.forward_all(), vec![Emission::result(300, String::from("c1"))]);
}

#[test]
fn forward_all_of_an_idle_coordinator_pushes_nothing() {
    let mut runner = LongRunner::new();
    assert!(runner.forward_all().is_empty());
    runner.enqueue(1, job(1)).unwrap();
    assert!(runner.forward_all().is_empty());
    assert_eq!(runner.status(1), Ok(Status::Queued));
}

struct Greeter;

impl LongRunnerProcess for Greeter {
    fn start(proc: std::sync::Arc<tokio::sync::Mutex<ProcessTools>>) {
        let tools = proc.try_lock().unwrap();
        tools.emitter.try_send(log(&["greeter started"])).unwrap();
        tools.emitter.try_send(emit("hello")).unwrap();
    }
}

#[test]
fn a_process_works_with_the_tools_that_run_hands_out() {
    let mut runner = LongRunner::new();
    let tools = running(&mut runner, 1, job(10));
    let shared = std::sync::Arc::new(tokio::sync::Mutex::new(tools));
    Greeter::start(shared.clone());
    assert_eq!(runner.forward(1), Ok(vec![Emission::result(10, String::from("hello"))]));
    assert_eq!(runner.log(1), Ok(vec![String::from("greeter started")]));
    runner.cancel(1).unwrap();
    let mut tools = shared.try_lock().unwrap();
    assert_eq!(tools.requests.try_recv().ok(), Some(ProcessRequest::Cancel));
}

#[test]
fn a_coordinator_without_processes_always_queues_and_serves() {
    let call = Call { guid: 40, request: Request { message: RequestMessage::Heartbeat } };
    let mut round: u32 = 0;
    while round < 16 {
        let mut queueing = LongRunner::new();
        let id = queueing.queue(job(1)).expect("no identifier is taken");
        assert_eq!(queueing.ids_in(Pool::Queued), vec![id]);

        let mut serving = LongRunner::new();
        let accepted = serving.serve(call).expect("no identifier is taken");
        assert_eq!(serving.ids_in(Pool::Running), vec![accepted.process]);
        assert_eq!(accepted.ack, Emission { guid: 40, message: Response::Ack(40) });
        round += 1;
    }
}
