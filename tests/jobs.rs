use musicgpt::config::MusicGenConfig;
use musicgpt::fanout::{DisconnectReason, FanoutRegistry, SubscribeError};
use musicgpt::job::{
    AdmissionError, CancelError, ErrorKind, Event, EventPayload, GenerationRequest, JobStatus,
    PipelineOutput,
};
use musicgpt::processor::{JobProcessor, ProcessorSettings};

fn request(prompt: &str) -> GenerationRequest {
    GenerationRequest { prompt: prompt.to_string(), config: MusicGenConfig::default() }
}

fn processor(workers: usize, capacity: usize) -> JobProcessor {
    JobProcessor::new(ProcessorSettings { workers, capacity, grace_period: 5 })
}

fn publish(reg: &mut FanoutRegistry, e: Option<Event>) {
    let e = e.expect("an event");
    let id = e.job_id;
    assert!(reg.publish(id, e));
}

#[test]
fn end_to_end_single_job_completes() {
    let mut p = processor(1, 2);
    let mut reg = FanoutRegistry::new(8);
    let id = p.submit(request("calm piano"), 10).unwrap();
    assert_eq!(p.status(id), Some(JobStatus::Queued));
    let token = reg.subscribe(id).unwrap();
    assert_eq!(p.start_next(), Some(id));
    assert_eq!(p.status(id), Some(JobStatus::Running));
    publish(&mut reg, p.record(id, PipelineOutput::Progress(500)));
    assert_eq!(p.status(id), Some(JobStatus::Streaming));
    publish(&mut reg, p.record(id, PipelineOutput::Done("artifacts/0.wav".to_string())));
    assert_eq!(p.status(id), Some(JobStatus::Completed));
    let events = reg.take(token);
    assert_eq!(events.len(), 2);
    assert!(matches!(events[0].payload, EventPayload::Progress(500)));
    assert_eq!(events[0].sequence, 0);
    assert_eq!(events[1].sequence, 1);
    match &events[1].payload {
        EventPayload::Done(artifact) => assert!(!artifact.is_empty()),
        _ => panic!("expected a completion event"),
    }
    assert_eq!(events.iter().filter(|e| e.is_terminal()).count(), 1);
    assert_eq!(p.job_ref(id).unwrap().created_at, 10);
}

#[test]
fn single_worker_keeps_second_job_queued() {
    let mut p = processor(1, 4);
    let first = p.submit(request("calm piano"), 0).unwrap();
    let second = p.submit(request("fast drums"), 1).unwrap();
    assert_eq!(p.start_next(), Some(first));
    assert_eq!(p.start_next(), None);
    assert_eq!(p.status(second), Some(JobStatus::Queued));
    assert!(p.record(first, PipelineOutput::Progress(100)).is_some());
    assert_eq!(p.start_next(), None);
    assert_eq!(p.status(second), Some(JobStatus::Queued));
    assert!(p.record(first, PipelineOutput::Done("a".to_string())).is_some());
    assert_eq!(p.start_next(), Some(second));
    assert_eq!(p.status(second), Some(JobStatus::Running));
}

#[test]
fn internal_fault_fails_job_and_frees_worker() {
    let mut p = processor(1, 4);
    let first = p.submit(request("calm piano"), 0).unwrap();
    let second = p.submit(request("fast drums"), 0).unwrap();
    assert_eq!(p.start_next(), Some(first));
    let e = p.record(first, PipelineOutput::Error(ErrorKind::InternalError, "panic".to_string()));
    let e = e.unwrap();
    assert!(matches!(e.payload, EventPayload::Failure(ErrorKind::InternalError, _)));
    assert_eq!(p.status(first), Some(JobStatus::Failed));
    assert_eq!(p.in_flight_count(), 0);
    assert_eq!(p.start_next(), Some(second));
}

#[test]
fn queue_full_then_admits_after_completion() {
    let mut p = processor(2, 2);
    let a = p.submit(request("one"), 0).unwrap();
    let _b = p.submit(request("two"), 0).unwrap();
    assert_eq!(p.submit(request("three"), 0), Err(AdmissionError::QueueFull));
    assert_eq!(p.job_count(), 2);
    assert_eq!(p.start_next(), Some(a));
    assert!(p.record(a, PipelineOutput::Done("x".to_string())).is_some());
    assert_eq!(p.submit(request("three"), 0), Ok(2));
}

#[test]
fn invalid_request_rejected_before_queue() {
    let mut p = processor(1, 0);
    assert_eq!(p.submit(request(""), 0), Err(AdmissionError::InvalidRequest));
    let mut bad = request("calm piano");
    bad.config.batch_size = 0;
    assert_eq!(p.submit(bad, 0), Err(AdmissionError::InvalidRequest));
    assert_eq!(p.submit(request("calm piano"), 0), Err(AdmissionError::QueueFull));
}

#[test]
fn cancel_queued_job_never_runs() {
    let mut p = processor(1, 4);
    let id = p.submit(request("calm piano"), 0).unwrap();
    let e = p.cancel(id, 3).unwrap().unwrap();
    assert!(matches!(e.payload, EventPayload::Cancellation));
    assert_eq!(e.sequence, 0);
    assert_eq!(p.status(id), Some(JobStatus::Cancelled));
    assert_eq!(p.pending_count(), 0);
    assert_eq!(p.start_next(), None);
    assert!(matches!(p.cancel(id, 4), Err(CancelError::AlreadyFinished)));
    assert!(matches!(p.cancel(99, 4), Err(CancelError::JobNotFound)));
}

#[test]
fn cancel_running_job_enforced_after_grace_period() {
    let mut p = processor(1, 4);
    let id = p.submit(request("calm piano"), 0).unwrap();
    assert_eq!(p.start_next(), Some(id));
    assert!(p.cancel(id, 100).unwrap().is_none());
    assert!(p.is_cancel_requested(id));
    assert_eq!(p.status(id), Some(JobStatus::Running));
    assert!(p.force_cancel(id, 104).is_none());
    let e = p.force_cancel(id, 105).unwrap();
    assert!(matches!(e.payload, EventPayload::Cancellation));
    assert_eq!(p.status(id), Some(JobStatus::Cancelled));
    assert_eq!(p.in_flight_count(), 0);
    assert!(p.record(id, PipelineOutput::Progress(10)).is_none());
}

#[test]
fn cancel_running_job_observed_by_worker() {
    let mut p = processor(1, 4);
    let id = p.submit(request("calm piano"), 0).unwrap();
    p.start_next();
    assert!(p.record(id, PipelineOutput::Progress(10)).is_some());
    assert!(p.cancel(id, 0).unwrap().is_none());
    let e = p.record(id, PipelineOutput::Progress(20)).unwrap();
    assert!(matches!(e.payload, EventPayload::Cancellation));
    assert_eq!(e.sequence, 1);
    assert_eq!(p.status(id), Some(JobStatus::Cancelled));
}

#[test]
fn slow_subscriber_disconnected_others_continue() {
    let mut p = processor(1, 4);
    let mut reg = FanoutRegistry::new(2);
    let id = p.submit(request("calm piano"), 0).unwrap();
    let slow = reg.subscribe(id).unwrap();
    let fast = reg.subscribe(id).unwrap();
    p.start_next();
    let mut seen: Vec<u64> = Vec::new();
    for step in 0..4u32 {
        publish(&mut reg, p.record(id, PipelineOutput::Chunk(vec![step as u8; 3])));
        for e in reg.take(fast) {
            seen.push(e.sequence);
        }
    }
    publish(&mut reg, p.record(id, PipelineOutput::Done("a".to_string())));
    let rest = reg.take(fast);
    assert_eq!(rest.len(), 1);
    assert!(rest[0].is_terminal());
    seen.push(rest[0].sequence);
    assert_eq!(seen, vec![0, 1, 2, 3, 4]);
    assert_eq!(reg.disconnect_reason(slow), Some(DisconnectReason::BackpressureExceeded));
    assert_eq!(reg.buffered(slow), 0);
    assert_eq!(reg.disconnect_reason(fast), None);
}

#[test]
fn subscriber_sees_ordered_events_and_one_terminal() {
    let mut reg = FanoutRegistry::new(16);
    let t = reg.subscribe(7).unwrap();
    let ev = |seq: u64, payload: EventPayload| Event { job_id: 7, sequence: seq, payload };
    assert!(reg.publish(7, ev(0, EventPayload::Progress(1))));
    assert!(!reg.publish(7, ev(0, EventPayload::Progress(2))));
    assert!(reg.publish(7, ev(2, EventPayload::Chunk(vec![1, 2]))));
    let first = reg.take(t);
    assert!(reg.publish(7, ev(3, EventPayload::Cancellation)));
    assert!(!reg.publish(7, ev(4, EventPayload::Progress(3))));
    assert!(!reg.publish(8, ev(5, EventPayload::Progress(3))));
    let second = reg.take(t);
    let all: Vec<u64> = first.iter().chain(second.iter()).map(|e| e.sequence).collect();
    assert_eq!(all, vec![0, 2, 3]);
    assert_eq!(first.iter().chain(second.iter()).filter(|e| e.is_terminal()).count(), 1);
    assert!(reg.take(t).is_empty());
}

#[test]
fn late_subscriber_gets_no_replay_and_closed_job_is_not_found() {
    let mut reg = FanoutRegistry::new(4);
    let ev = |seq: u64, payload: EventPayload| Event { job_id: 3, sequence: seq, payload };
    assert!(reg.publish(3, ev(0, EventPayload::Progress(1))));
    let late = reg.subscribe(3).unwrap();
    assert_eq!(reg.buffered(late), 0);
    assert!(!reg.close_job(3));
    assert!(reg.publish(3, ev(1, EventPayload::Done("a".to_string()))));
    let got = reg.take(late);
    assert_eq!(got.len(), 1);
    assert_eq!(got[0].sequence, 1);
    let snap = reg.snapshot(3).unwrap();
    assert!(snap.finished);
    assert_eq!(snap.last_sequence, Some(1));
    assert!(reg.close_job(3));
    assert_eq!(reg.subscribe(3), Err(SubscribeError::JobNotFound));
}

#[test]
fn unsubscribe_stops_delivery() {
    let mut reg = FanoutRegistry::new(4);
    let t = reg.subscribe(1).unwrap();
    let other = reg.subscribe(1).unwrap();
    assert!(reg.unsubscribe(t));
    assert!(!reg.unsubscribe(t));
    assert!(reg.publish(1, Event { job_id: 1, sequence: 0, payload: EventPayload::Progress(5) }));
    assert_eq!(reg.buffered(t), 0);
    assert_eq!(reg.buffered(other), 1);
    assert_eq!(reg.disconnect_reason(t), Some(DisconnectReason::Unsubscribed));
    assert_eq!(reg.subscriber_count(), 2);
}

#[test]
fn duplicate_copies_chunk_bytes() {
    let e = Event { job_id: 4, sequence: 9, payload: EventPayload::Chunk(vec![1, 2, 3]) };
    let d = e.duplicate();
    assert_eq!(d.job_id, 4);
    assert_eq!(d.sequence, 9);
    match d.payload {
        EventPayload::Chunk(b) => assert_eq!(b, vec![1, 2, 3]),
        _ => panic!("expected a chunk"),
    }
}

#[test]
fn storage_failure_surfaces_as_failed_job() {
    let mut p = processor(1, 1);
    let id = p.submit(request("calm piano"), 0).unwrap();
    p.start_next();
    let e = p.record(id, PipelineOutput::Error(ErrorKind::StorageError, "disk".to_string()));
    match e.unwrap().payload {
        EventPayload::Failure(ErrorKind::StorageError, m) => assert_eq!(m, "disk"),
        _ => panic!("expected a failure event"),
    }
    assert_eq!(p.status(id), Some(JobStatus::Failed));
    assert!(p.job_ref(id).unwrap().result.is_some());
}

#[test]
fn default_settings_are_valid() {
    let s = ProcessorSettings::default();
    assert_eq!(s.workers, 1);
    assert_eq!(s.capacity, 16);
    assert_eq!(s.grace_period, 5);
    assert!(s.is_valid());
    assert!(!ProcessorSettings { workers: 0, capacity: 1, grace_period: 0 }.is_valid());
    assert_eq!(FanoutRegistry::new(musicgpt::fanout::DEFAULT_BUFFER_SIZE).buffer_size(), 64);
}

#[test]
fn expire_overdue_cancels_only_due_jobs() {
    let mut p = processor(2, 4);
    let a = p.submit(request("one"), 0).unwrap();
    let b = p.submit(request("two"), 0).unwrap();
    let c = p.submit(request("three"), 0).unwrap();
    p.start_next();
    p.start_next();
    assert!(p.cancel(a, 10).unwrap().is_none());
    assert!(p.cancel(b, 20).unwrap().is_none());
    let events = p.expire_overdue(16);
    assert_eq!(events.len(), 1);
    assert_eq!(events[0].job_id, a);
    assert!(matches!(events[0].payload, EventPayload::Cancellation));
    assert_eq!(p.status(a), Some(JobStatus::Cancelled));
    assert_eq!(p.status(b), Some(JobStatus::Running));
    assert_eq!(p.status(c), Some(JobStatus::Queued));
    assert!(p.expire_overdue(16).is_empty());
    assert_eq!(p.expire_overdue(25).len(), 1);
    assert_eq!(p.status(b), Some(JobStatus::Cancelled));
}
