use vstd::prelude::*;
use crate::job::{
    AdmissionError, CancelError, Event, EventPayload, GenerationRequest, Job, JobResult,
    JobStatus, PipelineOutput,
};

verus! {

/// Settings of a job processor.
#[derive(PartialEq, Eq, Structural, Clone, Copy, Debug)]
pub struct ProcessorSettings {
    /// Number of worker slots: the bound on concurrent pipeline runs.
    pub workers: usize,
    /// Bound on pending plus in-flight jobs.
    pub capacity: usize,
    /// Time a running job is given to stop after a cancellation request.
    pub grace_period: u64,
}

/// Worker slots unless configured otherwise.
pub const DEFAULT_WORKERS: usize = 1;
/// Queue capacity unless configured otherwise.
pub const DEFAULT_CAPACITY: usize = 16;
/// Grace period for cancellation unless configured otherwise, in the time unit that the
/// caller passes as `now` (seconds by convention).
pub const DEFAULT_GRACE_PERIOD: u64 = 5;

impl ProcessorSettings {
    /// At least one worker slot and room for at least one job.
    pub open spec fn spec_valid(&self) -> bool {
        self.workers >= 1 && self.capacity >= 1
    }

    pub fn is_valid(&self) -> (r: bool)
        ensures
            r == self.spec_valid(),
    {
        self.workers >= 1 && self.capacity >= 1
    }
}

impl Default for ProcessorSettings {
    fn default() -> (r: ProcessorSettings)
        ensures
            r.workers == DEFAULT_WORKERS,
            r.capacity == DEFAULT_CAPACITY,
            r.grace_period == DEFAULT_GRACE_PERIOD,
            r.spec_valid(),
    {
        ProcessorSettings {
            workers: DEFAULT_WORKERS,
            capacity: DEFAULT_CAPACITY,
            grace_period: DEFAULT_GRACE_PERIOD,
        }
    }
}

/// The time at which a cancellation requested at `now` is enforced.
pub open spec fn deadline_after(now: u64, grace: u64) -> u64 {
    if now as int + grace as int > u64::MAX as int {
        u64::MAX
    } else {
        (now + grace) as u64
    }
}

/// The event that a job emits next, with the given payload.
pub open spec fn next_event(job: Job, payload: EventPayload) -> Event {
    Event { job_id: job.id, sequence: job.next_sequence, payload }
}

/// The job after its terminal transition.
pub open spec fn finished(job: Job, status: JobStatus, result: JobResult) -> Job {
    Job { status, result: Some(result), cancel_deadline: None, ..job }
}

/// The job after it emitted a progress or chunk event.
pub open spec fn streamed(job: Job) -> Job {
    Job { status: JobStatus::Streaming, next_sequence: (job.next_sequence + 1) as u64, ..job }
}

/// Admission, scheduling and lifecycle of jobs, under bounded capacity and a fixed
/// number of worker slots. Job identifiers are positions in an arena that never shrinks.
#[derive(Debug)]
pub struct JobProcessor {
    settings: ProcessorSettings,
    jobs: Vec<Job>,
    /// Queued jobs, oldest first.
    pending: Vec<u64>,
    /// Jobs that hold a worker slot.
    in_flight: Vec<u64>,
}

impl JobProcessor {
    pub closed spec fn spec_settings(&self) -> ProcessorSettings {
        self.settings
    }

    pub closed spec fn spec_jobs(&self) -> Seq<Job> {
        self.jobs@
    }

    pub closed spec fn spec_pending(&self) -> Seq<u64> {
        self.pending@
    }

    pub closed spec fn spec_in_flight(&self) -> Seq<u64> {
        self.in_flight@
    }

    pub open spec fn has_job(&self, id: u64) -> bool {
        id < self.spec_jobs().len()
    }

    pub open spec fn job(&self, id: u64) -> Job {
        self.spec_jobs()[id as int]
    }

    /// The job is in flight and its cancellation deadline has passed at `now`.
    pub open spec fn cancel_due(&self, id: u64, now: u64) -> bool {
        &&& self.has_job(id)
        &&& self.job(id).status.spec_is_in_flight()
        &&& self.job(id).cancel_deadline is Some
        &&& self.job(id).cancel_deadline->0 <= now
    }

    /// Pending plus in-flight jobs: what counts against the capacity.
    pub open spec fn active_count(&self) -> nat {
        self.spec_pending().len() + self.spec_in_flight().len()
    }

    pub closed spec fn wf(&self) -> bool {
        &&& forall|i: int| 0 <= i < self.jobs@.len() ==> #[trigger] self.jobs@[i].id == i
        &&& self.pending@.no_duplicates()
        &&& self.in_flight@.no_duplicates()
        &&& forall|k: int|
            0 <= k < self.pending@.len() ==> {
                &&& #[trigger] self.pending@[k] < self.jobs@.len()
                &&& self.jobs@[self.pending@[k] as int].status is Queued
            }
        &&& forall|k: int|
            0 <= k < self.in_flight@.len() ==> {
                &&& #[trigger] self.in_flight@[k] < self.jobs@.len()
                &&& self.jobs@[self.in_flight@[k] as int].status.spec_is_in_flight()
            }
        &&& forall|i: int|
            0 <= i < self.jobs@.len() ==> {
                &&& (#[trigger] self.jobs@[i].status is Queued ==> self.pending@.contains(
                    i as u64,
                ))
                &&& (self.jobs@[i].status.spec_is_in_flight() ==> self.in_flight@.contains(
                    i as u64,
                ))
                &&& (self.jobs@[i].status.spec_is_terminal() <==> self.jobs@[i].result is Some)
                &&& (self.jobs@[i].cancel_deadline is Some
                    ==> self.jobs@[i].status.spec_is_in_flight())
            }
    }

    /// How the processor may change between two observations: jobs are never removed,
    /// their identity and request never change, their status never regresses, and a
    /// job in a terminal state is never touched again.
    pub open spec fn evolves_to(&self, next: &JobProcessor) -> bool {
        &&& next.spec_settings() == self.spec_settings()
        &&& self.spec_jobs().len() <= next.spec_jobs().len()
        &&& forall|i: int|
            0 <= i < self.spec_jobs().len() ==> {
                let a = #[trigger] self.spec_jobs()[i];
                let b = next.spec_jobs()[i];
                &&& b.id == a.id
                &&& b.request == a.request
                &&& b.created_at == a.created_at
                &&& a.status.rank() <= b.status.rank()
                &&& a.next_sequence <= b.next_sequence
                &&& (a.status.spec_is_terminal() ==> b == a)
            }
    }

    /// Only the job `id` changed, and the job lists are as given.
    pub open spec fn changes_one(
        &self,
        next: &JobProcessor,
        id: u64,
        job: Job,
        pending: Seq<u64>,
        in_flight: Seq<u64>,
    ) -> bool {
        &&& next.spec_settings() == self.spec_settings()
        &&& next.spec_jobs() == self.spec_jobs().update(id as int, job)
        &&& next.spec_pending() == pending
        &&& next.spec_in_flight() == in_flight
    }

    /// Admits a request as a new `Queued` job and returns its identifier. An invalid
    /// request is refused before any look at the queue; a full queue refuses the rest.
    pub fn submit(&mut self, request: GenerationRequest, now: u64) -> (r: Result<
        u64,
        AdmissionError,
    >)
        requires
            old(self).wf(),
        ensures
            final(self).wf(),
            old(self).evolves_to(final(self)),
            !request.spec_is_valid() ==> r == Err::<u64, AdmissionError>(
                AdmissionError::InvalidRequest,
            ) && *final(self) == *old(self),
            request.spec_is_valid() && old(self).active_count() >= old(self).spec_settings().capacity
                ==> r == Err::<u64, AdmissionError>(AdmissionError::QueueFull) && *final(self)
                == *old(self),
            request.spec_is_valid() && old(self).active_count() < old(self).spec_settings().capacity
                ==> {
                let id = old(self).spec_jobs().len() as u64;
                &&& r == Ok::<u64, AdmissionError>(id)
                &&& final(self).spec_settings() == old(self).spec_settings()
                &&& final(self).spec_jobs() == old(self).spec_jobs().push(
                    (Job {
                        id,
                        request,
                        status: JobStatus::Queued,
                        created_at: now,
                        result: None,
                        next_sequence: 0,
                        cancel_deadline: None,
                    }),
                )
                &&& final(self).spec_pending() == old(self).spec_pending().push(id)
                &&& final(self).spec_in_flight() == old(self).spec_in_flight()
            },
    {
        if !request.is_valid() {
            return Err(AdmissionError::InvalidRequest);
        }
        if self.pending.len() >= self.settings.capacity || self.in_flight.len()
            >= self.settings.capacity - self.pending.len() {
            return Err(AdmissionError::QueueFull);
        }
        let id = self.jobs.len() as u64;
        let job = Job {
            id,
            request,
            status: JobStatus::Queued,
            created_at: now,
            result: None,
            next_sequence: 0,
            cancel_deadline: None,
        };
        proof {
            assert(!self.pending@.contains(id));
            assert(!self.in_flight@.contains(id));
        }
        self.jobs.push(job);
        self.pending.push(id);
        proof {
            assert forall|k: int| 0 <= k < self.pending@.len() implies {
                &&& #[trigger] self.pending@[k] < self.jobs@.len()
                &&& self.jobs@[self.pending@[k] as int].status is Queued
            } by {
                if k < self.pending@.len() - 1 {
                    assert(old(self).pending@[k] == self.pending@[k]);
                }
            }
            assert forall|i: int| 0 <= i < self.jobs@.len() implies {
                &&& (#[trigger] self.jobs@[i].status is Queued ==> self.pending@.contains(
                    i as u64,
                ))
                &&& (self.jobs@[i].status.spec_is_in_flight() ==> self.in_flight@.contains(
                    i as u64,
                ))
                &&& (self.jobs@[i].status.spec_is_terminal() <==> self.jobs@[i].result is Some)
                &&& (self.jobs@[i].cancel_deadline is Some
                    ==> self.jobs@[i].status.spec_is_in_flight())
            } by {
                if i < self.jobs@.len() - 1 {
                    assert(self.jobs@[i] == old(self).jobs@[i]);
                    if self.jobs@[i].status is Queued {
                        assert(old(self).pending@.contains(i as u64));
                        let k = choose|k: int|
                            0 <= k < old(self).pending@.len() && old(self).pending@[k] == i as u64;
                        assert(self.pending@[k] == i as u64);
                    }
                } else {
                    assert(self.pending@[self.pending@.len() - 1] == id);
                }
            }
        }
        Ok(id)
    }

    /// Hands the oldest queued job to a free worker slot, if there is both.
    pub fn start_next(&mut self) -> (r: Option<u64>)
        requires
            old(self).wf(),
        ensures
            final(self).wf(),
            old(self).evolves_to(final(self)),
            r is Some <==> (old(self).spec_in_flight().len() < old(self).spec_settings().workers
                && old(self).spec_pending().len() > 0),
            r is None ==> *final(self) == *old(self),
            r is Some ==> {
                let id = r->0;
                &&& id == old(self).spec_pending()[0]
                &&& old(self).has_job(id)
                &&& old(self).job(id).status is Queued
                &&& old(self).changes_one(
                    final(self),
                    id,
                    (Job { status: JobStatus::Running, ..old(self).job(id) }),
                    old(self).spec_pending().remove(0),
                    old(self).spec_in_flight().push(id),
                )
            },
    {
        if self.in_flight.len() >= self.settings.workers || self.pending.len() == 0 {
            return None;
        }
        let id = self.pending.remove(0);
        let n = self.jobs.len();
        proof {
            lemma_remove_unique(old(self).pending@, 0);
            assert(old(self).pending@[0] == id);
            assert(id < n);
            assert(self.jobs@[id as int].status is Queued);
            assert(!self.in_flight@.contains(id));
        }
        set_status(&mut self.jobs, id as usize, JobStatus::Running);
        self.in_flight.push(id);
        proof {
            let op = old(self).pending@;
            assert(self.jobs@ =~= old(self).jobs@.update(
                id as int,
                Job { status: JobStatus::Running, ..old(self).jobs@[id as int] },
            ));
            assert forall|k: int| 0 <= k < self.pending@.len() implies {
                &&& #[trigger] self.pending@[k] < self.jobs@.len()
                &&& self.jobs@[self.pending@[k] as int].status is Queued
            } by {
                assert(self.pending@[k] == op[k + 1]);
                assert(op[k + 1] != op[0]);
            }
            assert forall|k: int| 0 <= k < self.in_flight@.len() implies {
                &&& #[trigger] self.in_flight@[k] < self.jobs@.len()
                &&& self.jobs@[self.in_flight@[k] as int].status.spec_is_in_flight()
            } by {
                if k < self.in_flight@.len() - 1 {
                    assert(self.in_flight@[k] == old(self).in_flight@[k]);
                }
            }
            assert forall|i: int| 0 <= i < self.jobs@.len() implies {
                &&& (#[trigger] self.jobs@[i].status is Queued ==> self.pending@.contains(
                    i as u64,
                ))
                &&& (self.jobs@[i].status.spec_is_in_flight() ==> self.in_flight@.contains(
                    i as u64,
                ))
                &&& (self.jobs@[i].status.spec_is_terminal() <==> self.jobs@[i].result is Some)
                &&& (self.jobs@[i].cancel_deadline is Some
                    ==> self.jobs@[i].status.spec_is_in_flight())
            } by {
                if i != id as int {
                    assert(self.jobs@[i] == old(self).jobs@[i]);
                    if self.jobs@[i].status.spec_is_in_flight() {
                        let k = choose|k: int|
                            0 <= k < old(self).in_flight@.len() && old(self).in_flight@[k]
                                == i as u64;
                        assert(self.in_flight@[k] == i as u64);
                    }
                } else {
                    assert(self.in_flight@[self.in_flight@.len() - 1] == id);
                }
            }
            assert(self.pending@ == op.remove(0));
        }
        Some(id)
    }

    /// Moves a job that is not finished to the terminal `status`, frees what it held
    /// (its queue place or its worker slot), and returns its terminal event.
    fn terminate(&mut self, id: u64, status: JobStatus, result: JobResult, payload: EventPayload) -> (e: Event)
        requires
            old(self).wf(),
            old(self).has_job(id),
            !old(self).job(id).status.spec_is_terminal(),
            status.spec_is_terminal(),
        ensures
            final(self).wf(),
            old(self).evolves_to(final(self)),
            e == next_event(old(self).job(id), payload),
            old(self).changes_one(
                final(self),
                id,
                finished(old(self).job(id), status, result),
                if old(self).job(id).status is Queued {
                    without(old(self).spec_pending(), id)
                } else {
                    old(self).spec_pending()
                },
                if old(self).job(id).status is Queued {
                    old(self).spec_in_flight()
                } else {
                    without(old(self).spec_in_flight(), id)
                },
            ),
    {
        let n = self.jobs.len();
        proof {
            assert(id < n);
        }
        let idx = id as usize;
        let seq = self.jobs[idx].next_sequence;
        let queued = match self.jobs[idx].status {
            JobStatus::Queued => true,
            _ => false,
        };
        proof {
            assert(self.jobs@[id as int].id == id);
        }
        if queued {
            let k = remove_id(&mut self.pending, id);
            proof {
                lemma_without(old(self).pending@, id, k as int);
            }
        } else {
            let k = remove_id(&mut self.in_flight, id);
            proof {
                lemma_without(old(self).in_flight@, id, k as int);
            }
        }
        finish_at(&mut self.jobs, idx, status, result);
        proof {
            let op = old(self).pending@;
            let oi = old(self).in_flight@;
            assert forall|k: int| 0 <= k < self.pending@.len() implies {
                &&& #[trigger] self.pending@[k] < self.jobs@.len()
                &&& self.jobs@[self.pending@[k] as int].status is Queued
            } by {
                assert(self.pending@.contains(self.pending@[k]));
                let j = choose|j: int| 0 <= j < op.len() && op[j] == self.pending@[k];
                assert(op[j] == self.pending@[k]);
            }
            assert forall|k: int| 0 <= k < self.in_flight@.len() implies {
                &&& #[trigger] self.in_flight@[k] < self.jobs@.len()
                &&& self.jobs@[self.in_flight@[k] as int].status.spec_is_in_flight()
            } by {
                assert(self.in_flight@.contains(self.in_flight@[k]));
                let j = choose|j: int| 0 <= j < oi.len() && oi[j] == self.in_flight@[k];
                assert(oi[j] == self.in_flight@[k]);
            }
            assert forall|i: int| 0 <= i < self.jobs@.len() implies {
                &&& (#[trigger] self.jobs@[i].status is Queued ==> self.pending@.contains(
                    i as u64,
                ))
                &&& (self.jobs@[i].status.spec_is_in_flight() ==> self.in_flight@.contains(
                    i as u64,
                ))
                &&& (self.jobs@[i].status.spec_is_terminal() <==> self.jobs@[i].result is Some)
                &&& (self.jobs@[i].cancel_deadline is Some
                    ==> self.jobs@[i].status.spec_is_in_flight())
            } by {
                if i != id as int {
                    assert(self.jobs@[i] == old(self).jobs@[i]);
                    assert(old(self).jobs@[i].id == i);
                }
            }
        }
        Event { job_id: id, sequence: seq, payload }
    }

    /// Cancels a job. A queued job goes straight to `Cancelled`, leaves the queue and
    /// never reaches the pipeline; its cancellation event is returned. A job in flight is
    /// signalled: it is given until `now` plus the grace period to stop.
    pub fn cancel(&mut self, id: u64, now: u64) -> (r: Result<Option<Event>, CancelError>)
        requires
            old(self).wf(),
        ensures
            final(self).wf(),
            old(self).evolves_to(final(self)),
            !old(self).has_job(id) ==> r == Err::<Option<Event>, CancelError>(
                CancelError::JobNotFound,
            ) && *final(self) == *old(self),
            old(self).has_job(id) && old(self).job(id).status.spec_is_terminal() ==> r == Err::<
                Option<Event>,
                CancelError,
            >(CancelError::AlreadyFinished) && *final(self) == *old(self),
            old(self).has_job(id) && old(self).job(id).status is Queued ==> {
                &&& r == Ok::<Option<Event>, CancelError>(
                    Some(next_event(old(self).job(id), EventPayload::Cancellation)),
                )
                &&& old(self).changes_one(
                    final(self),
                    id,
                    finished(old(self).job(id), JobStatus::Cancelled, JobResult::Cancelled),
                    without(old(self).spec_pending(), id),
                    old(self).spec_in_flight(),
                )
                &&& final(self).job(id).status is Cancelled
                &&& !final(self).spec_pending().contains(id)
            },
            old(self).has_job(id) && old(self).job(id).status.spec_is_in_flight() ==> {
                let limit = deadline_after(now, old(self).spec_settings().grace_period);
                let deadline = match old(self).job(id).cancel_deadline {
                    Some(d) => if d < limit {
                        d
                    } else {
                        limit
                    },
                    None => limit,
                };
                &&& r == Ok::<Option<Event>, CancelError>(None)
                &&& old(self).changes_one(
                    final(self),
                    id,
                    (Job { cancel_deadline: Some(deadline), ..old(self).job(id) }),
                    old(self).spec_pending(),
                    old(self).spec_in_flight(),
                )
            },
    {
        if id >= self.jobs.len() as u64 {
            return Err(CancelError::JobNotFound);
        }
        let idx = id as usize;
        proof {
            assert(self.jobs@[id as int].id == id);
        }
        match self.jobs[idx].status {
            JobStatus::Completed | JobStatus::Failed | JobStatus::Cancelled => {
                Err(CancelError::AlreadyFinished)
            },
            JobStatus::Queued => {
                let e = self.terminate(
                    id,
                    JobStatus::Cancelled,
                    JobResult::Cancelled,
                    EventPayload::Cancellation,
                );
                proof {
                    assert(self.jobs@[id as int].status is Cancelled);
                    assert(!self.pending@.contains(id));
                }
                Ok(Some(e))
            },
            _ => {
                let grace = self.settings.grace_period;
                let limit = if now > u64::MAX - grace {
                    u64::MAX
                } else {
                    now + grace
                };
                let deadline = match self.jobs[idx].cancel_deadline {
                    Some(d) => if d < limit {
                        d
                    } else {
                        limit
                    },
                    None => limit,
                };
                set_deadline_at(&mut self.jobs, idx, deadline);
                proof {
                    assert forall|i: int| 0 <= i < self.jobs@.len() implies {
                        &&& (#[trigger] self.jobs@[i].status is Queued
                            ==> self.pending@.contains(i as u64))
                        &&& (self.jobs@[i].status.spec_is_in_flight()
                            ==> self.in_flight@.contains(i as u64))
                        &&& (self.jobs@[i].status.spec_is_terminal() <==> self.jobs@[i].result is Some)
                        &&& (self.jobs@[i].cancel_deadline is Some
                            ==> self.jobs@[i].status.spec_is_in_flight())
                    } by {
                        if i != id as int {
                            assert(self.jobs@[i] == old(self).jobs@[i]);
                        }
                    }
                }
                Ok(None)
            },
        }
    }

    /// Records one output of the pipeline run of a job in flight and returns the event
    /// it becomes. Once a cancellation was requested, the next output is where the
    /// worker observes it: the job is `Cancelled` instead. Output for a job that is not
    /// in flight (cancelled meanwhile, unknown) is ignored.
    pub fn record(&mut self, id: u64, output: PipelineOutput) -> (r: Option<Event>)
        requires
            old(self).wf(),
        ensures
            final(self).wf(),
            old(self).evolves_to(final(self)),
            !(old(self).has_job(id) && old(self).job(id).status.spec_is_in_flight()) ==> r is None
                && *final(self) == *old(self),
            old(self).has_job(id) && old(self).job(id).status.spec_is_in_flight() ==> {
                let job = old(self).job(id);
                let op = old(self).spec_pending();
                let oi = old(self).spec_in_flight();
                if job.cancel_deadline is Some {
                    &&& r == Some(next_event(job, EventPayload::Cancellation))
                    &&& old(self).changes_one(
                        final(self),
                        id,
                        finished(job, JobStatus::Cancelled, JobResult::Cancelled),
                        op,
                        without(oi, id),
                    )
                } else {
                    match output {
                        PipelineOutput::Progress(p) => if job.next_sequence < u64::MAX {
                            &&& r == Some(next_event(job, EventPayload::Progress(p)))
                            &&& old(self).changes_one(final(self), id, streamed(job), op, oi)
                        } else {
                            r is None && *final(self) == *old(self)
                        },
                        PipelineOutput::Chunk(bytes) => if job.next_sequence < u64::MAX {
                            &&& r == Some(next_event(job, EventPayload::Chunk(bytes)))
                            &&& old(self).changes_one(final(self), id, streamed(job), op, oi)
                        } else {
                            r is None && *final(self) == *old(self)
                        },
                        PipelineOutput::Done(artifact) => {
                            &&& r == Some(next_event(job, EventPayload::Done(artifact)))
                            &&& old(self).changes_one(
                                final(self),
                                id,
                                finished(job, JobStatus::Completed, JobResult::Artifact(artifact)),
                                op,
                                without(oi, id),
                            )
                        },
                        PipelineOutput::Error(kind, message) => {
                            &&& r == Some(next_event(job, EventPayload::Failure(kind, message)))
                            &&& old(self).changes_one(
                                final(self),
                                id,
                                finished(job, JobStatus::Failed, JobResult::Error(kind, message)),
                                op,
                                without(oi, id),
                            )
                        },
                    }
                }
            },
    {
        if id >= self.jobs.len() as u64 {
            return None;
        }
        let idx = id as usize;
        proof {
            assert(self.jobs@[id as int].id == id);
        }
        match self.jobs[idx].status {
            JobStatus::Running | JobStatus::Streaming => {},
            _ => {
                return None;
            },
        }
        if self.jobs[idx].cancel_deadline.is_some() {
            return Some(
                self.terminate(
                    id,
                    JobStatus::Cancelled,
                    JobResult::Cancelled,
                    EventPayload::Cancellation,
                ),
            );
        }
        match output {
            PipelineOutput::Progress(p) => self.stream(id, EventPayload::Progress(p)),
            PipelineOutput::Chunk(bytes) => self.stream(id, EventPayload::Chunk(bytes)),
            PipelineOutput::Done(artifact) => {
                let payload = EventPayload::Done(artifact.clone());
                Some(self.terminate(id, JobStatus::Completed, JobResult::Artifact(artifact), payload))
            },
            PipelineOutput::Error(kind, message) => {
                let payload = EventPayload::Failure(kind, message.clone());
                Some(
                    self.terminate(id, JobStatus::Failed, JobResult::Error(kind, message), payload),
                )
            },
        }
    }

    /// Emits a progress or chunk event of a job in flight.
    fn stream(&mut self, id: u64, payload: EventPayload) -> (r: Option<Event>)
        requires
            old(self).wf(),
            old(self).has_job(id),
            old(self).job(id).status.spec_is_in_flight(),
        ensures
            final(self).wf(),
            old(self).evolves_to(final(self)),
            old(self).job(id).next_sequence < u64::MAX ==> {
                &&& r == Some(next_event(old(self).job(id), payload))
                &&& old(self).changes_one(
                    final(self),
                    id,
                    streamed(old(self).job(id)),
                    old(self).spec_pending(),
                    old(self).spec_in_flight(),
                )
            },
            old(self).job(id).next_sequence == u64::MAX ==> r is None && *final(self) == *old(
                self,
            ),
    {
        let idx = id as usize;
        let n = self.jobs.len();
        proof {
            assert(id < n);
        }
        let seq = self.jobs[idx].next_sequence;
        if seq == u64::MAX {
            return None;
        }
        stream_at(&mut self.jobs, idx);
        proof {
            assert(old(self).jobs@[id as int].id == id);
            assert forall|i: int| 0 <= i < self.jobs@.len() implies {
                &&& (#[trigger] self.jobs@[i].status is Queued ==> self.pending@.contains(
                    i as u64,
                ))
                &&& (self.jobs@[i].status.spec_is_in_flight() ==> self.in_flight@.contains(
                    i as u64,
                ))
                &&& (self.jobs@[i].status.spec_is_terminal() <==> self.jobs@[i].result is Some)
                &&& (self.jobs@[i].cancel_deadline is Some
                    ==> self.jobs@[i].status.spec_is_in_flight())
            } by {
                if i != id as int {
                    assert(self.jobs@[i] == old(self).jobs@[i]);
                }
            }
        }
        Some(Event { job_id: id, sequence: seq, payload })
    }

    /// Enforces a cancellation whose grace period has run out: the job is `Cancelled`
    /// whether or not its pipeline run has stopped, and its worker slot is free again.
    pub fn force_cancel(&mut self, id: u64, now: u64) -> (r: Option<Event>)
        requires
            old(self).wf(),
        ensures
            final(self).wf(),
            old(self).evolves_to(final(self)),
            ({
                let due = old(self).cancel_due(id, now);
                &&& due ==> r == Some(next_event(old(self).job(id), EventPayload::Cancellation))
                    && old(self).changes_one(
                    final(self),
                    id,
                    finished(old(self).job(id), JobStatus::Cancelled, JobResult::Cancelled),
                    old(self).spec_pending(),
                    without(old(self).spec_in_flight(), id),
                )
                &&& !due ==> r is None && *final(self) == *old(self)
            }),
    {
        if id >= self.jobs.len() as u64 {
            return None;
        }
        let idx = id as usize;
        proof {
            assert(self.jobs@[id as int].id == id);
        }
        let due = match self.jobs[idx].cancel_deadline {
            Some(d) => d <= now,
            None => false,
        };
        if !due {
            return None;
        }
        Some(self.terminate(id, JobStatus::Cancelled, JobResult::Cancelled, EventPayload::Cancellation))
    }

    /// Enforces every cancellation whose grace period has run out at `now` and returns
    /// their cancellation events, in order of job identifier.
    pub fn expire_overdue(&mut self, now: u64) -> (r: Vec<Event>)
        requires
            old(self).wf(),
        ensures
            final(self).wf(),
            old(self).evolves_to(final(self)),
            final(self).spec_jobs().len() == old(self).spec_jobs().len(),
            forall|id: u64| #[trigger] old(self).cancel_due(id, now) ==> final(self).job(id) == finished(
                old(self).job(id),
                JobStatus::Cancelled,
                JobResult::Cancelled,
            ),
            forall|id: u64| old(self).has_job(id) && !#[trigger] old(self).cancel_due(id, now)
                ==> final(self).job(id) == old(self).job(id),
            forall|k: int| 0 <= k < r@.len() ==> {
                let e = #[trigger] r@[k];
                &&& e.payload is Cancellation
                &&& old(self).cancel_due(e.job_id, now)
                &&& e == next_event(old(self).job(e.job_id), EventPayload::Cancellation)
            },
    {
        let mut out: Vec<Event> = Vec::new();
        let n = self.jobs.len();
        let mut i: usize = 0;
        while i < n
            invariant
                self.wf(),
                old(self).evolves_to(self),
                n == old(self).spec_jobs().len(),
                self.spec_jobs().len() == n,
                i <= n,
                forall|id: u64| id < i && #[trigger] old(self).cancel_due(id, now) ==> self.job(id) == finished(
                    old(self).job(id),
                    JobStatus::Cancelled,
                    JobResult::Cancelled,
                ),
                forall|id: u64| id < i && old(self).has_job(id) && !#[trigger] old(self).cancel_due(id, now)
                    ==> self.job(id) == old(self).job(id),
                forall|id: u64| i <= id < n ==> #[trigger] self.job(id) == old(self).job(id),
                forall|k: int| 0 <= k < out@.len() ==> {
                    let e = #[trigger] out@[k];
                    &&& e.payload is Cancellation
                    &&& old(self).cancel_due(e.job_id, now)
                    &&& e == next_event(old(self).job(e.job_id), EventPayload::Cancellation)
                },
            decreases n - i,
        {
            let id = i as u64;
            let ghost before = *self;
            proof {
                assert(self.job(id) == old(self).job(id));
                assert(before.cancel_due(id, now) == old(self).cancel_due(id, now));
            }
            match self.force_cancel(id, now) {
                Some(e) => {
                    out.push(e);
                },
                None => {},
            }
            proof {
                assert forall|j: u64| j != id && j < n implies #[trigger] self.job(j) == before.job(j) by {
                    if before.cancel_due(id, now) {
                        assert(self.spec_jobs() == before.spec_jobs().update(id as int, finished(before.job(id), JobStatus::Cancelled, JobResult::Cancelled)));
                    }
                }
                assert forall|k: int| 0 <= k < out@.len() implies {
                    let e = #[trigger] out@[k];
                    &&& e.payload is Cancellation
                    &&& old(self).cancel_due(e.job_id, now)
                    &&& e == next_event(old(self).job(e.job_id), EventPayload::Cancellation)
                } by {
                }
            }
            i = i + 1;
        }
        out
    }

    pub fn settings(&self) -> (r: ProcessorSettings)
        ensures
            r == self.spec_settings(),
    {
        self.settings
    }

    /// Number of jobs ever admitted.
    pub fn job_count(&self) -> (r: usize)
        ensures
            r == self.spec_jobs().len(),
    {
        self.jobs.len()
    }

    pub fn pending_count(&self) -> (r: usize)
        ensures
            r == self.spec_pending().len(),
    {
        self.pending.len()
    }

    pub fn in_flight_count(&self) -> (r: usize)
        ensures
            r == self.spec_in_flight().len(),
    {
        self.in_flight.len()
    }

    /// The job with identifier `id`, if it was ever admitted.
    pub fn job_ref(&self, id: u64) -> (r: Option<&Job>)
        ensures
            self.has_job(id) ==> r == Some(&self.job(id)),
            !self.has_job(id) ==> r is None,
    {
        if id < self.jobs.len() as u64 {
            Some(&self.jobs[id as usize])
        } else {
            None
        }
    }

    /// Status of the job `id`, if it was ever admitted.
    pub fn status(&self, id: u64) -> (r: Option<JobStatus>)
        ensures
            self.has_job(id) ==> r == Some(self.job(id).status),
            !self.has_job(id) ==> r is None,
    {
        if id < self.jobs.len() as u64 {
            Some(self.jobs[id as usize].status)
        } else {
            None
        }
    }

    /// Whether the pipeline run of job `id` has been asked to stop.
    pub fn is_cancel_requested(&self, id: u64) -> (r: bool)
        ensures
            r == (self.has_job(id) && self.job(id).cancel_deadline is Some),
    {
        id < self.jobs.len() as u64 && self.jobs[id as usize].cancel_deadline.is_some()
    }

    pub fn new(settings: ProcessorSettings) -> (r: JobProcessor)
        ensures
            r.wf(),
            r.spec_settings() == settings,
            r.spec_jobs().len() == 0,
            r.active_count() == 0,
    {
        JobProcessor { settings, jobs: Vec::new(), pending: Vec::new(), in_flight: Vec::new() }
    }
}


/// Removing one entry of a sequence without duplicates removes exactly that value.
proof fn lemma_remove_unique(s: Seq<u64>, i: int)
    requires
        s.no_duplicates(),
        0 <= i < s.len(),
    ensures
        s.remove(i).no_duplicates(),
        s.remove(i).len() == s.len() - 1,
        forall|x: u64| s.remove(i).contains(x) <==> (s.contains(x) && x != s[i]),
{
    let r = s.remove(i);
    assert forall|k: int| 0 <= k < r.len() implies #[trigger] r[k] == (if k < i {
        s[k]
    } else {
        s[k + 1]
    }) by {}
    assert forall|x: u64| r.contains(x) <==> (s.contains(x) && x != s[i]) by {
        if r.contains(x) {
            let k = choose|k: int| 0 <= k < r.len() && r[k] == x;
            if k < i {
                assert(s[k] == x);
            } else {
                assert(s[k + 1] == x);
            }
        }
        if s.contains(x) && x != s[i] {
            let k = choose|k: int| 0 <= k < s.len() && s[k] == x;
            if k < i {
                assert(r[k] == x);
            } else {
                assert(k != i);
                assert(r[k - 1] == x);
            }
        }
    }
}

/// Removes the one occurrence of `id` and returns where it stood.
fn remove_id(v: &mut Vec<u64>, id: u64) -> (i: usize)
    requires
        old(v)@.contains(id),
    ensures
        i < old(v)@.len(),
        old(v)@[i as int] == id,
        final(v)@ == old(v)@.remove(i as int),
{
    let mut i: usize = 0;
    while i < v.len()
        invariant
            i <= v@.len(),
            v@ == old(v)@,
            v@.contains(id),
            forall|k: int| 0 <= k < i ==> v@[k] != id,
        decreases v@.len() - i,
    {
        if v[i] == id {
            v.remove(i);
            return i;
        }
        i = i + 1;
    }
    assert(false);
    i
}


/// Sets the status of the job at position `i`.
fn set_status(jobs: &mut Vec<Job>, i: usize, status: JobStatus)
    requires
        i < old(jobs)@.len(),
    ensures
        final(jobs)@ == old(jobs)@.update(i as int, (Job { status, ..old(jobs)@[i as int] })),
{
    let mut job = jobs.remove(i);
    job.status = status;
    jobs.insert(i, job);
    assert(jobs@ =~= old(jobs)@.update(i as int, (Job { status, ..old(jobs)@[i as int] })));
}


/// Records the terminal transition of the job at position `i`.
fn finish_at(jobs: &mut Vec<Job>, i: usize, status: JobStatus, result: JobResult)
    requires
        i < old(jobs)@.len(),
    ensures
        final(jobs)@ == old(jobs)@.update(i as int, finished(old(jobs)@[i as int], status, result)),
{
    let mut job = jobs.remove(i);
    job.status = status;
    job.result = Some(result);
    job.cancel_deadline = None;
    jobs.insert(i, job);
    assert(jobs@ =~= old(jobs)@.update(i as int, finished(old(jobs)@[i as int], status, result)));
}

/// Records that the job at position `i` emitted a progress or chunk event.
fn stream_at(jobs: &mut Vec<Job>, i: usize)
    requires
        i < old(jobs)@.len(),
        old(jobs)@[i as int].next_sequence < u64::MAX,
    ensures
        final(jobs)@ == old(jobs)@.update(i as int, streamed(old(jobs)@[i as int])),
{
    let mut job = jobs.remove(i);
    job.status = JobStatus::Streaming;
    job.next_sequence = job.next_sequence + 1;
    jobs.insert(i, job);
    assert(jobs@ =~= old(jobs)@.update(i as int, streamed(old(jobs)@[i as int])));
}

/// Sets the cancellation deadline of the job at position `i`.
fn set_deadline_at(jobs: &mut Vec<Job>, i: usize, deadline: u64)
    requires
        i < old(jobs)@.len(),
    ensures
        final(jobs)@ == old(jobs)@.update(
            i as int,
            (Job { cancel_deadline: Some(deadline), ..old(jobs)@[i as int] }),
        ),
{
    let mut job = jobs.remove(i);
    job.cancel_deadline = Some(deadline);
    jobs.insert(i, job);
    assert(jobs@ =~= old(jobs)@.update(
        i as int,
        (Job { cancel_deadline: Some(deadline), ..old(jobs)@[i as int] }),
    ));
}

/// The sequence without the one occurrence of `id`.
pub open spec fn without(s: Seq<u64>, id: u64) -> Seq<u64> {
    s.remove(s.index_of(id))
}

/// Removing the one occurrence of `id` from a sequence without duplicates.
proof fn lemma_without(s: Seq<u64>, id: u64, i: int)
    requires
        s.no_duplicates(),
        0 <= i < s.len(),
        s[i] == id,
    ensures
        without(s, id) == s.remove(i),
        without(s, id).no_duplicates(),
        forall|x: u64| without(s, id).contains(x) <==> (s.contains(x) && x != id),
{
    assert(s.contains(id));
    let j = s.index_of(id);
    assert(s[j] == id);
    assert(j == i);
    lemma_remove_unique(s, i);
}


/// Admission frees up as jobs finish: when a processor is at capacity and one of its
/// jobs in flight reaches a terminal state, the processor is below capacity again, so
/// the next valid `submit` is admitted.
pub proof fn lemma_finishing_frees_capacity(p: JobProcessor, q: JobProcessor, id: u64, job: Job)
    requires
        p.wf(),
        p.active_count() == p.spec_settings().capacity,
        p.has_job(id),
        p.job(id).status.spec_is_in_flight(),
        p.changes_one(&q, id, job, p.spec_pending(), without(p.spec_in_flight(), id)),
    ensures
        q.active_count() == p.active_count() - 1,
        q.active_count() < q.spec_settings().capacity,
{
    let i = p.in_flight@.index_of(id);
    assert(p.jobs@[id as int].id == id);
    assert(p.in_flight@.contains(id));
    assert(p.in_flight@[i] == id);
    lemma_without(p.in_flight@, id, i);
}

/// A cancellation of a job in flight is enforced within the grace period: after
/// `cancel` at time `now`, `force_cancel` cancels the job at `now` plus the grace
/// period (saturated) at the latest, whether or not the pipeline has stopped.
pub proof fn lemma_cancel_due_within_grace(p: JobProcessor, q: JobProcessor, id: u64, now: u64, deadline: u64)
    requires
        p.wf(),
        p.has_job(id),
        p.job(id).status.spec_is_in_flight(),
        deadline <= deadline_after(now, p.spec_settings().grace_period),
        p.changes_one(
            &q,
            id,
            (Job { cancel_deadline: Some(deadline), ..p.job(id) }),
            p.spec_pending(),
            p.spec_in_flight(),
        ),
    ensures
        q.cancel_due(id, deadline_after(now, q.spec_settings().grace_period)),
{
}


/// In every reachable state, a job holds a result exactly when it is in a terminal
/// state, a queued job waits in the queue, and a job holding a worker slot is in flight.
pub proof fn lemma_job_records_consistent(p: &JobProcessor, id: u64)
    requires
        p.wf(),
        p.has_job(id),
    ensures
        p.job(id).id == id,
        p.job(id).status.spec_is_terminal() <==> p.job(id).result is Some,
        p.job(id).status is Queued <==> p.spec_pending().contains(id),
        p.job(id).status.spec_is_in_flight() <==> p.spec_in_flight().contains(id),
{
    if p.pending@.contains(id) {
        let k = choose|k: int| 0 <= k < p.pending@.len() && p.pending@[k] == id;
        assert(p.pending@[k] == id);
    }
    if p.in_flight@.contains(id) {
        let k = choose|k: int| 0 <= k < p.in_flight@.len() && p.in_flight@[k] == id;
        assert(p.in_flight@[k] == id);
    }
}

} // verus!
