use vstd::prelude::*;
use crate::job::Event;

verus! {

/// Events buffered per subscriber unless configured otherwise.
pub const DEFAULT_BUFFER_SIZE: usize = 64;

/// Why a subscriber stopped receiving events.
#[derive(PartialEq, Eq, Structural, Clone, Copy, Debug)]
pub enum DisconnectReason {
    /// Its delivery buffer was full when an event arrived.
    BackpressureExceeded,
    /// It asked to leave.
    Unsubscribed,
}

/// Rejection of a `subscribe` call.
#[derive(PartialEq, Eq, Structural, Clone, Copy, Debug)]
pub enum SubscribeError {
    /// The job's channel was torn down.
    JobNotFound,
}

/// Delivery state of one job.
#[derive(PartialEq, Eq, Structural, Clone, Copy, Debug)]
pub struct Channel {
    pub job_id: u64,
    /// Sequence number of the last event accepted for the job.
    pub last_sequence: Option<u64>,
    /// The job's terminal event was accepted: no further event is.
    pub finished: bool,
    /// The channel was torn down: no further subscription is.
    pub closed: bool,
}

/// One listener of one job, with its bounded buffer of events not yet taken.
#[derive(Debug)]
pub struct Subscriber {
    pub token: u64,
    pub job_id: u64,
    /// Position of the job's channel in the registry.
    pub channel: usize,
    pub buffer: Vec<Event>,
    /// Sequence number of the last event taken by the listener.
    pub last_taken: Option<u64>,
    /// The listener has taken the job's terminal event.
    pub got_terminal: bool,
    pub disconnected: Option<DisconnectReason>,
}

/// Sequence numbers strictly increase along `s`.
pub open spec fn strictly_ordered(s: Seq<Event>) -> bool {
    forall|k: int, l: int| 0 <= k < l < s.len() ==> s[k].sequence < s[l].sequence
}

/// No event of `s` but the last one is terminal.
pub open spec fn terminal_only_last(s: Seq<Event>) -> bool {
    forall|k: int| 0 <= k < s.len() - 1 ==> !(#[trigger] s[k]).spec_is_terminal()
}

/// Every event of `s` comes after the sequence number `after`.
pub open spec fn all_after(s: Seq<Event>, after: Option<u64>) -> bool {
    forall|k: int| 0 <= k < s.len() ==> after is Some ==> after->0 < (#[trigger] s[k]).sequence
}

/// How one subscriber changes when `e` is published for its job with buffers of
/// `size` events: a connected subscriber of the job gets a copy of `e` at the end of its
/// buffer, or, when the buffer is full, is disconnected for backpressure. Any other
/// subscriber is left as it was.
pub open spec fn delivered(a: Subscriber, b: Subscriber, e: Event, size: usize) -> bool {
    if a.job_id != e.job_id || a.disconnected is Some {
        b == a
    } else {
        &&& b.token == a.token
        &&& b.job_id == a.job_id
        &&& b.channel == a.channel
        &&& b.last_taken == a.last_taken
        &&& b.got_terminal == a.got_terminal
        &&& if a.buffer@.len() < size {
            &&& b.disconnected is None
            &&& b.buffer@.len() == a.buffer@.len() + 1
            &&& b.buffer@.subrange(0, a.buffer@.len() as int) == a.buffer@
            &&& b.buffer@.last().same_as(&e)
        } else {
            &&& b.disconnected == Some(DisconnectReason::BackpressureExceeded)
            &&& b.buffer@.len() == 0
        }
    }
}

/// The invariant of one subscriber against the channel of its job.
pub open spec fn subscriber_ok(s: Subscriber, c: Channel) -> bool {
    let b = s.buffer@;
    &&& forall|k: int| 0 <= k < b.len() ==> (#[trigger] b[k]).job_id == s.job_id
    &&& strictly_ordered(b)
    &&& terminal_only_last(b)
    &&& all_after(b, s.last_taken)
    &&& forall|k: int|
        0 <= k < b.len() ==> c.last_sequence is Some && (#[trigger] b[k]).sequence
            <= c.last_sequence->0
    &&& s.last_taken is Some ==> c.last_sequence is Some && s.last_taken->0
        <= c.last_sequence->0
    &&& b.len() > 0 && b.last().spec_is_terminal() ==> c.finished
    &&& s.got_terminal ==> c.finished && b.len() == 0
    &&& s.disconnected is Some ==> b.len() == 0
}

/// Fan-out of job events to subscribers. Subscriptions and channels live in arenas
/// keyed by position; a subscription token is its position.
pub struct FanoutRegistry {
    buffer_size: usize,
    channels: Vec<Channel>,
    subscribers: Vec<Subscriber>,
}

impl FanoutRegistry {
    pub closed spec fn spec_buffer_size(&self) -> usize {
        self.buffer_size
    }

    pub closed spec fn spec_channels(&self) -> Seq<Channel> {
        self.channels@
    }

    pub closed spec fn spec_subscribers(&self) -> Seq<Subscriber> {
        self.subscribers@
    }

    pub open spec fn has_channel(&self, job_id: u64) -> bool {
        exists|i: int| 0 <= i < self.spec_channels().len() && #[trigger] self.spec_channels()[i].job_id == job_id
    }

    /// The channel of a job that has one.
    pub open spec fn channel(&self, job_id: u64) -> Channel {
        let i = choose|i: int| 0 <= i < self.spec_channels().len() && #[trigger] self.spec_channels()[i].job_id == job_id;
        self.spec_channels()[i]
    }

    pub open spec fn has_subscriber(&self, token: u64) -> bool {
        token < self.spec_subscribers().len()
    }

    pub open spec fn subscriber(&self, token: u64) -> Subscriber {
        self.spec_subscribers()[token as int]
    }

    pub closed spec fn wf(&self) -> bool {
        &&& (forall|i: int, j: int|
            #![trigger self.channels@[i], self.channels@[j]]
            0 <= i < self.channels@.len() && 0 <= j < self.channels@.len() && i != j
                ==> self.channels@[i].job_id != self.channels@[j].job_id)
        &&& (forall|i: int|
            0 <= i < self.channels@.len() ==> (#[trigger] self.channels@[i]).closed
                ==> self.channels@[i].finished)
        &&& (forall|t: int|
            0 <= t < self.subscribers@.len() ==> {
                let s = #[trigger] self.subscribers@[t];
                &&& s.token == t
                &&& s.channel < self.channels@.len()
                &&& self.channels@[s.channel as int].job_id == s.job_id
                &&& subscriber_ok(s, self.channels@[s.channel as int])
            })
    }

    pub fn new(buffer_size: usize) -> (r: FanoutRegistry)
        ensures
            r.wf(),
            r.spec_buffer_size() == buffer_size,
            r.spec_channels().len() == 0,
            r.spec_subscribers().len() == 0,
    {
        FanoutRegistry { buffer_size, channels: Vec::new(), subscribers: Vec::new() }
    }

    /// Hands `event` to every connected subscriber of its job without waiting on any
    /// of them. A subscriber whose buffer is full is disconnected for backpressure; the
    /// others receive the event. The event is refused when it names another job, when
    /// the job's channel is finished or torn down, or when it does not come after the
    /// last accepted event of the job.
    pub fn publish(&mut self, job_id: u64, event: Event) -> (r: bool)
        requires
            old(self).wf(),
        ensures
            final(self).wf(),
            final(self).spec_buffer_size() == old(self).spec_buffer_size(),
            r == (event.job_id == job_id && (!old(self).has_channel(job_id) || accepts(
                old(self).channel(job_id),
                event,
            ))),
            !r ==> *final(self) == *old(self),
            r ==> {
                &&& final(self).has_channel(job_id)
                &&& final(self).channel(job_id) == advanced(
                    if old(self).has_channel(job_id) {
                        old(self).channel(job_id)
                    } else {
                        Channel { job_id, last_sequence: None, finished: false, closed: false }
                    },
                    event,
                )
                &&& forall|j: u64| j != job_id && #[trigger] old(self).has_channel(j) ==> final(self).has_channel(j)
                    && final(self).channel(j) == old(self).channel(j)
                &&& final(self).spec_subscribers().len() == old(self).spec_subscribers().len()
                &&& forall|t: int|
                    0 <= t < old(self).spec_subscribers().len() ==> delivered(
                        #[trigger] old(self).spec_subscribers()[t],
                        final(self).spec_subscribers()[t],
                        event,
                        old(self).spec_buffer_size(),
                    )
            },
    {
        if event.job_id != job_id {
            return false;
        }
        let ci = match self.find_channel(job_id) {
            Some(i) => i,
            None => {
                self.channels.push(
                    Channel { job_id, last_sequence: None, finished: false, closed: false },
                );
                proof {
                    let last = (self.channels@.len() - 1) as int;
                    assert forall|i: int, j: int|
                        #![trigger self.channels@[i], self.channels@[j]]
                        0 <= i < self.channels@.len() && 0 <= j < self.channels@.len() && i != j
                        implies self.channels@[i].job_id != self.channels@[j].job_id by {
                        if i != last && j != last {
                            assert(old(self).channels@[i] == self.channels@[i]);
                            assert(old(self).channels@[j] == self.channels@[j]);
                        } else if i == last {
                            assert(old(self).channels@[j] == self.channels@[j]);
                            assert(old(self).spec_channels()[j].job_id != job_id);
                        } else {
                            assert(old(self).channels@[i] == self.channels@[i]);
                            assert(old(self).spec_channels()[i].job_id != job_id);
                        }
                    }
                    assert(self.channels@[last].job_id == job_id);
                    assert forall|t: int| 0 <= t < self.subscribers@.len() implies {
                        let s = #[trigger] self.subscribers@[t];
                        &&& s.token == t
                        &&& s.channel < self.channels@.len()
                        &&& self.channels@[s.channel as int].job_id == s.job_id
                        &&& subscriber_ok(s, self.channels@[s.channel as int])
                    } by {
                        let s = self.subscribers@[t];
                        assert(old(self).channels@[s.channel as int] == self.channels@[s.channel as int]);
                    }
                }
                self.channels.len() - 1
            },
        };
        proof {
            assert(self.wf());
            assert(self.channels@[ci as int].job_id == job_id);
            assert(old(self).has_channel(job_id) ==> self.channels@[ci as int] == old(self).channel(job_id));
            assert(!old(self).has_channel(job_id) ==> self.channels@[ci as int] == (Channel { job_id, last_sequence: None, finished: false, closed: false }));
        }
        let ghost chans_pre = self.channels@;
        let c = self.channels[ci];
        let fresh = match c.last_sequence {
            Some(last) => last < event.sequence,
            None => true,
        };
        if c.closed || c.finished || !fresh {
            return false;
        }
        let terminal = event.is_terminal();
        let nc = Channel { job_id, last_sequence: Some(event.sequence), finished: terminal, closed: false };
        self.channels.remove(ci);
        self.channels.insert(ci, nc);
        proof {
            assert(self.channels@ =~= chans_pre.update(ci as int, nc));
            assert(nc == advanced(c, event));
        }
        let ghost chans = self.channels@;
        let ghost subs0 = self.subscribers@;
        let n = self.subscribers.len();
        let size = self.buffer_size;
        let mut t: usize = 0;
        while t < n
            invariant
                self.channels@ == chans,
                self.buffer_size == size,
                self.subscribers@.len() == n,
                n == subs0.len(),
                t <= n,
                ci < chans.len(),
                event.job_id == job_id,
                forall|k: int| 0 <= k < t ==> delivered(#[trigger] subs0[k], self.subscribers@[k], event, size),
                forall|k: int| t <= k < n ==> #[trigger] self.subscribers@[k] == subs0[k],
            decreases n - t,
        {
            let mut s = self.subscribers.remove(t);
            if s.job_id == job_id && s.disconnected.is_none() {
                if s.buffer.len() < size {
                    s.buffer.push(event.duplicate());
                    proof {
                        assert(s.buffer@.subrange(0, subs0[t as int].buffer@.len() as int) =~= subs0[t as int].buffer@);
                    }
                } else {
                    s.disconnected = Some(DisconnectReason::BackpressureExceeded);
                    s.buffer = Vec::new();
                }
            }
            self.subscribers.insert(t, s);
            t = t + 1;
        }
        proof {
            assert forall|i: int, j: int|
                #![trigger self.channels@[i], self.channels@[j]]
                0 <= i < self.channels@.len() && 0 <= j < self.channels@.len() && i != j
                implies self.channels@[i].job_id != self.channels@[j].job_id by {
                assert(chans_pre[i].job_id == self.channels@[i].job_id);
                assert(chans_pre[j].job_id == self.channels@[j].job_id);
            }
            assert forall|t: int| 0 <= t < self.subscribers@.len() implies {
                let s = #[trigger] self.subscribers@[t];
                &&& s.token == t
                &&& s.channel < self.channels@.len()
                &&& self.channels@[s.channel as int].job_id == s.job_id
                &&& subscriber_ok(s, self.channels@[s.channel as int])
            } by {
                let a = subs0[t];
                assert(delivered(a, self.subscribers@[t], event, size));
                if a.job_id == job_id {
                    if a.channel != ci {
                        assert(chans_pre[a.channel as int].job_id != chans_pre[ci as int].job_id);
                    }
                    lemma_delivered_ok(a, self.subscribers@[t], event, size, c);
                } else {
                    assert(a.channel != ci);
                }
            }
            assert(self.wf());
            self.lemma_channel_at(ci as int);
            old(self).lemma_other_channels(self, job_id);
        }
        true
    }

    /// Subscribes to a job and returns the subscription token. The subscriber receives
    /// only events published from now on. A job whose channel was torn down is refused.
    pub fn subscribe(&mut self, job_id: u64) -> (r: Result<u64, SubscribeError>)
        requires
            old(self).wf(),
        ensures
            final(self).wf(),
            final(self).spec_buffer_size() == old(self).spec_buffer_size(),
            old(self).has_channel(job_id) && old(self).channel(job_id).closed ==> r == Err::<
                u64,
                SubscribeError,
            >(SubscribeError::JobNotFound) && *final(self) == *old(self),
            !(old(self).has_channel(job_id) && old(self).channel(job_id).closed) ==> {
                let t = old(self).spec_subscribers().len() as u64;
                let c = if old(self).has_channel(job_id) {
                    old(self).channel(job_id)
                } else {
                    Channel { job_id, last_sequence: None, finished: false, closed: false }
                };
                &&& r == Ok::<u64, SubscribeError>(t)
                &&& final(self).has_channel(job_id)
                &&& final(self).channel(job_id) == c
                &&& forall|j: u64| j != job_id && #[trigger] old(self).has_channel(j) ==> final(self).has_channel(j)
                    && final(self).channel(j) == old(self).channel(j)
                &&& final(self).spec_subscribers().len() == t + 1
                &&& final(self).spec_subscribers().subrange(0, t as int) == old(
                    self,
                ).spec_subscribers()
                &&& final(self).subscriber(t).token == t
                &&& final(self).subscriber(t).job_id == job_id
                &&& final(self).subscriber(t).buffer@.len() == 0
                &&& final(self).subscriber(t).last_taken == c.last_sequence
                &&& !final(self).subscriber(t).got_terminal
                &&& final(self).subscriber(t).disconnected is None
            },
    {
        let ci = match self.find_channel(job_id) {
            Some(i) => {
                if self.channels[i].closed {
                    return Err(SubscribeError::JobNotFound);
                }
                i
            },
            None => {
                self.channels.push(
                    Channel { job_id, last_sequence: None, finished: false, closed: false },
                );
                proof {
                    let last = (self.channels@.len() - 1) as int;
                    assert forall|i: int, j: int|
                        #![trigger self.channels@[i], self.channels@[j]]
                        0 <= i < self.channels@.len() && 0 <= j < self.channels@.len() && i != j
                        implies self.channels@[i].job_id != self.channels@[j].job_id by {
                        if i != last && j != last {
                            assert(old(self).channels@[i] == self.channels@[i]);
                            assert(old(self).channels@[j] == self.channels@[j]);
                        } else if i == last {
                            assert(old(self).channels@[j] == self.channels@[j]);
                            assert(old(self).spec_channels()[j].job_id != job_id);
                        } else {
                            assert(old(self).channels@[i] == self.channels@[i]);
                            assert(old(self).spec_channels()[i].job_id != job_id);
                        }
                    }
                    assert forall|t: int| 0 <= t < self.subscribers@.len() implies {
                        let s = #[trigger] self.subscribers@[t];
                        &&& s.token == t
                        &&& s.channel < self.channels@.len()
                        &&& self.channels@[s.channel as int].job_id == s.job_id
                        &&& subscriber_ok(s, self.channels@[s.channel as int])
                    } by {
                        let s = self.subscribers@[t];
                        assert(old(self).channels@[s.channel as int] == self.channels@[s.channel as int]);
                    }
                }
                self.channels.len() - 1
            },
        };
        proof {
            assert(self.channels@[ci as int].job_id == job_id);
            assert(old(self).has_channel(job_id) ==> self.channels@[ci as int] == old(self).channel(job_id));
            let k = choose|k: int| 0 <= k < self.spec_channels().len() && #[trigger] self.spec_channels()[k].job_id == job_id;
            if k != ci as int {
                assert(self.channels@[k].job_id != self.channels@[ci as int].job_id);
            }
        }
        let t = self.subscribers.len() as u64;
        let last_taken = self.channels[ci].last_sequence;
        self.subscribers.push(
            Subscriber {
                token: t,
                job_id,
                channel: ci,
                buffer: Vec::new(),
                last_taken,
                got_terminal: false,
                disconnected: None,
            },
        );
        proof {
            assert(self.subscribers@.subrange(0, t as int) =~= old(self).subscribers@);
            assert forall|u: int| 0 <= u < self.subscribers@.len() implies {
                let s = #[trigger] self.subscribers@[u];
                &&& s.token == u
                &&& s.channel < self.channels@.len()
                &&& self.channels@[s.channel as int].job_id == s.job_id
                &&& subscriber_ok(s, self.channels@[s.channel as int])
            } by {
                if u < t {
                    assert(self.subscribers@[u] == self.subscribers@.subrange(0, t as int)[u]);
                }
            }
            old(self).lemma_other_channels(self, job_id);
        }
        Ok(t)
    }

    /// Ends a subscription: nothing more is delivered to it, and what it had not taken
    /// is dropped. Returns whether the subscription was connected.
    pub fn unsubscribe(&mut self, token: u64) -> (r: bool)
        requires
            old(self).wf(),
        ensures
            final(self).wf(),
            final(self).spec_buffer_size() == old(self).spec_buffer_size(),
            final(self).spec_channels() == old(self).spec_channels(),
            r == (old(self).has_subscriber(token) && old(self).subscriber(token).disconnected is None),
            !r ==> *final(self) == *old(self),
            r ==> {
                let a = old(self).subscriber(token);
                let b = final(self).subscriber(token);
                &&& final(self).spec_subscribers().len() == old(self).spec_subscribers().len()
                &&& forall|u: int| 0 <= u < old(self).spec_subscribers().len() && u != token
                    ==> #[trigger] final(self).spec_subscribers()[u] == old(self).spec_subscribers()[u]
                &&& b.disconnected == Some(DisconnectReason::Unsubscribed)
                &&& b.buffer@.len() == 0
                &&& b.token == a.token && b.job_id == a.job_id && b.channel == a.channel
                &&& b.last_taken == a.last_taken && b.got_terminal == a.got_terminal
            },
    {
        if token >= self.subscribers.len() as u64 {
            return false;
        }
        let i = token as usize;
        if self.subscribers[i].disconnected.is_some() {
            return false;
        }
        let mut s = self.subscribers.remove(i);
        s.disconnected = Some(DisconnectReason::Unsubscribed);
        s.buffer = Vec::new();
        self.subscribers.insert(i, s);
        proof {
            assert forall|u: int| 0 <= u < self.subscribers@.len() implies {
                let s = #[trigger] self.subscribers@[u];
                &&& s.token == u
                &&& s.channel < self.channels@.len()
                &&& self.channels@[s.channel as int].job_id == s.job_id
                &&& subscriber_ok(s, self.channels@[s.channel as int])
            } by {
                if u != i {
                    assert(self.subscribers@[u] == old(self).subscribers@[u]);
                } else {
                    assert(old(self).subscribers@[u].token == u);
                }
            }
        }
        true
    }

    /// Hands the subscriber the events buffered for it, oldest first. Across calls, a
    /// subscriber sees strictly increasing sequence numbers and, at most once, a
    /// terminal event, which is the last event it ever receives.
    pub fn take(&mut self, token: u64) -> (r: Vec<Event>)
        requires
            old(self).wf(),
        ensures
            final(self).wf(),
            final(self).spec_buffer_size() == old(self).spec_buffer_size(),
            final(self).spec_channels() == old(self).spec_channels(),
            !old(self).has_subscriber(token) ==> r@.len() == 0 && *final(self) == *old(self),
            old(self).has_subscriber(token) ==> {
                let a = old(self).subscriber(token);
                let b = final(self).subscriber(token);
                &&& r@ == a.buffer@
                &&& strictly_ordered(r@)
                &&& terminal_only_last(r@)
                &&& all_after(r@, a.last_taken)
                &&& forall|k: int| 0 <= k < r@.len() ==> (#[trigger] r@[k]).job_id == a.job_id
                &&& a.got_terminal ==> r@.len() == 0
                &&& a.disconnected is Some ==> r@.len() == 0
                &&& final(self).spec_subscribers().len() == old(self).spec_subscribers().len()
                &&& forall|u: int| 0 <= u < old(self).spec_subscribers().len() && u != token
                    ==> #[trigger] final(self).spec_subscribers()[u] == old(self).spec_subscribers()[u]
                &&& b.buffer@.len() == 0
                &&& b.token == a.token && b.job_id == a.job_id && b.channel == a.channel
                &&& b.disconnected == a.disconnected
                &&& b.last_taken == if r@.len() > 0 {
                    Some(r@.last().sequence)
                } else {
                    a.last_taken
                }
                &&& b.got_terminal == (a.got_terminal || (r@.len() > 0
                    && r@.last().spec_is_terminal()))
            },
    {
        if token >= self.subscribers.len() as u64 {
            return Vec::new();
        }
        let i = token as usize;
        let mut s = self.subscribers.remove(i);
        let mut out: Vec<Event> = Vec::new();
        std::mem::swap(&mut out, &mut s.buffer);
        let n = out.len();
        if n > 0 {
            s.last_taken = Some(out[n - 1].sequence);
            if out[n - 1].is_terminal() {
                s.got_terminal = true;
            }
        }
        self.subscribers.insert(i, s);
        proof {
            assert(old(self).subscribers@[i as int].token == i);
            assert forall|u: int| 0 <= u < self.subscribers@.len() implies {
                let s = #[trigger] self.subscribers@[u];
                &&& s.token == u
                &&& s.channel < self.channels@.len()
                &&& self.channels@[s.channel as int].job_id == s.job_id
                &&& subscriber_ok(s, self.channels@[s.channel as int])
            } by {
                if u != i {
                    assert(self.subscribers@[u] == old(self).subscribers@[u]);
                }
            }
        }
        out
    }

    /// Tears down the channel of a finished job, after which subscribing to it fails.
    /// Returns whether the channel was finished and still open.
    pub fn close_job(&mut self, job_id: u64) -> (r: bool)
        requires
            old(self).wf(),
        ensures
            final(self).wf(),
            final(self).spec_buffer_size() == old(self).spec_buffer_size(),
            final(self).spec_subscribers() == old(self).spec_subscribers(),
            r == (old(self).has_channel(job_id) && old(self).channel(job_id).finished
                && !old(self).channel(job_id).closed),
            !r ==> *final(self) == *old(self),
            r ==> final(self).has_channel(job_id) && final(self).channel(job_id) == (Channel {
                closed: true,
                ..old(self).channel(job_id)
            }),
            forall|j: u64| j != job_id && #[trigger] old(self).has_channel(j) ==> final(self).has_channel(j)
                && final(self).channel(j) == old(self).channel(j),
    {
        let ci = match self.find_channel(job_id) {
            Some(i) => i,
            None => {
                return false;
            },
        };
        let c = self.channels[ci];
        if !c.finished || c.closed {
            return false;
        }
        let nc = Channel { closed: true, ..c };
        self.channels.remove(ci);
        self.channels.insert(ci, nc);
        proof {
            assert(self.channels@ =~= old(self).channels@.update(ci as int, nc));
            assert forall|i: int, j: int|
                #![trigger self.channels@[i], self.channels@[j]]
                0 <= i < self.channels@.len() && 0 <= j < self.channels@.len() && i != j
                implies self.channels@[i].job_id != self.channels@[j].job_id by {
                assert(old(self).channels@[i].job_id == self.channels@[i].job_id);
                assert(old(self).channels@[j].job_id == self.channels@[j].job_id);
            }
            assert forall|u: int| 0 <= u < self.subscribers@.len() implies {
                let s = #[trigger] self.subscribers@[u];
                &&& s.token == u
                &&& s.channel < self.channels@.len()
                &&& self.channels@[s.channel as int].job_id == s.job_id
                &&& subscriber_ok(s, self.channels@[s.channel as int])
            } by {
                let s = self.subscribers@[u];
                assert(old(self).channels@[s.channel as int].job_id == self.channels@[s.channel as int].job_id);
            }
            self.lemma_channel_at(ci as int);
            old(self).lemma_other_channels(self, job_id);
        }
        true
    }

    pub fn buffer_size(&self) -> (r: usize)
        ensures
            r == self.spec_buffer_size(),
    {
        self.buffer_size
    }

    /// Number of subscriptions ever made.
    pub fn subscriber_count(&self) -> (r: usize)
        ensures
            r == self.spec_subscribers().len(),
    {
        self.subscribers.len()
    }

    /// Why the subscription `token` ended, if it did; `None` also for an unknown token.
    pub fn disconnect_reason(&self, token: u64) -> (r: Option<DisconnectReason>)
        ensures
            self.has_subscriber(token) ==> r == self.subscriber(token).disconnected,
            !self.has_subscriber(token) ==> r is None,
    {
        if token < self.subscribers.len() as u64 {
            self.subscribers[token as usize].disconnected
        } else {
            None
        }
    }

    /// Number of events buffered for the subscription `token`.
    pub fn buffered(&self, token: u64) -> (r: usize)
        ensures
            self.has_subscriber(token) ==> r == self.subscriber(token).buffer@.len(),
            !self.has_subscriber(token) ==> r == 0,
    {
        if token < self.subscribers.len() as u64 {
            self.subscribers[token as usize].buffer.len()
        } else {
            0
        }
    }

    /// Snapshot of a job's delivery state (whether it finished, its last sequence
    /// number), for a late joiner; not part of the ordered event stream.
    pub fn snapshot(&self, job_id: u64) -> (r: Option<Channel>)
        requires
            self.wf(),
        ensures
            self.has_channel(job_id) ==> r == Some(self.channel(job_id)),
            !self.has_channel(job_id) ==> r is None,
    {
        match self.find_channel(job_id) {
            Some(i) => Some(self.channels[i]),
            None => None,
        }
    }

    /// Position of the channel of `job_id`, if there is one.
    fn find_channel(&self, job_id: u64) -> (r: Option<usize>)
        requires
            self.wf(),
        ensures
            r is None <==> !self.has_channel(job_id),
            r is Some ==> r->0 < self.channels@.len() && self.channels@[r->0 as int].job_id
                == job_id && self.channel(job_id) == self.channels@[r->0 as int],
    {
        let mut i: usize = 0;
        while i < self.channels.len()
            invariant
                self.wf(),
                i <= self.channels@.len(),
                forall|k: int| 0 <= k < i ==> self.channels@[k].job_id != job_id,
            decreases self.channels@.len() - i,
        {
            if self.channels[i].job_id == job_id {
                proof {
                    assert(self.spec_channels()[i as int].job_id == job_id);
                    let j = choose|j: int| 0 <= j < self.spec_channels().len() && #[trigger] self.spec_channels()[j].job_id == job_id;
                    assert(self.channels@[j].job_id == job_id);
                    if j != i as int {
                        assert(self.channels@[i as int].job_id != self.channels@[j].job_id);
                    }
                }
                return Some(i);
            }
            i = i + 1;
        }
        None
    }
}


/// What `publish` does to the channel of the event's job when it accepts the event.
pub open spec fn advanced(c: Channel, e: Event) -> Channel {
    Channel { last_sequence: Some(e.sequence), finished: e.spec_is_terminal(), ..c }
}

/// The channel of a job accepts `e` as its next event.
pub open spec fn accepts(c: Channel, e: Event) -> bool {
    &&& !c.closed
    &&& !c.finished
    &&& c.last_sequence is None || c.last_sequence->0 < e.sequence
}

/// A subscriber of `e`'s job stays in order after `e` is delivered to it.
proof fn lemma_delivered_ok(a: Subscriber, b: Subscriber, e: Event, size: usize, c: Channel)
    requires
        subscriber_ok(a, c),
        a.job_id == c.job_id,
        e.job_id == c.job_id,
        accepts(c, e),
        delivered(a, b, e, size),
    ensures
        subscriber_ok(b, advanced(c, e)),
{
    let n = advanced(c, e);
    if a.disconnected is None && a.buffer@.len() < size {
        let ob = a.buffer@;
        let nb = b.buffer@;
        assert forall|k: int| 0 <= k < nb.len() implies (#[trigger] nb[k]).job_id == b.job_id
            && n.last_sequence is Some && nb[k].sequence <= n.last_sequence->0 && (b.last_taken is Some ==> b.last_taken->0 < nb[k].sequence) by {
            if k < ob.len() {
                assert(nb[k] == nb.subrange(0, ob.len() as int)[k]);
            }
        }
        assert forall|k: int, l: int| 0 <= k < l < nb.len() implies nb[k].sequence < nb[l].sequence by {
            assert(nb[k] == nb.subrange(0, ob.len() as int)[k]);
            if l < ob.len() {
                assert(nb[l] == nb.subrange(0, ob.len() as int)[l]);
            }
        }
        assert forall|k: int| 0 <= k < nb.len() - 1 implies !(#[trigger] nb[k]).spec_is_terminal() by {
            assert(nb[k] == nb.subrange(0, ob.len() as int)[k]);
            if k == ob.len() - 1 {
                assert(ob.last() == ob[k]);
            }
        }
    }
}


impl FanoutRegistry {
    /// In a well-formed registry, the channel at position `i` is the channel of its job.
    proof fn lemma_channel_at(&self, i: int)
        requires
            self.wf(),
            0 <= i < self.channels@.len(),
        ensures
            self.has_channel(self.channels@[i].job_id),
            self.channel(self.channels@[i].job_id) == self.channels@[i],
    {
        let j = self.channels@[i].job_id;
        assert(self.spec_channels()[i].job_id == j);
        let k = choose|k: int| 0 <= k < self.spec_channels().len() && #[trigger] self.spec_channels()[k].job_id == j;
        if k != i {
            assert(self.channels@[k].job_id != self.channels@[i].job_id);
        }
    }

    /// Channels of jobs other than `job_id` are the same in `self` and `next`, given that
    /// `next`'s channels are `self`'s, possibly with one more at the end, updated at a
    /// position that holds `job_id`.
    proof fn lemma_other_channels(&self, next: &FanoutRegistry, job_id: u64)
        requires
            self.wf(),
            next.wf(),
            self.channels@.len() <= next.channels@.len(),
            forall|i: int| 0 <= i < self.channels@.len() && self.channels@[i].job_id != job_id
                ==> #[trigger] next.channels@[i] == self.channels@[i],
        ensures
            forall|j: u64| j != job_id && #[trigger] self.has_channel(j) ==> next.has_channel(j)
                && next.channel(j) == self.channel(j),
    {
        assert forall|j: u64| j != job_id && #[trigger] self.has_channel(j) implies next.has_channel(j)
            && next.channel(j) == self.channel(j) by {
            let k = choose|k: int| 0 <= k < self.spec_channels().len() && #[trigger] self.spec_channels()[k].job_id == j;
            self.lemma_channel_at(k);
            assert(next.channels@[k] == self.channels@[k]);
            next.lemma_channel_at(k);
        }
    }
}


/// What any subscriber holds is in delivery order: sequence numbers strictly increase,
/// all come after the last event it took, all belong to its job, a terminal event can
/// only be the last one, and once it has taken a terminal event nothing more is held
/// for it and its job's channel accepts nothing more.
pub proof fn lemma_subscriber_in_order(reg: &FanoutRegistry, token: u64)
    requires
        reg.wf(),
        reg.has_subscriber(token),
    ensures
        ({
            let s = reg.subscriber(token);
            &&& strictly_ordered(s.buffer@)
            &&& terminal_only_last(s.buffer@)
            &&& all_after(s.buffer@, s.last_taken)
            &&& forall|k: int| 0 <= k < s.buffer@.len() ==> (#[trigger] s.buffer@[k]).job_id == s.job_id
            &&& reg.has_channel(s.job_id)
            &&& s.got_terminal ==> s.buffer@.len() == 0 && reg.channel(s.job_id).finished
        }),
{
    let s = reg.subscribers@[token as int];
    reg.lemma_channel_at(s.channel as int);
}

} // verus!
