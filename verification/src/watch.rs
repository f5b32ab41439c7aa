//! The event stream coordinator: a pull surface over the worker's event
//! channel, with adaptive backoff and cooperative lifecycle control.

use crate::event::Event;
use vstd::prelude::*;

verus! {

/// Number of steps in the backoff progression; the final step repeats.
pub const DELAY_STEPS: usize = 37;

/// The sleep duration, in milliseconds, at step `i` of the backoff
/// progression: sixteen steps of 16 ms, six of 32 ms, eight of 64 ms,
/// four of 128 ms, two of 256 ms, and a final 512 ms.
pub open spec fn spec_progression_ms(i: int) -> u64 {
    if i < 16 {
        16
    } else if i < 22 {
        32
    } else if i < 30 {
        64
    } else if i < 34 {
        128
    } else if i < 36 {
        256
    } else {
        512
    }
}

/// A cursor into the fixed progression of backoff sleep durations.
pub struct Delay {
    idx: usize,
}

impl Delay {
    /// The current step index.
    pub closed spec fn index(&self) -> int {
        self.idx as int
    }

    /// The cursor stays within the progression.
    pub open spec fn inv(&self) -> bool {
        0 <= self.index() < DELAY_STEPS
    }

    /// A fresh cursor at the first (shortest) step.
    pub fn new() -> (d: Delay)
        ensures
            d.index() == 0,
            d.inv(),
    {
        Delay { idx: 0 }
    }

    /// The sleep duration of the current step, in milliseconds.
    pub fn to_duration(&self) -> (ms: u64)
        requires
            self.inv(),
        ensures
            ms == spec_progression_ms(self.index()),
    {
        if self.idx < 16 {
            16
        } else if self.idx < 22 {
            32
        } else if self.idx < 30 {
            64
        } else if self.idx < 34 {
            128
        } else if self.idx < 36 {
            256
        } else {
            512
        }
    }

    /// A cursor at the first step, as after a reset.
    pub fn initial_delay(&self) -> (d: Delay)
        ensures
            d.index() == 0,
            d.inv(),
    {
        Delay { idx: 0 }
    }

    /// Return to the first step.
    pub fn reset(&mut self)
        ensures
            final(self).index() == 0,
            final(self).inv(),
    {
        *self = self.initial_delay();
    }

    /// The next step: one further into the progression, clamped at the
    /// last step. The index never decreases and stays in range.
    pub fn next(&self) -> (d: Delay)
        requires
            self.inv(),
        ensures
            d.index() == if self.index() < DELAY_STEPS - 1 {
                self.index() + 1
            } else {
                self.index()
            },
            d.index() >= self.index(),
            d.inv(),
    {
        if self.idx < DELAY_STEPS - 1 {
            Delay { idx: self.idx + 1 }
        } else {
            Delay { idx: self.idx }
        }
    }
}

#[verifier::external_type_specification]
#[verifier::external_body]
#[verifier::reject_recursive_types(T)]
pub struct ExSender<T>(std::sync::mpsc::Sender<T>);

#[verifier::external_type_specification]
#[verifier::external_body]
#[verifier::reject_recursive_types(T)]
pub struct ExReceiver<T>(std::sync::mpsc::Receiver<T>);

/// What a non-blocking read of a channel found.
pub enum ChannelRead<T> {
    /// A value was waiting.
    Item(T),
    /// Nothing waiting; the sender is still alive.
    Empty,
    /// The sending side has disconnected.
    Closed,
}

/// Relies on std::sync::mpsc::channel: makes a connected sender/receiver
/// pair. Nothing is assumed of the pair.
#[verifier::external_body]
fn mpsc_channel<T>() -> (std::sync::mpsc::Sender<T>, std::sync::mpsc::Receiver<T>) {
    std::sync::mpsc::channel()
}

/// Relies on std::sync::mpsc::Receiver::try_recv: returns a waiting value,
/// or reports the channel empty or disconnected. Which outcome comes back
/// depends on the other endpoint, so nothing is assumed of it.
#[verifier::external_body]
fn try_recv_from<T>(rx: &std::sync::mpsc::Receiver<T>) -> (r: ChannelRead<T>) {
    match rx.try_recv() {
        Ok(v) => ChannelRead::Item(v),
        Err(std::sync::mpsc::TryRecvError::Empty) => ChannelRead::Empty,
        Err(std::sync::mpsc::TryRecvError::Disconnected) => ChannelRead::Closed,
    }
}

/// Relies on std::sync::mpsc::Sender::send: hands a value to the channel,
/// reporting whether the receiving side was still alive to take it.
/// Nothing is assumed of the outcome.
#[verifier::external_body]
fn send_on<T>(tx: &std::sync::mpsc::Sender<T>, v: T) -> (ok: bool) {
    tx.send(v).is_ok()
}

/// The stream's lifecycle state; `Closed` is terminal.
#[derive(Clone, Copy, PartialEq, Eq, Structural, Debug)]
pub enum State {
    Open,
    Closed,
}

/// The consumer's half of a watch: a pull surface over the worker's
/// event channel, a control channel to ask the worker to stop, and the
/// adaptive backoff cursor.
pub struct EventStream {
    state: State,
    delay: Delay,
    ctl_tx: std::sync::mpsc::Sender<bool>,
    event_rx: std::sync::mpsc::Receiver<Event>,
}

/// The worker's half of a watch: where to send events, where to learn of
/// a stop request, and the root path to watch.
pub struct WorkerLink {
    pub path: String,
    pub event_tx: std::sync::mpsc::Sender<Event>,
    pub ctl_rx: std::sync::mpsc::Receiver<bool>,
}

/// What one poll of the stream decided.
pub enum PollStep {
    /// An event was waiting: hand it to the consumer.
    Ready(Event),
    /// Nothing waiting and a wake is already scheduled: suspend.
    Pending,
    /// Nothing waiting: suspend, and wake the consumer after this many
    /// milliseconds.
    PendingWake(u64),
    /// The stream has ended; no further event will be produced.
    Finished,
}

impl EventStream {
    /// Whether the stream is still open.
    pub closed spec fn is_open(&self) -> bool {
        self.state == State::Open
    }

    /// The backoff cursor's current step index.
    pub closed spec fn delay_index(&self) -> int {
        self.delay.index()
    }

    /// The backoff cursor stays within the progression.
    pub closed spec fn inv(&self) -> bool {
        self.delay.inv()
    }

    /// Ask the worker to stop and close the stream.
    ///
    /// Closing is idempotent: on an already-closed stream nothing changes
    /// and the call reports success, so a second consecutive call always
    /// returns `true`. On an open stream the result reports whether the
    /// control channel took the message.
    pub fn stop(&mut self) -> (r: bool)
        ensures
            !final(self).is_open(),
            final(self).inv() == old(self).inv(),
            final(self).delay_index() == old(self).delay_index(),
            !old(self).is_open() ==> r == true && *final(self) == *old(self),
    {
        match self.state {
            State::Open => {
                self.state = State::Closed;
                send_on(&self.ctl_tx, false)
            },
            State::Closed => true,
        }
    }

    /// What an open stream does with the outcome of one non-blocking read
    /// of its event channel: a waiting event resets the backoff and is
    /// handed out as it came; an empty channel suspends, advancing the
    /// backoff one step and asking for a wake after the new step's
    /// duration when no wake is pending yet; a disconnected channel
    /// closes the stream for good.
    pub fn poll_decide(&mut self, read: ChannelRead<Event>, waker_idle: bool) -> (r: PollStep)
        requires
            old(self).inv(),
            old(self).is_open(),
        ensures
            final(self).inv(),
            read matches ChannelRead::Item(e) ==> r == PollStep::Ready(e) && final(self).is_open()
                && final(self).delay_index() == 0,
            read is Empty && waker_idle ==> r is PendingWake && final(self).is_open()
                && final(self).delay_index() == (if old(self).delay_index() < DELAY_STEPS - 1 {
                old(self).delay_index() + 1
            } else {
                old(self).delay_index()
            }),
            r matches PollStep::PendingWake(ms) ==> ms == spec_progression_ms(
                final(self).delay_index(),
            ),
            read is Empty && !waker_idle ==> r == PollStep::Pending && *final(self) == *old(self),
            read is Closed ==> r == PollStep::Finished && !final(self).is_open()
                && final(self).delay_index() == old(self).delay_index(),
    {
        match read {
            ChannelRead::Item(event) => {
                self.delay.reset();
                PollStep::Ready(event)
            },
            ChannelRead::Empty => {
                if waker_idle {
                    self.delay = self.delay.next();
                    PollStep::PendingWake(self.delay.to_duration())
                } else {
                    PollStep::Pending
                }
            },
            ChannelRead::Closed => {
                self.state = State::Closed;
                PollStep::Finished
            },
        }
    }

    /// One poll of the stream. `waker_idle` says whether no wake-up task
    /// is pending for this stream (none was ever scheduled, or the last
    /// one has finished); only then may a new wake be scheduled.
    ///
    /// A closed stream yields `Finished` and never another event. On an
    /// open stream the event channel is read without blocking and
    /// [`Self::poll_decide`] says exactly what each outcome produces.
    pub fn poll_step(&mut self, waker_idle: bool) -> (r: PollStep)
        requires
            old(self).inv(),
        ensures
            final(self).inv(),
            !old(self).is_open() ==> r is Finished && *final(self) == *old(self),
            r is Ready ==> old(self).is_open() && final(self).is_open()
                && final(self).delay_index() == 0,
            r is Pending ==> old(self).is_open() && !waker_idle && *final(self) == *old(self),
            r is PendingWake ==> old(self).is_open() && waker_idle && final(self).is_open()
                && final(self).delay_index() == (if old(self).delay_index() < DELAY_STEPS - 1 {
                old(self).delay_index() + 1
            } else {
                old(self).delay_index()
            }),
            r matches PollStep::PendingWake(ms) ==> ms == spec_progression_ms(
                final(self).delay_index(),
            ),
            r is Finished ==> !final(self).is_open(),
            r is Finished && old(self).is_open() ==> final(self).delay_index()
                == old(self).delay_index(),
            old(self).is_open() && waker_idle ==> !(r is Pending),
            old(self).is_open() && !waker_idle ==> !(r is PendingWake),
    {
        match self.state {
            State::Closed => PollStep::Finished,
            State::Open => {
                let read = try_recv_from(&self.event_rx);
                self.poll_decide(read, waker_idle)
            },
        }
    }
}

/// Make the two halves of a watch on `path`: an open stream with a fresh
/// backoff cursor, and the link a worker loop drives the adapter with.
pub fn watch(path: String) -> (r: (EventStream, WorkerLink))
    ensures
        r.0.is_open(),
        r.0.delay_index() == 0,
        r.0.inv(),
        r.1.path@ == path@,
{
    let (ctl_tx, ctl_rx) = mpsc_channel::<bool>();
    let (event_tx, event_rx) = mpsc_channel::<Event>();
    let stream = EventStream { state: State::Open, delay: Delay::new(), ctl_tx, event_rx };
    let link = WorkerLink { path, event_tx, ctl_rx };
    (stream, link)
}

} // verus!
