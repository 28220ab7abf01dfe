use vstd::prelude::*;

use crate::channel::{channel_views, texts, Channel};
use crate::handler::Terminate;
use crate::request::{subscribe_json, unsubscribe_json, UnsubscribeRequest};
use crate::response::ResponseMessages;
use crate::subscriptions::{
    lemma_add_well_formed, lemma_merged, lemma_remove_well_formed, lemma_without, SubscriptionSet,
    SubscriptionView,
};

verus! {

/// Least time between two connect attempts.
pub const CONNECT_INTERVAL_MS: u64 = 500;

/// Pause before checking again whether a connect attempt may start.
pub const CONNECT_RETRY_SLEEP_MS: u64 = 250;

/// Pause between two polls of the command queue before the first connection.
pub const IDLE_SLEEP_MS: u64 = 1000;

/// Waiting longer than this for a first subscription earns a warning.
pub const IDLE_WARNING_MS: u64 = 15000;

/// A command that a controller enqueues for the worker.
#[derive(Debug)]
pub enum Command {
    Subscribe { product_ids: Vec<String>, channels: Vec<Channel> },
    Unsubscribe { product_ids: Vec<String>, channels: Vec<Channel> },
    Stop,
}

/// The transport failures that the worker tells apart.
#[derive(Debug, Clone, Copy, PartialEq, Eq, Structural)]
pub enum TransportError {
    /// The connection was closed on purpose, by the peer or by us.
    ConnectionClosed,
    /// The connection was already closed when it was used.
    AlreadyClosed,
    /// An I/O error: a timeout, a reset and the like.
    Io,
    /// Any other transport error.
    Other,
}

/// How the worker goes on after a transport error.
#[derive(Debug, Clone, Copy, PartialEq, Eq, Structural)]
pub enum ErrorOutcome {
    /// Carry on as if nothing happened.
    Continue,
    /// Drop the connection, connect anew and subscribe again.
    Reconnect,
    /// Stop the worker.
    Terminal,
}

/// The classification of transport errors.
pub open spec fn error_outcome(e: TransportError) -> ErrorOutcome {
    match e {
        TransportError::ConnectionClosed => ErrorOutcome::Terminal,
        TransportError::AlreadyClosed => ErrorOutcome::Reconnect,
        TransportError::Io => ErrorOutcome::Reconnect,
        TransportError::Other => ErrorOutcome::Continue,
    }
}

/// Classifies a transport error met while sending or reading.
pub fn handle_ws_error(error: TransportError) -> (r: ErrorOutcome)
    ensures
        r == error_outcome(error),
{
    match error {
        TransportError::ConnectionClosed => ErrorOutcome::Terminal,
        TransportError::AlreadyClosed => ErrorOutcome::Reconnect,
        TransportError::Io => ErrorOutcome::Reconnect,
        TransportError::Other => ErrorOutcome::Continue,
    }
}

/// A frame read from the socket. A text frame carries the event that its
/// JSON decodes to, or `None` when it does not decode.
#[derive(Debug)]
pub enum Frame {
    Text { message: Option<ResponseMessages> },
    Close,
    Ping,
    Pong,
    Binary,
}

/// What the driver of the worker observed after performing an action.
#[derive(Debug)]
pub enum Event {
    /// The command queue handed out a command.
    Command(Command),
    /// The command queue was empty.
    QueueEmpty,
    /// Every producer of the command queue is gone.
    QueueClosed,
    /// A requested sleep has ended.
    Slept,
    /// A connect attempt succeeded; the new socket replaced the old one.
    Connected,
    ConnectFailed(TransportError),
    /// A text was sent.
    Sent,
    SendFailed(TransportError),
    /// A frame was read.
    Received(Frame),
    ReadFailed(TransportError),
    /// The handler was called and answered.
    Handled(Result<(), Terminate>),
}

/// What the worker asks its driver to do next.
#[derive(Debug)]
pub enum Action {
    /// Poll the command queue without blocking.
    PollCommand,
    /// Sleep; `idle_warning` asks for a warning that no subscription came yet.
    Sleep { millis: u64, idle_warning: bool },
    /// Attempt one transport connect.
    Connect,
    /// Send a text frame.
    Send { text: String },
    /// Read one frame, blocking.
    Read,
    /// Call the handler's `initialize`.
    Initialize,
    /// Hand an event to the handler.
    Dispatch { message: ResponseMessages },
    /// Stop: the worker has terminated.
    Exit,
}

/// What an `Action` stands for.
pub enum ActionView {
    PollCommand,
    Sleep { millis: u64, idle_warning: bool },
    Connect,
    Send { text: Seq<char> },
    Read,
    Initialize,
    Dispatch { message: ResponseMessages },
    Exit,
}

impl View for Action {
    type V = ActionView;

    open spec fn view(&self) -> ActionView {
        match self {
            Action::PollCommand => ActionView::PollCommand,
            Action::Sleep { millis, idle_warning } => ActionView::Sleep {
                millis: *millis,
                idle_warning: *idle_warning,
            },
            Action::Connect => ActionView::Connect,
            Action::Send { text } => ActionView::Send { text: text@ },
            Action::Read => ActionView::Read,
            Action::Initialize => ActionView::Initialize,
            Action::Dispatch { message } => ActionView::Dispatch { message: *message },
            Action::Exit => ActionView::Exit,
        }
    }
}

/// Where the worker stands: each phase waits for the outcome of the action
/// that led into it.
#[derive(Debug, Clone, Copy, PartialEq, Eq, Structural)]
pub enum Phase {
    /// No subscription yet: polling the command queue.
    AwaitingFirstConnection,
    /// In the connect loop; `bootstrap` on the first connection.
    Connecting { bootstrap: bool },
    /// Sent the full subscribe envelope on a fresh connection.
    Subscribing { bootstrap: bool },
    /// Asked the handler to initialize.
    Initializing,
    /// Streaming: polled the command queue.
    Streaming,
    /// Streaming: sent a subscribe or unsubscribe envelope for a command.
    Sending,
    /// Streaming: reading a frame.
    Reading,
    /// Streaming: handed an event to the handler.
    Dispatching,
    /// Done for good.
    Terminated,
}

/// The worker: its phase, the accumulated subscriptions, and the clock
/// readings that the connect and idle policies need, in milliseconds.
#[derive(Debug)]
pub struct Worker {
    pub phase: Phase,
    pub subscriptions: SubscriptionSet,
    pub last_connect_ms: Option<u64>,
    pub started_ms: u64,
}

/// What a `Worker` stands for.
pub struct WorkerView {
    pub phase: Phase,
    pub subs: SubscriptionView,
    pub last_connect_ms: Option<u64>,
    pub started_ms: u64,
}

impl View for Worker {
    type V = WorkerView;

    open spec fn view(&self) -> WorkerView {
        WorkerView {
            phase: self.phase,
            subs: self.subscriptions@,
            last_connect_ms: self.last_connect_ms,
            started_ms: self.started_ms,
        }
    }
}

impl WorkerView {
    pub open spec fn with_phase(self, phase: Phase) -> WorkerView {
        WorkerView { phase, ..self }
    }

    pub open spec fn with_subs(self, subs: SubscriptionView) -> WorkerView {
        WorkerView { subs, ..self }
    }
}

/// A connect attempt may start: none was made yet, or the last failed one
/// lies more than the interval back.
pub open spec fn may_connect(last: Option<u64>, now: u64) -> bool {
    match last {
        None => true,
        Some(t) => t + CONNECT_INTERVAL_MS < now,
    }
}

/// The next step of the connect loop: attempt, or sleep and check again.
pub open spec fn connect_step(last: Option<u64>, now: u64) -> ActionView {
    if may_connect(last, now) {
        ActionView::Connect
    } else {
        ActionView::Sleep { millis: CONNECT_RETRY_SLEEP_MS, idle_warning: false }
    }
}

/// The worker has waited too long for its first subscription.
pub open spec fn idle_overdue(started: u64, now: u64) -> bool {
    started + IDLE_WARNING_MS < now
}

/// The full subscribe envelope for a set.
pub open spec fn full_subscribe(subs: SubscriptionView) -> ActionView {
    ActionView::Send { text: subscribe_json(subs.products, subs.channels) }
}

/// Enter the connect loop, after a first subscription or to reconnect.
pub open spec fn start_connect(s: WorkerView, bootstrap: bool, now: u64) -> (WorkerView, ActionView) {
    (s.with_phase(Phase::Connecting { bootstrap }), connect_step(s.last_connect_ms, now))
}

/// Back to polling the command queue.
pub open spec fn resume(s: WorkerView) -> (WorkerView, ActionView) {
    (s.with_phase(Phase::Streaming), ActionView::PollCommand)
}

/// Stop for good.
pub open spec fn terminate(s: WorkerView) -> (WorkerView, ActionView) {
    (s.with_phase(Phase::Terminated), ActionView::Exit)
}

/// After a transport error while streaming.
pub open spec fn after_stream_error(s: WorkerView, e: TransportError, now: u64) -> (WorkerView, ActionView) {
    match error_outcome(e) {
        ErrorOutcome::Continue => resume(s),
        ErrorOutcome::Reconnect => start_connect(s, false, now),
        ErrorOutcome::Terminal => terminate(s),
    }
}

/// The worker's transition: the next state and action, given the current
/// state, what was observed, and the clock.
pub open spec fn next(s: WorkerView, e: Event, now: u64) -> (WorkerView, ActionView) {
    match s.phase {
        Phase::AwaitingFirstConnection => match e {
            Event::Command(Command::Subscribe { product_ids, channels }) => start_connect(
                s.with_subs(s.subs.add(texts(product_ids@), channel_views(channels@))),
                true,
                now,
            ),
            Event::Command(Command::Unsubscribe { .. }) => (s, ActionView::PollCommand),
            Event::QueueEmpty => (
                s,
                ActionView::Sleep {
                    millis: IDLE_SLEEP_MS,
                    idle_warning: idle_overdue(s.started_ms, now),
                },
            ),
            Event::Slept => (s, ActionView::PollCommand),
            _ => terminate(s),
        },
        Phase::Connecting { bootstrap } => match e {
            Event::Slept => (s, connect_step(s.last_connect_ms, now)),
            Event::Connected => (
                s.with_phase(Phase::Subscribing { bootstrap }),
                full_subscribe(s.subs),
            ),
            Event::ConnectFailed(err) => if err == TransportError::ConnectionClosed {
                terminate(s)
            } else {
                (
                    WorkerView { last_connect_ms: Some(now), ..s },
                    connect_step(Some(now), now),
                )
            },
            _ => terminate(s),
        },
        Phase::Subscribing { bootstrap } => {
            let ok = match e {
                Event::Sent => true,
                Event::SendFailed(err) => error_outcome(err) == ErrorOutcome::Continue,
                _ => false,
            };
            if !ok {
                terminate(s)
            } else if bootstrap {
                (s.with_phase(Phase::Initializing), ActionView::Initialize)
            } else {
                resume(s)
            }
        },
        Phase::Initializing => match e {
            Event::Handled(Ok(())) => resume(s),
            _ => terminate(s),
        },
        Phase::Streaming => match e {
            Event::Command(Command::Subscribe { product_ids, channels }) => {
                let subs = s.subs.add(texts(product_ids@), channel_views(channels@));
                (s.with_subs(subs).with_phase(Phase::Sending), full_subscribe(subs))
            },
            Event::Command(Command::Unsubscribe { product_ids, channels }) => (
                s.with_subs(s.subs.remove(texts(product_ids@), channel_views(channels@))).with_phase(
                    Phase::Sending,
                ),
                ActionView::Send {
                    text: unsubscribe_json(Some(texts(product_ids@)), channel_views(channels@)),
                },
            ),
            Event::QueueEmpty => (s.with_phase(Phase::Reading), ActionView::Read),
            _ => terminate(s),
        },
        Phase::Sending => match e {
            Event::Sent => resume(s),
            Event::SendFailed(err) => after_stream_error(s, err, now),
            _ => terminate(s),
        },
        Phase::Reading => match e {
            Event::Received(Frame::Text { message: Some(m) }) => (
                s.with_phase(Phase::Dispatching),
                ActionView::Dispatch { message: m },
            ),
            Event::Received(Frame::Close) => start_connect(s, false, now),
            Event::Received(_) => resume(s),
            Event::ReadFailed(err) => after_stream_error(s, err, now),
            _ => terminate(s),
        },
        Phase::Dispatching => match e {
            Event::Handled(Ok(())) => resume(s),
            _ => terminate(s),
        },
        Phase::Terminated => terminate(s),
    }
}

/// Whether a connect attempt may start now.
pub fn may_connect_now(last: Option<u64>, now: u64) -> (r: bool)
    ensures
        r == may_connect(last, now),
{
    match last {
        None => true,
        Some(t) => now > t && now - t > CONNECT_INTERVAL_MS,
    }
}

/// Whether the wait for a first subscription has run too long.
pub fn idle_overdue_now(started: u64, now: u64) -> (r: bool)
    ensures
        r == idle_overdue(started, now),
{
    now > started && now - started > IDLE_WARNING_MS
}

impl Worker {
    /// A fresh worker with no subscriptions, started at `now_ms`.
    pub fn new(now_ms: u64) -> (r: Worker)
        ensures
            r@.phase == Phase::AwaitingFirstConnection,
            r@.subs.products.len() == 0,
            r@.subs.channels.len() == 0,
            r@.last_connect_ms is None,
            r@.started_ms == now_ms,
            r.well_formed(),
    {
        Worker {
            phase: Phase::AwaitingFirstConnection,
            subscriptions: SubscriptionSet::new(),
            last_connect_ms: None,
            started_ms: now_ms,
        }
    }

    /// The first action of a fresh worker.
    pub fn start(&self) -> (r: Action)
        ensures
            r@ == ActionView::PollCommand,
    {
        Action::PollCommand
    }

    /// The accumulated subscriptions hold no duplicate.
    pub open spec fn well_formed(&self) -> bool {
        self@.subs.well_formed()
    }

    fn connect_action(&self, now_ms: u64) -> (r: Action)
        ensures
            r@ == connect_step(self.last_connect_ms, now_ms),
    {
        if may_connect_now(self.last_connect_ms, now_ms) {
            Action::Connect
        } else {
            Action::Sleep { millis: CONNECT_RETRY_SLEEP_MS, idle_warning: false }
        }
    }

    fn begin_connect(&mut self, bootstrap: bool, now_ms: u64) -> (r: Action)
        ensures
            (final(self)@, r@) == start_connect(old(self)@, bootstrap, now_ms),
            final(self).subscriptions == old(self).subscriptions,
    {
        self.phase = Phase::Connecting { bootstrap };
        self.connect_action(now_ms)
    }

    fn finish(&mut self) -> (r: Action)
        ensures
            (final(self)@, r@) == terminate(old(self)@),
            final(self).subscriptions == old(self).subscriptions,
    {
        self.phase = Phase::Terminated;
        Action::Exit
    }

    fn resume_polling(&mut self) -> (r: Action)
        ensures
            (final(self)@, r@) == resume(old(self)@),
            final(self).subscriptions == old(self).subscriptions,
    {
        self.phase = Phase::Streaming;
        Action::PollCommand
    }

    fn stream_error(&mut self, error: TransportError, now_ms: u64) -> (r: Action)
        ensures
            (final(self)@, r@) == after_stream_error(old(self)@, error, now_ms),
            final(self).subscriptions == old(self).subscriptions,
    {
        match handle_ws_error(error) {
            ErrorOutcome::Continue => self.resume_polling(),
            ErrorOutcome::Reconnect => self.begin_connect(false, now_ms),
            ErrorOutcome::Terminal => self.finish(),
        }
    }

    /// Takes one step: from what the driver observed, at time `now_ms`, to the
    /// next state and the next action.
    pub fn step(&mut self, event: Event, now_ms: u64) -> (r: Action)
        ensures
            (final(self)@, r@) == next(old(self)@, event, now_ms),
            old(self).well_formed() ==> final(self).well_formed(),
    {
        let ghost s = self@;
        match self.phase {
            Phase::AwaitingFirstConnection => match event {
                Event::Command(Command::Subscribe { product_ids, channels }) => {
                    self.subscriptions.append(&product_ids, &channels);
                    proof {
                        lemma_add_well_formed(s.subs, texts(product_ids@), channel_views(channels@));
                    }
                    self.begin_connect(true, now_ms)
                },
                Event::Command(Command::Unsubscribe { .. }) => Action::PollCommand,
                Event::QueueEmpty => Action::Sleep {
                    millis: IDLE_SLEEP_MS,
                    idle_warning: idle_overdue_now(self.started_ms, now_ms),
                },
                Event::Slept => Action::PollCommand,
                _ => self.finish(),
            },
            Phase::Connecting { bootstrap } => match event {
                Event::Slept => self.connect_action(now_ms),
                Event::Connected => {
                    self.phase = Phase::Subscribing { bootstrap };
                    Action::Send { text: self.subscriptions.subscribe_text() }
                },
                Event::ConnectFailed(err) => {
                    if err == TransportError::ConnectionClosed {
                        self.finish()
                    } else {
                        self.last_connect_ms = Some(now_ms);
                        self.connect_action(now_ms)
                    }
                },
                _ => self.finish(),
            },
            Phase::Subscribing { bootstrap } => {
                let ok = match event {
                    Event::Sent => true,
                    Event::SendFailed(err) => handle_ws_error(err) == ErrorOutcome::Continue,
                    _ => false,
                };
                if !ok {
                    self.finish()
                } else if bootstrap {
                    self.phase = Phase::Initializing;
                    Action::Initialize
                } else {
                    self.resume_polling()
                }
            },
            Phase::Initializing => match event {
                Event::Handled(Ok(())) => self.resume_polling(),
                _ => self.finish(),
            },
            Phase::Streaming => match event {
                Event::Command(Command::Subscribe { product_ids, channels }) => {
                    self.subscriptions.append(&product_ids, &channels);
                    proof {
                        lemma_add_well_formed(s.subs, texts(product_ids@), channel_views(channels@));
                    }
                    self.phase = Phase::Sending;
                    Action::Send { text: self.subscriptions.subscribe_text() }
                },
                Event::Command(Command::Unsubscribe { product_ids, channels }) => {
                    self.subscriptions.remove(&product_ids, &channels);
                    proof {
                        lemma_remove_well_formed(s.subs, texts(product_ids@), channel_views(channels@));
                    }
                    self.phase = Phase::Sending;
                    let req = UnsubscribeRequest::new(product_ids, channels);
                    Action::Send { text: req.to_json() }
                },
                Event::QueueEmpty => {
                    self.phase = Phase::Reading;
                    Action::Read
                },
                _ => self.finish(),
            },
            Phase::Sending => match event {
                Event::Sent => self.resume_polling(),
                Event::SendFailed(err) => self.stream_error(err, now_ms),
                _ => self.finish(),
            },
            Phase::Reading => match event {
                Event::Received(Frame::Text { message: Some(m) }) => {
                    self.phase = Phase::Dispatching;
                    Action::Dispatch { message: m }
                },
                Event::Received(Frame::Close) => self.begin_connect(false, now_ms),
                Event::Received(_) => self.resume_polling(),
                Event::ReadFailed(err) => self.stream_error(err, now_ms),
                _ => self.finish(),
            },
            Phase::Dispatching => match event {
                Event::Handled(Ok(())) => self.resume_polling(),
                _ => self.finish(),
            },
            Phase::Terminated => self.finish(),
        }
    }
}

/// Two subscribe commands while streaming accumulate: afterwards the set holds
/// exactly the entries it held before and those of both commands, none of
/// them twice, and the envelope sent for the second command names that whole
/// set rather than the second command's entries alone.
pub proof fn lemma_subscriptions_accumulate(
    s: WorkerView,
    first_ids: Vec<String>,
    first_channels: Vec<Channel>,
    second_ids: Vec<String>,
    second_channels: Vec<Channel>,
    t1: u64,
    t2: u64,
    t3: u64,
)
    requires
        s.phase == Phase::Streaming,
        s.subs.well_formed(),
    ensures
        ({
            let s1 = next(s, Event::Command(Command::Subscribe { product_ids: first_ids, channels: first_channels }), t1).0;
            let s2 = next(s1, Event::Sent, t2).0;
            let r3 = next(s2, Event::Command(Command::Subscribe { product_ids: second_ids, channels: second_channels }), t3);
            &&& r3.0.subs.products.to_set() == s.subs.products.to_set().union(
                texts(first_ids@).to_set(),
            ).union(texts(second_ids@).to_set())
            &&& r3.0.subs.channels.to_set() == s.subs.channels.to_set().union(
                channel_views(first_channels@).to_set(),
            ).union(channel_views(second_channels@).to_set())
            &&& r3.0.subs.well_formed()
            &&& r3.1 == full_subscribe(r3.0.subs)
        }),
{
    let a = s.subs.add(texts(first_ids@), channel_views(first_channels@));
    lemma_merged(s.subs.products, texts(first_ids@));
    lemma_merged(s.subs.channels, channel_views(first_channels@));
    lemma_merged(a.products, texts(second_ids@));
    lemma_merged(a.channels, channel_views(second_channels@));
}

/// An unsubscribe command while streaming removes exactly the named entries
/// and keeps every other one; the envelope sent names only what was removed,
/// and after a reconnect the full subscribe envelope names the remaining set.
pub proof fn lemma_unsubscribe_keeps_rest(
    s: WorkerView,
    p: Vec<String>,
    c: Vec<Channel>,
    t1: u64,
    t2: u64,
    t3: u64,
    t4: u64,
    t5: u64,
)
    requires
        s.phase == Phase::Streaming,
        s.subs.well_formed(),
    ensures
        ({
            let r1 = next(s, Event::Command(Command::Unsubscribe { product_ids: p, channels: c }), t1);
            let s2 = next(r1.0, Event::Sent, t2).0;
            let s3 = next(s2, Event::QueueEmpty, t3).0;
            let s4 = next(s3, Event::Received(Frame::Close), t4).0;
            let r5 = next(s4, Event::Connected, t5);
            &&& r1.0.subs.products.to_set() == s.subs.products.to_set().difference(
                texts(p@).to_set(),
            )
            &&& r1.0.subs.channels.to_set() == s.subs.channels.to_set().difference(
                channel_views(c@).to_set(),
            )
            &&& r1.0.subs.well_formed()
            &&& r1.1 == ActionView::Send {
                text: unsubscribe_json(Some(texts(p@)), channel_views(c@)),
            }
            &&& r5.1 == full_subscribe(r1.0.subs)
        }),
{
    lemma_without(s.subs.products, texts(p@));
    lemma_without(s.subs.channels, channel_views(c@));
}

/// A text frame that does not decode changes nothing and ends no stream: the
/// worker goes back to polling, and a well-formed frame read next is
/// dispatched to the handler.
pub proof fn lemma_malformed_frame_ignored(s: WorkerView, m: ResponseMessages, t1: u64, t2: u64, t3: u64)
    requires
        s.phase == Phase::Reading,
    ensures
        ({
            let r1 = next(s, Event::Received(Frame::Text { message: None }), t1);
            let r2 = next(r1.0, Event::QueueEmpty, t2);
            let r3 = next(r2.0, Event::Received(Frame::Text { message: Some(m) }), t3);
            &&& r1.0 == s.with_phase(Phase::Streaming)
            &&& r1.1 == ActionView::PollCommand
            &&& r2.1 == ActionView::Read
            &&& r3.0 == s.with_phase(Phase::Dispatching)
            &&& r3.1 == ActionView::Dispatch { message: m }
        }),
{
}

/// A Close frame while streaming leads to the connect loop, which only
/// attempts connects or sleeps, and a fresh connection is always followed by
/// the subscribe envelope for the whole accumulated set.
pub proof fn lemma_close_frame_resubscribes(s: WorkerView, t1: u64, t2: u64, t3: u64)
    requires
        s.phase == Phase::Reading,
    ensures
        ({
            let r1 = next(s, Event::Received(Frame::Close), t1);
            let r2 = next(r1.0, Event::Slept, t2);
            let r3 = next(r1.0, Event::Connected, t3);
            &&& r1.0 == s.with_phase(Phase::Connecting { bootstrap: false })
            &&& (r1.1 == ActionView::Connect || r1.1 is Sleep)
            &&& r2.0 == r1.0
            &&& (r2.1 == ActionView::Connect || r2.1 is Sleep)
            &&& r3.0 == s.with_phase(Phase::Subscribing { bootstrap: false })
            &&& r3.1 == full_subscribe(s.subs)
        }),
{
}

} // verus!
