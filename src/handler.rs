use vstd::prelude::*;

use crate::response::{
    ActiveResponse, ChangeResponse, DoneResponse, ErrorResponse, EventKind, HeartBeatResponse, L2UpdateResponse,
    LastMatchResponse, MatchResponse, OpenResponse, ReceivedResponse, ResponseMessages, SnapshotResponse,
    StatusResponse, SubscriptionResponse, TickerResponse,
};

verus! {

/// A handler's request that the stream stop.
#[derive(Debug, Clone, Copy, PartialEq, Eq, Structural)]
pub struct Terminate;

/// A sink for the events of the stream. Every callback defaults to doing
/// nothing and letting the stream go on.
pub trait CoinBaseWebSocketMessageHandler {
    fn initialize(&mut self) -> Result<(), Terminate> {
        Ok(())
    }

    fn on_subscriptions(&mut self, _resp: &SubscriptionResponse) -> Result<(), Terminate> {
        Ok(())
    }

    fn on_heartbeat(&mut self, _resp: &HeartBeatResponse) -> Result<(), Terminate> {
        Ok(())
    }

    fn on_status(&mut self, _resp: &StatusResponse) -> Result<(), Terminate> {
        Ok(())
    }

    fn on_ticker(&mut self, _resp: &TickerResponse) -> Result<(), Terminate> {
        Ok(())
    }

    fn on_snapshot(&mut self, _resp: &SnapshotResponse) -> Result<(), Terminate> {
        Ok(())
    }

    fn on_l2_update(&mut self, _resp: &L2UpdateResponse) -> Result<(), Terminate> {
        Ok(())
    }

    fn on_match(&mut self, _resp: &MatchResponse) -> Result<(), Terminate> {
        Ok(())
    }

    fn on_received(&mut self, _resp: &ReceivedResponse) -> Result<(), Terminate> {
        Ok(())
    }

    fn on_open(&mut self, _resp: &OpenResponse) -> Result<(), Terminate> {
        Ok(())
    }

    fn on_change(&mut self, _resp: &ChangeResponse) -> Result<(), Terminate> {
        Ok(())
    }

    fn on_done(&mut self, _resp: &DoneResponse) -> Result<(), Terminate> {
        Ok(())
    }

    fn on_active(&mut self, _resp: &ActiveResponse) -> Result<(), Terminate> {
        Ok(())
    }

    fn on_last_match(&mut self, _resp: &LastMatchResponse) -> Result<(), Terminate> {
        Ok(())
    }

    fn on_error(&mut self, _resp: &ErrorResponse) -> Result<(), Terminate> {
        Ok(())
    }

    fn close(&mut self) -> Result<(), Terminate> {
        Ok(())
    }
}

/// Whether some outcome asks to terminate.
pub open spec fn any_terminate(outcomes: Seq<Result<(), Terminate>>) -> bool {
    exists|i: int| 0 <= i < outcomes.len() && outcomes[i] is Err
}

/// Folds the outcomes of every sink for one call: terminate if any sink
/// asked for it, else go on.
pub fn terminate_if_any(outcomes: &Vec<Result<(), Terminate>>) -> (r: Result<(), Terminate>)
    ensures
        r is Err <==> any_terminate(outcomes@),
{
    let mut i: usize = 0;
    while i < outcomes.len()
        invariant
            i <= outcomes.len(),
            forall|j: int| 0 <= j < i ==> outcomes@[j] is Ok,
        decreases outcomes.len() - i,
    {
        if outcomes[i].is_err() {
            return Err(Terminate);
        }
        i = i + 1;
    }
    Ok(())
}

/// Hands an event to the handler callback for its kind, and returns what that
/// callback returned: the result is one that the callback gives on the
/// event's payload, starting from the handler as it was and leaving it as it
/// is now.
pub fn dispatch<H: CoinBaseWebSocketMessageHandler>(handler: &mut H, message: &ResponseMessages) -> (r: Result<(), Terminate>)
    ensures
        (*message) matches ResponseMessages::Subscriptions { resp } ==> exists|h: &mut H|
            mut_ref_current(h) == *old(handler) && mut_ref_future(h) == *final(handler)
                && call_ensures(H::on_subscriptions, (h, &resp), r),
        (*message) matches ResponseMessages::Heartbeat { resp } ==> exists|h: &mut H|
            mut_ref_current(h) == *old(handler) && mut_ref_future(h) == *final(handler)
                && call_ensures(H::on_heartbeat, (h, &resp), r),
        (*message) matches ResponseMessages::Status { resp } ==> exists|h: &mut H|
            mut_ref_current(h) == *old(handler) && mut_ref_future(h) == *final(handler)
                && call_ensures(H::on_status, (h, &resp), r),
        (*message) matches ResponseMessages::Ticker { resp } ==> exists|h: &mut H|
            mut_ref_current(h) == *old(handler) && mut_ref_future(h) == *final(handler)
                && call_ensures(H::on_ticker, (h, &resp), r),
        (*message) matches ResponseMessages::Snapshot { resp } ==> exists|h: &mut H|
            mut_ref_current(h) == *old(handler) && mut_ref_future(h) == *final(handler)
                && call_ensures(H::on_snapshot, (h, &resp), r),
        (*message) matches ResponseMessages::L2Update { resp } ==> exists|h: &mut H|
            mut_ref_current(h) == *old(handler) && mut_ref_future(h) == *final(handler)
                && call_ensures(H::on_l2_update, (h, &resp), r),
        (*message) matches ResponseMessages::Match { resp } ==> exists|h: &mut H|
            mut_ref_current(h) == *old(handler) && mut_ref_future(h) == *final(handler)
                && call_ensures(H::on_match, (h, &resp), r),
        (*message) matches ResponseMessages::Received { resp } ==> exists|h: &mut H|
            mut_ref_current(h) == *old(handler) && mut_ref_future(h) == *final(handler)
                && call_ensures(H::on_received, (h, &resp), r),
        (*message) matches ResponseMessages::Open { resp } ==> exists|h: &mut H|
            mut_ref_current(h) == *old(handler) && mut_ref_future(h) == *final(handler)
                && call_ensures(H::on_open, (h, &resp), r),
        (*message) matches ResponseMessages::Change { resp } ==> exists|h: &mut H|
            mut_ref_current(h) == *old(handler) && mut_ref_future(h) == *final(handler)
                && call_ensures(H::on_change, (h, &resp), r),
        (*message) matches ResponseMessages::Done { resp } ==> exists|h: &mut H|
            mut_ref_current(h) == *old(handler) && mut_ref_future(h) == *final(handler)
                && call_ensures(H::on_done, (h, &resp), r),
        (*message) matches ResponseMessages::Active { resp } ==> exists|h: &mut H|
            mut_ref_current(h) == *old(handler) && mut_ref_future(h) == *final(handler)
                && call_ensures(H::on_active, (h, &resp), r),
        (*message) matches ResponseMessages::Error { resp } ==> exists|h: &mut H|
            mut_ref_current(h) == *old(handler) && mut_ref_future(h) == *final(handler)
                && call_ensures(H::on_error, (h, &resp), r),
        (*message) matches ResponseMessages::Last_Match { resp } ==> exists|h: &mut H|
            mut_ref_current(h) == *old(handler) && mut_ref_future(h) == *final(handler)
                && call_ensures(H::on_last_match, (h, &resp), r),
{
    match message {
        ResponseMessages::Subscriptions { resp } => handler.on_subscriptions(resp),
        ResponseMessages::Heartbeat { resp } => handler.on_heartbeat(resp),
        ResponseMessages::Status { resp } => handler.on_status(resp),
        ResponseMessages::Ticker { resp } => handler.on_ticker(resp),
        ResponseMessages::Snapshot { resp } => handler.on_snapshot(resp),
        ResponseMessages::L2Update { resp } => handler.on_l2_update(resp),
        ResponseMessages::Match { resp } => handler.on_match(resp),
        ResponseMessages::Received { resp } => handler.on_received(resp),
        ResponseMessages::Open { resp } => handler.on_open(resp),
        ResponseMessages::Change { resp } => handler.on_change(resp),
        ResponseMessages::Done { resp } => handler.on_done(resp),
        ResponseMessages::Active { resp } => handler.on_active(resp),
        ResponseMessages::Error { resp } => handler.on_error(resp),
        ResponseMessages::Last_Match { resp } => handler.on_last_match(resp),
    }
}

/// A boxed handler passes each call on to the handler inside.
impl CoinBaseWebSocketMessageHandler for Box<dyn CoinBaseWebSocketMessageHandler> {
    fn initialize(&mut self) -> Result<(), Terminate> {
        (**self).initialize()
    }

    fn on_subscriptions(&mut self, resp: &SubscriptionResponse) -> Result<(), Terminate> {
        (**self).on_subscriptions(resp)
    }

    fn on_heartbeat(&mut self, resp: &HeartBeatResponse) -> Result<(), Terminate> {
        (**self).on_heartbeat(resp)
    }

    fn on_status(&mut self, resp: &StatusResponse) -> Result<(), Terminate> {
        (**self).on_status(resp)
    }

    fn on_ticker(&mut self, resp: &TickerResponse) -> Result<(), Terminate> {
        (**self).on_ticker(resp)
    }

    fn on_snapshot(&mut self, resp: &SnapshotResponse) -> Result<(), Terminate> {
        (**self).on_snapshot(resp)
    }

    fn on_l2_update(&mut self, resp: &L2UpdateResponse) -> Result<(), Terminate> {
        (**self).on_l2_update(resp)
    }

    fn on_match(&mut self, resp: &MatchResponse) -> Result<(), Terminate> {
        (**self).on_match(resp)
    }

    fn on_received(&mut self, resp: &ReceivedResponse) -> Result<(), Terminate> {
        (**self).on_received(resp)
    }

    fn on_open(&mut self, resp: &OpenResponse) -> Result<(), Terminate> {
        (**self).on_open(resp)
    }

    fn on_change(&mut self, resp: &ChangeResponse) -> Result<(), Terminate> {
        (**self).on_change(resp)
    }

    fn on_done(&mut self, resp: &DoneResponse) -> Result<(), Terminate> {
        (**self).on_done(resp)
    }

    fn on_active(&mut self, resp: &ActiveResponse) -> Result<(), Terminate> {
        (**self).on_active(resp)
    }

    fn on_last_match(&mut self, resp: &LastMatchResponse) -> Result<(), Terminate> {
        (**self).on_last_match(resp)
    }

    fn on_error(&mut self, resp: &ErrorResponse) -> Result<(), Terminate> {
        (**self).on_error(resp)
    }

    fn close(&mut self) -> Result<(), Terminate> {
        (**self).close()
    }
}

/// A handler callback: `initialize`, one per kind of event, or `close`.
#[derive(Debug, Clone, Copy, PartialEq, Eq, Structural)]
pub enum Callback {
    Initialize,
    Event(EventKind),
    Close,
}

/// One call that a composite made: which sink, for which callback, and what
/// the sink answered.
pub struct SinkCall {
    pub sink: nat,
    pub callback: Callback,
    pub outcome: Result<(), Terminate>,
}

/// The calls of one composite callback: every sink once, in order.
pub open spec fn fans_out(calls: Seq<SinkCall>, sinks: nat, callback: Callback) -> bool {
    &&& calls.len() == sinks
    &&& forall|i: int| 0 <= i < calls.len() ==> (#[trigger] calls[i]).sink == i && calls[i].callback == callback
}

/// Whether some call was answered with a request to terminate.
pub open spec fn some_call_terminates(calls: Seq<SinkCall>) -> bool {
    exists|i: int| 0 <= i < calls.len() && (#[trigger] calls[i]).outcome is Err
}

/// `outcome` is an answer that `initialize` gives, called on a sink
/// that was `sink`.
pub open spec fn answers_initialize<S: CoinBaseWebSocketMessageHandler>(sink: S, outcome: Result<(), Terminate>) -> bool {
    exists|h: &mut S| mut_ref_current(h) == sink && call_ensures(S::initialize, (h,), outcome)
}

/// `outcome` is an answer that `on_subscriptions` gives on `resp`, called on a sink
/// that was `sink`.
pub open spec fn answers_on_subscriptions<S: CoinBaseWebSocketMessageHandler>(sink: S, resp: &SubscriptionResponse, outcome: Result<(), Terminate>) -> bool {
    exists|h: &mut S| mut_ref_current(h) == sink && call_ensures(S::on_subscriptions, (h, resp), outcome)
}

/// `outcome` is an answer that `on_heartbeat` gives on `resp`, called on a sink
/// that was `sink`.
pub open spec fn answers_on_heartbeat<S: CoinBaseWebSocketMessageHandler>(sink: S, resp: &HeartBeatResponse, outcome: Result<(), Terminate>) -> bool {
    exists|h: &mut S| mut_ref_current(h) == sink && call_ensures(S::on_heartbeat, (h, resp), outcome)
}

/// `outcome` is an answer that `on_status` gives on `resp`, called on a sink
/// that was `sink`.
pub open spec fn answers_on_status<S: CoinBaseWebSocketMessageHandler>(sink: S, resp: &StatusResponse, outcome: Result<(), Terminate>) -> bool {
    exists|h: &mut S| mut_ref_current(h) == sink && call_ensures(S::on_status, (h, resp), outcome)
}

/// `outcome` is an answer that `on_ticker` gives on `resp`, called on a sink
/// that was `sink`.
pub open spec fn answers_on_ticker<S: CoinBaseWebSocketMessageHandler>(sink: S, resp: &TickerResponse, outcome: Result<(), Terminate>) -> bool {
    exists|h: &mut S| mut_ref_current(h) == sink && call_ensures(S::on_ticker, (h, resp), outcome)
}

/// `outcome` is an answer that `on_snapshot` gives on `resp`, called on a sink
/// that was `sink`.
pub open spec fn answers_on_snapshot<S: CoinBaseWebSocketMessageHandler>(sink: S, resp: &SnapshotResponse, outcome: Result<(), Terminate>) -> bool {
    exists|h: &mut S| mut_ref_current(h) == sink && call_ensures(S::on_snapshot, (h, resp), outcome)
}

/// `outcome` is an answer that `on_l2_update` gives on `resp`, called on a sink
/// that was `sink`.
pub open spec fn answers_on_l2_update<S: CoinBaseWebSocketMessageHandler>(sink: S, resp: &L2UpdateResponse, outcome: Result<(), Terminate>) -> bool {
    exists|h: &mut S| mut_ref_current(h) == sink && call_ensures(S::on_l2_update, (h, resp), outcome)
}

/// `outcome` is an answer that `on_match` gives on `resp`, called on a sink
/// that was `sink`.
pub open spec fn answers_on_match<S: CoinBaseWebSocketMessageHandler>(sink: S, resp: &MatchResponse, outcome: Result<(), Terminate>) -> bool {
    exists|h: &mut S| mut_ref_current(h) == sink && call_ensures(S::on_match, (h, resp), outcome)
}

/// `outcome` is an answer that `on_received` gives on `resp`, called on a sink
/// that was `sink`.
pub open spec fn answers_on_received<S: CoinBaseWebSocketMessageHandler>(sink: S, resp: &ReceivedResponse, outcome: Result<(), Terminate>) -> bool {
    exists|h: &mut S| mut_ref_current(h) == sink && call_ensures(S::on_received, (h, resp), outcome)
}

/// `outcome` is an answer that `on_open` gives on `resp`, called on a sink
/// that was `sink`.
pub open spec fn answers_on_open<S: CoinBaseWebSocketMessageHandler>(sink: S, resp: &OpenResponse, outcome: Result<(), Terminate>) -> bool {
    exists|h: &mut S| mut_ref_current(h) == sink && call_ensures(S::on_open, (h, resp), outcome)
}

/// `outcome` is an answer that `on_change` gives on `resp`, called on a sink
/// that was `sink`.
pub open spec fn answers_on_change<S: CoinBaseWebSocketMessageHandler>(sink: S, resp: &ChangeResponse, outcome: Result<(), Terminate>) -> bool {
    exists|h: &mut S| mut_ref_current(h) == sink && call_ensures(S::on_change, (h, resp), outcome)
}

/// `outcome` is an answer that `on_done` gives on `resp`, called on a sink
/// that was `sink`.
pub open spec fn answers_on_done<S: CoinBaseWebSocketMessageHandler>(sink: S, resp: &DoneResponse, outcome: Result<(), Terminate>) -> bool {
    exists|h: &mut S| mut_ref_current(h) == sink && call_ensures(S::on_done, (h, resp), outcome)
}

/// `outcome` is an answer that `on_active` gives on `resp`, called on a sink
/// that was `sink`.
pub open spec fn answers_on_active<S: CoinBaseWebSocketMessageHandler>(sink: S, resp: &ActiveResponse, outcome: Result<(), Terminate>) -> bool {
    exists|h: &mut S| mut_ref_current(h) == sink && call_ensures(S::on_active, (h, resp), outcome)
}

/// `outcome` is an answer that `on_last_match` gives on `resp`, called on a sink
/// that was `sink`.
pub open spec fn answers_on_last_match<S: CoinBaseWebSocketMessageHandler>(sink: S, resp: &LastMatchResponse, outcome: Result<(), Terminate>) -> bool {
    exists|h: &mut S| mut_ref_current(h) == sink && call_ensures(S::on_last_match, (h, resp), outcome)
}

/// `outcome` is an answer that `on_error` gives on `resp`, called on a sink
/// that was `sink`.
pub open spec fn answers_on_error<S: CoinBaseWebSocketMessageHandler>(sink: S, resp: &ErrorResponse, outcome: Result<(), Terminate>) -> bool {
    exists|h: &mut S| mut_ref_current(h) == sink && call_ensures(S::on_error, (h, resp), outcome)
}

/// `outcome` is an answer that `close` gives, called on a sink
/// that was `sink`.
pub open spec fn answers_close<S: CoinBaseWebSocketMessageHandler>(sink: S, outcome: Result<(), Terminate>) -> bool {
    exists|h: &mut S| mut_ref_current(h) == sink && call_ensures(S::close, (h,), outcome)
}

/// A handler that passes every call on to each of its sinks in order, all of
/// them even after one asked to terminate, and asks to terminate if any did.
/// It keeps a ghost record of the calls it made; each recorded answer is one
/// that the sink's own callback gives on the same payload. The sinks are boxed
/// handlers unless another sink type is named.
pub struct CompositeCoinBaseWebSocketMessageHandler<S = Box<dyn CoinBaseWebSocketMessageHandler>> {
    handlers: Vec<S>,
    log: Ghost<Seq<SinkCall>>,
}

impl<S: CoinBaseWebSocketMessageHandler> CompositeCoinBaseWebSocketMessageHandler<S> {
    pub fn new(handlers: Vec<S>) -> (r: Self)
        ensures
            r.sinks() == handlers@.len(),
            r.calls().len() == 0,
    {
        CompositeCoinBaseWebSocketMessageHandler { handlers, log: Ghost(Seq::empty()) }
    }

    /// The number of sinks.
    pub closed spec fn sinks(&self) -> nat {
        self.handlers@.len()
    }

    /// Every call made to a sink so far, oldest first.
    pub closed spec fn calls(&self) -> Seq<SinkCall> {
        self.log@
    }

    /// Sink `k`, as it is now.
    pub closed spec fn sink(&self, k: int) -> S {
        self.handlers@[k]
    }
}

/// One composite callback: the sinks stay, the record grows by one call per
/// sink, in order, and the composite asks to terminate exactly when one of
/// those calls did.
pub open spec fn fanned<S: CoinBaseWebSocketMessageHandler>(
    old_self: CompositeCoinBaseWebSocketMessageHandler<S>,
    new_self: CompositeCoinBaseWebSocketMessageHandler<S>,
    callback: Callback,
    r: Result<(), Terminate>,
) -> bool {
    let new_calls = new_self.calls().subrange(old_self.calls().len() as int, new_self.calls().len() as int);
    &&& new_self.sinks() == old_self.sinks()
    &&& old_self.calls().len() <= new_self.calls().len()
    &&& new_self.calls().subrange(0, old_self.calls().len() as int) == old_self.calls()
    &&& fans_out(new_calls, old_self.sinks(), callback)
    &&& (r is Err <==> some_call_terminates(new_calls))
}

/// The record after one composite callback, from the record before it and
/// the outcomes of the calls in order.
proof fn lemma_fanned(
    start: Seq<SinkCall>,
    log: Seq<SinkCall>,
    outcomes: Seq<Result<(), Terminate>>,
    callback: Callback,
)
    requires
        log.len() == start.len() + outcomes.len(),
        log.subrange(0, start.len() as int) == start,
        forall|k: int|
            0 <= k < outcomes.len() ==> (#[trigger] log[start.len() + k]).sink == k
                && log[start.len() + k].callback == callback && log[start.len() + k].outcome
                == outcomes[k],
    ensures
        ({
            let new_calls = log.subrange(start.len() as int, log.len() as int);
            &&& fans_out(new_calls, outcomes.len(), callback)
            &&& forall|k: int| 0 <= k < new_calls.len() ==> (#[trigger] new_calls[k]).outcome == outcomes[k]
            &&& (some_call_terminates(new_calls) <==> any_terminate(outcomes))
        }),
{
    let new_calls = log.subrange(start.len() as int, log.len() as int);
    assert forall|k: int| 0 <= k < new_calls.len() implies (#[trigger] new_calls[k]).sink == k
        && new_calls[k].callback == callback && new_calls[k].outcome == outcomes[k] by {
        assert(new_calls[k] == log[start.len() + k]);
    }
    if any_terminate(outcomes) {
        let k = choose|k: int| 0 <= k < outcomes.len() && outcomes[k] is Err;
        assert(new_calls[k].outcome is Err);
    }
}

impl<S: CoinBaseWebSocketMessageHandler> CoinBaseWebSocketMessageHandler for CompositeCoinBaseWebSocketMessageHandler<S> {
    fn initialize(&mut self) -> (r: Result<(), Terminate>)
        ensures
            fanned(*old(self), *final(self), Callback::Initialize, r),
            forall|k: int|
                0 <= k < old(self).sinks() ==> answers_initialize(
                    old(self).sink(k),
                    #[trigger] final(self).calls()[old(self).calls().len() + k].outcome,
                ),
    {
        let ghost start = self.log@;
        let ghost before = self.handlers@;
        let n = self.handlers.len();
        let mut outcomes: Vec<Result<(), Terminate>> = Vec::new();
        let mut i: usize = 0;
        while i < n
            invariant
                i <= n,
                n == self.handlers.len(),
                n == before.len(),
                outcomes.len() == i,
                self.log@.len() == start.len() + i,
                self.log@.subrange(0, start.len() as int) == start,
                forall|k: int|
                    0 <= k < i ==> (#[trigger] self.log@[start.len() + k]).sink == k
                        && self.log@[start.len() + k].callback == Callback::Initialize
                        && self.log@[start.len() + k].outcome == outcomes@[k],
                forall|k: int| i <= k < n ==> #[trigger] self.handlers@[k] == before[k],
                forall|k: int| 0 <= k < i ==> answers_initialize(before[k], #[trigger] outcomes@[k]),
            decreases n - i,
        {
            let ghost pre = self.handlers@;
            let outcome = self.handlers[i].initialize();
            proof {
                assert(forall|k: int| 0 <= k < pre.len() && k != i ==> self.handlers@[k] == pre[k]);
                assert(answers_initialize(before[i as int], outcome));
            }
            let ghost entry = SinkCall { sink: i as nat, callback: Callback::Initialize, outcome };
            proof {
                assert(self.log@.push(entry).subrange(0, start.len() as int) =~= self.log@.subrange(
                    0,
                    start.len() as int,
                ));
            }
            self.log = Ghost(self.log@.push(entry));
            outcomes.push(outcome);
            i = i + 1;
        }
        let r = terminate_if_any(&outcomes);
        proof {
            lemma_fanned(start, self.log@, outcomes@, Callback::Initialize);
            assert forall|k: int| 0 <= k < n implies answers_initialize(
                before[k],
                #[trigger] self.log@[start.len() + k].outcome,
            ) by {
                assert(self.log@[start.len() + k].outcome == outcomes@[k]);
            }
        }
        r
    }

    fn on_subscriptions(&mut self, resp: &SubscriptionResponse) -> (r: Result<(), Terminate>)
        ensures
            fanned(*old(self), *final(self), Callback::Event(EventKind::Subscriptions), r),
            forall|k: int|
                0 <= k < old(self).sinks() ==> answers_on_subscriptions(
                    old(self).sink(k),
                    resp, #[trigger] final(self).calls()[old(self).calls().len() + k].outcome,
                ),
    {
        let ghost start = self.log@;
        let ghost before = self.handlers@;
        let n = self.handlers.len();
        let mut outcomes: Vec<Result<(), Terminate>> = Vec::new();
        let mut i: usize = 0;
        while i < n
            invariant
                i <= n,
                n == self.handlers.len(),
                n == before.len(),
                outcomes.len() == i,
                self.log@.len() == start.len() + i,
                self.log@.subrange(0, start.len() as int) == start,
                forall|k: int|
                    0 <= k < i ==> (#[trigger] self.log@[start.len() + k]).sink == k
                        && self.log@[start.len() + k].callback == Callback::Event(EventKind::Subscriptions)
                        && self.log@[start.len() + k].outcome == outcomes@[k],
                forall|k: int| i <= k < n ==> #[trigger] self.handlers@[k] == before[k],
                forall|k: int| 0 <= k < i ==> answers_on_subscriptions(before[k], resp, #[trigger] outcomes@[k]),
            decreases n - i,
        {
            let ghost pre = self.handlers@;
            let outcome = self.handlers[i].on_subscriptions(resp);
            proof {
                assert(forall|k: int| 0 <= k < pre.len() && k != i ==> self.handlers@[k] == pre[k]);
                assert(answers_on_subscriptions(before[i as int], resp, outcome));
            }
            let ghost entry = SinkCall { sink: i as nat, callback: Callback::Event(EventKind::Subscriptions), outcome };
            proof {
                assert(self.log@.push(entry).subrange(0, start.len() as int) =~= self.log@.subrange(
                    0,
                    start.len() as int,
                ));
            }
            self.log = Ghost(self.log@.push(entry));
            outcomes.push(outcome);
            i = i + 1;
        }
        let r = terminate_if_any(&outcomes);
        proof {
            lemma_fanned(start, self.log@, outcomes@, Callback::Event(EventKind::Subscriptions));
            assert forall|k: int| 0 <= k < n implies answers_on_subscriptions(
                before[k],
                resp, #[trigger] self.log@[start.len() + k].outcome,
            ) by {
                assert(self.log@[start.len() + k].outcome == outcomes@[k]);
            }
        }
        r
    }

    fn on_heartbeat(&mut self, resp: &HeartBeatResponse) -> (r: Result<(), Terminate>)
        ensures
            fanned(*old(self), *final(self), Callback::Event(EventKind::Heartbeat), r),
            forall|k: int|
                0 <= k < old(self).sinks() ==> answers_on_heartbeat(
                    old(self).sink(k),
                    resp, #[trigger] final(self).calls()[old(self).calls().len() + k].outcome,
                ),
    {
        let ghost start = self.log@;
        let ghost before = self.handlers@;
        let n = self.handlers.len();
        let mut outcomes: Vec<Result<(), Terminate>> = Vec::new();
        let mut i: usize = 0;
        while i < n
            invariant
                i <= n,
                n == self.handlers.len(),
                n == before.len(),
                outcomes.len() == i,
                self.log@.len() == start.len() + i,
                self.log@.subrange(0, start.len() as int) == start,
                forall|k: int|
                    0 <= k < i ==> (#[trigger] self.log@[start.len() + k]).sink == k
                        && self.log@[start.len() + k].callback == Callback::Event(EventKind::Heartbeat)
                        && self.log@[start.len() + k].outcome == outcomes@[k],
                forall|k: int| i <= k < n ==> #[trigger] self.handlers@[k] == before[k],
                forall|k: int| 0 <= k < i ==> answers_on_heartbeat(before[k], resp, #[trigger] outcomes@[k]),
            decreases n - i,
        {
            let ghost pre = self.handlers@;
            let outcome = self.handlers[i].on_heartbeat(resp);
            proof {
                assert(forall|k: int| 0 <= k < pre.len() && k != i ==> self.handlers@[k] == pre[k]);
                assert(answers_on_heartbeat(before[i as int], resp, outcome));
            }
            let ghost entry = SinkCall { sink: i as nat, callback: Callback::Event(EventKind::Heartbeat), outcome };
            proof {
                assert(self.log@.push(entry).subrange(0, start.len() as int) =~= self.log@.subrange(
                    0,
                    start.len() as int,
                ));
            }
            self.log = Ghost(self.log@.push(entry));
            outcomes.push(outcome);
            i = i + 1;
        }
        let r = terminate_if_any(&outcomes);
        proof {
            lemma_fanned(start, self.log@, outcomes@, Callback::Event(EventKind::Heartbeat));
            assert forall|k: int| 0 <= k < n implies answers_on_heartbeat(
                before[k],
                resp, #[trigger] self.log@[start.len() + k].outcome,
            ) by {
                assert(self.log@[start.len() + k].outcome == outcomes@[k]);
            }
        }
        r
    }

    fn on_status(&mut self, resp: &StatusResponse) -> (r: Result<(), Terminate>)
        ensures
            fanned(*old(self), *final(self), Callback::Event(EventKind::Status), r),
            forall|k: int|
                0 <= k < old(self).sinks() ==> answers_on_status(
                    old(self).sink(k),
                    resp, #[trigger] final(self).calls()[old(self).calls().len() + k].outcome,
                ),
    {
        let ghost start = self.log@;
        let ghost before = self.handlers@;
        let n = self.handlers.len();
        let mut outcomes: Vec<Result<(), Terminate>> = Vec::new();
        let mut i: usize = 0;
        while i < n
            invariant
                i <= n,
                n == self.handlers.len(),
                n == before.len(),
                outcomes.len() == i,
                self.log@.len() == start.len() + i,
                self.log@.subrange(0, start.len() as int) == start,
                forall|k: int|
                    0 <= k < i ==> (#[trigger] self.log@[start.len() + k]).sink == k
                        && self.log@[start.len() + k].callback == Callback::Event(EventKind::Status)
                        && self.log@[start.len() + k].outcome == outcomes@[k],
                forall|k: int| i <= k < n ==> #[trigger] self.handlers@[k] == before[k],
                forall|k: int| 0 <= k < i ==> answers_on_status(before[k], resp, #[trigger] outcomes@[k]),
            decreases n - i,
        {
            let ghost pre = self.handlers@;
            let outcome = self.handlers[i].on_status(resp);
            proof {
                assert(forall|k: int| 0 <= k < pre.len() && k != i ==> self.handlers@[k] == pre[k]);
                assert(answers_on_status(before[i as int], resp, outcome));
            }
            let ghost entry = SinkCall { sink: i as nat, callback: Callback::Event(EventKind::Status), outcome };
            proof {
                assert(self.log@.push(entry).subrange(0, start.len() as int) =~= self.log@.subrange(
                    0,
                    start.len() as int,
                ));
            }
            self.log = Ghost(self.log@.push(entry));
            outcomes.push(outcome);
            i = i + 1;
        }
        let r = terminate_if_any(&outcomes);
        proof {
            lemma_fanned(start, self.log@, outcomes@, Callback::Event(EventKind::Status));
            assert forall|k: int| 0 <= k < n implies answers_on_status(
                before[k],
                resp, #[trigger] self.log@[start.len() + k].outcome,
            ) by {
                assert(self.log@[start.len() + k].outcome == outcomes@[k]);
            }
        }
        r
    }

    fn on_ticker(&mut self, resp: &TickerResponse) -> (r: Result<(), Terminate>)
        ensures
            fanned(*old(self), *final(self), Callback::Event(EventKind::Ticker), r),
            forall|k: int|
                0 <= k < old(self).sinks() ==> answers_on_ticker(
                    old(self).sink(k),
                    resp, #[trigger] final(self).calls()[old(self).calls().len() + k].outcome,
                ),
    {
        let ghost start = self.log@;
        let ghost before = self.handlers@;
        let n = self.handlers.len();
        let mut outcomes: Vec<Result<(), Terminate>> = Vec::new();
        let mut i: usize = 0;
        while i < n
            invariant
                i <= n,
                n == self.handlers.len(),
                n == before.len(),
                outcomes.len() == i,
                self.log@.len() == start.len() + i,
                self.log@.subrange(0, start.len() as int) == start,
                forall|k: int|
                    0 <= k < i ==> (#[trigger] self.log@[start.len() + k]).sink == k
                        && self.log@[start.len() + k].callback == Callback::Event(EventKind::Ticker)
                        && self.log@[start.len() + k].outcome == outcomes@[k],
                forall|k: int| i <= k < n ==> #[trigger] self.handlers@[k] == before[k],
                forall|k: int| 0 <= k < i ==> answers_on_ticker(before[k], resp, #[trigger] outcomes@[k]),
            decreases n - i,
        {
            let ghost pre = self.handlers@;
            let outcome = self.handlers[i].on_ticker(resp);
            proof {
                assert(forall|k: int| 0 <= k < pre.len() && k != i ==> self.handlers@[k] == pre[k]);
                assert(answers_on_ticker(before[i as int], resp, outcome));
            }
            let ghost entry = SinkCall { sink: i as nat, callback: Callback::Event(EventKind::Ticker), outcome };
            proof {
                assert(self.log@.push(entry).subrange(0, start.len() as int) =~= self.log@.subrange(
                    0,
                    start.len() as int,
                ));
            }
            self.log = Ghost(self.log@.push(entry));
            outcomes.push(outcome);
            i = i + 1;
        }
        let r = terminate_if_any(&outcomes);
        proof {
            lemma_fanned(start, self.log@, outcomes@, Callback::Event(EventKind::Ticker));
            assert forall|k: int| 0 <= k < n implies answers_on_ticker(
                before[k],
                resp, #[trigger] self.log@[start.len() + k].outcome,
            ) by {
                assert(self.log@[start.len() + k].outcome == outcomes@[k]);
            }
        }
        r
    }

    fn on_snapshot(&mut self, resp: &SnapshotResponse) -> (r: Result<(), Terminate>)
        ensures
            fanned(*old(self), *final(self), Callback::Event(EventKind::Snapshot), r),
            forall|k: int|
                0 <= k < old(self).sinks() ==> answers_on_snapshot(
                    old(self).sink(k),
                    resp, #[trigger] final(self).calls()[old(self).calls().len() + k].outcome,
                ),
    {
        let ghost start = self.log@;
        let ghost before = self.handlers@;
        let n = self.handlers.len();
        let mut outcomes: Vec<Result<(), Terminate>> = Vec::new();
        let mut i: usize = 0;
        while i < n
            invariant
                i <= n,
                n == self.handlers.len(),
                n == before.len(),
                outcomes.len() == i,
                self.log@.len() == start.len() + i,
                self.log@.subrange(0, start.len() as int) == start,
                forall|k: int|
                    0 <= k < i ==> (#[trigger] self.log@[start.len() + k]).sink == k
                        && self.log@[start.len() + k].callback == Callback::Event(EventKind::Snapshot)
                        && self.log@[start.len() + k].outcome == outcomes@[k],
                forall|k: int| i <= k < n ==> #[trigger] self.handlers@[k] == before[k],
                forall|k: int| 0 <= k < i ==> answers_on_snapshot(before[k], resp, #[trigger] outcomes@[k]),
            decreases n - i,
        {
            let ghost pre = self.handlers@;
            let outcome = self.handlers[i].on_snapshot(resp);
            proof {
                assert(forall|k: int| 0 <= k < pre.len() && k != i ==> self.handlers@[k] == pre[k]);
                assert(answers_on_snapshot(before[i as int], resp, outcome));
            }
            let ghost entry = SinkCall { sink: i as nat, callback: Callback::Event(EventKind::Snapshot), outcome };
            proof {
                assert(self.log@.push(entry).subrange(0, start.len() as int) =~= self.log@.subrange(
                    0,
                    start.len() as int,
                ));
            }
            self.log = Ghost(self.log@.push(entry));
            outcomes.push(outcome);
            i = i + 1;
        }
        let r = terminate_if_any(&outcomes);
        proof {
            lemma_fanned(start, self.log@, outcomes@, Callback::Event(EventKind::Snapshot));
            assert forall|k: int| 0 <= k < n implies answers_on_snapshot(
                before[k],
                resp, #[trigger] self.log@[start.len() + k].outcome,
            ) by {
                assert(self.log@[start.len() + k].outcome == outcomes@[k]);
            }
        }
        r
    }

    fn on_l2_update(&mut self, resp: &L2UpdateResponse) -> (r: Result<(), Terminate>)
        ensures
            fanned(*old(self), *final(self), Callback::Event(EventKind::L2Update), r),
            forall|k: int|
                0 <= k < old(self).sinks() ==> answers_on_l2_update(
                    old(self).sink(k),
                    resp, #[trigger] final(self).calls()[old(self).calls().len() + k].outcome,
                ),
    {
        let ghost start = self.log@;
        let ghost before = self.handlers@;
        let n = self.handlers.len();
        let mut outcomes: Vec<Result<(), Terminate>> = Vec::new();
        let mut i: usize = 0;
        while i < n
            invariant
                i <= n,
                n == self.handlers.len(),
                n == before.len(),
                outcomes.len() == i,
                self.log@.len() == start.len() + i,
                self.log@.subrange(0, start.len() as int) == start,
                forall|k: int|
                    0 <= k < i ==> (#[trigger] self.log@[start.len() + k]).sink == k
                        && self.log@[start.len() + k].callback == Callback::Event(EventKind::L2Update)
                        && self.log@[start.len() + k].outcome == outcomes@[k],
                forall|k: int| i <= k < n ==> #[trigger] self.handlers@[k] == before[k],
                forall|k: int| 0 <= k < i ==> answers_on_l2_update(before[k], resp, #[trigger] outcomes@[k]),
            decreases n - i,
        {
            let ghost pre = self.handlers@;
            let outcome = self.handlers[i].on_l2_update(resp);
            proof {
                assert(forall|k: int| 0 <= k < pre.len() && k != i ==> self.handlers@[k] == pre[k]);
                assert(answers_on_l2_update(before[i as int], resp, outcome));
            }
            let ghost entry = SinkCall { sink: i as nat, callback: Callback::Event(EventKind::L2Update), outcome };
            proof {
                assert(self.log@.push(entry).subrange(0, start.len() as int) =~= self.log@.subrange(
                    0,
                    start.len() as int,
                ));
            }
            self.log = Ghost(self.log@.push(entry));
            outcomes.push(outcome);
            i = i + 1;
        }
        let r = terminate_if_any(&outcomes);
        proof {
            lemma_fanned(start, self.log@, outcomes@, Callback::Event(EventKind::L2Update));
            assert forall|k: int| 0 <= k < n implies answers_on_l2_update(
                before[k],
                resp, #[trigger] self.log@[start.len() + k].outcome,
            ) by {
                assert(self.log@[start.len() + k].outcome == outcomes@[k]);
            }
        }
        r
    }

    fn on_match(&mut self, resp: &MatchResponse) -> (r: Result<(), Terminate>)
        ensures
            fanned(*old(self), *final(self), Callback::Event(EventKind::Match), r),
            forall|k: int|
                0 <= k < old(self).sinks() ==> answers_on_match(
                    old(self).sink(k),
                    resp, #[trigger] final(self).calls()[old(self).calls().len() + k].outcome,
                ),
    {
        let ghost start = self.log@;
        let ghost before = self.handlers@;
        let n = self.handlers.len();
        let mut outcomes: Vec<Result<(), Terminate>> = Vec::new();
        let mut i: usize = 0;
        while i < n
            invariant
                i <= n,
                n == self.handlers.len(),
                n == before.len(),
                outcomes.len() == i,
                self.log@.len() == start.len() + i,
                self.log@.subrange(0, start.len() as int) == start,
                forall|k: int|
                    0 <= k < i ==> (#[trigger] self.log@[start.len() + k]).sink == k
                        && self.log@[start.len() + k].callback == Callback::Event(EventKind::Match)
                        && self.log@[start.len() + k].outcome == outcomes@[k],
                forall|k: int| i <= k < n ==> #[trigger] self.handlers@[k] == before[k],
                forall|k: int| 0 <= k < i ==> answers_on_match(before[k], resp, #[trigger] outcomes@[k]),
            decreases n - i,
        {
            let ghost pre = self.handlers@;
            let outcome = self.handlers[i].on_match(resp);
            proof {
                assert(forall|k: int| 0 <= k < pre.len() && k != i ==> self.handlers@[k] == pre[k]);
                assert(answers_on_match(before[i as int], resp, outcome));
            }
            let ghost entry = SinkCall { sink: i as nat, callback: Callback::Event(EventKind::Match), outcome };
            proof {
                assert(self.log@.push(entry).subrange(0, start.len() as int) =~= self.log@.subrange(
                    0,
                    start.len() as int,
                ));
            }
            self.log = Ghost(self.log@.push(entry));
            outcomes.push(outcome);
            i = i + 1;
        }
        let r = terminate_if_any(&outcomes);
        proof {
            lemma_fanned(start, self.log@, outcomes@, Callback::Event(EventKind::Match));
            assert forall|k: int| 0 <= k < n implies answers_on_match(
                before[k],
                resp, #[trigger] self.log@[start.len() + k].outcome,
            ) by {
                assert(self.log@[start.len() + k].outcome == outcomes@[k]);
            }
        }
        r
    }

    fn on_received(&mut self, resp: &ReceivedResponse) -> (r: Result<(), Terminate>)
        ensures
            fanned(*old(self), *final(self), Callback::Event(EventKind::Received), r),
            forall|k: int|
                0 <= k < old(self).sinks() ==> answers_on_received(
                    old(self).sink(k),
                    resp, #[trigger] final(self).calls()[old(self).calls().len() + k].outcome,
                ),
    {
        let ghost start = self.log@;
        let ghost before = self.handlers@;
        let n = self.handlers.len();
        let mut outcomes: Vec<Result<(), Terminate>> = Vec::new();
        let mut i: usize = 0;
        while i < n
            invariant
                i <= n,
                n == self.handlers.len(),
                n == before.len(),
                outcomes.len() == i,
                self.log@.len() == start.len() + i,
                self.log@.subrange(0, start.len() as int) == start,
                forall|k: int|
                    0 <= k < i ==> (#[trigger] self.log@[start.len() + k]).sink == k
                        && self.log@[start.len() + k].callback == Callback::Event(EventKind::Received)
                        && self.log@[start.len() + k].outcome == outcomes@[k],
                forall|k: int| i <= k < n ==> #[trigger] self.handlers@[k] == before[k],
                forall|k: int| 0 <= k < i ==> answers_on_received(before[k], resp, #[trigger] outcomes@[k]),
            decreases n - i,
        {
            let ghost pre = self.handlers@;
            let outcome = self.handlers[i].on_received(resp);
            proof {
                assert(forall|k: int| 0 <= k < pre.len() && k != i ==> self.handlers@[k] == pre[k]);
                assert(answers_on_received(before[i as int], resp, outcome));
            }
            let ghost entry = SinkCall { sink: i as nat, callback: Callback::Event(EventKind::Received), outcome };
            proof {
                assert(self.log@.push(entry).subrange(0, start.len() as int) =~= self.log@.subrange(
                    0,
                    start.len() as int,
                ));
            }
            self.log = Ghost(self.log@.push(entry));
            outcomes.push(outcome);
            i = i + 1;
        }
        let r = terminate_if_any(&outcomes);
        proof {
            lemma_fanned(start, self.log@, outcomes@, Callback::Event(EventKind::Received));
            assert forall|k: int| 0 <= k < n implies answers_on_received(
                before[k],
                resp, #[trigger] self.log@[start.len() + k].outcome,
            ) by {
                assert(self.log@[start.len() + k].outcome == outcomes@[k]);
            }
        }
        r
    }

    fn on_open(&mut self, resp: &OpenResponse) -> (r: Result<(), Terminate>)
        ensures
            fanned(*old(self), *final(self), Callback::Event(EventKind::Open), r),
            forall|k: int|
                0 <= k < old(self).sinks() ==> answers_on_open(
                    old(self).sink(k),
                    resp, #[trigger] final(self).calls()[old(self).calls().len() + k].outcome,
                ),
    {
        let ghost start = self.log@;
        let ghost before = self.handlers@;
        let n = self.handlers.len();
        let mut outcomes: Vec<Result<(), Terminate>> = Vec::new();
        let mut i: usize = 0;
        while i < n
            invariant
                i <= n,
                n == self.handlers.len(),
                n == before.len(),
                outcomes.len() == i,
                self.log@.len() == start.len() + i,
                self.log@.subrange(0, start.len() as int) == start,
                forall|k: int|
                    0 <= k < i ==> (#[trigger] self.log@[start.len() + k]).sink == k
                        && self.log@[start.len() + k].callback == Callback::Event(EventKind::Open)
                        && self.log@[start.len() + k].outcome == outcomes@[k],
                forall|k: int| i <= k < n ==> #[trigger] self.handlers@[k] == before[k],
                forall|k: int| 0 <= k < i ==> answers_on_open(before[k], resp, #[trigger] outcomes@[k]),
            decreases n - i,
        {
            let ghost pre = self.handlers@;
            let outcome = self.handlers[i].on_open(resp);
            proof {
                assert(forall|k: int| 0 <= k < pre.len() && k != i ==> self.handlers@[k] == pre[k]);
                assert(answers_on_open(before[i as int], resp, outcome));
            }
            let ghost entry = SinkCall { sink: i as nat, callback: Callback::Event(EventKind::Open), outcome };
            proof {
                assert(self.log@.push(entry).subrange(0, start.len() as int) =~= self.log@.subrange(
                    0,
                    start.len() as int,
                ));
            }
            self.log = Ghost(self.log@.push(entry));
            outcomes.push(outcome);
            i = i + 1;
        }
        let r = terminate_if_any(&outcomes);
        proof {
            lemma_fanned(start, self.log@, outcomes@, Callback::Event(EventKind::Open));
            assert forall|k: int| 0 <= k < n implies answers_on_open(
                before[k],
                resp, #[trigger] self.log@[start.len() + k].outcome,
            ) by {
                assert(self.log@[start.len() + k].outcome == outcomes@[k]);
            }
        }
        r
    }

    fn on_change(&mut self, resp: &ChangeResponse) -> (r: Result<(), Terminate>)
        ensures
            fanned(*old(self), *final(self), Callback::Event(EventKind::Change), r),
            forall|k: int|
                0 <= k < old(self).sinks() ==> answers_on_change(
                    old(self).sink(k),
                    resp, #[trigger] final(self).calls()[old(self).calls().len() + k].outcome,
                ),
    {
        let ghost start = self.log@;
        let ghost before = self.handlers@;
        let n = self.handlers.len();
        let mut outcomes: Vec<Result<(), Terminate>> = Vec::new();
        let mut i: usize = 0;
        while i < n
            invariant
                i <= n,
                n == self.handlers.len(),
                n == before.len(),
                outcomes.len() == i,
                self.log@.len() == start.len() + i,
                self.log@.subrange(0, start.len() as int) == start,
                forall|k: int|
                    0 <= k < i ==> (#[trigger] self.log@[start.len() + k]).sink == k
                        && self.log@[start.len() + k].callback == Callback::Event(EventKind::Change)
                        && self.log@[start.len() + k].outcome == outcomes@[k],
                forall|k: int| i <= k < n ==> #[trigger] self.handlers@[k] == before[k],
                forall|k: int| 0 <= k < i ==> answers_on_change(before[k], resp, #[trigger] outcomes@[k]),
            decreases n - i,
        {
            let ghost pre = self.handlers@;
            let outcome = self.handlers[i].on_change(resp);
            proof {
                assert(forall|k: int| 0 <= k < pre.len() && k != i ==> self.handlers@[k] == pre[k]);
                assert(answers_on_change(before[i as int], resp, outcome));
            }
            let ghost entry = SinkCall { sink: i as nat, callback: Callback::Event(EventKind::Change), outcome };
            proof {
                assert(self.log@.push(entry).subrange(0, start.len() as int) =~= self.log@.subrange(
                    0,
                    start.len() as int,
                ));
            }
            self.log = Ghost(self.log@.push(entry));
            outcomes.push(outcome);
            i = i + 1;
        }
        let r = terminate_if_any(&outcomes);
        proof {
            lemma_fanned(start, self.log@, outcomes@, Callback::Event(EventKind::Change));
            assert forall|k: int| 0 <= k < n implies answers_on_change(
                before[k],
                resp, #[trigger] self.log@[start.len() + k].outcome,
            ) by {
                assert(self.log@[start.len() + k].outcome == outcomes@[k]);
            }
        }
        r
    }

    fn on_done(&mut self, resp: &DoneResponse) -> (r: Result<(), Terminate>)
        ensures
            fanned(*old(self), *final(self), Callback::Event(EventKind::Done), r),
            forall|k: int|
                0 <= k < old(self).sinks() ==> answers_on_done(
                    old(self).sink(k),
                    resp, #[trigger] final(self).calls()[old(self).calls().len() + k].outcome,
                ),
    {
        let ghost start = self.log@;
        let ghost before = self.handlers@;
        let n = self.handlers.len();
        let mut outcomes: Vec<Result<(), Terminate>> = Vec::new();
        let mut i: usize = 0;
        while i < n
            invariant
                i <= n,
                n == self.handlers.len(),
                n == before.len(),
                outcomes.len() == i,
                self.log@.len() == start.len() + i,
                self.log@.subrange(0, start.len() as int) == start,
                forall|k: int|
                    0 <= k < i ==> (#[trigger] self.log@[start.len() + k]).sink == k
                        && self.log@[start.len() + k].callback == Callback::Event(EventKind::Done)
                        && self.log@[start.len() + k].outcome == outcomes@[k],
                forall|k: int| i <= k < n ==> #[trigger] self.handlers@[k] == before[k],
                forall|k: int| 0 <= k < i ==> answers_on_done(before[k], resp, #[trigger] outcomes@[k]),
            decreases n - i,
        {
            let ghost pre = self.handlers@;
            let outcome = self.handlers[i].on_done(resp);
            proof {
                assert(forall|k: int| 0 <= k < pre.len() && k != i ==> self.handlers@[k] == pre[k]);
                assert(answers_on_done(before[i as int], resp, outcome));
            }
            let ghost entry = SinkCall { sink: i as nat, callback: Callback::Event(EventKind::Done), outcome };
            proof {
                assert(self.log@.push(entry).subrange(0, start.len() as int) =~= self.log@.subrange(
                    0,
                    start.len() as int,
                ));
            }
            self.log = Ghost(self.log@.push(entry));
            outcomes.push(outcome);
            i = i + 1;
        }
        let r = terminate_if_any(&outcomes);
        proof {
            lemma_fanned(start, self.log@, outcomes@, Callback::Event(EventKind::Done));
            assert forall|k: int| 0 <= k < n implies answers_on_done(
                before[k],
                resp, #[trigger] self.log@[start.len() + k].outcome,
            ) by {
                assert(self.log@[start.len() + k].outcome == outcomes@[k]);
            }
        }
        r
    }

    fn on_active(&mut self, resp: &ActiveResponse) -> (r: Result<(), Terminate>)
        ensures
            fanned(*old(self), *final(self), Callback::Event(EventKind::Active), r),
            forall|k: int|
                0 <= k < old(self).sinks() ==> answers_on_active(
                    old(self).sink(k),
                    resp, #[trigger] final(self).calls()[old(self).calls().len() + k].outcome,
                ),
    {
        let ghost start = self.log@;
        let ghost before = self.handlers@;
        let n = self.handlers.len();
        let mut outcomes: Vec<Result<(), Terminate>> = Vec::new();
        let mut i: usize = 0;
        while i < n
            invariant
                i <= n,
                n == self.handlers.len(),
                n == before.len(),
                outcomes.len() == i,
                self.log@.len() == start.len() + i,
                self.log@.subrange(0, start.len() as int) == start,
                forall|k: int|
                    0 <= k < i ==> (#[trigger] self.log@[start.len() + k]).sink == k
                        && self.log@[start.len() + k].callback == Callback::Event(EventKind::Active)
                        && self.log@[start.len() + k].outcome == outcomes@[k],
                forall|k: int| i <= k < n ==> #[trigger] self.handlers@[k] == before[k],
                forall|k: int| 0 <= k < i ==> answers_on_active(before[k], resp, #[trigger] outcomes@[k]),
            decreases n - i,
        {
            let ghost pre = self.handlers@;
            let outcome = self.handlers[i].on_active(resp);
            proof {
                assert(forall|k: int| 0 <= k < pre.len() && k != i ==> self.handlers@[k] == pre[k]);
                assert(answers_on_active(before[i as int], resp, outcome));
            }
            let ghost entry = SinkCall { sink: i as nat, callback: Callback::Event(EventKind::Active), outcome };
            proof {
                assert(self.log@.push(entry).subrange(0, start.len() as int) =~= self.log@.subrange(
                    0,
                    start.len() as int,
                ));
            }
            self.log = Ghost(self.log@.push(entry));
            outcomes.push(outcome);
            i = i + 1;
        }
        let r = terminate_if_any(&outcomes);
        proof {
            lemma_fanned(start, self.log@, outcomes@, Callback::Event(EventKind::Active));
            assert forall|k: int| 0 <= k < n implies answers_on_active(
                before[k],
                resp, #[trigger] self.log@[start.len() + k].outcome,
            ) by {
                assert(self.log@[start.len() + k].outcome == outcomes@[k]);
            }
        }
        r
    }

    fn on_last_match(&mut self, resp: &LastMatchResponse) -> (r: Result<(), Terminate>)
        ensures
            fanned(*old(self), *final(self), Callback::Event(EventKind::LastMatch), r),
            forall|k: int|
                0 <= k < old(self).sinks() ==> answers_on_last_match(
                    old(self).sink(k),
                    resp, #[trigger] final(self).calls()[old(self).calls().len() + k].outcome,
                ),
    {
        let ghost start = self.log@;
        let ghost before = self.handlers@;
        let n = self.handlers.len();
        let mut outcomes: Vec<Result<(), Terminate>> = Vec::new();
        let mut i: usize = 0;
        while i < n
            invariant
                i <= n,
                n == self.handlers.len(),
                n == before.len(),
                outcomes.len() == i,
                self.log@.len() == start.len() + i,
                self.log@.subrange(0, start.len() as int) == start,
                forall|k: int|
                    0 <= k < i ==> (#[trigger] self.log@[start.len() + k]).sink == k
                        && self.log@[start.len() + k].callback == Callback::Event(EventKind::LastMatch)
                        && self.log@[start.len() + k].outcome == outcomes@[k],
                forall|k: int| i <= k < n ==> #[trigger] self.handlers@[k] == before[k],
                forall|k: int| 0 <= k < i ==> answers_on_last_match(before[k], resp, #[trigger] outcomes@[k]),
            decreases n - i,
        {
            let ghost pre = self.handlers@;
            let outcome = self.handlers[i].on_last_match(resp);
            proof {
                assert(forall|k: int| 0 <= k < pre.len() && k != i ==> self.handlers@[k] == pre[k]);
                assert(answers_on_last_match(before[i as int], resp, outcome));
            }
            let ghost entry = SinkCall { sink: i as nat, callback: Callback::Event(EventKind::LastMatch), outcome };
            proof {
                assert(self.log@.push(entry).subrange(0, start.len() as int) =~= self.log@.subrange(
                    0,
                    start.len() as int,
                ));
            }
            self.log = Ghost(self.log@.push(entry));
            outcomes.push(outcome);
            i = i + 1;
        }
        let r = terminate_if_any(&outcomes);
        proof {
            lemma_fanned(start, self.log@, outcomes@, Callback::Event(EventKind::LastMatch));
            assert forall|k: int| 0 <= k < n implies answers_on_last_match(
                before[k],
                resp, #[trigger] self.log@[start.len() + k].outcome,
            ) by {
                assert(self.log@[start.len() + k].outcome == outcomes@[k]);
            }
        }
        r
    }

    fn on_error(&mut self, resp: &ErrorResponse) -> (r: Result<(), Terminate>)
        ensures
            fanned(*old(self), *final(self), Callback::Event(EventKind::Error), r),
            forall|k: int|
                0 <= k < old(self).sinks() ==> answers_on_error(
                    old(self).sink(k),
                    resp, #[trigger] final(self).calls()[old(self).calls().len() + k].outcome,
                ),
    {
        let ghost start = self.log@;
        let ghost before = self.handlers@;
        let n = self.handlers.len();
        let mut outcomes: Vec<Result<(), Terminate>> = Vec::new();
        let mut i: usize = 0;
        while i < n
            invariant
                i <= n,
                n == self.handlers.len(),
                n == before.len(),
                outcomes.len() == i,
                self.log@.len() == start.len() + i,
                self.log@.subrange(0, start.len() as int) == start,
                forall|k: int|
                    0 <= k < i ==> (#[trigger] self.log@[start.len() + k]).sink == k
                        && self.log@[start.len() + k].callback == Callback::Event(EventKind::Error)
                        && self.log@[start.len() + k].outcome == outcomes@[k],
                forall|k: int| i <= k < n ==> #[trigger] self.handlers@[k] == before[k],
                forall|k: int| 0 <= k < i ==> answers_on_error(before[k], resp, #[trigger] outcomes@[k]),
            decreases n - i,
        {
            let ghost pre = self.handlers@;
            let outcome = self.handlers[i].on_error(resp);
            proof {
                assert(forall|k: int| 0 <= k < pre.len() && k != i ==> self.handlers@[k] == pre[k]);
                assert(answers_on_error(before[i as int], resp, outcome));
            }
            let ghost entry = SinkCall { sink: i as nat, callback: Callback::Event(EventKind::Error), outcome };
            proof {
                assert(self.log@.push(entry).subrange(0, start.len() as int) =~= self.log@.subrange(
                    0,
                    start.len() as int,
                ));
            }
            self.log = Ghost(self.log@.push(entry));
            outcomes.push(outcome);
            i = i + 1;
        }
        let r = terminate_if_any(&outcomes);
        proof {
            lemma_fanned(start, self.log@, outcomes@, Callback::Event(EventKind::Error));
            assert forall|k: int| 0 <= k < n implies answers_on_error(
                before[k],
                resp, #[trigger] self.log@[start.len() + k].outcome,
            ) by {
                assert(self.log@[start.len() + k].outcome == outcomes@[k]);
            }
        }
        r
    }

    fn close(&mut self) -> (r: Result<(), Terminate>)
        ensures
            fanned(*old(self), *final(self), Callback::Close, r),
            forall|k: int|
                0 <= k < old(self).sinks() ==> answers_close(
                    old(self).sink(k),
                    #[trigger] final(self).calls()[old(self).calls().len() + k].outcome,
                ),
    {
        let ghost start = self.log@;
        let ghost before = self.handlers@;
        let n = self.handlers.len();
        let mut outcomes: Vec<Result<(), Terminate>> = Vec::new();
        let mut i: usize = 0;
        while i < n
            invariant
                i <= n,
                n == self.handlers.len(),
                n == before.len(),
                outcomes.len() == i,
                self.log@.len() == start.len() + i,
                self.log@.subrange(0, start.len() as int) == start,
                forall|k: int|
                    0 <= k < i ==> (#[trigger] self.log@[start.len() + k]).sink == k
                        && self.log@[start.len() + k].callback == Callback::Close
                        && self.log@[start.len() + k].outcome == outcomes@[k],
                forall|k: int| i <= k < n ==> #[trigger] self.handlers@[k] == before[k],
                forall|k: int| 0 <= k < i ==> answers_close(before[k], #[trigger] outcomes@[k]),
            decreases n - i,
        {
            let ghost pre = self.handlers@;
            let outcome = self.handlers[i].close();
            proof {
                assert(forall|k: int| 0 <= k < pre.len() && k != i ==> self.handlers@[k] == pre[k]);
                assert(answers_close(before[i as int], outcome));
            }
            let ghost entry = SinkCall { sink: i as nat, callback: Callback::Close, outcome };
            proof {
                assert(self.log@.push(entry).subrange(0, start.len() as int) =~= self.log@.subrange(
                    0,
                    start.len() as int,
                ));
            }
            self.log = Ghost(self.log@.push(entry));
            outcomes.push(outcome);
            i = i + 1;
        }
        let r = terminate_if_any(&outcomes);
        proof {
            lemma_fanned(start, self.log@, outcomes@, Callback::Close);
            assert forall|k: int| 0 <= k < n implies answers_close(
                before[k],
                #[trigger] self.log@[start.len() + k].outcome,
            ) by {
                assert(self.log@[start.len() + k].outcome == outcomes@[k]);
            }
        }
        r
    }
}

} // verus!
