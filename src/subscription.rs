//! Decisions of the subscription event loop, which issues Publish requests
//! on a schedule, on external triggers, and after responses, while heeding
//! the server's back-pressure and the absence of subscriptions.
//!
//! The loop itself (timers, the trigger channel, the set of Publish requests
//! in flight) is run by the caller, which hands each event to `step` and
//! carries out the action it returns.

use crate::status::StatusCode;
use vstd::prelude::*;

verus! {

/// An event on the subscription event loop.
#[derive(Debug, Clone, Copy, PartialEq, Eq, Structural)]
pub enum SubscriptionActivity {
    /// A publish request received a successful response.
    Publish,
    /// A publish request failed, either due to a timeout or an error.
    /// The publish request will typically be retried.
    PublishFailed(StatusCode),
}

/// What woke the loop.
#[derive(Debug, Clone, Copy)]
pub enum LoopEvent {
    /// The external trigger moved on to this instant (`None`: the trigger
    /// channel was closed, which changes nothing).
    ExternalTrigger(Option<u64>),
    /// The scheduled publish time came, with this many Publish requests in
    /// flight and this limit on them.
    Tick { in_flight: usize, max_publish_requests: usize },
    /// A Publish request completed (`Ok(more_notifications)` or its error),
    /// leaving this many in flight; the session wants at least
    /// `min_publish_requests` of them.
    PublishResponse { result: Result<bool, StatusCode>, in_flight: usize, min_publish_requests: usize },
}

/// What the loop does in response to an event.
#[derive(Debug, Clone, Copy, PartialEq, Eq, Structural)]
pub struct LoopAction {
    /// Send a new Publish request.
    pub publish: bool,
    /// Ask the session for the next publish time with a reset of its
    /// schedule, and wait for that time next.
    pub reset_publish_time: bool,
    /// Yield this activity on the loop's stream.
    pub activity: Option<SubscriptionActivity>,
}

/// Abstract state of the loop.
pub ghost struct LoopState {
    pub last_external_trigger: u64,
    /// Set when the server answered `BadTooManyPublishRequests`: no new
    /// Publish requests until one in flight succeeds.
    pub waiting_for_response: bool,
    /// Set when the server answered `BadNoSubscription`: no scheduled
    /// Publish requests until an external trigger or a success.
    pub no_active_subscription: bool,
}

/// The state after an event, and the action taken.
pub open spec fn spec_step(s: LoopState, e: LoopEvent) -> (LoopState, LoopAction) {
    match e {
        LoopEvent::ExternalTrigger(Some(v)) => if !s.waiting_for_response {
            (
                LoopState { last_external_trigger: v, no_active_subscription: false, ..s },
                LoopAction { publish: true, reset_publish_time: true, activity: None },
            )
        } else {
            (
                LoopState { no_active_subscription: false, ..s },
                LoopAction { publish: false, reset_publish_time: false, activity: None },
            )
        },
        LoopEvent::ExternalTrigger(None) => (
            s,
            LoopAction { publish: false, reset_publish_time: false, activity: None },
        ),
        LoopEvent::Tick { in_flight, max_publish_requests } => (
            s,
            LoopAction {
                publish: !s.no_active_subscription && in_flight < max_publish_requests
                    && !s.waiting_for_response,
                reset_publish_time: true,
                activity: None,
            },
        ),
        LoopEvent::PublishResponse { result, in_flight, min_publish_requests } => match result {
            Ok(more_notifications) => {
                let again = (more_notifications || in_flight < min_publish_requests)
                    && !s.waiting_for_response;
                (
                    LoopState { waiting_for_response: false, no_active_subscription: false, ..s },
                    LoopAction {
                        publish: again,
                        reset_publish_time: again,
                        activity: Some(SubscriptionActivity::Publish),
                    },
                )
            },
            Err(status) => (
                LoopState {
                    waiting_for_response: s.waiting_for_response || status
                        == StatusCode::BadTooManyPublishRequests,
                    no_active_subscription: s.no_active_subscription || status
                        == StatusCode::BadNoSubscription,
                    ..s
                },
                LoopAction {
                    publish: false,
                    reset_publish_time: false,
                    activity: Some(SubscriptionActivity::PublishFailed(status)),
                },
            ),
        },
    }
}

/// The state after a run of events, and how many Publish requests it sent.
pub open spec fn spec_run(s: LoopState, events: Seq<LoopEvent>) -> (LoopState, nat)
    decreases events.len(),
{
    if events.len() == 0 {
        (s, 0)
    } else {
        let (t, a) = spec_step(s, events[0]);
        let (u, n) = spec_run(t, events.drop_first());
        (u, n + if a.publish { 1nat } else { 0nat })
    }
}

/// A Publish request that succeeded.
pub open spec fn spec_is_success(e: LoopEvent) -> bool {
    match e {
        LoopEvent::PublishResponse { result, .. } => result is Ok,
        _ => false,
    }
}

/// State of the subscription event loop.
#[derive(Debug, Clone, Copy)]
pub struct SubscriptionEventLoop {
    last_external_trigger: u64,
    // This is true if the client has received BadTooManyPublishRequests
    // and is waiting for a response before making further requests.
    waiting_for_response: bool,
    // This is true if the client has received a no_subscriptions response,
    // and is waiting for a manual trigger or successful response before resuming publishing.
    no_active_subscription: bool,
}

impl View for SubscriptionEventLoop {
    type V = LoopState;

    closed spec fn view(&self) -> LoopState {
        LoopState {
            last_external_trigger: self.last_external_trigger,
            waiting_for_response: self.waiting_for_response,
            no_active_subscription: self.no_active_subscription,
        }
    }
}

impl SubscriptionEventLoop {
    /// Create the loop's state, given the trigger channel's current value.
    pub fn new(last_external_trigger: u64) -> (r: Self)
        ensures
            r@ == (LoopState {
                last_external_trigger,
                waiting_for_response: false,
                no_active_subscription: false,
            }),
    {
        Self { last_external_trigger, waiting_for_response: false, no_active_subscription: false }
    }

    /// The instant of the last external trigger acted on; the loop waits
    /// for the trigger channel to move past it.
    pub fn last_external_trigger(&self) -> (r: u64)
        ensures
            r == self@.last_external_trigger,
    {
        self.last_external_trigger
    }

    /// Whether the server's back-pressure holds new Publish requests back.
    pub fn waiting_for_response(&self) -> (r: bool)
        ensures
            r == self@.waiting_for_response,
    {
        self.waiting_for_response
    }

    /// Whether the server reported that there are no subscriptions.
    pub fn no_active_subscription(&self) -> (r: bool)
        ensures
            r == self@.no_active_subscription,
    {
        self.no_active_subscription
    }

    /// Whether the loop should wait for the scheduled publish time: there
    /// is one, and the loop is not held back while requests are in flight.
    pub fn tick_armed(&self, has_next_publish_time: bool, in_flight: usize) -> (r: bool)
        ensures
            r == (has_next_publish_time && !(self@.waiting_for_response && in_flight > 0)),
    {
        has_next_publish_time && !(self.waiting_for_response && in_flight > 0)
    }

    /// React to an event.
    pub fn step(&mut self, event: LoopEvent) -> (r: LoopAction)
        ensures
            (final(self)@, r) == spec_step(old(self)@, event),
    {
        match event {
            LoopEvent::ExternalTrigger(trigger) => {
                let mut action = LoopAction {
                    publish: false,
                    reset_publish_time: false,
                    activity: None,
                };
                if let Some(v) = trigger {
                    if !self.waiting_for_response {
                        // On an external trigger, we always publish.
                        action.publish = true;
                        action.reset_publish_time = true;
                        self.last_external_trigger = v;
                    }
                    self.no_active_subscription = false;
                }
                action
            },
            LoopEvent::Tick { in_flight, max_publish_requests } => {
                // Avoid publishing if there are too many inflight publish requests.
                let publish = !self.no_active_subscription && in_flight < max_publish_requests
                    && !self.waiting_for_response;
                LoopAction { publish, reset_publish_time: true, activity: None }
            },
            LoopEvent::PublishResponse { result, in_flight, min_publish_requests } => {
                match result {
                    Ok(more_notifications) => {
                        let again = (more_notifications || in_flight < min_publish_requests)
                            && !self.waiting_for_response;
                        self.waiting_for_response = false;
                        self.no_active_subscription = false;
                        LoopAction {
                            publish: again,
                            reset_publish_time: again,
                            activity: Some(SubscriptionActivity::Publish),
                        }
                    },
                    Err(status) => {
                        match status {
                            StatusCode::BadTooManyPublishRequests => {
                                self.waiting_for_response = true;
                            },
                            StatusCode::BadNoSubscription => {
                                self.no_active_subscription = true;
                            },
                            _ => {},
                        }
                        LoopAction {
                            publish: false,
                            reset_publish_time: false,
                            activity: Some(SubscriptionActivity::PublishFailed(status)),
                        }
                    },
                }
            },
        }
    }
}

/// Back-pressure: once the server has answered `BadTooManyPublishRequests`,
/// the loop sends no Publish request, whatever happens, until a request in
/// flight succeeds; until then it keeps waiting.
pub proof fn lemma_back_pressure(s: LoopState, events: Seq<LoopEvent>)
    requires
        s.waiting_for_response,
        forall|i: int| 0 <= i < events.len() ==> !spec_is_success(#[trigger] events[i]),
    ensures
        spec_run(s, events).1 == 0,
        spec_run(s, events).0.waiting_for_response,
    decreases events.len(),
{
    if events.len() > 0 {
        let t = spec_step(s, events[0]).0;
        assert forall|i: int| 0 <= i < events.drop_first().len() implies !spec_is_success(
            #[trigger] events.drop_first()[i],
        ) by {
            assert(events.drop_first()[i] == events[i + 1]);
        }
        lemma_back_pressure(t, events.drop_first());
    }
}

/// The answer `BadTooManyPublishRequests` sets the loop waiting.
pub proof fn lemma_too_many_publish_requests_waits(
    s: LoopState,
    in_flight: usize,
    min_publish_requests: usize,
)
    ensures
        spec_step(
            s,
            LoopEvent::PublishResponse {
                result: Err(StatusCode::BadTooManyPublishRequests),
                in_flight,
                min_publish_requests,
            },
        ).0.waiting_for_response,
{
}

/// A trigger that moved on to a new instant.
pub open spec fn spec_is_trigger(e: LoopEvent) -> bool {
    e matches LoopEvent::ExternalTrigger(Some(_))
}

/// Absence of subscriptions: the answer `BadNoSubscription` pauses the
/// schedule. While paused, no event but an external trigger or a successful
/// Publish response (scheduled ticks, a closed trigger channel, failed
/// responses) sends a Publish request or ends the pause. An external trigger
/// (when the loop is not held back by the server) sends one and ends the
/// pause.
pub proof fn lemma_no_subscription_pause(
    s: LoopState,
    in_flight: usize,
    min_publish_requests: usize,
    events: Seq<LoopEvent>,
    v: u64,
)
    requires
        forall|i: int|
            0 <= i < events.len() ==> !spec_is_trigger(#[trigger] events[i]) && !spec_is_success(
                events[i],
            ),
    ensures
        ({
            let paused = spec_step(
                s,
                LoopEvent::PublishResponse {
                    result: Err(StatusCode::BadNoSubscription),
                    in_flight,
                    min_publish_requests,
                },
            ).0;
            &&& paused.no_active_subscription
            &&& spec_run(paused, events).1 == 0
            &&& spec_run(paused, events).0.no_active_subscription
            &&& !spec_run(paused, events).0.waiting_for_response ==> {
                let (resumed, action) = spec_step(
                    spec_run(paused, events).0,
                    LoopEvent::ExternalTrigger(Some(v)),
                );
                action.publish && !resumed.no_active_subscription
            }
        }),
{
    let paused = spec_step(
        s,
        LoopEvent::PublishResponse {
            result: Err(StatusCode::BadNoSubscription),
            in_flight,
            min_publish_requests,
        },
    ).0;
    lemma_events_while_paused(paused, events);
}

proof fn lemma_events_while_paused(s: LoopState, events: Seq<LoopEvent>)
    requires
        s.no_active_subscription,
        forall|i: int|
            0 <= i < events.len() ==> !spec_is_trigger(#[trigger] events[i]) && !spec_is_success(
                events[i],
            ),
    ensures
        spec_run(s, events).1 == 0,
        spec_run(s, events).0.no_active_subscription,
    decreases events.len(),
{
    if events.len() > 0 {
        assert forall|i: int| 0 <= i < events.drop_first().len() implies !spec_is_trigger(
            #[trigger] events.drop_first()[i],
        ) && !spec_is_success(events.drop_first()[i]) by {
            assert(events.drop_first()[i] == events[i + 1]);
        }
        assert(!spec_is_trigger(events[0]) && !spec_is_success(events[0]));
        lemma_events_while_paused(spec_step(s, events[0]).0, events.drop_first());
    }
}

} // verus!
