use opcua_transport::status::StatusCode;
use opcua_transport::subscription::{LoopEvent, SubscriptionActivity, SubscriptionEventLoop};

fn tick(in_flight: usize) -> LoopEvent {
    LoopEvent::Tick { in_flight, max_publish_requests: 5 }
}

fn response(result: Result<bool, StatusCode>, in_flight: usize) -> LoopEvent {
    LoopEvent::PublishResponse { result, in_flight, min_publish_requests: 1 }
}

#[test]
fn subscription_publish_back_pressure() {
    let mut l = SubscriptionEventLoop::new(0);
    assert!(l.step(tick(0)).publish);
    let a = l.step(response(Err(StatusCode::BadTooManyPublishRequests), 2));
    assert_eq!(a.activity, Some(SubscriptionActivity::PublishFailed(StatusCode::BadTooManyPublishRequests)));
    assert!(!a.publish);
    assert!(l.waiting_for_response());
    // Scheduled ticks and triggers send nothing while waiting.
    for _ in 0..5 {
        let a = l.step(tick(2));
        assert!(!a.publish);
        assert!(a.reset_publish_time);
    }
    assert!(!l.step(LoopEvent::ExternalTrigger(Some(10))).publish);
    assert_eq!(l.last_external_trigger(), 0);
    assert!(!l.step(response(Err(StatusCode::BadTimeout), 1)).publish);
    assert!(!l.tick_armed(true, 1));
    assert!(l.tick_armed(true, 0));
    // A success ends the wait, without itself publishing.
    let a = l.step(response(Ok(true), 0));
    assert_eq!(a.activity, Some(SubscriptionActivity::Publish));
    assert!(!a.publish);
    assert!(!l.waiting_for_response());
    assert!(l.step(tick(0)).publish);
}

#[test]
fn subscription_no_subscription_pauses_ticks() {
    let mut l = SubscriptionEventLoop::new(0);
    let a = l.step(response(Err(StatusCode::BadNoSubscription), 0));
    assert_eq!(a.activity, Some(SubscriptionActivity::PublishFailed(StatusCode::BadNoSubscription)));
    assert!(l.no_active_subscription());
    for _ in 0..3 {
        assert!(!l.step(tick(0)).publish);
    }
    let a = l.step(LoopEvent::ExternalTrigger(Some(7)));
    assert!(a.publish);
    assert!(a.reset_publish_time);
    assert!(!l.no_active_subscription());
    assert_eq!(l.last_external_trigger(), 7);
    assert!(l.step(tick(1)).publish);
}

#[test]
fn subscription_respects_max_in_flight() {
    let mut l = SubscriptionEventLoop::new(0);
    assert!(l.step(tick(4)).publish);
    assert!(!l.step(tick(5)).publish);
}

#[test]
fn subscription_republishes_after_response() {
    let mut l = SubscriptionEventLoop::new(0);
    let a = l.step(response(Ok(true), 3));
    assert!(a.publish && a.reset_publish_time);
    let a = l.step(response(Ok(false), 0));
    assert!(a.publish);
    let a = l.step(response(Ok(false), 1));
    assert!(!a.publish);
    assert_eq!(a.activity, Some(SubscriptionActivity::Publish));
}

#[test]
fn subscription_failures_are_reported() {
    let mut l = SubscriptionEventLoop::new(0);
    for s in [StatusCode::BadTimeout, StatusCode::BadSessionClosed, StatusCode::BadSessionIdInvalid, StatusCode::Other(0x8000_0000)] {
        let a = l.step(response(Err(s), 0));
        assert_eq!(a.activity, Some(SubscriptionActivity::PublishFailed(s)));
        assert!(!a.publish);
        assert!(!l.waiting_for_response());
        assert!(!l.no_active_subscription());
    }
}

#[test]
fn subscription_closed_trigger_channel() {
    let mut l = SubscriptionEventLoop::new(3);
    l.step(response(Err(StatusCode::BadNoSubscription), 0));
    let a = l.step(LoopEvent::ExternalTrigger(None));
    assert!(!a.publish);
    assert!(!a.reset_publish_time);
    // A closed channel is no trigger: the pause holds.
    assert!(l.no_active_subscription());
    assert_eq!(l.last_external_trigger(), 3);
    assert!(!l.step(LoopEvent::Tick { in_flight: 0, max_publish_requests: 1 }).publish);
    assert!(!l.tick_armed(false, 0));
}

#[test]
fn subscription_trigger_while_waiting_ends_pause() {
    let mut l = SubscriptionEventLoop::new(0);
    l.step(response(Err(StatusCode::BadTooManyPublishRequests), 1));
    l.step(response(Err(StatusCode::BadNoSubscription), 1));
    let a = l.step(LoopEvent::ExternalTrigger(Some(4)));
    assert!(!a.publish);
    assert!(!l.no_active_subscription());
    assert_eq!(l.last_external_trigger(), 0);
}
