use async_graphql::broker::{filter_accepts, Broker, EventFilter};
use async_graphql::session::{Tick, WsAction, WsMessage, WsSession, CLIENT_TIMEOUT_MS};
use async_graphql::value::Value;

fn s(x: &str) -> String {
    x.to_string()
}

fn event(v: i64) -> Value {
    Value::Object(vec![(s("value"), Value::Number(v))])
}

#[test]
fn filtered_and_unfiltered_subscribers() {
    let mut broker = Broker::new(8);
    let t = s("T");
    let s1 = broker.subscribe(s("T"), EventFilter::FieldAbove(s("value"), 5)).unwrap();
    let s2 = broker.subscribe(s("T"), EventFilter::All).unwrap();

    broker.publish(&t, &event(3));
    assert_eq!(broker.pending(s1), Some(0));
    assert_eq!(broker.pending(s2), Some(1));
    assert_eq!(broker.next_event(s1), None);
    assert_eq!(broker.next_event(s2), Some(event(3)));

    broker.publish(&t, &event(7));
    assert_eq!(broker.next_event(s1), Some(event(7)));
    assert_eq!(broker.next_event(s2), Some(event(7)));
    assert_eq!(broker.next_event(s2), None);
}

#[test]
fn other_topics_are_not_delivered() {
    let mut broker = Broker::new(4);
    let a = broker.subscribe(s("A"), EventFilter::All).unwrap();
    broker.publish(&s("B"), &event(1));
    assert_eq!(broker.pending(a), Some(0));
}

#[test]
fn full_queue_drops_oldest() {
    let mut broker = Broker::new(2);
    let id = broker.subscribe(s("T"), EventFilter::All).unwrap();
    for v in 1..=3 {
        broker.publish(&s("T"), &event(v));
    }
    assert_eq!(broker.pending(id), Some(2));
    assert_eq!(broker.next_event(id), Some(event(2)));
    assert_eq!(broker.next_event(id), Some(event(3)));
}

#[test]
fn disconnect_drains_and_close_releases() {
    let mut broker = Broker::new(4);
    let a = broker.subscribe(s("T"), EventFilter::All).unwrap();
    let b = broker.subscribe(s("T"), EventFilter::All).unwrap();
    broker.publish(&s("T"), &event(1));
    assert!(broker.disconnect(a));
    assert!(!broker.is_active(a));
    assert_eq!(broker.pending(a), Some(0));
    assert_eq!(broker.next_event(a), None);
    broker.publish(&s("T"), &event(2));
    assert_eq!(broker.pending(a), Some(0));
    assert_eq!(broker.pending(b), Some(2));
    assert!(broker.close(a));
    assert_eq!(broker.pending(a), None);
    assert!(!broker.close(a));
    assert!(broker.is_active(b));
    assert_eq!(broker.next_event(b), Some(event(1)));
}

#[test]
fn filter_reads_numeric_field() {
    let f = EventFilter::FieldAbove(s("value"), 5);
    assert!(filter_accepts(&f, &event(6)));
    assert!(!filter_accepts(&f, &event(5)));
    assert!(!filter_accepts(&f, &Value::Number(9)));
    assert!(!filter_accepts(&f, &Value::Object(vec![(s("value"), Value::Str(s("9")))])));
    assert!(filter_accepts(&EventFilter::All, &Value::Null));
}

#[test]
fn heartbeat_stops_silent_client() {
    let session = WsSession::new(1000);
    assert_eq!(session.heartbeat(1000 + CLIENT_TIMEOUT_MS), Tick { stop: false, ping: true });
    assert_eq!(session.heartbeat(1001 + CLIENT_TIMEOUT_MS), Tick { stop: true, ping: true });
    assert_eq!(session.heartbeat(0), Tick { stop: false, ping: true });
}

#[test]
fn session_messages() {
    let mut session = WsSession::new(0);
    assert_eq!(session.on_message(WsMessage::Text(s("early")), 1), WsAction::Nothing);
    session.started();
    assert_eq!(session.on_message(WsMessage::Ping(vec![1, 2]), 50), WsAction::Pong(vec![1, 2]));
    assert_eq!(session.last_seen_ms, 50);
    assert_eq!(session.on_message(WsMessage::Pong, 60), WsAction::Nothing);
    assert_eq!(session.last_seen_ms, 60);
    assert_eq!(session.on_message(WsMessage::Text(s("hi")), 70), WsAction::Forward(s("hi")));
    assert_eq!(session.on_message(WsMessage::Text(s("busy")), 71), WsAction::Nothing);
    assert_eq!(session.on_forwarded(true), WsAction::Nothing);
    assert!(session.stream_ready);
    assert_eq!(session.on_message(WsMessage::Nop, 80), WsAction::Nothing);
    assert_eq!(session.on_message(WsMessage::Binary, 80), WsAction::Stop);
    assert_eq!(session.on_message(WsMessage::Close, 80), WsAction::Stop);
    assert_eq!(session.on_message(WsMessage::ProtocolError, 80), WsAction::Stop);
    assert_eq!(session.on_forwarded(false), WsAction::Stop);
}

#[test]
fn zero_capacity_keeps_nothing() {
    let mut broker = Broker::new(0);
    let id = broker.subscribe(s("T"), EventFilter::All).unwrap();
    broker.publish(&s("T"), &event(1));
    assert_eq!(broker.pending(id), Some(0));
    assert_eq!(broker.next_event(id), None);
}
