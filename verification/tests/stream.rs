use wtr::event::{Event, Kind, What};
use wtr::watch::{watch, ChannelRead, Delay, PollStep};

fn event_at(when: u128) -> Event {
    Event {
        path: String::from("/tmp/w/a.txt"),
        what: What::Create,
        kind: Kind::File,
        when,
    }
}

#[test]
fn delay_progression_values() {
    let mut d = Delay::new();
    let mut observed: Vec<u64> = Vec::new();
    for _ in 0..40 {
        observed.push(d.to_duration());
        d = d.next();
    }
    let mut expected: Vec<u64> = Vec::new();
    expected.extend(std::iter::repeat(16).take(16));
    expected.extend(std::iter::repeat(32).take(6));
    expected.extend(std::iter::repeat(64).take(8));
    expected.extend(std::iter::repeat(128).take(4));
    expected.extend(std::iter::repeat(256).take(2));
    // the final step repeats indefinitely
    expected.extend(std::iter::repeat(512).take(4));
    assert_eq!(observed, expected);
}

#[test]
fn delay_resets_to_first_step() {
    let mut d = Delay::new();
    for _ in 0..10 {
        d = d.next();
    }
    assert_eq!(d.to_duration(), 16);
    for _ in 0..12 {
        d = d.next();
    }
    assert_eq!(d.to_duration(), 64);
    d.reset();
    assert_eq!(d.to_duration(), 16);
    assert_eq!(d.initial_delay().to_duration(), 16);
}

#[test]
fn stop_is_idempotent() {
    let (mut stream, link) = watch(String::from("/tmp/w"));
    assert!(stream.stop());
    assert!(stream.stop());
    assert!(stream.stop());
    drop(link);
}

#[test]
fn stop_after_worker_went_away_still_closes() {
    let (mut stream, link) = watch(String::from("/tmp/w"));
    drop(link);
    // the control channel has no receiver left, so the send fails once
    assert!(!stream.stop());
    // but the stream is closed, and closing again reports success
    assert!(stream.stop());
}

#[test]
fn poll_after_stop_is_end_of_stream() {
    let (mut stream, link) = watch(String::from("/tmp/w"));
    link.event_tx.send(event_at(1)).unwrap();
    stream.stop();
    assert!(matches!(stream.poll_step(true), PollStep::Finished));
    assert!(matches!(stream.poll_step(true), PollStep::Finished));
}

#[test]
fn poll_hands_out_events_in_channel_order() {
    let (mut stream, link) = watch(String::from("/tmp/w"));
    link.event_tx.send(event_at(1)).unwrap();
    link.event_tx.send(event_at(2)).unwrap();
    match stream.poll_step(true) {
        PollStep::Ready(e) => assert_eq!(e, event_at(1)),
        _ => panic!("expected an event"),
    }
    match stream.poll_step(true) {
        PollStep::Ready(e) => assert_eq!(e, event_at(2)),
        _ => panic!("expected an event"),
    }
}

#[test]
fn empty_polls_back_off_and_events_reset_the_delay() {
    let (mut stream, link) = watch(String::from("/tmp/w"));
    // sixteen misses at 16 ms, then the schedule lengthens to 32 ms
    for _ in 0..15 {
        match stream.poll_step(true) {
            PollStep::PendingWake(ms) => assert_eq!(ms, 16),
            _ => panic!("expected a scheduled wake"),
        }
    }
    match stream.poll_step(true) {
        PollStep::PendingWake(ms) => assert_eq!(ms, 32),
        _ => panic!("expected a scheduled wake"),
    }
    // while a wake is pending, no new wake is scheduled
    assert!(matches!(stream.poll_step(false), PollStep::Pending));
    // an event resets the backoff to the shortest step
    link.event_tx.send(event_at(3)).unwrap();
    assert!(matches!(stream.poll_step(true), PollStep::Ready(_)));
    match stream.poll_step(true) {
        PollStep::PendingWake(ms) => assert_eq!(ms, 16),
        _ => panic!("expected a scheduled wake"),
    }
}

#[test]
fn disconnected_channel_ends_the_stream() {
    let (mut stream, link) = watch(String::from("/tmp/w"));
    link.event_tx.send(event_at(9)).unwrap();
    drop(link);
    // the queued event still arrives, then the stream ends
    assert!(matches!(stream.poll_step(true), PollStep::Ready(_)));
    assert!(matches!(stream.poll_step(true), PollStep::Finished));
    assert!(matches!(stream.poll_step(true), PollStep::Finished));
}

#[test]
fn poll_decide_pins_each_channel_outcome() {
    let (mut stream, link) = watch(String::from("/tmp/w"));
    // a waiting event is handed out as it came and resets the backoff
    match stream.poll_decide(ChannelRead::Item(event_at(4)), true) {
        PollStep::Ready(e) => assert_eq!(e, event_at(4)),
        _ => panic!("expected the event back"),
    }
    match stream.poll_decide(ChannelRead::Empty, true) {
        PollStep::PendingWake(ms) => assert_eq!(ms, 16),
        _ => panic!("expected a scheduled wake"),
    }
    // a pending wake means no new wake is scheduled
    assert!(matches!(stream.poll_decide(ChannelRead::Empty, false), PollStep::Pending));
    // a disconnected channel ends the stream for good
    assert!(matches!(stream.poll_decide(ChannelRead::Closed, true), PollStep::Finished));
    assert!(matches!(stream.poll_step(true), PollStep::Finished));
    drop(link);
}

#[test]
fn worker_link_sees_the_stop_request() {
    let (mut stream, link) = watch(String::from("/tmp/w"));
    assert!(stream.stop());
    assert_eq!(link.ctl_rx.try_recv(), Ok(false));
}
