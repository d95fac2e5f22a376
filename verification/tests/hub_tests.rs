use serial_bridge::codec::{encode_line, LineReader};
use serial_bridge::hub::{Hub, SessionState};
use serial_bridge::line::Line;

fn line(s: &[u8]) -> Line {
    Line::new(s.to_vec()).unwrap()
}

fn take_bytes(h: &mut Hub, id: u64) -> Option<Vec<u8>> {
    h.take_downstream(id).map(|l| l.into_bytes())
}

#[test]
fn per_client_order_is_preserved() {
    let mut h = Hub::new();
    let a = h.connect();
    let b = h.connect();
    assert!(h.client_line(a, line(b"a1")));
    assert!(h.client_line(b, line(b"b1")));
    assert!(h.client_line(a, line(b"a2")));
    assert!(h.client_line(b, line(b"b2")));
    let mut drained: Vec<Vec<u8>> = Vec::new();
    while let Some(l) = h.pop_serial() {
        drained.push(l.into_bytes());
    }
    assert_eq!(
        drained,
        vec![b"a1".to_vec(), b"b1".to_vec(), b"a2".to_vec(), b"b2".to_vec()]
    );
    let from_a: Vec<Vec<u8>> = drained
        .iter()
        .filter(|l| l.starts_with(b"a"))
        .cloned()
        .collect();
    assert_eq!(from_a, vec![b"a1".to_vec(), b"a2".to_vec()]);
    let from_b: Vec<Vec<u8>> = drained
        .iter()
        .filter(|l| l.starts_with(b"b"))
        .cloned()
        .collect();
    assert_eq!(from_b, vec![b"b1".to_vec(), b"b2".to_vec()]);
}

#[test]
fn broadcast_reaches_every_connected_client_once() {
    let mut h = Hub::new();
    let a = h.connect();
    let b = h.connect();
    h.serial_line(line(b"reading"));
    assert_eq!(take_bytes(&mut h, a), Some(b"reading".to_vec()));
    assert_eq!(take_bytes(&mut h, a), None);
    assert_eq!(take_bytes(&mut h, b), Some(b"reading".to_vec()));
    assert_eq!(take_bytes(&mut h, b), None);
}

#[test]
fn late_subscriber_misses_earlier_broadcasts() {
    let mut h = Hub::new();
    let a = h.connect();
    h.serial_line(line(b"early"));
    let c = h.connect();
    assert_eq!(take_bytes(&mut h, c), None);
    h.serial_line(line(b"later"));
    assert_eq!(take_bytes(&mut h, c), Some(b"later".to_vec()));
    assert_eq!(take_bytes(&mut h, a), Some(b"early".to_vec()));
    assert_eq!(take_bytes(&mut h, a), Some(b"later".to_vec()));
}

#[test]
fn closing_one_session_leaves_the_others_alone() {
    let mut h = Hub::new();
    let a = h.connect();
    let b = h.connect();
    h.begin_close(a);
    assert_eq!(h.session_state(a), SessionState::Closing);
    h.finish_close(a);
    assert_eq!(h.session_state(a), SessionState::Terminated);
    assert_eq!(h.session_state(b), SessionState::Active);
    h.serial_line(line(b"still here"));
    assert_eq!(take_bytes(&mut h, a), None);
    assert_eq!(take_bytes(&mut h, b), Some(b"still here".to_vec()));
}

#[test]
fn terminated_session_sends_nothing_more() {
    let mut h = Hub::new();
    let a = h.connect();
    h.begin_close(a);
    assert!(!h.client_line(a, line(b"too late")));
    h.finish_close(a);
    assert!(!h.client_line(a, line(b"way too late")));
    assert!(h.pop_serial().is_none());
}

#[test]
fn queued_lines_of_a_closed_session_are_not_retracted() {
    let mut h = Hub::new();
    let a = h.connect();
    assert!(h.client_line(a, line(b"parting words")));
    h.begin_close(a);
    h.finish_close(a);
    let drained = h.pop_serial().map(|l| l.into_bytes());
    assert_eq!(drained, Some(b"parting words".to_vec()));
}

#[test]
fn serial_failure_stops_intake_and_drain() {
    let mut h = Hub::new();
    let a = h.connect();
    assert!(h.client_line(a, line(b"queued before")));
    h.serial_failed();
    assert!(!h.is_up());
    assert!(!h.client_line(a, line(b"after failure")));
    assert_eq!(h.queue_len(), 1);
    assert!(h.pop_serial().is_none());
    assert_eq!(h.queue_len(), 1);
}

#[test]
fn round_trip_through_an_echoing_device() {
    let mut h = Hub::new();
    let a = h.connect();
    let b = h.connect();
    assert!(h.client_line(a, line(b"Hello, port!")));

    let outgoing = h.pop_serial().unwrap();
    let wire = encode_line(&outgoing);
    assert_eq!(wire, b"Hello, port!\n".to_vec());

    let mut device = LineReader::new();
    let echoed = device.push_bytes(wire.as_slice());
    assert_eq!(echoed.len(), 1);
    for l in echoed {
        h.serial_line(l);
    }

    assert_eq!(take_bytes(&mut h, a), Some(b"Hello, port!".to_vec()));
    assert_eq!(take_bytes(&mut h, b), Some(b"Hello, port!".to_vec()));
    assert_eq!(take_bytes(&mut h, a), None);
    assert_eq!(take_bytes(&mut h, b), None);
}

#[test]
fn empty_line_travels_the_full_path() {
    let mut h = Hub::new();
    let a = h.connect();
    assert!(h.client_line(a, Line::empty()));

    let outgoing = h.pop_serial().unwrap();
    assert!(outgoing.is_empty());
    let wire = encode_line(&outgoing);
    assert_eq!(wire, b"\n".to_vec());

    let mut device = LineReader::new();
    let echoed = device.push_bytes(wire.as_slice());
    assert_eq!(echoed.len(), 1);
    for l in echoed {
        h.serial_line(l);
    }
    assert_eq!(take_bytes(&mut h, a), Some(b"".to_vec()));
}

#[test]
fn ids_count_up_from_zero() {
    let mut h = Hub::new();
    assert_eq!(h.session_count(), 0);
    let a = h.connect();
    let b = h.connect();
    assert_eq!(a, 0);
    assert_eq!(b, 1);
    assert_eq!(h.session_count(), 2);
    assert!(h.is_up());
    assert_eq!(h.queue_len(), 0);
}
