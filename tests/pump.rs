use std::collections::VecDeque;

use httpbis::buf_vec_deque::BufVecDeque;
use httpbis::pump::data_written;
use httpbis::pump::pump_step;
use httpbis::pump::reset_stream;
use httpbis::pump::PumpStep;
use httpbis::window::WindowTracker;
use httpbis::window::DEFAULT_MAX_FRAME_SIZE;

fn queue_of(bytes: Vec<u8>) -> BufVecDeque<VecDeque<u8>> {
    let mut q = BufVecDeque::new();
    q.push_back(VecDeque::from(bytes));
    q
}

fn data_len(step: PumpStep<VecDeque<u8>>) -> usize {
    match step {
        PumpStep::Data(c) => c.len(),
        _ => panic!("expected a DATA unit"),
    }
}

#[test]
fn payload_larger_than_window_is_split() {
    let mut q = queue_of((0..25).collect());
    let mut conn = WindowTracker::new(100);
    let mut stream = WindowTracker::new(10);
    let conn_before = conn.available();
    let stream_before = stream.available();
    let sent = data_len(pump_step(&mut q, &mut conn, &mut stream, DEFAULT_MAX_FRAME_SIZE));
    assert_eq!(10, sent);
    assert_eq!(15, q.len());
    assert_eq!(conn_before - sent as i64, conn.available());
    assert_eq!(stream_before - sent as i64, stream.available());
    data_written(&mut conn, &mut stream, sent as u32);
    assert!(matches!(pump_step(&mut q, &mut conn, &mut stream, DEFAULT_MAX_FRAME_SIZE), PumpStep::NotReady));
    assert_eq!(15, q.len());
    stream.grant(20).unwrap();
    let sent = data_len(pump_step(&mut q, &mut conn, &mut stream, DEFAULT_MAX_FRAME_SIZE));
    assert_eq!(15, sent);
    assert_eq!(75, conn.available());
    assert_eq!(5, stream.available());
    data_written(&mut conn, &mut stream, sent as u32);
    assert!(matches!(pump_step(&mut q, &mut conn, &mut stream, DEFAULT_MAX_FRAME_SIZE), PumpStep::Idle));
}

#[test]
fn connection_window_also_limits() {
    let mut q = queue_of((0..25).collect());
    let mut conn = WindowTracker::new(7);
    let mut stream = WindowTracker::new(100);
    assert_eq!(7, data_len(pump_step(&mut q, &mut conn, &mut stream, 16384)));
    assert_eq!(0, conn.available());
    assert_eq!(93, stream.available());
}

#[test]
fn frame_size_limits_unit() {
    let mut q = queue_of((0..25).collect());
    let mut conn = WindowTracker::new(100);
    let mut stream = WindowTracker::new(100);
    let step = pump_step(&mut q, &mut conn, &mut stream, 8);
    match step {
        PumpStep::Data(c) => assert_eq!((0..8).collect::<Vec<u8>>(), c.into_iter().collect::<Vec<u8>>()),
        _ => panic!("expected a DATA unit"),
    }
    assert_eq!(17, q.len());
}

#[test]
fn reset_after_partial_send_leaves_no_deficit() {
    let mut q = queue_of((0..25).collect());
    let mut conn = WindowTracker::new(100);
    let mut stream = WindowTracker::new(10);
    assert_eq!(10, data_len(pump_step(&mut q, &mut conn, &mut stream, 16384)));
    assert_eq!(10, stream.in_flight);
    assert_eq!(-10, stream.sendable());
    reset_stream(&mut q, &mut stream);
    assert_eq!(0, q.len());
    assert_eq!(0, stream.in_flight);
    assert_eq!(0, stream.sendable());
}
