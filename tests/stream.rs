use std::collections::VecDeque;

use httpbis::buf_vec_deque::BufVecDeque;
use httpbis::client_types::ClientTypes;
use httpbis::client_types::RequestOrResponse;
use httpbis::pump::PumpStep;
use httpbis::stream::ClientOrServer;
use httpbis::stream::StreamEnd;
use httpbis::stream::StreamError;
use httpbis::stream::StreamTable;
use httpbis::window::WindowTracker;

fn client_table() -> StreamTable {
    StreamTable::new(ClientTypes::client_or_server(), 100, 65535, 65535)
}

#[test]
fn client_types_open_requests_on_odd_streams() {
    assert_eq!(ClientOrServer::Client, ClientTypes::client_or_server());
    assert_eq!(RequestOrResponse::Request, ClientTypes::out_request_or_response());
    let mut t = client_table();
    assert_eq!(Ok(1), t.open_stream(true));
    assert_eq!(Ok(3), t.open_stream(false));
    let mut s = StreamTable::new(ClientOrServer::Server, 100, 65535, 65535);
    assert_eq!(Ok(2), s.open_stream(false));
    assert_eq!(Ok(4), s.open_stream(false));
}

#[test]
fn informational_headers_then_final_response() {
    let mut t = client_table();
    let id = t.open_stream(true).unwrap();
    assert_eq!(Ok(None), t.on_headers(id, true, false));
    assert_eq!(Ok(None), t.on_headers(id, true, false));
    assert_eq!(1, t.len());
    assert_eq!(Ok(None), t.on_headers(id, false, false));
    assert_eq!(Ok(Some(StreamEnd::Completed)), t.on_data(id, 5, true));
    assert_eq!(0, t.len());
}

#[test]
fn rst_stream_fails_with_code() {
    let mut t = client_table();
    let id = t.open_stream(true).unwrap();
    assert_eq!(Ok(None), t.on_headers(id, false, false));
    assert_eq!(Some(StreamEnd::ResetByPeer(8)), t.on_rst_stream(id, 8));
    assert_eq!(0, t.len());
    assert_eq!(None, t.on_rst_stream(id, 8));
    assert_eq!(Err(StreamError::InvalidStateTransition), t.on_data(id, 1, false));
}

#[test]
fn concurrency_limit_refuses_new_stream() {
    let mut t = StreamTable::new(ClientOrServer::Client, 2, 65535, 65535);
    assert_eq!(Ok(1), t.open_stream(false));
    assert_eq!(Ok(3), t.open_stream(false));
    assert_eq!(Err(StreamError::ConcurrencyLimitExceeded), t.open_stream(false));
    assert_eq!(Some(StreamEnd::ResetBySelf(0)), t.reset_stream(1, 0));
    assert_eq!(Ok(5), t.open_stream(false));
}

#[test]
fn half_close_both_sides_completes() {
    let mut t = client_table();
    let id = t.open_stream(false).unwrap();
    assert_eq!(Ok(None), t.on_data(id, 10, true));
    assert_eq!(Err(StreamError::InvalidStateTransition), t.on_data(id, 1, false));
    assert_eq!(Ok(Some(StreamEnd::Completed)), t.close_local(id));
    assert_eq!(0, t.len());
}

#[test]
fn data_beyond_inbound_window_is_refused() {
    let mut t = StreamTable::new(ClientOrServer::Client, 10, 65535, 10);
    let id = t.open_stream(false).unwrap();
    assert_eq!(Err(StreamError::FlowControlOverflow), t.on_data(id, 11, false));
    assert_eq!(Ok(None), t.on_data(id, 10, false));
    assert_eq!(Err(StreamError::FlowControlOverflow), t.on_data(id, 1, false));
}

#[test]
fn window_update_overflow_is_refused() {
    let mut t = client_table();
    let id = t.open_stream(false).unwrap();
    assert_eq!(Ok(true), t.on_window_update(id, 100));
    assert_eq!(Err(StreamError::FlowControlOverflow), t.on_window_update(id, 2147483647));
    assert_eq!(Ok(false), t.on_window_update(99, 1));
}

#[test]
fn disconnect_fails_every_stream_and_starts_over() {
    let mut t = client_table();
    let a = t.open_stream(true).unwrap();
    let b = t.open_stream(false).unwrap();
    assert_eq!(vec![a, b], t.on_disconnect());
    assert_eq!(0, t.len());
    assert_eq!(Ok(1), t.open_stream(true));
    assert_eq!(1, t.len());
    assert_eq!(vec![1], t.on_disconnect());
    assert_eq!(0, t.len());
}

#[test]
fn pump_stream_uses_stream_window() {
    let mut t = StreamTable::new(ClientOrServer::Client, 10, 4, 65535);
    let id = t.open_stream(false).unwrap();
    let mut q = BufVecDeque::new();
    q.push_back(VecDeque::from(vec![1u8, 2, 3, 4, 5, 6]));
    let mut conn = WindowTracker::new(65535);
    match t.pump_stream(id, &mut q, &mut conn, 16384) {
        Some(PumpStep::Data(c)) => assert_eq!(4, c.len()),
        _ => panic!("expected a DATA unit"),
    }
    assert!(matches!(t.pump_stream(id, &mut q, &mut conn, 16384), Some(PumpStep::NotReady)));
    assert_eq!(Ok(true), t.on_window_update(id, 10));
    match t.pump_stream(id, &mut q, &mut conn, 16384) {
        Some(PumpStep::Data(c)) => assert_eq!(2, c.len()),
        _ => panic!("expected a DATA unit"),
    }
    assert!(t.pump_stream(7, &mut q, &mut conn, 16384).is_none());
}

#[test]
fn initial_window_change_moves_live_streams() {
    let mut t = StreamTable::new(ClientOrServer::Client, 10, 100, 65535);
    let a = t.open_stream(false).unwrap();
    let mut q = BufVecDeque::new();
    q.push_back(VecDeque::from(vec![0u8; 60]));
    let mut conn = WindowTracker::new(65535);
    match t.pump_stream(a, &mut q, &mut conn, 16384) {
        Some(PumpStep::Data(c)) => assert_eq!(60, c.len()),
        _ => panic!("expected a DATA unit"),
    }
    assert_eq!(Ok(()), t.set_initial_out_window(20));
    let b = t.open_stream(false).unwrap();
    q.push_back(VecDeque::from(vec![0u8; 30]));
    assert!(matches!(t.pump_stream(a, &mut q, &mut conn, 16384), Some(PumpStep::NotReady)));
    match t.pump_stream(b, &mut q, &mut conn, 16384) {
        Some(PumpStep::Data(c)) => assert_eq!(20, c.len()),
        _ => panic!("expected a DATA unit"),
    }
}

#[test]
fn initial_window_change_past_maximum_fails() {
    let mut t = StreamTable::new(ClientOrServer::Client, 10, 100, 65535);
    let a = t.open_stream(false).unwrap();
    assert_eq!(Ok(true), t.on_window_update(a, 2147483647 - 100));
    assert_eq!(Err(StreamError::FlowControlOverflow), t.set_initial_out_window(101));
    assert_eq!(Err(StreamError::FlowControlOverflow), t.set_initial_out_window(2147483648));
    assert_eq!(Ok(()), t.set_initial_out_window(100));
}

#[test]
fn lowered_concurrency_limit_applies_to_new_streams() {
    let mut t = client_table();
    assert_eq!(Ok(1), t.open_stream(false));
    assert_eq!(Ok(3), t.open_stream(false));
    t.set_max_concurrent(1);
    assert_eq!(2, t.len());
    assert_eq!(Err(StreamError::ConcurrencyLimitExceeded), t.open_stream(false));
    t.set_max_concurrent(3);
    assert_eq!(Ok(5), t.open_stream(false));
}
