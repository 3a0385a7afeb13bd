use finne::buffers::RequestBuffers;
use finne::connection::{
    ConnectionData, Direction, ReadAction, ReadEvent, WriteAction, WriteEvent, MAX_REQUEST_BYTES,
};
use finne::dispatch::{Error, Operation};
use finne::pool::Pool;

const NOT_FOUND: &[u8] =
    b"HTTP/1.1 404 Not Found\r\nContent-Type: text/html\r\nConnection: keep-alive\r\nContent-Length: 4\r\n\r\n404\n";
const BAD_REQUEST: &[u8] =
    b"HTTP/1.1 400 Bad Request\r\nContent-Type: text/html\r\nConnection: keep-alive\r\nContent-Length: 4\r\n\r\n400\n";
const INDEX: &[u8] =
    b"HTTP/1.1 200 OK\r\nContent-Type: text/html\r\nConnection: keep-alive\r\nContent-Length: 6\r\n\r\nindex\n";
const SEARCH_OK: &[u8] =
    b"HTTP/1.1 200 OK\r\nContent-Type: text/html\r\nConnection: keep-alive\r\nContent-Length: 7\r\n\r\nsearch\n";
const SEARCH_FAILED: &[u8] =
    b"HTTP/1.1 500 Internal Server Error\r\nContent-Type: text/html\r\nConnection: keep-alive\r\nContent-Length: 7\r\n\r\nsearch\n";

fn connection(limit: usize) -> ConnectionData {
    let mut pool = Pool::new(1, RequestBuffers::new);
    ConnectionData::new(2, pool.pull(), false, limit)
}

fn feed(conn: &mut ConnectionData, bytes: &[u8]) -> ReadAction {
    assert_eq!(conn.receive_request(ReadEvent::Data(bytes)), ReadAction::ReadAgain);
    conn.receive_request(ReadEvent::WouldBlock)
}

#[test]
fn new_connection_is_idle_and_its_buffers_are_empty() {
    let mut pool = Pool::new(1, RequestBuffers::new);
    let mut lease = pool.pull();
    lease.deref_mut().append_request(b"stale request");
    lease.deref_mut().create_html_response(b"stale", b"answer");
    let conn = ConnectionData::new(9, lease, true, 100);
    assert_eq!(conn.token(), 9);
    assert_eq!(conn.direction(), Direction::AwaitingRequest);
    assert_eq!(conn.pending(), None);
    assert!(conn.is_management());
    assert_eq!(conn.request(), b"");
    assert_eq!(conn.unsent(), b"");
    let lease = conn.into_buffers();
    assert_eq!(lease.slot(), 0);
}

#[test]
fn unknown_route_is_answered_with_not_found() {
    let mut conn = connection(1024);
    let action = feed(&mut conn, b"GET /unknown HTTP/1.1\r\nHost: x\r\n\r\n");
    assert_eq!(action, ReadAction::Flush);
    assert_eq!(conn.direction(), Direction::AwaitingFlush);
    assert_eq!(conn.unsent(), NOT_FOUND);
    assert!(conn.unsent().ends_with(b"Content-Length: 4\r\n\r\n404\n"));
}

#[test]
fn index_is_answered_at_once() {
    let mut conn = connection(1024);
    assert_eq!(feed(&mut conn, b"GET / HTTP/1.1\r\nHost: x\r\n\r\n"), ReadAction::Flush);
    assert_eq!(conn.unsent(), INDEX);
    assert_eq!(conn.pending(), None);
}

#[test]
fn reads_in_two_parts_give_the_request_of_one_read() {
    let mut split = connection(1024);
    assert_eq!(feed(&mut split, b"GET / HTTP/1.1\r\n"), ReadAction::Wait);
    assert_eq!(split.direction(), Direction::AwaitingRequest);
    assert_eq!(split.request(), b"GET / HTTP/1.1\r\n");
    assert_eq!(feed(&mut split, b"Host: x\r\n\r\n"), ReadAction::Flush);
    let mut whole = connection(1024);
    assert_eq!(feed(&mut whole, b"GET / HTTP/1.1\r\nHost: x\r\n\r\n"), ReadAction::Flush);
    assert_eq!(split.request(), whole.request());
    assert_eq!(split.unsent(), whole.unsent());
    assert_eq!(split.unsent(), INDEX);
}

#[test]
fn store_routes_ask_for_a_call_and_wait_for_its_result() {
    let cases: Vec<(&[u8], Operation)> = vec![
        (b"POST /create HTTP/1.1\r\nHost: x\r\n\r\n{}", Operation::Create),
        (b"POST /c HTTP/1.1\r\nHost: x\r\n\r\n{}", Operation::Create),
        (b"PUT /update HTTP/1.1\r\nHost: x\r\n\r\n", Operation::Update),
        (b"DELETE /d HTTP/1.1\r\nHost: x\r\n\r\n", Operation::Delete),
        (b"GET /s?q=dog HTTP/1.1\r\nHost: x\r\n\r\n", Operation::Search),
    ];
    for (input, operation) in cases {
        let mut conn = connection(1024);
        assert_eq!(feed(&mut conn, input), ReadAction::Invoke(operation));
        assert_eq!(conn.pending(), Some(operation));
        assert_eq!(conn.direction(), Direction::AwaitingRequest);
        assert_eq!(conn.unsent(), b"");
        assert_eq!(conn.receive_request(ReadEvent::Data(b"more")), ReadAction::Invoke(operation));
        assert_eq!(conn.request(), input);
        assert!(conn.complete(Ok(true)));
        assert_eq!(conn.pending(), None);
        assert_eq!(conn.direction(), Direction::AwaitingFlush);
        assert_eq!(conn.unsent(), SEARCH_OK);
    }
}

#[test]
fn handler_failure_is_a_server_error_and_keeps_the_connection() {
    let mut conn = connection(1024);
    let action = feed(&mut conn, b"POST /create HTTP/1.1\r\nHost: x\r\n\r\nnot json");
    assert_eq!(action, ReadAction::Invoke(Operation::Create));
    assert!(conn.complete(Err(Error::InvalidRequest)));
    assert_eq!(conn.direction(), Direction::AwaitingFlush);
    assert_eq!(conn.unsent(), SEARCH_FAILED);
}

#[test]
fn complete_without_a_pending_call_changes_nothing() {
    let mut conn = connection(1024);
    assert!(!conn.complete(Ok(true)));
    assert_eq!(conn.direction(), Direction::AwaitingRequest);
    assert_eq!(conn.unsent(), b"");
    assert_eq!(feed(&mut conn, b"GET / HTTP/1.1\r\nHost: x\r\n\r\n"), ReadAction::Flush);
    assert!(!conn.complete(Err(Error::_Data)));
    assert_eq!(conn.unsent(), INDEX);
}

#[test]
fn malformed_request_is_answered_with_a_client_error() {
    let mut conn = connection(1024);
    assert_eq!(feed(&mut conn, b"FETCH / HTTP/1.1\r\nHost: x\r\n\r\n"), ReadAction::Flush);
    assert_eq!(conn.direction(), Direction::AwaitingFlush);
    assert_eq!(conn.unsent(), BAD_REQUEST);
}

#[test]
fn request_without_end_is_rejected_at_the_limit() {
    let mut conn = connection(32);
    assert_eq!(feed(&mut conn, b"GET / HTTP/1.1\r\n"), ReadAction::Wait);
    assert_eq!(feed(&mut conn, b"Host: 0123456"), ReadAction::Wait);
    assert_eq!(conn.request().len(), 29);
    assert_eq!(feed(&mut conn, b"789"), ReadAction::Flush);
    assert_eq!(conn.request().len(), 32);
    assert_eq!(conn.unsent(), BAD_REQUEST);
}

#[test]
fn bytes_over_the_limit_are_rejected_at_once() {
    let mut conn = connection(32);
    assert_eq!(feed(&mut conn, b"GET / HTTP/1.1\r\n"), ReadAction::Wait);
    let action = conn.receive_request(ReadEvent::Data(b"Host: 0123456789abcdef"));
    assert_eq!(action, ReadAction::Flush);
    assert_eq!(conn.request(), b"GET / HTTP/1.1\r\n");
    assert_eq!(conn.unsent(), BAD_REQUEST);
}

#[test]
fn complete_request_of_exactly_the_limit_is_served() {
    let input = b"GET / HTTP/1.1\r\nHost: x\r\n\r\n";
    let mut conn = connection(input.len());
    assert_eq!(feed(&mut conn, input), ReadAction::Flush);
    assert_eq!(conn.unsent(), INDEX);
}

#[test]
fn limit_of_zero_rejects_on_the_first_drain() {
    let mut conn = connection(0);
    assert_eq!(conn.receive_request(ReadEvent::WouldBlock), ReadAction::Flush);
    assert_eq!(conn.unsent(), BAD_REQUEST);
}

#[test]
fn limit_is_cut_down_to_the_maximum() {
    let mut conn = connection(usize::MAX);
    assert_eq!(MAX_REQUEST_BYTES, 0x4000_0000);
    assert_eq!(feed(&mut conn, b"GET / HTTP/1.1\r\n"), ReadAction::Wait);
}

#[test]
fn end_of_stream_and_errors_close_the_connection() {
    let mut conn = connection(1024);
    assert_eq!(conn.receive_request(ReadEvent::Closed), ReadAction::Close);
    assert_eq!(conn.receive_request(ReadEvent::Failed), ReadAction::Close);
    assert_eq!(feed(&mut conn, b"GET /"), ReadAction::Wait);
    assert_eq!(conn.receive_request(ReadEvent::Closed), ReadAction::Close);
    assert_eq!(conn.request(), b"GET /");
}

#[test]
fn no_bytes_are_taken_while_an_answer_is_owed() {
    let mut conn = connection(1024);
    assert_eq!(feed(&mut conn, b"GET / HTTP/1.1\r\nHost: x\r\n\r\n"), ReadAction::Flush);
    assert_eq!(conn.receive_request(ReadEvent::Data(b"GET /next")), ReadAction::Flush);
    assert_eq!(conn.receive_request(ReadEvent::WouldBlock), ReadAction::Flush);
    assert_eq!(conn.request(), b"GET / HTTP/1.1\r\nHost: x\r\n\r\n");
    assert_eq!(conn.unsent(), INDEX);
}

#[test]
fn end_of_stream_closes_whatever_the_connection_waits_for() {
    let mut answering = connection(1024);
    assert_eq!(feed(&mut answering, b"GET / HTTP/1.1\r\nHost: x\r\n\r\n"), ReadAction::Flush);
    assert_eq!(answering.receive_request(ReadEvent::Closed), ReadAction::Close);
    assert_eq!(answering.receive_request(ReadEvent::Failed), ReadAction::Close);
    let mut pending = connection(1024);
    let action = feed(&mut pending, b"GET /s HTTP/1.1\r\nHost: x\r\n\r\n");
    assert_eq!(action, ReadAction::Invoke(Operation::Search));
    assert_eq!(pending.receive_request(ReadEvent::Closed), ReadAction::Close);
    assert_eq!(pending.receive_request(ReadEvent::Failed), ReadAction::Close);
}

#[test]
fn answer_is_written_in_parts_and_then_both_buffers_are_empty() {
    let mut conn = connection(1024);
    assert_eq!(feed(&mut conn, b"GET / HTTP/1.1\r\nHost: x\r\n\r\n"), ReadAction::Flush);
    assert_eq!(conn.write_response(WriteEvent::WouldBlock), WriteAction::Wait);
    assert_eq!(conn.write_response(WriteEvent::Wrote(0)), WriteAction::Wait);
    assert_eq!(conn.unsent(), INDEX);
    assert_eq!(conn.write_response(WriteEvent::Wrote(10)), WriteAction::WriteAgain);
    assert_eq!(conn.unsent(), &INDEX[10..]);
    assert_eq!(conn.direction(), Direction::AwaitingFlush);
    assert_eq!(conn.write_response(WriteEvent::Wrote(INDEX.len() - 11)), WriteAction::WriteAgain);
    assert_eq!(conn.unsent(), &INDEX[INDEX.len() - 1..]);
    assert_eq!(conn.write_response(WriteEvent::Wrote(1)), WriteAction::Done);
    assert_eq!(conn.direction(), Direction::AwaitingRequest);
    assert_eq!(conn.request(), b"");
    assert_eq!(conn.unsent(), b"");
    assert_eq!(feed(&mut conn, b"GET /nowhere HTTP/1.1\r\nHost: x\r\n\r\n"), ReadAction::Flush);
    assert_eq!(conn.unsent(), NOT_FOUND);
    assert_eq!(conn.write_response(WriteEvent::Wrote(NOT_FOUND.len())), WriteAction::Done);
    assert_eq!(conn.unsent(), b"");
}

#[test]
fn write_error_closes_and_write_without_answer_is_done() {
    let mut conn = connection(1024);
    assert_eq!(conn.write_response(WriteEvent::Wrote(5)), WriteAction::Done);
    assert_eq!(conn.write_response(WriteEvent::WouldBlock), WriteAction::Done);
    assert_eq!(conn.write_response(WriteEvent::Failed), WriteAction::Close);
    assert_eq!(conn.direction(), Direction::AwaitingRequest);
    assert_eq!(feed(&mut conn, b"GET / HTTP/1.1\r\nHost: x\r\n\r\n"), ReadAction::Flush);
    assert_eq!(conn.write_response(WriteEvent::Failed), WriteAction::Close);
    assert_eq!(conn.unsent(), INDEX);
}

#[test]
fn bytes_that_break_the_grammar_are_rejected_before_the_blank_line() {
    let mut conn = connection(1024);
    assert_eq!(feed(&mut conn, b"FETCH / HT"), ReadAction::Flush);
    assert_eq!(conn.unsent(), BAD_REQUEST);
}

#[test]
fn pending_body_is_the_body_of_the_request_that_waits() {
    let mut conn = connection(1024);
    assert_eq!(conn.pending_body(), None);
    let action = feed(&mut conn, b"PUT /u HTTP/1.1\r\nHost: x\r\n\r\n  doc 1");
    assert_eq!(action, ReadAction::Invoke(Operation::Update));
    assert_eq!(conn.pending_body(), Some(&b"  doc 1"[..]));
    assert!(conn.complete(Ok(true)));
    assert_eq!(conn.pending_body(), None);
    let mut answered = connection(1024);
    assert_eq!(feed(&mut answered, b"GET / HTTP/1.1\r\nHost: x\r\n\r\nbody"), ReadAction::Flush);
    assert_eq!(answered.pending_body(), None);
}
