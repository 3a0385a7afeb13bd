use finne::buffers::RequestBuffers;
use finne::connection::{ReadAction, ReadEvent, WriteAction, WriteEvent};
use finne::dispatch::{Error, Operation};
use finne::server::{classify, AcceptError, Event, Server};

const INDEX: &[u8] =
    b"HTTP/1.1 200 OK\r\nContent-Type: text/html\r\nConnection: keep-alive\r\nContent-Length: 6\r\n\r\nindex\n";
const NOT_FOUND: &[u8] =
    b"HTTP/1.1 404 Not Found\r\nContent-Type: text/html\r\nConnection: keep-alive\r\nContent-Length: 4\r\n\r\n404\n";
const SEARCH_OK: &[u8] =
    b"HTTP/1.1 200 OK\r\nContent-Type: text/html\r\nConnection: keep-alive\r\nContent-Length: 7\r\n\r\nsearch\n";

fn accept<F: Fn() -> RequestBuffers>(server: &mut Server<F>) -> usize {
    server.accept(false).unwrap().token
}

#[test]
fn events_are_sorted_by_token() {
    assert_eq!(classify(0, true, false), Event::Accept { is_management: false });
    assert_eq!(classify(0, false, true), Event::Accept { is_management: false });
    assert_eq!(classify(1, true, true), Event::Accept { is_management: true });
    assert_eq!(classify(2, true, false), Event::Read { token: 2 });
    assert_eq!(classify(2, true, true), Event::Read { token: 2 });
    assert_eq!(classify(7, false, true), Event::Write { token: 7 });
    assert_eq!(classify(7, false, false), Event::Spurious);
}

#[test]
fn live_connections_have_distinct_tokens_above_the_listeners() {
    let mut server = Server::new(2, 100, 1024, RequestBuffers::new);
    let mut tokens = Vec::new();
    for _ in 0..5 {
        tokens.push(accept(&mut server));
    }
    assert_eq!(tokens, vec![2, 3, 4, 5, 6]);
    assert!(server.close(4));
    assert!(server.close(2));
    assert!(!server.close(4));
    let again = accept(&mut server);
    let and_again = accept(&mut server);
    let fresh = accept(&mut server);
    assert_eq!((again, and_again, fresh), (2, 4, 7));
    let mut live = vec![3, 5, 6, again, and_again, fresh];
    live.sort();
    live.dedup();
    assert_eq!(live.len(), 6);
    assert!(live.iter().all(|t| *t >= 2));
}

#[test]
fn pool_miss_is_reported_and_buffers_are_used_again() {
    let mut server = Server::new(1, 100, 1024, RequestBuffers::new);
    assert_eq!(server.pool_size(), 1);
    let first = server.accept(false).unwrap();
    assert!(!first.pool_miss);
    let second = server.accept(true).unwrap();
    assert!(second.pool_miss);
    assert_eq!(server.pool_size(), 2);
    assert!(server.close(first.token));
    let third = server.accept(false).unwrap();
    assert!(!third.pool_miss);
    assert_eq!(server.pool_size(), 2);
}

#[test]
fn accept_is_refused_at_the_bound_and_taken_up_after_a_close() {
    let mut server = Server::new(0, 2, 1024, RequestBuffers::new);
    let a = accept(&mut server);
    let _b = accept(&mut server);
    let refused = server.accept(false);
    assert_eq!(refused.err(), Some(AcceptError::Backpressure));
    assert_eq!(server.pool_size(), 2);
    assert!(server.close(a));
    assert_eq!(accept(&mut server), a);
    assert_eq!(server.accept(false).err(), Some(AcceptError::Backpressure));
    let mut none = Server::new(4, 0, 1024, RequestBuffers::new);
    assert_eq!(none.accept(false).err(), Some(AcceptError::Backpressure));
}

#[test]
fn request_is_read_answered_and_flushed() {
    let mut server = Server::new(1, 10, 1024, RequestBuffers::new);
    let token = accept(&mut server);
    let event = ReadEvent::Data(b"GET / HTTP/1.1\r\n");
    assert_eq!(server.receive_request(token, event), ReadAction::ReadAgain);
    assert_eq!(server.receive_request(token, ReadEvent::WouldBlock), ReadAction::Wait);
    let event = ReadEvent::Data(b"Host: x\r\n\r\n");
    assert_eq!(server.receive_request(token, event), ReadAction::ReadAgain);
    assert_eq!(server.receive_request(token, ReadEvent::WouldBlock), ReadAction::Flush);
    assert_eq!(server.request(token), Some(&b"GET / HTTP/1.1\r\nHost: x\r\n\r\n"[..]));
    assert_eq!(server.unsent(token), Some(INDEX));
    assert_eq!(server.write_response(token, WriteEvent::Wrote(20)), WriteAction::WriteAgain);
    assert_eq!(server.unsent(token), Some(&INDEX[20..]));
    assert_eq!(server.write_response(token, WriteEvent::WouldBlock), WriteAction::Wait);
    let rest = INDEX.len() - 20;
    assert_eq!(server.write_response(token, WriteEvent::Wrote(rest)), WriteAction::Done);
    assert_eq!(server.request(token), Some(&b""[..]));
    assert_eq!(server.unsent(token), Some(&b""[..]));
    let event = ReadEvent::Data(b"GET /unknown HTTP/1.1\r\nHost: x\r\n\r\n");
    assert_eq!(server.receive_request(token, event), ReadAction::ReadAgain);
    assert_eq!(server.receive_request(token, ReadEvent::WouldBlock), ReadAction::Flush);
    assert_eq!(server.unsent(token), Some(NOT_FOUND));
}

#[test]
fn store_call_is_asked_for_and_completed() {
    let mut server = Server::new(1, 10, 1024, RequestBuffers::new);
    let token = accept(&mut server);
    let event = ReadEvent::Data(b"GET /search?q=dog HTTP/1.1\r\nHost: x\r\n\r\n");
    assert_eq!(server.receive_request(token, event), ReadAction::ReadAgain);
    let action = server.receive_request(token, ReadEvent::WouldBlock);
    assert_eq!(action, ReadAction::Invoke(Operation::Search));
    assert_eq!(server.unsent(token), Some(&b""[..]));
    assert_eq!(server.pending_body(token), Some(&b""[..]));
    assert!(server.complete(token, Ok(true)));
    assert_eq!(server.pending_body(token), None);
    assert_eq!(server.unsent(token), Some(SEARCH_OK));
    assert!(!server.complete(token, Err(Error::_Data)));
    assert!(!server.complete(99, Ok(true)));
    assert!(!server.complete(0, Ok(true)));
}

#[test]
fn connections_do_not_share_bytes() {
    let mut server = Server::new(2, 10, 1024, RequestBuffers::new);
    let a = accept(&mut server);
    let b = accept(&mut server);
    assert_eq!(server.receive_request(a, ReadEvent::Data(b"GET /a")), ReadAction::ReadAgain);
    assert_eq!(server.receive_request(b, ReadEvent::Data(b"GET /b")), ReadAction::ReadAgain);
    assert_eq!(server.request(a), Some(&b"GET /a"[..]));
    assert_eq!(server.request(b), Some(&b"GET /b"[..]));
    assert!(server.close(a));
    let c = accept(&mut server);
    assert_eq!(c, a);
    assert_eq!(server.request(c), Some(&b""[..]));
    assert_eq!(server.unsent(c), Some(&b""[..]));
    assert_eq!(server.request(b), Some(&b"GET /b"[..]));
}

#[test]
fn end_of_stream_removes_the_connection_and_frees_its_buffers() {
    let mut server = Server::new(1, 10, 1024, RequestBuffers::new);
    let token = accept(&mut server);
    assert_eq!(server.receive_request(token, ReadEvent::Data(b"GET")), ReadAction::ReadAgain);
    assert_eq!(server.receive_request(token, ReadEvent::Closed), ReadAction::Close);
    assert_eq!(server.request(token), None);
    assert_eq!(server.unsent(token), None);
    assert_eq!(server.receive_request(token, ReadEvent::WouldBlock), ReadAction::Close);
    assert_eq!(server.write_response(token, WriteEvent::Wrote(1)), WriteAction::Close);
    let next = server.accept(false).unwrap();
    assert_eq!(next.token, token);
    assert!(!next.pool_miss);
    assert_eq!(server.pool_size(), 1);
}

#[test]
fn read_and_write_errors_remove_the_connection() {
    let mut server = Server::new(1, 10, 1024, RequestBuffers::new);
    let token = accept(&mut server);
    assert_eq!(server.receive_request(token, ReadEvent::Failed), ReadAction::Close);
    assert_eq!(server.request(token), None);
    let token = accept(&mut server);
    let event = ReadEvent::Data(b"GET / HTTP/1.1\r\nHost: x\r\n\r\n");
    assert_eq!(server.receive_request(token, event), ReadAction::ReadAgain);
    assert_eq!(server.receive_request(token, ReadEvent::WouldBlock), ReadAction::Flush);
    assert_eq!(server.write_response(token, WriteEvent::Failed), WriteAction::Close);
    assert_eq!(server.unsent(token), None);
    assert!(!server.close(token));
}

#[test]
fn listener_tokens_are_no_connections() {
    let mut server = Server::new(1, 10, 1024, RequestBuffers::new);
    let _token = accept(&mut server);
    assert_eq!(server.receive_request(0, ReadEvent::WouldBlock), ReadAction::Close);
    assert_eq!(server.receive_request(1, ReadEvent::Data(b"x")), ReadAction::Close);
    assert_eq!(server.write_response(0, WriteEvent::Wrote(1)), WriteAction::Close);
    assert_eq!(server.request(0), None);
    assert_eq!(server.unsent(1), None);
    assert!(!server.close(0));
    assert!(!server.close(1));
    assert_eq!(server.request(2), Some(&b""[..]));
}

#[test]
fn stale_buffers_from_the_init_function_are_emptied() {
    let dirty = || {
        let mut buffers = RequestBuffers::new();
        buffers.append_request(b"left over");
        buffers.create_html_response(b"left", b"over");
        buffers
    };
    let mut server = Server::new(1, 10, 1024, dirty);
    let token = server.accept(true).unwrap().token;
    assert_eq!(server.request(token), Some(&b""[..]));
    assert_eq!(server.unsent(token), Some(&b""[..]));
}

#[test]
fn request_without_end_does_not_wait_for_ever() {
    let mut server = Server::new(1, 10, 16, RequestBuffers::new);
    let token = accept(&mut server);
    let event = ReadEvent::Data(b"GET / HTTP/1.1");
    assert_eq!(server.receive_request(token, event), ReadAction::ReadAgain);
    assert_eq!(server.receive_request(token, ReadEvent::WouldBlock), ReadAction::Wait);
    assert_eq!(server.receive_request(token, ReadEvent::Data(b"\r\n")), ReadAction::ReadAgain);
    assert_eq!(server.receive_request(token, ReadEvent::WouldBlock), ReadAction::Flush);
    assert!(server.unsent(token).unwrap().starts_with(b"HTTP/1.1 400 Bad Request\r\n"));
}

#[test]
fn body_of_the_pending_request_is_handed_out() {
    let mut server = Server::new(1, 10, 1024, RequestBuffers::new);
    let token = accept(&mut server);
    assert_eq!(server.pending_body(token), None);
    let event = ReadEvent::Data(b"POST /create HTTP/1.1\r\nHost: x\r\n\r\n{\"name\": \"docs\"}");
    assert_eq!(server.receive_request(token, event), ReadAction::ReadAgain);
    assert_eq!(server.pending_body(token), None);
    let action = server.receive_request(token, ReadEvent::WouldBlock);
    assert_eq!(action, ReadAction::Invoke(Operation::Create));
    assert_eq!(server.pending_body(token), Some(&b"{\"name\": \"docs\"}"[..]));
    assert_eq!(server.pending_body(0), None);
    assert_eq!(server.pending_body(99), None);
    assert!(server.complete(token, Err(Error::InvalidRequest)));
    assert_eq!(server.pending_body(token), None);
}

#[test]
fn first_accept_gets_the_first_token() {
    let mut server = Server::new(0, 1, 16, RequestBuffers::new);
    assert!(server.has_room());
    assert_eq!(server.accept(false).unwrap().token, 2);
    assert!(!server.has_room());
}
