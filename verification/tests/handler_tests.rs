use load_balancer::handler::{
    dispatch, reply_to_client, request_payload, Dispatch, ForwardOutcome, MAX_REQUEST_BYTES,
};
use load_balancer::pool::{Backend, LoadBalancer};

const NO_BACKEND_REPLY: &[u8] =
    b"HTTP/1.1 503 Service Unavailable\r\n\r\nNo backend servers available";
const UNREACHABLE_REPLY: &[u8] = b"HTTP/1.1 502 Bad Gateway\r\n\r\nBackend server unavailable";

#[test]
fn no_backend_gets_fixed_reply_and_no_forward() {
    match dispatch(None) {
        Dispatch::ReplyNow(reply) => assert_eq!(reply, NO_BACKEND_REPLY.to_vec()),
        Dispatch::Forward(_) => panic!("an empty selection must never be forwarded"),
    }
}

#[test]
fn empty_pool_selection_gets_fixed_reply() {
    let mut lb = LoadBalancer::new(Vec::new());
    match dispatch(lb.next_backend()) {
        Dispatch::ReplyNow(reply) => assert_eq!(reply, NO_BACKEND_REPLY.to_vec()),
        Dispatch::Forward(_) => panic!("an empty pool must never be forwarded to"),
    }
}

#[test]
fn chosen_backend_is_forwarded_to() {
    let backend = Backend { address: "127.0.0.1:9999".to_string() };
    match dispatch(Some(backend)) {
        Dispatch::Forward(f) => assert_eq!(f.address, "127.0.0.1:9999"),
        Dispatch::ReplyNow(_) => panic!("a chosen backend must be forwarded to"),
    }
}

#[test]
fn unreachable_backend_gets_fixed_reply() {
    let reply = reply_to_client(ForwardOutcome::ConnectFailed);
    assert_eq!(reply, UNREACHABLE_REPLY.to_vec());
}

#[test]
fn backend_response_is_relayed_verbatim() {
    let reply = reply_to_client(ForwardOutcome::Responded(b"PONG".to_vec()));
    assert_eq!(reply, b"PONG".to_vec());
}

#[test]
fn empty_backend_response_is_relayed_verbatim() {
    let reply = reply_to_client(ForwardOutcome::Responded(Vec::new()));
    assert_eq!(reply, Vec::<u8>::new());
}

#[test]
fn request_at_truncation_boundary() {
    // 4096 bytes followed by 10 more in the same read window: only the
    // first 4096 are forwarded.
    let mut window = vec![7u8; MAX_REQUEST_BYTES];
    window.extend_from_slice(&[9u8; 10]);
    let payload = request_payload(&window);
    assert_eq!(payload.len(), MAX_REQUEST_BYTES);
    assert_eq!(payload, vec![7u8; MAX_REQUEST_BYTES]);
}

#[test]
fn request_within_cap_is_kept_whole() {
    let window = b"PING".to_vec();
    assert_eq!(request_payload(&window), b"PING".to_vec());
}

#[test]
fn empty_request_is_kept_empty() {
    assert_eq!(request_payload(&[]), Vec::<u8>::new());
}
