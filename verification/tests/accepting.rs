use proxy_protocol::accept::{
    accept_polled, header_polled, AcceptAction, AcceptEvent, AcceptState, HeaderAction, HeaderEvent,
};
use proxy_protocol::address::ClientAddress;
use proxy_protocol::ProxyProtocolAcceptor;
use std::time::Duration;

const CLIENT: ClientAddress = ClientAddress::V4 { octets: [1, 2, 3, 4], port: 5 };

type Header = HeaderEvent<&'static str, &'static str, &'static str>;
type Accept = AcceptEvent<&'static str, &'static str, &'static str>;

fn waiting(state: AcceptState<u8>) -> u8 {
    match state {
        AcceptState::ReadHeader { service } => service,
        AcceptState::ForwardIp { .. } => panic!("the header has been read"),
    }
}

#[test]
fn client_address_is_handed_on() {
    let mut service = waiting(AcceptState::new(9u8));
    for _ in 0..3 {
        let (state, action) = header_polled(service, Header::Pending);
        assert!(matches!(action, HeaderAction::Wait));
        service = waiting(state);
    }
    let event = Header::Read { stream: "stream", client_address: Some(CLIENT) };
    let (state, action) = header_polled(service, event);
    assert!(matches!(action, HeaderAction::Accept { stream: "stream", service: 9 }));
    let client_address = match state {
        AcceptState::ForwardIp { client_address } => client_address,
        AcceptState::ReadHeader { .. } => panic!("the header has been read"),
    };
    assert!(matches!(accept_polled(client_address, Accept::Pending), AcceptAction::Wait));
    let event = Accept::Accepted { stream: "inner stream", service: "inner service" };
    match accept_polled(client_address, event) {
        AcceptAction::Complete { stream, service } => {
            assert_eq!(stream, "inner stream");
            assert_eq!(service.inner, "inner service");
            assert_eq!(service.client_address, Some(CLIENT));
        }
        _ => panic!("not accepted"),
    }
}

#[test]
fn failures_are_passed_on() {
    let (state, action) = header_polled(9u8, Header::Failed("no header"));
    assert!(matches!(action, HeaderAction::Fail("no header")));
    assert_eq!(waiting(state), 9);
    let (state, action) = header_polled(9u8, Header::TimedOut("too late"));
    assert!(matches!(action, HeaderAction::TimeOut("too late")));
    assert_eq!(waiting(state), 9);
    assert!(matches!(
        accept_polled(None, Accept::Failed("no handshake")),
        AcceptAction::Fail("no handshake")
    ));
}

#[test]
fn default_timeout_is_ten_seconds() {
    let acceptor = ProxyProtocolAcceptor::new("inner");
    assert_eq!(acceptor.inner, "inner");
    assert_eq!(acceptor.parsing_timeout, Duration::from_secs(10));
}

#[test]
fn timeout_can_be_overridden() {
    let acceptor = ProxyProtocolAcceptor::new("inner").parsing_timeout(Duration::from_millis(1500));
    assert_eq!(acceptor.inner, "inner");
    assert_eq!(acceptor.parsing_timeout, Duration::from_millis(1500));
}

#[test]
fn inner_acceptor_can_be_overwritten() {
    let acceptor = ProxyProtocolAcceptor::new("inner")
        .parsing_timeout(Duration::from_secs(3))
        .acceptor(42u8);
    assert_eq!(acceptor.inner, 42);
    assert_eq!(acceptor.parsing_timeout, Duration::from_secs(3));
    let copy = acceptor.clone();
    assert_eq!(copy.inner, 42);
    assert_eq!(copy.parsing_timeout, Duration::from_secs(3));
}
