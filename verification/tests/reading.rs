use ppp::v2::{Addresses, Builder, Command, IPv4, IPv6, Protocol, Type, Unix, Version};
use proxy_protocol::address::ClientAddress;
use proxy_protocol::header::{
    client_address, inspect_fixed_part, inspect_header, ParsedHeader, Refusal,
};
use proxy_protocol::reader::{ErrorKind, HeaderError, HeaderReader, ReadEvent, ReadStep};

const SIGNATURE: [u8; 12] = *b"\r\n\r\n\0\r\nQUIT\n";

#[derive(Debug, Clone, Copy, PartialEq, Eq)]
struct Eof;

type Outcome<'a> = Result<(&'a [u8], Option<ClientAddress>), (ErrorKind<Eof>, String)>;

/// Reads a header from octets that are followed by the end of the stream.
fn read_proxy_header(stream: &[u8]) -> Outcome<'_> {
    let mut rest = stream;
    let mut reader = HeaderReader::new();
    loop {
        let wanted = reader.wanted();
        let event: ReadEvent<Eof> = if rest.len() < wanted {
            ReadEvent::Failed {
                kind: Eof,
                cause: "early eof".to_string(),
            }
        } else {
            let (octets, others) = rest.split_at(wanted);
            rest = others;
            ReadEvent::Filled(octets.to_vec())
        };
        match reader.step(event) {
            ReadStep::Continue(next) => reader = next,
            ReadStep::Finish(Ok(address)) => return Ok((rest, address)),
            ReadStep::Finish(Err(error)) => return Err(error.into_parts()),
        }
    }
}

fn invalid(message: &str) -> Outcome<'static> {
    Err((ErrorKind::InvalidData, message.to_string()))
}

fn header(addresses: impl Into<Addresses>) -> Vec<u8> {
    Builder::with_addresses(Version::Two | Command::Proxy, Protocol::Stream, addresses)
        .write_tlv(Type::NoOp, b"Hello, World!")
        .unwrap()
        .build()
        .unwrap()
}

fn with_payload(version_command: u8, family_transport: u8, payload: &[u8]) -> Vec<u8> {
    let mut octets = SIGNATURE.to_vec();
    octets.push(version_command);
    octets.push(family_transport);
    octets.extend_from_slice(&(payload.len() as u16).to_be_bytes());
    octets.extend_from_slice(payload);
    octets
}

#[test]
fn ipv4_client_is_read() {
    let mut stream = header(IPv4::new([203, 0, 113, 9], [10, 0, 0, 1], 51234, 443));
    stream.extend_from_slice(b"GET / HTTP/1.1\r\n\r\n");
    assert_eq!(
        read_proxy_header(&stream),
        Ok((
            &b"GET / HTTP/1.1\r\n\r\n"[..],
            Some(ClientAddress::V4 {
                octets: [203, 0, 113, 9],
                port: 51234
            })
        ))
    );
}

#[test]
fn ipv6_client_is_read() {
    let source = [0x2001, 0xdb8, 0, 0, 0, 0, 0, 1];
    let mut stream = header(IPv6::new(source, [0, 0, 0, 0, 0, 0, 0, 1], 80, 443));
    stream.push(7);
    assert_eq!(
        read_proxy_header(&stream),
        Ok((
            &[7u8][..],
            Some(ClientAddress::V6 {
                octets: [0x20, 1, 0x0d, 0xb8, 0, 0, 0, 0, 0, 0, 0, 0, 0, 0, 0, 1],
                port: 80
            })
        ))
    );
}

#[test]
fn header_without_addresses_gives_no_client() {
    let stream = header(Addresses::Unspecified);
    assert_eq!(read_proxy_header(&stream), Ok((&[][..], None)));
    let local = with_payload(0x20, 0x00, &[]);
    assert_eq!(read_proxy_header(&local), Ok((&[][..], None)));
}

#[test]
fn destination_and_extensions_do_not_matter() {
    let one = header(IPv4::new([1, 2, 3, 4], [5, 6, 7, 8], 9, 10));
    let other = with_payload(0x20, 0x12, &[1, 2, 3, 4, 0, 0, 0, 0, 0, 9, 0, 0]);
    assert_eq!(read_proxy_header(&one), read_proxy_header(&other));
}

#[test]
fn unix_addresses_are_refused() {
    let mut source = [0u8; 108];
    source[0] = 7;
    source[107] = 8;
    let destination = [9u8; 108];
    let unix = Unix::new(source, destination);
    let stream = header(unix);
    let expected = format!("Unix socket addresses are not supported. Addresses: {:?}", unix);
    assert!(expected.contains("source: [7, 0, "));
    assert!(expected.contains("destination: [9, 9, "));
    assert_eq!(read_proxy_header(&stream), invalid(&expected));
}

#[test]
fn request_without_header_is_refused() {
    let stream = b"GET / HTTP/1.1\r\nhost: example.com\r\n\r\n";
    assert_eq!(
        read_proxy_header(stream),
        invalid("No valid Proxy Protocol header detected")
    );
}

#[test]
fn version_one_is_refused() {
    let stream = b"PROXY TCP4 255.255.255.255 255.255.255.255 65535 65535\r\n";
    assert_eq!(
        read_proxy_header(stream),
        invalid("V1 Proxy Protocol header detected, which is not supported")
    );
}

#[test]
fn long_headers_are_refused() {
    let longest = with_payload(0x21, 0x00, &[0; 496]);
    assert_eq!(read_proxy_header(&longest), Ok((&[][..], None)));
    let longer = with_payload(0x21, 0x00, &[0; 497]);
    assert_eq!(
        read_proxy_header(&longer),
        invalid("V2 Proxy Protocol header length is too long. Consider increasing default buffer size. Header length: 513")
    );
    let mut fixed = SIGNATURE.to_vec();
    fixed.extend_from_slice(&[0x21, 0x11, 0xff, 0xff]);
    assert_eq!(
        read_proxy_header(&fixed),
        invalid("V2 Proxy Protocol header length is too long. Consider increasing default buffer size. Header length: 65551")
    );
}

#[test]
fn short_streams_fail() {
    let whole = header(IPv4::new([1, 2, 3, 4], [5, 6, 7, 8], 9, 10));
    for length in 0..whole.len() {
        let message = if length < 16 {
            "Stream `read_exact` error: early eof. Not able to read enough bytes to find a V2 Proxy Protocol header."
        } else {
            "Stream `read_exact` error: early eof. Not able to read enough bytes to read the full V2 Proxy Protocol header."
        };
        assert_eq!(
            read_proxy_header(&whole[..length]),
            Err((ErrorKind::Stream(Eof), message.to_string()))
        );
    }
    assert!(read_proxy_header(&whole).is_ok());
}

#[test]
fn fields_out_of_order_are_refused() {
    let refused = invalid("No valid V1 Proxy Protocol header received");
    // version, command, address family, transport, room for the addresses
    for (version_command, family_transport, length) in [
        (0x11, 0x11, 12),
        (0x31, 0x11, 12),
        (0x22, 0x11, 12),
        (0x21, 0x41, 300),
        (0x21, 0x13, 12),
        (0x21, 0x11, 11),
        (0x21, 0x21, 35),
        (0x21, 0x31, 215),
        (0x00, 0x00, 0),
    ] {
        let stream = with_payload(version_command, family_transport, &vec![1; length]);
        assert_eq!(read_proxy_header(&stream), refused);
    }
}

#[test]
fn every_field_byte_is_judged_alike() {
    // The address length of each family, for every pair of field bytes.
    for version_command in 0..=255u8 {
        for family_transport in 0..=255u8 {
            let stream = with_payload(version_command, family_transport, &[1; 216]);
            let in_order = (version_command == 0x20 || version_command == 0x21)
                && family_transport / 16 <= 3
                && family_transport % 16 <= 2;
            let outcome = inspect_header(&stream);
            match (in_order, family_transport / 16) {
                (true, 0) => assert!(matches!(outcome, Ok(None))),
                (true, 1) => assert!(matches!(
                    outcome,
                    Ok(Some(ClientAddress::V4 { octets: [1, 1, 1, 1], port: 257 }))
                )),
                (true, 2) => assert!(matches!(outcome, Ok(Some(ClientAddress::V6 { port: 257, .. })))),
                (true, _) => assert!(matches!(outcome, Err(Refusal::UnixAddresses { .. }))),
                (false, _) => assert!(matches!(outcome, Err(Refusal::InvalidVersionOne))),
            }
        }
    }
}

#[test]
fn what_follows_the_header_is_left() {
    let whole = header(IPv4::new([1, 2, 3, 4], [5, 6, 7, 8], 9, 10));
    for extra in 0..40usize {
        let mut stream = whole.clone();
        let tail: Vec<u8> = (0..extra as u8).collect();
        stream.extend_from_slice(&tail);
        let (rest, address) = read_proxy_header(&stream).unwrap();
        assert_eq!(rest, &tail[..]);
        assert_eq!(
            address,
            Some(ClientAddress::V4 {
                octets: [1, 2, 3, 4],
                port: 9
            })
        );
    }
}

#[test]
fn fixed_part_gives_the_payload_length() {
    let mut fixed = SIGNATURE.to_vec();
    fixed.extend_from_slice(&[0, 0, 1, 2]);
    assert!(matches!(inspect_fixed_part(&fixed), Ok(258)));
    fixed[11] = 0;
    assert!(matches!(inspect_fixed_part(&fixed), Err(Refusal::NoHeader)));
    assert!(matches!(
        inspect_fixed_part(b"PROXY UNKNOWN\r\n."),
        Err(Refusal::VersionOne)
    ));
}

#[test]
fn other_outcomes_of_parsing_are_refused() {
    let message = |parsed| client_address(parsed).unwrap_err_message();
    assert_eq!(
        message(ParsedHeader::V1),
        "V1 Proxy Protocol header detected when parsing data"
    );
    assert_eq!(
        message(ParsedHeader::InvalidV1),
        "No valid V1 Proxy Protocol header received"
    );
    assert_eq!(
        message(ParsedHeader::InvalidV2),
        "No valid V2 Proxy Protocol header received"
    );
}

trait RefusalMessage {
    fn unwrap_err_message(self) -> String;
}

impl RefusalMessage for Result<Option<ClientAddress>, Refusal> {
    fn unwrap_err_message(self) -> String {
        match self {
            Ok(_) => panic!("not refused"),
            Err(refusal) => refusal.message(),
        }
    }
}

#[test]
fn failed_reads_keep_their_kind() {
    let reader = HeaderReader::new();
    assert_eq!(reader.wanted(), 16);
    match reader.step(ReadEvent::Failed { kind: 5u8, cause: "reset".to_string() }) {
        ReadStep::Finish(Err(error)) => {
            assert!(matches!(error, HeaderError::Unread { kind: 5, .. }));
            let (kind, message) = error.into_parts();
            assert_eq!(kind, ErrorKind::Stream(5u8));
            assert_eq!(
                message,
                "Stream `read_exact` error: reset. Not able to read enough bytes to find a V2 Proxy Protocol header."
            );
        }
        _ => panic!("expected an error"),
    }
}

#[test]
fn payload_is_wanted_after_the_fixed_part() {
    let whole = header(IPv4::new([1, 2, 3, 4], [5, 6, 7, 8], 9, 10));
    let reader = HeaderReader::new();
    match reader.step(ReadEvent::<Eof>::Filled(whole[..16].to_vec())) {
        ReadStep::Continue(next) => {
            assert_eq!(next.wanted(), whole.len() - 16);
            let step = next.step(ReadEvent::<Eof>::Filled(whole[16..].to_vec()));
            assert!(matches!(
                step,
                ReadStep::Finish(Ok(Some(ClientAddress::V4 { octets: [1, 2, 3, 4], port: 9 })))
            ));
        }
        ReadStep::Finish(_) => panic!("the payload is missing"),
    }
}

#[test]
fn client_in_the_header_reaches_the_request() {
    let mut stream = header(IPv4::new([127, 0, 0, 1], [127, 0, 0, 1], 40321, 3000));
    stream.extend_from_slice(b"GET / HTTP/1.1\r\n\r\n");
    let (rest, client_address) = read_proxy_header(&stream).unwrap();
    assert_eq!(rest, b"GET / HTTP/1.1\r\n\r\n");
    let mut request = http::Request::new(());
    let service = proxy_protocol::ForwardClientIp { inner: (), client_address };
    assert!(service.forward(request.headers_mut()).is_ok());
    let forwarded = request.headers().get("Forwarded").unwrap().to_str().unwrap();
    assert!(forwarded.contains("for=127.0.0.1:40321"));
}
