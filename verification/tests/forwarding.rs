use http::header::{HeaderMap, HeaderValue};
use ppp::v2::{IPv4, IPv6};
use proxy_protocol::address::ClientAddress;
use proxy_protocol::forward::{client_element, forwarded_field};
use proxy_protocol::ForwardClientIp;

fn v4(octets: [u8; 4], port: u16) -> Option<ClientAddress> {
    Some(ClientAddress::V4 { octets, port })
}

fn v6(groups: [u16; 8], port: u16) -> Option<ClientAddress> {
    let mut octets = [0u8; 16];
    for (i, group) in groups.iter().enumerate() {
        octets[2 * i] = (group / 256) as u8;
        octets[2 * i + 1] = (group % 256) as u8;
    }
    Some(ClientAddress::V6 { octets, port })
}

fn forward(headers: &mut HeaderMap, client_address: Option<ClientAddress>) {
    let service = ForwardClientIp { inner: (), client_address };
    assert_eq!(service.forward(headers), Ok(()));
}

#[test]
fn ipv4_element() {
    assert_eq!(client_element(v4([127, 0, 0, 1], 3000)), "for=127.0.0.1:3000");
    assert_eq!(client_element(v4([0, 0, 0, 0], 0)), "for=0.0.0.0:0");
    assert_eq!(client_element(v4([255, 100, 9, 10], 65535)), "for=255.100.9.10:65535");
}

#[test]
fn ipv6_element() {
    assert_eq!(
        client_element(v6([0x2001, 0xdb8, 0, 0, 0, 0, 0, 1], 443)),
        "for=\"[2001:db8::1]:443\""
    );
    assert_eq!(client_element(v6([0; 8], 1)), "for=\"[::]:1\"");
    assert_eq!(client_element(v6([0, 0, 0, 0, 0, 0, 0, 1], 1)), "for=\"[::1]:1\"");
    assert_eq!(
        client_element(v6([0, 0, 0, 0, 0, 0xffff, 0xc0a8, 0x0102], 8)),
        "for=\"[::ffff:192.168.1.2]:8\""
    );
}

#[test]
fn unknown_element() {
    assert_eq!(client_element(None), "for=unknown");
}

#[test]
fn ipv4_text_agrees_with_display() {
    for a in [0u8, 1, 9, 10, 99, 100, 199, 200, 255] {
        for b in [0u8, 7, 42, 255] {
            let octets = [a, b, 255 - a, b / 2];
            let ip = IPv4::new(octets, octets, 0, 0).source_address;
            assert_eq!(client_element(v4(octets, 80)), format!("for={}:{}", ip, 80));
        }
    }
}

#[test]
fn ipv6_text_agrees_with_display() {
    let values = [0u16, 1, 0xff, 0x0a0b, 0xffff];
    // Every pattern of zero groups, with several values in the others.
    for pattern in 0..256usize {
        for shift in 0..values.len() {
            let mut groups = [0u16; 8];
            for i in 0..8usize {
                if pattern >> i & 1 == 1 {
                    groups[i] = values[(i + shift) % values.len()];
                }
            }
            let ip = IPv6::new(groups, groups, 0, 0).source_address;
            assert_eq!(
                client_element(v6(groups, 65535)),
                format!("for=\"[{}]:{}\"", ip, 65535)
            );
        }
    }
    for groups in [
        [0, 0, 0, 0, 0, 0, 0x0102, 0x0304],
        [0, 0, 0, 0, 0, 0xffff, 0, 0],
        [0, 0, 0, 0, 0xffff, 0xffff, 1, 2],
        [1, 0, 0, 1, 0, 0, 1, 1],
        [1, 0, 0, 1, 0, 0, 0, 1],
        [0x64, 0xff9b, 0, 0, 0, 0, 0xc000, 0x0221],
    ] {
        let ip = IPv6::new(groups, groups, 0, 0).source_address;
        assert_eq!(client_element(v6(groups, 1)), format!("for=\"[{}]:1\"", ip));
    }
}

#[test]
fn forwarded_header_is_added() {
    let mut headers = HeaderMap::new();
    headers.insert("host", HeaderValue::from_static("example.com"));
    forward(&mut headers, v4([203, 0, 113, 9], 51234));
    assert_eq!(headers.len(), 2);
    assert_eq!(headers["forwarded"], "for=203.0.113.9:51234");
    assert_eq!(headers["Forwarded"], "for=203.0.113.9:51234");
    assert_eq!(headers["host"], "example.com");
}

#[test]
fn forwarded_header_is_extended() {
    let mut headers = HeaderMap::new();
    headers.insert("Forwarded", HeaderValue::from_static("for=1.2.3.4;proto=http"));
    forward(&mut headers, v4([5, 6, 7, 8], 9));
    assert_eq!(headers.len(), 1);
    assert_eq!(headers["forwarded"], "for=1.2.3.4;proto=http, for=5.6.7.8:9");
}

#[test]
fn hops_are_told_in_order() {
    let mut headers = HeaderMap::new();
    forward(&mut headers, v4([1, 1, 1, 1], 1));
    forward(&mut headers, None);
    forward(&mut headers, v6([0, 0, 0, 0, 0, 0, 0, 1], 2));
    assert_eq!(
        headers["forwarded"],
        "for=1.1.1.1:1, for=unknown, for=\"[::1]:2\""
    );
}

#[test]
fn only_the_first_of_several_values_is_kept() {
    let mut headers = HeaderMap::new();
    headers.append("forwarded", HeaderValue::from_static("for=a"));
    headers.append("forwarded", HeaderValue::from_static("for=b"));
    headers.append("via", HeaderValue::from_static("x"));
    headers.append("via", HeaderValue::from_static("y"));
    forward(&mut headers, None);
    let values: Vec<&HeaderValue> = headers.get_all("forwarded").iter().collect();
    assert_eq!(values, vec!["for=a, for=unknown"]);
    let others: Vec<&HeaderValue> = headers.get_all("via").iter().collect();
    assert_eq!(others, vec!["x", "y"]);
}

#[test]
fn a_value_that_is_no_text_is_dropped() {
    let mut headers = HeaderMap::new();
    headers.insert("forwarded", HeaderValue::from_bytes(b"for=\xff").unwrap());
    forward(&mut headers, v4([1, 2, 3, 4], 5));
    assert_eq!(headers["forwarded"], ", for=1.2.3.4:5");
}

#[test]
fn a_tab_is_text() {
    let mut headers = HeaderMap::new();
    headers.insert("forwarded", HeaderValue::from_static("for=a;\tby=b"));
    forward(&mut headers, None);
    assert_eq!(headers["forwarded"], "for=a;\tby=b, for=unknown");
}

#[test]
fn field_text() {
    assert_eq!(forwarded_field(None, None), "for=unknown");
    assert_eq!(forwarded_field(Some(""), None), ", for=unknown");
    assert_eq!(
        forwarded_field(Some("for=a"), v4([1, 2, 3, 4], 5)),
        "for=a, for=1.2.3.4:5"
    );
}

#[test]
fn many_headers_leave_room() {
    let mut headers: HeaderMap<HeaderValue> = HeaderMap::new();
    for i in 0..6553usize {
        let name = http::header::HeaderName::from_bytes(format!("x-{}", i).as_bytes()).unwrap();
        headers.insert(name, HeaderValue::from_static("1"));
    }
    assert_eq!(headers.keys_len(), 6553);
    forward(&mut headers, None);
    assert_eq!(headers.keys_len(), 6554);
    assert_eq!(headers["forwarded"], "for=unknown");
}

#[test]
fn a_full_map_is_left_alone() {
    let mut headers: HeaderMap<HeaderValue> = HeaderMap::new();
    for i in 0..24576usize {
        let name = http::header::HeaderName::from_bytes(format!("x-{}", i).as_bytes()).unwrap();
        headers.insert(name, HeaderValue::from_static("1"));
    }
    let service = ForwardClientIp { inner: (), client_address: None };
    assert!(service.forward(&mut headers).is_err());
    assert_eq!(headers.len(), 24576);
    assert!(headers.get("forwarded").is_none());
}

#[test]
fn a_copy_forwards_the_same_client() {
    let service = ForwardClientIp { inner: 7u8, client_address: v4([1, 2, 3, 4], 5) };
    let copy = service.clone();
    assert_eq!(copy.inner, 7);
    assert_eq!(copy.client_address, service.client_address);
}
