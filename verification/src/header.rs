//! What to make of a version 2 PROXY protocol header.
//!
//! A header is a fixed part of sixteen octets, whose last two give the length of the payload, and
//! the payload: addresses, then extensions that are skipped.
use crate::address::ClientAddress;
use crate::outside::{parse_header, unix_debug, v1_prefix, v2_prefix};
use crate::text::append_decimal;
use vstd::prelude::*;
use vstd::string::*;

verus! {

/// The length of the fixed part of a header.
pub const FIXED_LENGTH: usize = 16;

/// The length of the longest header that is accepted, payload included.
pub const MAX_LENGTH: usize = 512;

/// The octets that a version 2 header starts with.
pub open spec fn v2_signature() -> Seq<u8> {
    seq![0x0d, 0x0a, 0x0d, 0x0a, 0x00, 0x0d, 0x0a, 0x51, 0x55, 0x49, 0x54, 0x0a]
}

/// The octets that a version 1 header starts with: `PROXY`.
pub open spec fn v1_signature() -> Seq<u8> {
    seq![0x50, 0x52, 0x4f, 0x58, 0x59]
}

/// The payload length that the fixed part of a header announces.
pub open spec fn payload_length(header: Seq<u8>) -> nat {
    crate::address::be16(header[14], header[15]) as nat
}

/// The length of a header, payload included.
pub open spec fn full_length(header: Seq<u8>) -> nat {
    16 + payload_length(header)
}

/// Whether `header` starts like a version 2 header and is as long as it announces.
pub open spec fn is_whole(header: Seq<u8>) -> bool {
    &&& header.len() >= 16
    &&& v2_signature().is_prefix_of(header)
    &&& header.len() == full_length(header)
}

/// The addresses in a version 2 header, as far as a client address is read from them.
#[allow(inconsistent_fields)]
#[derive(Clone, Copy)]
pub enum Addresses {
    /// The source address and port of an IPv4 connection.
    IPv4 { source: [u8; 4], source_port: u16 },
    /// The source address and port of an IPv6 connection.
    IPv6 { source: [u8; 16], source_port: u16 },
    /// The two ends of a UNIX socket connection.
    Unix { source: [u8; 108], destination: [u8; 108] },
    /// No addresses.
    Unspecified,
}

/// What [`Addresses`] say.
#[verifier::ext_equal]
pub enum AddressesView {
    IPv4 { source: Seq<u8>, source_port: u16 },
    IPv6 { source: Seq<u8>, source_port: u16 },
    Unix { source: Seq<u8>, destination: Seq<u8> },
    Unspecified,
}

/// The outcome of parsing a header of either version.
#[derive(Clone, Copy)]
pub enum ParsedHeader {
    /// A version 1 header.
    V1,
    /// No header, found out in looking for a version 1 header.
    InvalidV1,
    /// A version 2 header with these addresses.
    V2(Addresses),
    /// Less than a whole version 2 header.
    InvalidV2,
}

/// What a [`ParsedHeader`] says.
#[verifier::ext_equal]
pub enum ParsedView {
    V1,
    InvalidV1,
    V2(AddressesView),
    InvalidV2,
}

impl View for Addresses {
    type V = AddressesView;

    open spec fn view(&self) -> AddressesView {
        match self {
            Addresses::IPv4 { source, source_port } => AddressesView::IPv4 {
                source: source@,
                source_port: *source_port,
            },
            Addresses::IPv6 { source, source_port } => AddressesView::IPv6 {
                source: source@,
                source_port: *source_port,
            },
            Addresses::Unix { source, destination } => AddressesView::Unix {
                source: source@,
                destination: destination@,
            },
            Addresses::Unspecified => AddressesView::Unspecified,
        }
    }
}

impl View for ParsedHeader {
    type V = ParsedView;

    open spec fn view(&self) -> ParsedView {
        match self {
            ParsedHeader::V1 => ParsedView::V1,
            ParsedHeader::InvalidV1 => ParsedView::InvalidV1,
            ParsedHeader::V2(addresses) => ParsedView::V2(addresses@),
            ParsedHeader::InvalidV2 => ParsedView::InvalidV2,
        }
    }
}

/// The number of octets that the addresses of a family take: none, IPv4, IPv6, UNIX.
pub open spec fn addresses_length(family: int) -> nat {
    if family == 1 {
        12
    } else if family == 2 {
        36
    } else if family == 3 {
        216
    } else {
        0
    }
}

/// Whether the fields of a whole header are in order: version 2, a known command (local or proxy),
/// a known address family and transport, and room for the addresses of the family.
pub open spec fn is_in_order(header: Seq<u8>) -> bool {
    &&& header[12] / 16 == 2
    &&& header[12] % 16 <= 1
    &&& header[13] / 16 <= 3
    &&& header[13] % 16 <= 2
    &&& addresses_length(header[13] as int / 16) <= payload_length(header)
}

/// The addresses in a whole header whose fields are in order.
pub open spec fn addresses_in(header: Seq<u8>) -> AddressesView {
    let family = header[13] / 16;
    if family == 1 {
        AddressesView::IPv4 {
            source: header.subrange(16, 20),
            source_port: crate::address::be16(header[24], header[25]),
        }
    } else if family == 2 {
        AddressesView::IPv6 {
            source: header.subrange(16, 32),
            source_port: crate::address::be16(header[48], header[49]),
        }
    } else if family == 3 {
        AddressesView::Unix {
            source: header.subrange(16, 124),
            destination: header.subrange(124, 232),
        }
    } else {
        AddressesView::Unspecified
    }
}

/// What parsing makes of a whole header.
pub open spec fn parse_of(header: Seq<u8>) -> ParsedView {
    if is_in_order(header) {
        ParsedView::V2(addresses_in(header))
    } else {
        ParsedView::InvalidV1
    }
}

/// Why the octets at the beginning of a stream are not an acceptable header.
#[derive(Clone, Copy, Debug)]
pub enum Refusal {
    /// They are the beginning of a version 1 header.
    VersionOne,
    /// They are not the beginning of a header.
    NoHeader,
    /// The header is longer than [`MAX_LENGTH`].
    TooLong { full_length: usize },
    /// The header was parsed as one of version 1.
    ParsedVersionOne,
    /// The header is for a connection between UNIX sockets.
    UnixAddresses { source: [u8; 108], destination: [u8; 108] },
    /// The header is neither a valid one of version 2 nor one of version 1.
    InvalidVersionOne,
    /// The header is not a whole one of version 2.
    InvalidVersionTwo,
}

/// What a [`Refusal`] says.
#[verifier::ext_equal]
pub enum RefusalView {
    VersionOne,
    NoHeader,
    TooLong { full_length: nat },
    ParsedVersionOne,
    UnixAddresses { source: Seq<u8>, destination: Seq<u8> },
    InvalidVersionOne,
    InvalidVersionTwo,
}

impl View for Refusal {
    type V = RefusalView;

    open spec fn view(&self) -> RefusalView {
        match self {
            Refusal::VersionOne => RefusalView::VersionOne,
            Refusal::NoHeader => RefusalView::NoHeader,
            Refusal::TooLong { full_length } => RefusalView::TooLong {
                full_length: *full_length as nat,
            },
            Refusal::ParsedVersionOne => RefusalView::ParsedVersionOne,
            Refusal::UnixAddresses { source, destination } => RefusalView::UnixAddresses {
                source: source@,
                destination: destination@,
            },
            Refusal::InvalidVersionOne => RefusalView::InvalidVersionOne,
            Refusal::InvalidVersionTwo => RefusalView::InvalidVersionTwo,
        }
    }
}

/// The message of a refusal.
pub open spec fn refusal_text(refusal: RefusalView) -> Seq<char> {
    match refusal {
        RefusalView::VersionOne => "V1 Proxy Protocol header detected, which is not supported"@,
        RefusalView::NoHeader => "No valid Proxy Protocol header detected"@,
        RefusalView::TooLong { full_length } => {
            "V2 Proxy Protocol header length is too long. Consider increasing default buffer size. Header length: "@
                + crate::text::decimal(full_length)
        },
        RefusalView::ParsedVersionOne => "V1 Proxy Protocol header detected when parsing data"@,
        RefusalView::UnixAddresses { source, destination } => {
            "Unix socket addresses are not supported. Addresses: "@
                + crate::outside::unix_debug_text(source, destination)
        },
        RefusalView::InvalidVersionOne => "No valid V1 Proxy Protocol header received"@,
        RefusalView::InvalidVersionTwo => "No valid V2 Proxy Protocol header received"@,
    }
}

impl Refusal {
    /// The message of the refusal.
    pub fn message(&self) -> (message: String)
        ensures
            message@ == refusal_text(self@),
    {
        match self {
            Refusal::VersionOne => "V1 Proxy Protocol header detected, which is not supported".to_owned(),
            Refusal::NoHeader => "No valid Proxy Protocol header detected".to_owned(),
            Refusal::TooLong { full_length } => {
                let mut message =
                    "V2 Proxy Protocol header length is too long. Consider increasing default buffer size. Header length: ".to_owned();
                append_decimal(&mut message, *full_length);
                message
            },
            Refusal::ParsedVersionOne => "V1 Proxy Protocol header detected when parsing data".to_owned(),
            Refusal::UnixAddresses { source, destination } => {
                let mut message = "Unix socket addresses are not supported. Addresses: ".to_owned();
                let addresses = unix_debug(source, destination);
                message.append(addresses.as_str());
                message
            },
            Refusal::InvalidVersionOne => "No valid V1 Proxy Protocol header received".to_owned(),
            Refusal::InvalidVersionTwo => "No valid V2 Proxy Protocol header received".to_owned(),
        }
    }
}

/// What the fixed part of a header leads to: the length of the payload to read, or a refusal.
pub open spec fn fixed_part_verdict(fixed: Seq<u8>) -> Result<nat, RefusalView> {
    if !v2_signature().is_prefix_of(fixed) {
        if v1_signature().is_prefix_of(fixed) {
            Err(RefusalView::VersionOne)
        } else {
            Err(RefusalView::NoHeader)
        }
    } else if full_length(fixed) > MAX_LENGTH {
        Err(RefusalView::TooLong { full_length: full_length(fixed) })
    } else {
        Ok(payload_length(fixed))
    }
}

/// What a parsed header leads to: a client address, none, or a refusal.
pub open spec fn parsed_verdict(parsed: ParsedView) -> Result<
    Option<crate::address::AddressView>,
    RefusalView,
> {
    match parsed {
        ParsedView::V1 => Err(RefusalView::ParsedVersionOne),
        ParsedView::InvalidV1 => Err(RefusalView::InvalidVersionOne),
        ParsedView::V2(AddressesView::IPv4 { source, source_port }) => Ok(
            Some(crate::address::AddressView::V4 { octets: source, port: source_port }),
        ),
        ParsedView::V2(AddressesView::IPv6 { source, source_port }) => Ok(
            Some(crate::address::AddressView::V6 { octets: source, port: source_port }),
        ),
        ParsedView::V2(AddressesView::Unix { source, destination }) => Err(
            RefusalView::UnixAddresses { source, destination },
        ),
        ParsedView::V2(AddressesView::Unspecified) => Ok(None),
        ParsedView::InvalidV2 => Err(RefusalView::InvalidVersionTwo),
    }
}

/// What a whole header leads to.
pub open spec fn header_verdict(header: Seq<u8>) -> Result<
    Option<crate::address::AddressView>,
    RefusalView,
> {
    parsed_verdict(parse_of(header))
}

/// What a verdict on a header says.
pub open spec fn verdict_view(verdict: Result<Option<ClientAddress>, Refusal>) -> Result<
    Option<crate::address::AddressView>,
    RefusalView,
> {
    match verdict {
        Ok(address) => Ok(crate::address::view_of(address)),
        Err(refusal) => Err(refusal@),
    }
}

/// Whether `octets` start with `prefix`.
fn starts_with(octets: &[u8], prefix: &[u8]) -> (found: bool)
    ensures
        found == prefix@.is_prefix_of(octets@),
{
    if prefix.len() > octets.len() {
        return false;
    }
    let mut i: usize = 0;
    while i < prefix.len()
        invariant
            i <= prefix@.len() <= octets@.len(),
            forall|k: int| 0 <= k < i ==> prefix@[k] == octets@[k],
        decreases prefix@.len() - i,
    {
        if octets[i] != prefix[i] {
            assert(prefix@[i as int] != octets@.subrange(0, prefix@.len() as int)[i as int]);
            return false;
        }
        i += 1;
    }
    assert(prefix@ == octets@.subrange(0, prefix@.len() as int));
    true
}

/// Looks at the fixed part of a header: gives the length of the payload that follows, or refuses.
pub fn inspect_fixed_part(fixed: &[u8]) -> (verdict: Result<usize, Refusal>)
    requires
        fixed@.len() == FIXED_LENGTH,
    ensures
        match verdict {
            Ok(length) => fixed_part_verdict(fixed@) == Ok::<nat, RefusalView>(length as nat),
            Err(refusal) => fixed_part_verdict(fixed@) == Err::<nat, RefusalView>(refusal@),
        },
{
    if !starts_with(fixed, v2_prefix()) {
        if starts_with(fixed, v1_prefix()) {
            return Err(Refusal::VersionOne);
        } else {
            return Err(Refusal::NoHeader);
        }
    }
    let length: usize = fixed[14] as usize * 256 + fixed[15] as usize;
    let full_length: usize = FIXED_LENGTH + length;
    if full_length > MAX_LENGTH {
        return Err(Refusal::TooLong { full_length });
    }
    Ok(length)
}

/// Takes the client address from a parsed header, or refuses.
pub fn client_address(parsed: ParsedHeader) -> (verdict: Result<Option<ClientAddress>, Refusal>)
    ensures
        verdict_view(verdict) == parsed_verdict(parsed@),
{
    match parsed {
        ParsedHeader::V1 => Err(Refusal::ParsedVersionOne),
        ParsedHeader::InvalidV1 => Err(Refusal::InvalidVersionOne),
        ParsedHeader::V2(addresses) => match addresses {
            Addresses::IPv4 { source, source_port } => Ok(
                Some(ClientAddress::V4 { octets: source, port: source_port }),
            ),
            Addresses::IPv6 { source, source_port } => Ok(
                Some(ClientAddress::V6 { octets: source, port: source_port }),
            ),
            Addresses::Unix { source, destination } => Err(
                Refusal::UnixAddresses { source, destination },
            ),
            Addresses::Unspecified => Ok(None),
        },
        ParsedHeader::InvalidV2 => Err(Refusal::InvalidVersionTwo),
    }
}

/// Reads the client address from a whole header, or refuses.
pub fn inspect_header(header: &[u8]) -> (verdict: Result<Option<ClientAddress>, Refusal>)
    requires
        is_whole(header@),
    ensures
        verdict_view(verdict) == header_verdict(header@),
{
    client_address(parse_header(header))
}

} // verus!
