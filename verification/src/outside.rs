//! What the library relies on without proof: the contracts of functions of other crates.
use crate::header::{Addresses, ParsedHeader};
use http::header::{HeaderMap, HeaderValue, InvalidHeaderValue, MaxSizeReached, ToStrError};
use ppp::{v1, v2, HeaderResult};
use std::time::Duration;
use vstd::prelude::*;
use vstd::string::*;

verus! {

/// `http::HeaderMap`.
#[verifier::external_type_specification]
#[verifier::external_body]
#[verifier::reject_recursive_types(T)]
pub struct ExHeaderMap<T>(HeaderMap<T>);

/// `http::HeaderValue`.
#[verifier::external_type_specification]
#[verifier::external_body]
pub struct ExHeaderValue(HeaderValue);

/// `http::header::InvalidHeaderValue`.
#[verifier::external_type_specification]
#[verifier::external_body]
pub struct ExInvalidHeaderValue(InvalidHeaderValue);

/// `http::header::ToStrError`.
#[verifier::external_type_specification]
#[verifier::external_body]
pub struct ExToStrError(ToStrError);

/// `http::header::MaxSizeReached`.
#[verifier::external_type_specification]
#[verifier::external_body]
pub struct ExMaxSizeReached(MaxSizeReached);

/// The fields that a `HeaderMap` holds: under each field name, in lower case, the values of the
/// fields of that name in order, at least one.
pub uninterp spec fn header_fields(headers: HeaderMap<HeaderValue>) -> Map<Seq<char>, Seq<Seq<u8>>>;

/// The octets that a `HeaderValue` holds.
pub uninterp spec fn value_octets(value: HeaderValue) -> Seq<u8>;

/// The length of time that `Duration::from_secs` returns.
pub uninterp spec fn duration_from_secs(secs: u64) -> Duration;

/// The text that `Debug` gives of a `ppp::v2::Unix` with these two ends.
pub uninterp spec fn unix_debug_text(source: Seq<u8>, destination: Seq<u8>) -> Seq<char>;

/// Whether `name` is a short field name made of ASCII letters.
pub open spec fn is_plain_name(name: Seq<char>) -> bool {
    &&& 0 < name.len() <= 64
    &&& forall|i: int|
        0 <= i < name.len() ==> 'a' <= #[trigger] name[i] <= 'z' || 'A' <= name[i] <= 'Z'
}

/// An ASCII letter in lower case.
pub open spec fn lower_case(c: char) -> char {
    if 'A' <= c <= 'Z' {
        (c as u32 + 32) as char
    } else {
        c
    }
}

/// The name under which the fields of that name are found: field names ignore case.
pub open spec fn field_key(name: Seq<char>) -> Seq<char> {
    name.map_values(|c: char| lower_case(c))
}

/// Whether every octet is a printable ASCII character or a tab.
pub open spec fn is_visible(octets: Seq<u8>) -> bool {
    forall|i: int| 0 <= i < octets.len() ==> 32 <= #[trigger] octets[i] < 127 || octets[i] == 9
}

/// Whether every octet may stand in a field value: no control character but the tab.
pub open spec fn is_field_value(octets: Seq<u8>) -> bool {
    forall|i: int|
        0 <= i < octets.len() ==> (32 <= #[trigger] octets[i] && octets[i] != 127) || octets[i] == 9
}

/// The characters that have the octets as their codes.
pub open spec fn ascii_text(octets: Seq<u8>) -> Seq<char> {
    octets.map_values(|b: u8| b as char)
}

/// `HeaderValue::to_str` gives the text of a value of printable ASCII characters and tabs, and an
/// error for any other value.
pub assume_specification[ HeaderValue::to_str ](value: &HeaderValue) -> (text: Result<
    &str,
    ToStrError,
>)
    ensures
        text is Ok <==> is_visible(value_octets(*value)),
        text matches Ok(s) ==> s@ == ascii_text(value_octets(*value)),
;

/// `HeaderValue::from_str` makes a value of the octets of a text if all of them may stand in a
/// field value, and gives an error otherwise.
pub assume_specification[ HeaderValue::from_str ](src: &str) -> (value: Result<
    HeaderValue,
    InvalidHeaderValue,
>)
    ensures
        value is Ok <==> is_field_value(src.spec_bytes()),
        value matches Ok(v) ==> value_octets(v) == src.spec_bytes(),
;

/// `HeaderMap::get` gives the first value of the fields of a name, if there are any.
#[verifier::external_body]
pub(crate) fn first_value<'a>(
    headers: &'a HeaderMap<HeaderValue>,
    name: &'static str,
) -> (value: Option<&'a HeaderValue>)
    requires
        is_plain_name(name@),
    ensures
        value is Some <==> header_fields(*headers).contains_key(field_key(name@)),
        value matches Some(v) ==> {
            &&& header_fields(*headers)[field_key(name@)].len() > 0
            &&& value_octets(*v) == header_fields(*headers)[field_key(name@)][0]
        },
{
    headers.get(name)
}

/// `HeaderMap::try_insert` replaces all fields of a name by one with the given value, leaves the
/// fields of other names alone, and gives the first of the values replaced. It may fail, leaving all fields alone, on a map that has grown
/// to its largest size; a map with no more than 6553 names never has to grow beyond it. (Which
/// larger maps it fails on depends on how they came about.)
#[verifier::external_body]
pub(crate) fn replace_values(
    headers: &mut HeaderMap<HeaderValue>,
    name: &'static str,
    value: HeaderValue,
) -> (replaced: Result<Option<HeaderValue>, MaxSizeReached>)
    requires
        is_plain_name(name@),
    ensures
        replaced is Ok ==> header_fields(*final(headers)) == header_fields(*old(headers)).insert(
            field_key(name@),
            seq![value_octets(value)],
        ),
        replaced matches Ok(previous) ==> {
            &&& previous is Some <==> header_fields(*old(headers)).contains_key(field_key(name@))
            &&& previous matches Some(v) ==> value_octets(v) == header_fields(
                *old(headers),
            )[field_key(name@)][0]
        },
        replaced is Err ==> header_fields(*final(headers)) == header_fields(*old(headers)),
        header_fields(*old(headers)).dom().len() <= 6553 ==> replaced is Ok,
{
    headers.try_insert(name, value)
}

/// `Duration::from_secs`.
pub assume_specification[ Duration::from_secs ](secs: u64) -> (duration: Duration)
    ensures
        duration == duration_from_secs(secs),
;

/// `ppp::v2::PROTOCOL_PREFIX` is the signature of version 2 headers.
#[verifier::external_body]
pub(crate) fn v2_prefix() -> (prefix: &'static [u8])
    ensures
        prefix@ == crate::header::v2_signature(),
{
    v2::PROTOCOL_PREFIX
}

/// `ppp::v1::PROTOCOL_PREFIX` is the signature of version 1 headers.
#[verifier::external_body]
pub(crate) fn v1_prefix() -> (prefix: &'static [u8])
    ensures
        prefix@ == crate::header::v1_signature(),
{
    v1::PROTOCOL_PREFIX.as_bytes()
}

/// `ppp::HeaderResult::parse` reads the addresses of a whole version 2 header whose fields are in
/// order. If they are not, it goes on to look for a version 1 header, which the signature of
/// version 2 rules out.
#[verifier::external_body]
pub(crate) fn parse_header(header: &[u8]) -> (parsed: ParsedHeader)
    requires
        crate::header::is_whole(header@),
    ensures
        parsed@ == crate::header::parse_of(header@),
{
    match HeaderResult::parse(header) {
        HeaderResult::V1(Ok(_)) => ParsedHeader::V1,
        HeaderResult::V1(Err(_)) => ParsedHeader::InvalidV1,
        HeaderResult::V2(Err(_)) => ParsedHeader::InvalidV2,
        HeaderResult::V2(Ok(header)) => ParsedHeader::V2(match header.addresses {
            v2::Addresses::IPv4(ip) => Addresses::IPv4 { source: ip.source_address.octets(), source_port: ip.source_port },
            v2::Addresses::IPv6(ip) => Addresses::IPv6 { source: ip.source_address.octets(), source_port: ip.source_port },
            v2::Addresses::Unix(unix) => Addresses::Unix { source: unix.source, destination: unix.destination },
            v2::Addresses::Unspecified => Addresses::Unspecified,
        }),
    }
}

/// `Debug` of `ppp::v2::Unix` gives a text that is a function of the two ends.
#[verifier::external_body]
pub(crate) fn unix_debug(source: &[u8; 108], destination: &[u8; 108]) -> (text: String)
    ensures
        text@ == unix_debug_text(source@, destination@),
{
    format!("{:?}", v2::Unix::new(*source, *destination))
}

} // verus!
