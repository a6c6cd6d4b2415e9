//! Handing the client address on in the `Forwarded` header of requests.
use crate::address::{append_ipv4, append_ipv6, ClientAddress};
use crate::outside::{first_value, replace_values};
use crate::text::append_decimal;
use http::header::{HeaderMap, HeaderValue};
use vstd::prelude::*;
use vstd::string::*;

verus! {

/// Middleware for adding the client IP address to the `Forwarded` header of requests.
/// See <https://www.rfc-editor.org/rfc/rfc7239#section-5.2>.
#[derive(Debug)]
pub struct ForwardClientIp<S> {
    /// The service that handles the requests.
    pub inner: S,
    /// The address of the client, if it is known.
    pub client_address: Option<ClientAddress>,
}

impl<S: Clone> Clone for ForwardClientIp<S> {
    fn clone(&self) -> (copy: Self)
        ensures
            cloned(self.inner, copy.inner),
            copy.client_address == self.client_address,
    {
        ForwardClientIp { inner: self.inner.clone(), client_address: self.client_address }
    }
}

/// A header map has no room for another field.
#[derive(Debug, Clone, Copy, PartialEq, Eq)]
pub struct HeadersFull;

/// The key of `Forwarded` fields.
pub open spec fn forwarded_key() -> Seq<char> {
    crate::outside::field_key("Forwarded"@)
}

/// What is forwarded of a client address.
pub open spec fn forwarded_element(address: Option<crate::address::AddressView>) -> Seq<char> {
    match address {
        Some(crate::address::AddressView::V4 { octets, port }) => "for="@
            + crate::address::ipv4_text(octets) + ":"@ + crate::text::decimal(port as nat),
        Some(crate::address::AddressView::V6 { octets, port }) => "for=\"["@
            + crate::address::ipv6_text(octets) + "]:"@ + crate::text::decimal(port as nat)
            + "\""@,
        None => "for=unknown"@,
    }
}

/// The text of the `Forwarded` field of a request: what is forwarded of the client address, after
/// the text that the field had, if there was one.
pub open spec fn forwarded_text(
    existing: Option<Seq<char>>,
    address: Option<crate::address::AddressView>,
) -> Seq<char> {
    match existing {
        Some(text) => text + ", "@ + forwarded_element(address),
        None => forwarded_element(address),
    }
}

/// The text of the first `Forwarded` field among the fields of a request; an empty one if its value
/// is not a text.
pub open spec fn existing_text(fields: Map<Seq<char>, Seq<Seq<u8>>>) -> Option<Seq<char>> {
    if fields.contains_key(forwarded_key()) {
        let octets = fields[forwarded_key()][0];
        if crate::outside::is_visible(octets) {
            Some(crate::outside::ascii_text(octets))
        } else {
            Some(Seq::empty())
        }
    } else {
        None
    }
}

/// The octets of a text of ASCII characters.
pub open spec fn ascii_octets(text: Seq<char>) -> Seq<u8> {
    text.map_values(|c: char| c as u8)
}

/// The fields of a request with the client address added.
pub open spec fn forwarded_fields(
    fields: Map<Seq<char>, Seq<Seq<u8>>>,
    address: Option<crate::address::AddressView>,
) -> Map<Seq<char>, Seq<Seq<u8>>> {
    fields.insert(
        forwarded_key(),
        seq![ascii_octets(forwarded_text(existing_text(fields), address))],
    )
}

/// Whether every character is a printable ASCII character or a tab.
pub open spec fn is_visible_text(text: Seq<char>) -> bool {
    forall|i: int| 0 <= i < text.len() ==> ' ' <= #[trigger] text[i] <= '~' || text[i] == '\t'
}

/// What is forwarded of a client address is made of printable characters.
pub proof fn lemma_element_printable(address: Option<crate::address::AddressView>)
    ensures
        crate::text::is_printable(forwarded_element(address)),
{
    reveal_strlit("for=");
    reveal_strlit("for=\"[");
    reveal_strlit("]:");
    reveal_strlit(":");
    reveal_strlit("\"");
    reveal_strlit("for=unknown");
    match address {
        Some(crate::address::AddressView::V4 { octets, port }) => {
            crate::address::lemma_ipv4_text_printable(octets);
            crate::text::lemma_numeral_printable(port as nat, 10);
        },
        Some(crate::address::AddressView::V6 { octets, port }) => {
            crate::address::lemma_ipv6_text_printable(octets);
            crate::text::lemma_numeral_printable(port as nat, 10);
        },
        None => {},
    }
}

/// The text of the `Forwarded` field is made of printable characters and tabs.
pub proof fn lemma_forwarded_text_visible(
    fields: Map<Seq<char>, Seq<Seq<u8>>>,
    address: Option<crate::address::AddressView>,
)
    ensures
        is_visible_text(forwarded_text(existing_text(fields), address)),
{
    reveal_strlit(", ");
    lemma_element_printable(address);
}

/// Printable characters and tabs are encoded as the octets that are their codes, and may stand in
/// a field value.
pub proof fn lemma_visible_text_encoding(text: Seq<char>)
    requires
        is_visible_text(text),
    ensures
        vstd::utf8::encode_utf8(text) == ascii_octets(text),
        crate::outside::is_visible(ascii_octets(text)),
        crate::outside::is_field_value(ascii_octets(text)),
        crate::outside::ascii_text(ascii_octets(text)) == text,
{
    assert(vstd::utf8::is_ascii_chars(text));
    vstd::utf8::is_ascii_chars_encode_utf8(text);
    assert(vstd::utf8::encode_utf8(text) == ascii_octets(text));
}

/// What is forwarded of a client address.
pub fn client_element(address: Option<ClientAddress>) -> (element: String)
    ensures
        element@ == forwarded_element(crate::address::view_of(address)),
        crate::notation::is_element_of(element@, address),
{
    proof {
        crate::notation::law_element(address);
    }
    match address {
        Some(ClientAddress::V4 { octets, port }) => {
            let mut element = "for=".to_owned();
            append_ipv4(&mut element, octets[0], octets[1], octets[2], octets[3]);
            element.append(":");
            append_decimal(&mut element, port as usize);
            assert(octets@ == seq![octets@[0], octets@[1], octets@[2], octets@[3]]);
            element
        },
        Some(ClientAddress::V6 { octets, port }) => {
            let mut element = "for=\"[".to_owned();
            append_ipv6(&mut element, &octets);
            element.append("]:");
            append_decimal(&mut element, port as usize);
            element.append("\"");
            element
        },
        None => "for=unknown".to_owned(),
    }
}

/// The text of the `Forwarded` field of a request whose field had the text `existing`.
pub fn forwarded_field(existing: Option<&str>, address: Option<ClientAddress>) -> (text: String)
    ensures
        text@ == forwarded_text(
            match existing {
                Some(s) => Some(s@),
                None => None,
            },
            crate::address::view_of(address),
        ),
{
    let element = client_element(address);
    match existing {
        Some(s) => {
            let mut text = s.to_owned();
            text.append(", ");
            text.append(element.as_str());
            text
        },
        None => element,
    }
}

impl<S> ForwardClientIp<S> {
    /// Adds the client address to the `Forwarded` header of a request. The request keeps its
    /// headers if there is no room for another one, which there always is for up to 6553 different
    /// names.
    pub fn forward(&self, headers: &mut HeaderMap<HeaderValue>) -> (done: Result<(), HeadersFull>)
        ensures
            done is Ok ==> crate::outside::header_fields(*final(headers)) == forwarded_fields(
                crate::outside::header_fields(*old(headers)),
                crate::address::view_of(self.client_address),
            ),
            done is Ok ==> crate::laws::came_to_tell(
                crate::outside::header_fields(*old(headers)),
                crate::outside::header_fields(*final(headers)),
                self.client_address,
            ),
            done is Err ==> crate::outside::header_fields(*final(headers))
                == crate::outside::header_fields(*old(headers)),
            crate::outside::header_fields(*old(headers)).dom().len() <= 6553 ==> done is Ok,
    {
        proof {
            reveal_strlit("Forwarded");
        }
        let ghost fields = crate::outside::header_fields(*headers);
        let text = match first_value(headers, "Forwarded") {
            Some(value) => {
                let existing = match value.to_str() {
                    Ok(s) => s,
                    Err(_) => "",
                };
                proof {
                    reveal_strlit("");
                    assert(""@ == Seq::<char>::empty());
                }
                forwarded_field(Some(existing), self.client_address)
            },
            None => forwarded_field(None, self.client_address),
        };
        proof {
            let address = crate::address::view_of(self.client_address);
            assert(text@ == forwarded_text(existing_text(fields), address));
            lemma_forwarded_text_visible(fields, address);
            lemma_visible_text_encoding(text@);
            crate::laws::law_forwarding(fields, self.client_address);
        }
        match HeaderValue::from_str(text.as_str()) {
            Ok(value) => match replace_values(headers, "Forwarded", value) {
                Ok(_) => Ok(()),
                Err(_) => Err(HeadersFull),
            },
            Err(_) => Ok(()),
        }
    }
}

} // verus!
