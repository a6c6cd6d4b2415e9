//! What holds of the library as a whole.
use crate::accept::{AcceptAction, AcceptEvent, AcceptState, HeaderAction, HeaderEvent};
use crate::address::{AddressView, ClientAddress};
use crate::forward::ForwardClientIp;
use crate::header::{Addresses, AddressesView, ParsedHeader, Refusal, RefusalView};
use crate::reader::{
    ErrorKind, ErrorView, EventView, HeaderError, HeaderPart, HeaderReader, ReadEvent, ReadStep,
    StepView,
};
use vstd::prelude::*;

verus! {

/// Reading a header from a stream that holds `stream` and then fails with an error of kind `kind`
/// and description `cause`, when `received` has been read before: what is left of the stream, and
/// the client address; or an error.
pub open spec fn read_on<K>(received: Seq<u8>, stream: Seq<u8>, kind: K, cause: Seq<char>) -> Result<
    (Seq<u8>, Option<AddressView>),
    ErrorView<K>,
>
    decreases
            (if received.len() == 0 {
                1int
            } else {
                0int
            }),
{
    let wanted = crate::reader::wanted_after(received);
    let event = if stream.len() < wanted {
        EventView::Failed { kind, cause }
    } else {
        EventView::Filled(stream.take(wanted as int))
    };
    match crate::reader::step_after(received, event) {
        StepView::Finish(Ok(address)) => Ok((stream.skip(wanted as int), address)),
        StepView::Finish(Err(error)) => Err(error),
        StepView::Continue(next) => if received.len() == 0 && next.len() > 0 {
            read_on(next, stream.skip(wanted as int), kind, cause)
        } else {
            // Not reached: only a fixed part is followed by another read.
            arbitrary()
        },
    }
}

/// Reading a header from the beginning of a stream.
pub open spec fn read_proxy_header<K>(stream: Seq<u8>, kind: K, cause: Seq<char>) -> Result<
    (Seq<u8>, Option<AddressView>),
    ErrorView<K>,
> {
    read_on(Seq::empty(), stream, kind, cause)
}

/// What reading a header comes to. A stream that ends in the fixed part or in the payload gives an
/// error that says so. Otherwise the verdicts on the fixed part and on the whole header decide; if
/// they are favourable, exactly the header is gone from the stream.
pub proof fn law_read<K>(stream: Seq<u8>, kind: K, cause: Seq<char>)
    ensures
        read_proxy_header(stream, kind, cause) == if stream.len() < 16 {
            Err(ErrorView::Unread { part: HeaderPart::Fixed, kind, cause })
        } else {
            match crate::header::fixed_part_verdict(stream.take(16)) {
                Err(refusal) => Err(ErrorView::Refused(refusal)),
                Ok(length) => if stream.len() < 16 + length {
                    Err(ErrorView::Unread { part: HeaderPart::Payload, kind, cause })
                } else {
                    match crate::header::header_verdict(stream.take(16 + length as int)) {
                        Err(refusal) => Err(ErrorView::Refused(refusal)),
                        Ok(address) => Ok((stream.skip(16 + length as int), address)),
                    }
                },
            }
        },
{
    reveal_with_fuel(read_on, 2);
    if stream.len() >= 16 {
        let fixed = stream.take(16);
        let rest = stream.skip(16);
        if let Ok(length) = crate::header::fixed_part_verdict(fixed) {
            if stream.len() >= 16 + length {
                assert(fixed + rest.take(length as int) == stream.take(16 + length as int));
                assert(rest.skip(length as int) == stream.skip(16 + length as int));
            }
        }
    }
}

/// Reading goes on only after an acceptable fixed part, and ends with the read after that.
pub proof fn law_two_reads<K>(received: Seq<u8>, event: EventView<K>)
    requires
        crate::reader::is_progress(received),
        event matches EventView::Filled(octets) ==> octets.len() == crate::reader::wanted_after(
            received,
        ),
    ensures
        crate::reader::step_after(received, event) matches StepView::Continue(next) ==> {
            &&& received.len() == 0
            &&& next.len() == 16
            &&& crate::reader::is_progress(next)
            &&& event == EventView::<K>::Filled(next)
        },
{
}

/// A header is accepted exactly if the stream holds all of it, it starts with the signature of
/// version 2, is no longer than the limit, has its fields in order and is not for UNIX sockets.
/// Then exactly the header is gone from the stream.
pub proof fn law_accepted_headers<K>(stream: Seq<u8>, kind: K, cause: Seq<char>)
    ensures
        read_proxy_header(stream, kind, cause) is Ok <==> {
            &&& stream.len() >= 16
            &&& crate::header::v2_signature().is_prefix_of(stream)
            &&& crate::header::full_length(stream) <= stream.len()
            &&& crate::header::full_length(stream) <= crate::header::MAX_LENGTH
            &&& crate::header::is_in_order(stream)
            &&& crate::header::addresses_in(stream) !is Unix
        },
        read_proxy_header(stream, kind, cause) matches Ok((rest, _)) ==> rest == stream.skip(
            crate::header::full_length(stream) as int,
        ),
{
    law_read(stream, kind, cause);
    if stream.len() >= 16 {
        lemma_prefix_of_take(crate::header::v2_signature(), stream, 16);
        let full = crate::header::full_length(stream) as int;
        if full <= stream.len() {
            lemma_prefix_of_take(crate::header::v2_signature(), stream, full);
        }
    }
}

/// A prefix of the beginning of a sequence is a prefix of the sequence, and conversely if the
/// beginning is long enough.
proof fn lemma_prefix_of_take(prefix: Seq<u8>, stream: Seq<u8>, n: int)
    requires
        prefix.len() <= n <= stream.len(),
    ensures
        prefix.is_prefix_of(stream.take(n)) == prefix.is_prefix_of(stream),
{
    assert(stream.take(n).subrange(0, prefix.len() as int) == stream.subrange(
        0,
        prefix.len() as int,
    ));
}

/// What follows a header in the stream has no part in what is made of the header, and is all there
/// afterwards.
pub proof fn law_header_is_removed<K>(
    header: Seq<u8>,
    rest: Seq<u8>,
    kind: K,
    cause: Seq<char>,
)
    requires
        crate::header::is_whole(header),
        header.len() <= crate::header::MAX_LENGTH,
    ensures
        read_proxy_header(header + rest, kind, cause) == match crate::header::header_verdict(
            header,
        ) {
            Ok(address) => Ok((rest, address)),
            Err(refusal) => Err(ErrorView::<K>::Refused(refusal)),
        },
{
    let stream = header + rest;
    law_read(stream, kind, cause);
    lemma_prefix_of_take(crate::header::v2_signature(), header, 16);
    assert(stream.take(16) == header.take(16));
    assert(stream.take(header.len() as int) == header);
    assert(stream.skip(header.len() as int) == rest);
}

/// A stream that does not start with a header of version 2 is refused: with a hint if it starts
/// like a header of version 1.
pub proof fn law_version_two_only<K>(stream: Seq<u8>, kind: K, cause: Seq<char>)
    requires
        stream.len() >= 16,
        !crate::header::v2_signature().is_prefix_of(stream),
    ensures
        read_proxy_header(stream, kind, cause) == Err::<
            (Seq<u8>, Option<AddressView>),
            ErrorView<K>,
        >(
            ErrorView::Refused(
                if crate::header::v1_signature().is_prefix_of(stream) {
                    RefusalView::VersionOne
                } else {
                    RefusalView::NoHeader
                },
            ),
        ),
{
    law_read(stream, kind, cause);
    lemma_prefix_of_take(crate::header::v2_signature(), stream, 16);
    lemma_prefix_of_take(crate::header::v1_signature(), stream, 16);
}

/// No stream is found to hold a version 1 header, or less than a whole version 2 header, once the
/// signature of version 2 has been seen and the whole header read.
pub proof fn law_refusals<K>(stream: Seq<u8>, kind: K, cause: Seq<char>)
    ensures
        read_proxy_header(stream, kind, cause) matches Err(ErrorView::Refused(refusal)) ==> {
            &&& refusal !is ParsedVersionOne
            &&& refusal !is InvalidVersionTwo
        },
{
    law_read(stream, kind, cause);
}

/// The octets of a number in network order.
pub open spec fn be16_octets(n: u16) -> Seq<u8> {
    seq![(n / 256) as u8, (n % 256) as u8]
}

/// A version 2 header: the command (0 is local, 1 is proxy), the address family, the transport and
/// the payload.
pub open spec fn header_octets(command: u8, family: u8, transport: u8, payload: Seq<u8>) -> Seq<u8> {
    seq![
        0x0du8,
        0x0au8,
        0x0du8,
        0x0au8,
        0x00u8,
        0x0du8,
        0x0au8,
        0x51u8,
        0x55u8,
        0x49u8,
        0x54u8,
        0x0au8,
        (0x20 + command) as u8,
        (16 * family + transport) as u8,
    ] + be16_octets(payload.len() as u16) + payload
}

/// What a header is made of can be read from it.
proof fn lemma_header_octets(command: u8, family: u8, transport: u8, payload: Seq<u8>)
    requires
        command <= 1,
        family <= 3,
        transport <= 2,
        payload.len() <= 496,
        crate::header::addresses_length(family as int) <= payload.len(),
    ensures
        ({
            let header = header_octets(command, family, transport, payload);
            &&& crate::header::is_whole(header)
            &&& header.len() == 16 + payload.len()
            &&& crate::header::is_in_order(header)
            &&& header[13] / 16 == family
        }),
{
    let header = header_octets(command, family, transport, payload);
    let signature = crate::header::v2_signature();
    assert(header.subrange(0, signature.len() as int) == signature);
    assert(header[12] == 0x20 + command);
    assert(header[13] == 16 * family + transport);
    assert(crate::header::payload_length(header) == payload.len());
}

/// The source address and port in an IPv4 header are read back, whatever the destination and
/// the extensions; what follows the header is left in the stream.
pub proof fn law_ipv4_client<K>(
    command: u8,
    transport: u8,
    source: Seq<u8>,
    destination: Seq<u8>,
    source_port: u16,
    destination_port: u16,
    extensions: Seq<u8>,
    rest: Seq<u8>,
    kind: K,
    cause: Seq<char>,
)
    requires
        command <= 1,
        transport <= 2,
        source.len() == 4,
        destination.len() == 4,
        extensions.len() <= 484,
    ensures
        read_proxy_header(
            header_octets(
                command,
                1,
                transport,
                source + destination + be16_octets(source_port) + be16_octets(destination_port)
                    + extensions,
            ) + rest,
            kind,
            cause,
        ) == Ok::<(Seq<u8>, Option<AddressView>), ErrorView<K>>(
            (rest, Some(AddressView::V4 { octets: source, port: source_port })),
        ),
{
    let payload = source + destination + be16_octets(source_port) + be16_octets(destination_port)
        + extensions;
    let header = header_octets(command, 1, transport, payload);
    lemma_header_octets(command, 1, transport, payload);
    law_header_is_removed(header, rest, kind, cause);
    assert(header.subrange(16, 20) == source);
}

/// The source address and port in an IPv6 header are read back, whatever the destination and
/// the extensions; what follows the header is left in the stream.
pub proof fn law_ipv6_client<K>(
    command: u8,
    transport: u8,
    source: Seq<u8>,
    destination: Seq<u8>,
    source_port: u16,
    destination_port: u16,
    extensions: Seq<u8>,
    rest: Seq<u8>,
    kind: K,
    cause: Seq<char>,
)
    requires
        command <= 1,
        transport <= 2,
        source.len() == 16,
        destination.len() == 16,
        extensions.len() <= 460,
    ensures
        read_proxy_header(
            header_octets(
                command,
                2,
                transport,
                source + destination + be16_octets(source_port) + be16_octets(destination_port)
                    + extensions,
            ) + rest,
            kind,
            cause,
        ) == Ok::<(Seq<u8>, Option<AddressView>), ErrorView<K>>(
            (rest, Some(AddressView::V6 { octets: source, port: source_port })),
        ),
{
    let payload = source + destination + be16_octets(source_port) + be16_octets(destination_port)
        + extensions;
    let header = header_octets(command, 2, transport, payload);
    lemma_header_octets(command, 2, transport, payload);
    law_header_is_removed(header, rest, kind, cause);
    assert(header.subrange(16, 32) == source);
}

/// A header without addresses is accepted and gives no client address.
pub proof fn law_unspecified_client<K>(
    command: u8,
    transport: u8,
    payload: Seq<u8>,
    rest: Seq<u8>,
    kind: K,
    cause: Seq<char>,
)
    requires
        command <= 1,
        transport <= 2,
        payload.len() <= 496,
    ensures
        read_proxy_header(header_octets(command, 0, transport, payload) + rest, kind, cause) == Ok::<
            (Seq<u8>, Option<AddressView>),
            ErrorView<K>,
        >((rest, None)),
{
    lemma_header_octets(command, 0, transport, payload);
    law_header_is_removed(header_octets(command, 0, transport, payload), rest, kind, cause);
}

/// A header for UNIX sockets is refused, and the refusal tells the two ends.
pub proof fn law_unix_client<K>(
    command: u8,
    transport: u8,
    source: Seq<u8>,
    destination: Seq<u8>,
    extensions: Seq<u8>,
    rest: Seq<u8>,
    kind: K,
    cause: Seq<char>,
)
    requires
        command <= 1,
        transport <= 2,
        source.len() == 108,
        destination.len() == 108,
        extensions.len() <= 280,
    ensures
        read_proxy_header(
            header_octets(command, 3, transport, source + destination + extensions) + rest,
            kind,
            cause,
        ) == Err::<(Seq<u8>, Option<AddressView>), ErrorView<K>>(
            ErrorView::Refused(RefusalView::UnixAddresses { source, destination }),
        ),
{
    let payload = source + destination + extensions;
    let header = header_octets(command, 3, transport, payload);
    lemma_header_octets(command, 3, transport, payload);
    law_header_is_removed(header, rest, kind, cause);
    assert(header.subrange(16, 124) == source);
    assert(header.subrange(124, 232) == destination);
}

/// Forwarding leaves the fields of all other names alone, and exactly one `Forwarded` field, whose
/// text can be read back.
pub proof fn law_forwarded_field(
    fields: Map<Seq<char>, Seq<Seq<u8>>>,
    address: Option<AddressView>,
)
    ensures
        ({
            let after = crate::forward::forwarded_fields(fields, address);
            let key = crate::forward::forwarded_key();
            &&& after.contains_key(key)
            &&& after[key].len() == 1
            &&& crate::forward::existing_text(after) == Some(
                crate::forward::forwarded_text(crate::forward::existing_text(fields), address),
            )
            &&& after.remove(key) == fields.remove(key)
        }),
{
    crate::forward::lemma_forwarded_text_visible(fields, address);
    crate::forward::lemma_visible_text_encoding(
        crate::forward::forwarded_text(crate::forward::existing_text(fields), address),
    );
}

/// The key of `Forwarded` fields is the name in lower case.
pub proof fn law_forwarded_key()
    ensures
        crate::forward::forwarded_key() == "forwarded"@,
{
    reveal_strlit("Forwarded");
    reveal_strlit("forwarded");
}

/// The `Forwarded` field of a request that went through several hops tells their clients in order:
/// each hop keeps what was there and adds its client at the end.
pub proof fn law_forwarding_chain(
    fields: Map<Seq<char>, Seq<Seq<u8>>>,
    first: Option<AddressView>,
    second: Option<AddressView>,
)
    ensures
        crate::forward::existing_text(
            crate::forward::forwarded_fields(
                crate::forward::forwarded_fields(fields, first),
                second,
            ),
        ) == Some(
            crate::forward::forwarded_text(crate::forward::existing_text(fields), first) + ", "@
                + crate::forward::forwarded_element(second),
        ),
{
    law_forwarded_field(fields, first);
    law_forwarded_field(crate::forward::forwarded_fields(fields, first), second);
}

/// The text of the `Forwarded` field ends in what is forwarded of the client.
pub proof fn law_client_is_last(
    fields: Map<Seq<char>, Seq<Seq<u8>>>,
    address: Option<AddressView>,
)
    ensures
        crate::forward::forwarded_element(address).is_suffix_of(
            crate::forward::forwarded_text(crate::forward::existing_text(fields), address),
        ),
{
    let element = crate::forward::forwarded_element(address);
    let text = crate::forward::forwarded_text(crate::forward::existing_text(fields), address);
    assert(text.subrange(text.len() - element.len(), text.len() as int) == element);
}

/// The client address found in a header is forwarded: whatever fields a request has, the text of its
/// `Forwarded` field comes to end in the source address and port of the header, or in `for=unknown`
/// for a header without addresses.
pub proof fn law_client_found_is_forwarded<K>(
    stream: Seq<u8>,
    kind: K,
    cause: Seq<char>,
    fields: Map<Seq<char>, Seq<Seq<u8>>>,
)
    ensures
        read_proxy_header(stream, kind, cause) matches Ok((_, address)) ==> {
            &&& crate::forward::existing_text(crate::forward::forwarded_fields(fields, address))
                matches Some(text)
            &&& match crate::header::addresses_in(stream) {
                AddressesView::IPv4 { source, source_port } => ("for="@
                    + crate::address::ipv4_text(source) + ":"@ + crate::text::decimal(
                    source_port as nat,
                )).is_suffix_of(text),
                AddressesView::IPv6 { source, source_port } => ("for=\"["@
                    + crate::address::ipv6_text(source) + "]:"@ + crate::text::decimal(
                    source_port as nat,
                ) + "\""@).is_suffix_of(text),
                AddressesView::Unix { .. } => false,
                AddressesView::Unspecified => "for=unknown"@.is_suffix_of(text),
            }
        },
{
    law_read(stream, kind, cause);
    law_accepted_headers(stream, kind, cause);
    if let Ok((_, address)) = read_proxy_header(stream, kind, cause) {
        let full = crate::header::full_length(stream) as int;
        assert(crate::header::addresses_in(stream.take(full)) == crate::header::addresses_in(
            stream,
        ));
        law_forwarded_field(fields, address);
        law_client_is_last(fields, address);
    }
}

/// The state and the action after polling the read of the header with these outcomes, as long as
/// the action is to wait.
pub open spec fn poll_header<S, I, E, T>(service: S, events: Seq<HeaderEvent<I, E, T>>) -> (
    AcceptState<S>,
    HeaderAction<I, S, E, T>,
)
    decreases events.len(),
{
    if events.len() == 0 {
        (AcceptState::ReadHeader { service }, HeaderAction::Wait)
    } else {
        match crate::accept::after_header(service, events[0]) {
            (AcceptState::ReadHeader { service: s }, HeaderAction::Wait) => poll_header(
                s,
                events.drop_first(),
            ),
            end => end,
        }
    }
}

/// The action after polling the inner acceptor with these outcomes, as long as the action is to
/// wait.
pub open spec fn poll_accept<I, S, E>(
    client_address: Option<ClientAddress>,
    events: Seq<AcceptEvent<I, S, E>>,
) -> AcceptAction<I, S, E>
    decreases events.len(),
{
    if events.len() == 0 {
        AcceptAction::Wait
    } else {
        match crate::accept::after_accept(client_address, events[0]) {
            AcceptAction::Wait => poll_accept(client_address, events.drop_first()),
            end => end,
        }
    }
}

/// However often the read of the header has to be polled, its outcome decides: the inner acceptor
/// gets the stream and the service, and the client address is kept; or the error is passed on, or
/// the time-out, and the inner acceptor is not called.
pub proof fn law_header_decides<S, I, E, T>(
    service: S,
    events: Seq<HeaderEvent<I, E, T>>,
    last: int,
)
    requires
        0 <= last < events.len(),
        forall|i: int| 0 <= i < last ==> #[trigger] events[i] == HeaderEvent::<I, E, T>::Pending,
        events[last] !is Pending,
    ensures
        match events[last] {
            HeaderEvent::Pending => false,
            HeaderEvent::Read { stream, client_address } => {
                &&& poll_header(service, events).0 == (AcceptState::<S>::ForwardIp {
                    client_address,
                })
                &&& poll_header(service, events).1 == (HeaderAction::<I, S, E, T>::Accept {
                    stream,
                    service,
                })
            },
            HeaderEvent::Failed(e) => {
                &&& poll_header(service, events).0 == (AcceptState::ReadHeader { service })
                &&& poll_header(service, events).1 == HeaderAction::<I, S, E, T>::Fail(e)
            },
            HeaderEvent::TimedOut(t) => {
                &&& poll_header(service, events).0 == (AcceptState::ReadHeader { service })
                &&& poll_header(service, events).1 == HeaderAction::<I, S, E, T>::TimeOut(t)
            },
        },
    decreases last,
{
    if last > 0 {
        assert(events[0] == HeaderEvent::<I, E, T>::Pending);
        let later = events.drop_first();
        assert forall|i: int| 0 <= i < last - 1 implies #[trigger] later[i] == HeaderEvent::<
            I,
            E,
            T,
        >::Pending by {
            assert(events[i + 1] == HeaderEvent::<I, E, T>::Pending);
        }
        law_header_decides(service, later, last - 1);
    }
}

/// However often the inner acceptor has to be polled, what it accepts is handed out, and the
/// service forwards the client address that the header gave; or its error is passed on.
pub proof fn law_client_is_handed_on<I, S, E>(
    client_address: Option<ClientAddress>,
    events: Seq<AcceptEvent<I, S, E>>,
    last: int,
)
    requires
        0 <= last < events.len(),
        forall|i: int| 0 <= i < last ==> #[trigger] events[i] == AcceptEvent::<I, S, E>::Pending,
        events[last] !is Pending,
    ensures
        match events[last] {
            AcceptEvent::Pending => false,
            AcceptEvent::Accepted { stream, service } => poll_accept(client_address, events) == (
            AcceptAction::<I, S, E>::Complete {
                stream,
                service: ForwardClientIp { inner: service, client_address },
            }),
            AcceptEvent::Failed(e) => poll_accept(client_address, events) == AcceptAction::<
                I,
                S,
                E,
            >::Fail(e),
        },
    decreases last,
{
    if last > 0 {
        assert(events[0] == AcceptEvent::<I, S, E>::Pending);
        let later = events.drop_first();
        assert forall|i: int| 0 <= i < last - 1 implies #[trigger] later[i] == AcceptEvent::<
            I,
            S,
            E,
        >::Pending by {
            assert(events[i + 1] == AcceptEvent::<I, S, E>::Pending);
        }
        law_client_is_handed_on(client_address, later, last - 1);
    }
}

/// From the header to the service: if the header is read, and the inner acceptor accepts what it is
/// given, then the service that is handed out is the accepted one, and forwards the client address
/// that the header gave, however long either takes.
pub proof fn law_accepting<S, I, E, T, U, V, F>(
    service: S,
    header_events: Seq<HeaderEvent<I, E, T>>,
    header_last: int,
    stream: I,
    client_address: Option<ClientAddress>,
    accept_events: Seq<AcceptEvent<U, V, F>>,
    accept_last: int,
    accepted_stream: U,
    accepted_service: V,
)
    requires
        0 <= header_last < header_events.len(),
        forall|i: int|
            0 <= i < header_last ==> #[trigger] header_events[i] == HeaderEvent::<I, E, T>::Pending,
        header_events[header_last] == (HeaderEvent::<I, E, T>::Read { stream, client_address }),
        0 <= accept_last < accept_events.len(),
        forall|i: int|
            0 <= i < accept_last ==> #[trigger] accept_events[i] == AcceptEvent::<U, V, F>::Pending,
        accept_events[accept_last] == (AcceptEvent::<U, V, F>::Accepted {
            stream: accepted_stream,
            service: accepted_service,
        }),
    ensures
        poll_header(service, header_events).1 == (HeaderAction::<I, S, E, T>::Accept {
            stream,
            service,
        }),
        poll_header(service, header_events).0 matches AcceptState::ForwardIp {
            client_address: kept,
        } && poll_accept(kept, accept_events) == (AcceptAction::<U, V, F>::Complete {
            stream: accepted_stream,
            service: ForwardClientIp { inner: accepted_service, client_address },
        }),
{
    law_header_decides(service, header_events, header_last);
    law_client_is_handed_on(client_address, accept_events, accept_last);
}

/// While an operation is not done there is nothing to do but wait, and nothing is lost.
pub proof fn law_waiting<S, I, E, T, U, V, F>(service: S, client_address: Option<ClientAddress>)
    ensures
        crate::accept::after_header(service, HeaderEvent::<I, E, T>::Pending).0 == (
        AcceptState::ReadHeader { service }),
        crate::accept::after_header(service, HeaderEvent::<I, E, T>::Pending).1 == HeaderAction::<
            I,
            S,
            E,
            T,
        >::Wait,
        crate::accept::after_accept(client_address, AcceptEvent::<U, V, F>::Pending)
            == AcceptAction::<U, V, F>::Wait,
{
}

/// The header is waited for ten seconds by default.
pub proof fn law_default_timeout()
    ensures
        crate::acceptor::default_timeout() == crate::outside::duration_from_secs(10),
{
}

/// Whether octets are the codes of the characters of a text.
pub open spec fn spells(octets: Seq<u8>, text: Seq<char>) -> bool {
    &&& octets.len() == text.len()
    &&& forall|i: int| 0 <= i < text.len() ==> octets[i] as int == #[trigger] text[i] as int
}

/// Whether all octets are codes of printable ASCII characters or tabs.
pub open spec fn is_text(octets: Seq<u8>) -> bool {
    forall|i: int| 0 <= i < octets.len() ==> 0x20 <= #[trigger] octets[i] <= 0x7e || octets[i] == 0x09
}

/// Whether the fields of a request came to tell its client: of the `Forwarded` fields there is one
/// left. Its value is what is to be told of the client; if there was one before, that comes after
/// the first value there was, or after nothing if that was not a text, and a comma. All other
/// fields are as they were.
pub open spec fn came_to_tell(
    before: Map<Seq<char>, Seq<Seq<u8>>>,
    after: Map<Seq<char>, Seq<Seq<u8>>>,
    client: Option<ClientAddress>,
) -> bool {
    let name = "forwarded"@;
    &&& after.dom() == before.dom().insert(name)
    &&& forall|other: Seq<char>| other != name ==> #[trigger] after[other] == before[other]
    &&& after[name].len() == 1
    &&& exists|element: Seq<u8>, text: Seq<char>|
        {
            &&& #[trigger] spells(element, text)
            &&& crate::notation::is_element_of(text, client)
            &&& after[name][0] == if !before.contains_key(name) {
                element
            } else if is_text(before[name][0]) {
                before[name][0] + seq![0x2cu8, 0x20u8] + element
            } else {
                seq![0x2cu8, 0x20u8] + element
            }
        }
}

/// Forwarding makes the fields of a request tell its client.
pub proof fn law_forwarding(fields: Map<Seq<char>, Seq<Seq<u8>>>, client: Option<ClientAddress>)
    ensures
        came_to_tell(
            fields,
            crate::forward::forwarded_fields(fields, crate::address::view_of(client)),
            client,
        ),
{
    let address = crate::address::view_of(client);
    let after = crate::forward::forwarded_fields(fields, address);
    let name = "forwarded"@;
    law_forwarded_key();
    let text = crate::forward::forwarded_element(address);
    let element = crate::forward::ascii_octets(text);
    crate::forward::lemma_element_printable(address);
    crate::notation::law_element(client);
    assert(after.dom() == fields.dom().insert(name));
    assert(spells(element, text));
    reveal_strlit(", ");
    assert(crate::forward::ascii_octets(", "@) == seq![0x2cu8, 0x20u8]);
    if fields.contains_key(name) {
        let octets = fields[name][0];
        if is_text(octets) {
            assert(crate::outside::is_visible(octets));
            let existing = crate::outside::ascii_text(octets);
            assert(crate::forward::ascii_octets(existing) == octets);
            assert(after[name][0] == octets + seq![0x2cu8, 0x20u8] + element);
        } else {
            assert(!crate::outside::is_visible(octets));
            assert(after[name][0] == seq![0x2cu8, 0x20u8] + element);
        }
    } else {
        assert(after[name][0] == element);
    }
}

/// A request whose first `Forwarded` value is the text `text` comes to have the one value that is
/// that text, a comma, and what is forwarded of the client.
pub proof fn law_existing_value_is_kept(
    fields: Map<Seq<char>, Seq<Seq<u8>>>,
    text: Seq<char>,
    client: Option<ClientAddress>,
)
    requires
        fields.contains_key("forwarded"@),
        spells(fields["forwarded"@][0], text),
        forall|i: int| 0 <= i < text.len() ==> ' ' <= #[trigger] text[i] <= '~' || text[i] == '\t',
    ensures
        ({
            let after = crate::forward::forwarded_fields(fields, crate::address::view_of(client));
            &&& after["forwarded"@].len() == 1
            &&& spells(
                after["forwarded"@][0],
                text + ", "@ + crate::forward::forwarded_element(crate::address::view_of(client)),
            )
        }),
{
    let address = crate::address::view_of(client);
    let octets = fields["forwarded"@][0];
    law_forwarded_key();
    crate::forward::lemma_element_printable(address);
    reveal_strlit(", ");
    assert forall|i: int| 0 <= i < octets.len() implies 32 <= #[trigger] octets[i] < 127
        || octets[i] == 9 by {
        assert(octets[i] as int == text[i] as int);
    }
    assert(crate::outside::is_visible(octets));
    assert(crate::outside::ascii_text(octets) == text);
}

/// A request without `Forwarded` fields comes to have the one value that is what is forwarded of
/// the client, and nothing else.
pub proof fn law_first_value_is_the_client(
    fields: Map<Seq<char>, Seq<Seq<u8>>>,
    client: Option<ClientAddress>,
)
    requires
        !fields.contains_key("forwarded"@),
    ensures
        ({
            let after = crate::forward::forwarded_fields(fields, crate::address::view_of(client));
            &&& after["forwarded"@].len() == 1
            &&& spells(
                after["forwarded"@][0],
                crate::forward::forwarded_element(crate::address::view_of(client)),
            )
        }),
{
    law_forwarded_key();
    crate::forward::lemma_element_printable(crate::address::view_of(client));
}

/// A first `Forwarded` value that is not a text is dropped; the comma stays.
pub proof fn law_opaque_value_is_dropped(
    fields: Map<Seq<char>, Seq<Seq<u8>>>,
    at: int,
    client: Option<ClientAddress>,
)
    requires
        fields.contains_key("forwarded"@),
        0 <= at < fields["forwarded"@][0].len(),
        fields["forwarded"@][0][at] != 0x09,
        fields["forwarded"@][0][at] < 0x20 || fields["forwarded"@][0][at] > 0x7e,
    ensures
        ({
            let after = crate::forward::forwarded_fields(fields, crate::address::view_of(client));
            &&& after["forwarded"@].len() == 1
            &&& spells(
                after["forwarded"@][0],
                ", "@ + crate::forward::forwarded_element(crate::address::view_of(client)),
            )
        }),
{
    law_forwarded_key();
    reveal_strlit(", ");
    crate::forward::lemma_element_printable(crate::address::view_of(client));
    assert(!crate::outside::is_visible(fields["forwarded"@][0]));
}

/// Two clients make the fields of a request different, whatever the request had; so the one can be
/// told from the other.
pub proof fn law_clients_are_told_apart(
    fields: Map<Seq<char>, Seq<Seq<u8>>>,
    a: Option<ClientAddress>,
    b: Option<ClientAddress>,
)
    requires
        crate::forward::forwarded_fields(fields, crate::address::view_of(a))
            == crate::forward::forwarded_fields(fields, crate::address::view_of(b)),
    ensures
        a == b,
{
    let p = crate::address::view_of(a);
    let q = crate::address::view_of(b);
    law_forwarded_field(fields, p);
    law_forwarded_field(fields, q);
    let existing = crate::forward::existing_text(fields);
    let x = crate::forward::forwarded_text(existing, p);
    let y = crate::forward::forwarded_text(existing, q);
    assert(x == y);
    law_field_text(existing, p);
    law_field_text(existing, q);
    let e = crate::forward::forwarded_element(p);
    let f = crate::forward::forwarded_element(q);
    match existing {
        Some(text) => {
            let n = (text + ", "@).len() as int;
            assert(x.skip(n) == e);
            assert(y.skip(n) == f);
        },
        None => {},
    }
    crate::notation::law_element_determines(a, b);
}

/// The text of a field is what is forwarded of the client, after the text there was and a comma.
pub proof fn law_field_text(existing: Option<Seq<char>>, address: Option<AddressView>)
    ensures
        existing is None ==> crate::forward::forwarded_text(existing, address)
            == crate::forward::forwarded_element(address),
        existing matches Some(text) ==> crate::forward::forwarded_text(existing, address) == text
            + seq![',', ' '] + crate::forward::forwarded_element(address),
{
    reveal_strlit(", ");
    assert(", "@ == seq![',', ' ']);
}

/// Whether octets start with `\r\n\r\n\0\r\nQUIT\n`, as a header of version 2 does.
pub open spec fn begins_version_two(octets: Seq<u8>) -> bool {
    &&& octets.len() >= 12
    &&& octets[0] == 0x0d
    &&& octets[1] == 0x0a
    &&& octets[2] == 0x0d
    &&& octets[3] == 0x0a
    &&& octets[4] == 0x00
    &&& octets[5] == 0x0d
    &&& octets[6] == 0x0a
    &&& octets[7] == 0x51
    &&& octets[8] == 0x55
    &&& octets[9] == 0x49
    &&& octets[10] == 0x54
    &&& octets[11] == 0x0a
}

/// Whether octets start with `PROXY`, as a header of version 1 does.
pub open spec fn begins_version_one(octets: Seq<u8>) -> bool {
    &&& octets.len() >= 5
    &&& octets[0] == 0x50
    &&& octets[1] == 0x52
    &&& octets[2] == 0x4f
    &&& octets[3] == 0x58
    &&& octets[4] == 0x59
}

/// The payload length that octets 14 and 15 announce, in network order.
pub open spec fn announced(octets: Seq<u8>) -> nat {
    (256 * octets[14] + octets[15]) as nat
}

/// The signatures, octet by octet.
proof fn lemma_signatures(octets: Seq<u8>)
    ensures
        crate::header::v2_signature().is_prefix_of(octets) <==> begins_version_two(octets),
        crate::header::v1_signature().is_prefix_of(octets) <==> begins_version_one(octets),
{
    let two = crate::header::v2_signature();
    let one = crate::header::v1_signature();
    if two.is_prefix_of(octets) {
        assert forall|i: int| 0 <= i < 12 implies octets[i] == #[trigger] two[i] by {
            assert(octets.subrange(0, 12)[i] == two[i]);
        }
        assert(two[0] == 0x0d && two[1] == 0x0a && two[2] == 0x0d && two[3] == 0x0a);
        assert(two[4] == 0x00 && two[5] == 0x0d && two[6] == 0x0a && two[7] == 0x51);
        assert(two[8] == 0x55 && two[9] == 0x49 && two[10] == 0x54 && two[11] == 0x0a);
    }
    if begins_version_two(octets) {
        assert(octets.subrange(0, 12) == two);
    }
    if one.is_prefix_of(octets) {
        assert forall|i: int| 0 <= i < 5 implies octets[i] == #[trigger] one[i] by {
            assert(octets.subrange(0, 5)[i] == one[i]);
        }
        assert(one[0] == 0x50 && one[1] == 0x52 && one[2] == 0x4f && one[3] == 0x58 && one[4] == 0x59);
    }
    if begins_version_one(octets) {
        assert(octets.subrange(0, 5) == one);
    }
}

/// What follows on the first sixteen octets: the payload of the announced length is read if they
/// begin a header of version 2 of up to 512 octets; otherwise they are refused for what they are.
pub proof fn law_fixed_part(fixed: Seq<u8>)
    requires
        fixed.len() == 16,
    ensures
        begins_version_two(fixed) && announced(fixed) <= 496
            ==> crate::header::fixed_part_verdict(fixed) == Ok::<nat, RefusalView>(announced(fixed)),
        begins_version_two(fixed) && announced(fixed) > 496
            ==> crate::header::fixed_part_verdict(fixed) == Err::<nat, RefusalView>(
            RefusalView::TooLong { full_length: 16 + announced(fixed) },
        ),
        begins_version_one(fixed) ==> crate::header::fixed_part_verdict(fixed) == Err::<
            nat,
            RefusalView,
        >(RefusalView::VersionOne),
        !begins_version_two(fixed) && !begins_version_one(fixed)
            ==> crate::header::fixed_part_verdict(fixed) == Err::<nat, RefusalView>(
            RefusalView::NoHeader,
        ),
{
    lemma_signatures(fixed);
}

/// How many octets are read: sixteen, and then as many as they announce.
pub proof fn law_wanted(received: Seq<u8>)
    ensures
        received.len() == 0 ==> crate::reader::wanted_after(received) == 16,
        received.len() == 16 ==> crate::reader::wanted_after(received) == announced(received),
        crate::reader::is_progress(received) <==> received.len() == 0 || {
            &&& received.len() == 16
            &&& begins_version_two(received)
            &&& announced(received) <= 496
        },
{
    lemma_signatures(received);
}

/// What is made of a whole header. The first half of octet 12 is the version, the second the
/// command; the first half of octet 13 is the address family, the second the transport. Addresses
/// follow from octet 16 on.
pub proof fn law_whole_header(header: Seq<u8>)
    requires
        header.len() >= 16,
    ensures
        crate::header::is_whole(header) <==> begins_version_two(header) && header.len() == 16
            + announced(header),
        ({
            let verdict = crate::header::header_verdict(header);
            let known = (header[12] == 0x20 || header[12] == 0x21) && header[13] % 16 <= 2;
            let family = header[13] / 16;
            let length = announced(header);
            &&& known && family == 0 ==> verdict == Ok::<Option<AddressView>, RefusalView>(None)
            &&& known && family == 1 && length >= 12 ==> verdict == Ok::<
                Option<AddressView>,
                RefusalView,
            >(
                Some(
                    AddressView::V4 {
                        octets: header.subrange(16, 20),
                        port: (256 * header[24] + header[25]) as u16,
                    },
                ),
            )
            &&& known && family == 2 && length >= 36 ==> verdict == Ok::<
                Option<AddressView>,
                RefusalView,
            >(
                Some(
                    AddressView::V6 {
                        octets: header.subrange(16, 32),
                        port: (256 * header[48] + header[49]) as u16,
                    },
                ),
            )
            &&& known && family == 3 && length >= 216 ==> verdict == Err::<
                Option<AddressView>,
                RefusalView,
            >(
                RefusalView::UnixAddresses {
                    source: header.subrange(16, 124),
                    destination: header.subrange(124, 232),
                },
            )
            &&& !known || family > 3 || (family == 1 && length < 12) || (family == 2 && length < 36)
                || (family == 3 && length < 216) ==> verdict == Err::<
                Option<AddressView>,
                RefusalView,
            >(RefusalView::InvalidVersionOne)
        }),
{
    lemma_signatures(header);
}

/// The streams whose header is accepted, octet by octet, and what is left of them.
pub proof fn law_accepted_octets<K>(stream: Seq<u8>, kind: K, cause: Seq<char>)
    ensures
        read_proxy_header(stream, kind, cause) is Ok <==> {
            &&& stream.len() >= 16
            &&& begins_version_two(stream)
            &&& announced(stream) <= 496
            &&& stream.len() >= 16 + announced(stream)
            &&& stream[12] == 0x20 || stream[12] == 0x21
            &&& stream[13] % 16 <= 2
            &&& {
                ||| stream[13] / 16 == 0
                ||| stream[13] / 16 == 1 && announced(stream) >= 12
                ||| stream[13] / 16 == 2 && announced(stream) >= 36
            }
        },
        read_proxy_header(stream, kind, cause) matches Ok((rest, _)) ==> {
            &&& rest.len() == stream.len() - 16 - announced(stream)
            &&& forall|i: int|
                0 <= i < rest.len() ==> #[trigger] rest[i] == stream[16 + announced(stream) + i]
        },
{
    law_accepted_headers(stream, kind, cause);
    lemma_signatures(stream);
}

/// What is made of each outcome of parsing a header.
pub proof fn law_parsed_outcomes(source4: [u8; 4], source6: [u8; 16], port: u16, end: [u8; 108], other: [u8; 108])
    ensures
        crate::header::parsed_verdict(ParsedHeader::V1@) == Err::<Option<AddressView>, RefusalView>(
            Refusal::ParsedVersionOne@,
        ),
        crate::header::parsed_verdict(ParsedHeader::InvalidV1@) == Err::<
            Option<AddressView>,
            RefusalView,
        >(Refusal::InvalidVersionOne@),
        crate::header::parsed_verdict(ParsedHeader::InvalidV2@) == Err::<
            Option<AddressView>,
            RefusalView,
        >(Refusal::InvalidVersionTwo@),
        crate::header::parsed_verdict(ParsedHeader::V2(Addresses::Unspecified)@) == Ok::<
            Option<AddressView>,
            RefusalView,
        >(None),
        crate::header::parsed_verdict(
            ParsedHeader::V2(Addresses::IPv4 { source: source4, source_port: port })@,
        ) == Ok::<Option<AddressView>, RefusalView>(
            Some((ClientAddress::V4 { octets: source4, port })@),
        ),
        crate::header::parsed_verdict(
            ParsedHeader::V2(Addresses::IPv6 { source: source6, source_port: port })@,
        ) == Ok::<Option<AddressView>, RefusalView>(
            Some((ClientAddress::V6 { octets: source6, port })@),
        ),
        crate::header::parsed_verdict(
            ParsedHeader::V2(Addresses::Unix { source: end, destination: other })@,
        ) == Err::<Option<AddressView>, RefusalView>(
            (Refusal::UnixAddresses { source: end, destination: other })@,
        ),
{
}

/// What is said of client addresses and of verdicts tells all of them: different ones are different
/// in what is said.
pub proof fn law_nothing_unsaid(
    a: Result<Option<ClientAddress>, Refusal>,
    b: Result<Option<ClientAddress>, Refusal>,
)
    requires
        crate::header::verdict_view(a) == crate::header::verdict_view(b),
    ensures
        a == b,
{
    match (a, b) {
        (
            Ok(Some(ClientAddress::V4 { octets: x, port: p })),
            Ok(Some(ClientAddress::V4 { octets: y, port: q })),
        ) => {
            assert(x =~= y);
        },
        (
            Ok(Some(ClientAddress::V6 { octets: x, port: p })),
            Ok(Some(ClientAddress::V6 { octets: y, port: q })),
        ) => {
            assert(x =~= y);
        },
        (
            Err(Refusal::UnixAddresses { source: x, destination: p }),
            Err(Refusal::UnixAddresses { source: y, destination: q }),
        ) => {
            assert(x =~= y);
            assert(p =~= q);
        },
        _ => {},
    }
}

/// What is said of a verdict, case by case.
pub proof fn law_verdicts_say(
    octets4: [u8; 4],
    octets6: [u8; 16],
    port: u16,
    full_length: usize,
    source: [u8; 108],
    destination: [u8; 108],
)
    ensures
        crate::header::verdict_view(Ok(None)) == Ok::<Option<AddressView>, RefusalView>(None),
        crate::header::verdict_view(Ok(Some(ClientAddress::V4 { octets: octets4, port }))) == Ok::<
            Option<AddressView>,
            RefusalView,
        >(Some(AddressView::V4 { octets: octets4@, port })),
        crate::header::verdict_view(Ok(Some(ClientAddress::V6 { octets: octets6, port }))) == Ok::<
            Option<AddressView>,
            RefusalView,
        >(Some(AddressView::V6 { octets: octets6@, port })),
        Refusal::VersionOne@ == RefusalView::VersionOne,
        Refusal::NoHeader@ == RefusalView::NoHeader,
        (Refusal::TooLong { full_length })@ == (RefusalView::TooLong {
            full_length: full_length as nat,
        }),
        Refusal::ParsedVersionOne@ == RefusalView::ParsedVersionOne,
        (Refusal::UnixAddresses { source, destination })@ == (RefusalView::UnixAddresses {
            source: source@,
            destination: destination@,
        }),
        Refusal::InvalidVersionOne@ == RefusalView::InvalidVersionOne,
        Refusal::InvalidVersionTwo@ == RefusalView::InvalidVersionTwo,
        forall|refusal: Refusal|
            crate::header::verdict_view(Err(refusal)) == Err::<Option<AddressView>, RefusalView>(
                #[trigger] refusal@,
            ),
{
}

/// What is said of the outcome of a read, of an error, and of a step, case by case.
pub proof fn law_steps_say<K>(
    octets: Vec<u8>,
    part: HeaderPart,
    kind: K,
    cause: String,
    refusal: Refusal,
    reader: HeaderReader,
    address: Option<ClientAddress>,
    error: HeaderError<K>,
)
    ensures
        ReadEvent::<K>::Filled(octets)@ == EventView::<K>::Filled(octets@),
        (ReadEvent::Failed { kind, cause })@ == (EventView::Failed { kind, cause: cause@ }),
        (HeaderError::Unread { part, kind, cause })@ == (ErrorView::Unread {
            part,
            kind,
            cause: cause@,
        }),
        HeaderError::<K>::Refused(refusal)@ == ErrorView::<K>::Refused(refusal@),
        ReadStep::<K>::Continue(reader)@ == StepView::<K>::Continue(reader@),
        ReadStep::<K>::Finish(Ok(address))@ == StepView::<K>::Finish(
            Ok(crate::address::view_of(address)),
        ),
        ReadStep::<K>::Finish(Err(error))@ == StepView::<K>::Finish(Err(error@)),
{
}

/// A read that fails ends the reading with an error that keeps the stream's kind of error, tells
/// its description, and says which part of the header is missing.
pub proof fn law_failed_read<K>(received: Seq<u8>, kind: K, cause: Seq<char>)
    requires
        received.len() == 0 || received.len() == 16,
    ensures
        ({
            let step = crate::reader::step_after(received, EventView::Failed { kind, cause });
            &&& step matches StepView::Finish(Err(error))
            &&& error.kind() == ErrorKind::Stream(kind)
            &&& error.message() == "Stream `read_exact` error: "@ + cause + (if received.len() == 0 {
                ". Not able to read enough bytes to find a V2 Proxy Protocol header."@
            } else {
                ". Not able to read enough bytes to read the full V2 Proxy Protocol header."@
            })
        }),
{
}

/// A refused header is invalid data, and the message is that of the refusal.
pub proof fn law_refused_header<K>(refusal: RefusalView)
    ensures
        ErrorView::<K>::Refused(refusal).kind() == ErrorKind::<K>::InvalidData,
        ErrorView::<K>::Refused(refusal).message() == crate::header::refusal_text(refusal),
{
}

/// The messages of refusals. That of a header that is too long ends in its length in decimal; that
/// of a header for UNIX sockets ends in the two ends.
pub proof fn law_refusal_messages(full_length: usize, source: [u8; 108], destination: [u8; 108])
    ensures
        crate::header::refusal_text(Refusal::VersionOne@)
            == "V1 Proxy Protocol header detected, which is not supported"@,
        crate::header::refusal_text(Refusal::NoHeader@)
            == "No valid Proxy Protocol header detected"@,
        exists|n: Seq<char>|
            {
                &&& crate::header::refusal_text((Refusal::TooLong { full_length })@)
                    == "V2 Proxy Protocol header length is too long. Consider increasing default buffer size. Header length: "@
                    + n
                &&& #[trigger] crate::notation::is_numeral_of(n, full_length as nat, 10)
            },
        crate::header::refusal_text(Refusal::ParsedVersionOne@)
            == "V1 Proxy Protocol header detected when parsing data"@,
        crate::header::refusal_text((Refusal::UnixAddresses { source, destination })@)
            == "Unix socket addresses are not supported. Addresses: "@
            + crate::outside::unix_debug_text(source@, destination@),
        crate::header::refusal_text(Refusal::InvalidVersionOne@)
            == "No valid V1 Proxy Protocol header received"@,
        crate::header::refusal_text(Refusal::InvalidVersionTwo@)
            == "No valid V2 Proxy Protocol header received"@,
{
    crate::notation::law_decimal(full_length as nat);
}

} // verus!
