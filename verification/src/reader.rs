//! The steps of reading a header from the beginning of a stream.
//!
//! [`HeaderReader`] decides how many octets to read and what to make of them; whoever owns the
//! stream does the reading.
use crate::address::ClientAddress;
use crate::header::{inspect_fixed_part, inspect_header, Refusal, FIXED_LENGTH, MAX_LENGTH};
use vstd::prelude::*;
use vstd::string::*;

verus! {

/// The two parts of a header.
#[derive(Clone, Copy, Debug, PartialEq, Eq, Structural)]
pub enum HeaderPart {
    /// The first sixteen octets.
    Fixed,
    /// What follows the fixed part.
    Payload,
}

/// What came of reading octets from the stream. `K` is the stream's own kind of error.
pub enum ReadEvent<K> {
    /// All the octets that were asked for.
    Filled(Vec<u8>),
    /// An error of this kind, described by `cause`.
    Failed { kind: K, cause: String },
}

/// What a [`ReadEvent`] says.
#[verifier::ext_equal]
pub enum EventView<K> {
    Filled(Seq<u8>),
    Failed { kind: K, cause: Seq<char> },
}

impl<K> View for ReadEvent<K> {
    type V = EventView<K>;

    open spec fn view(&self) -> EventView<K> {
        match self {
            ReadEvent::Filled(octets) => EventView::Filled(octets@),
            ReadEvent::Failed { kind, cause } => EventView::Failed { kind: *kind, cause: cause@ },
        }
    }
}

/// Why no header was read.
#[derive(Debug)]
pub enum HeaderError<K> {
    /// A part of the header could not be read from the stream.
    Unread { part: HeaderPart, kind: K, cause: String },
    /// What was read is not an acceptable header.
    Refused(Refusal),
}

/// What a [`HeaderError`] says.
#[verifier::ext_equal]
pub enum ErrorView<K> {
    Unread { part: HeaderPart, kind: K, cause: Seq<char> },
    Refused(crate::header::RefusalView),
}

impl<K> View for HeaderError<K> {
    type V = ErrorView<K>;

    open spec fn view(&self) -> ErrorView<K> {
        match self {
            HeaderError::Unread { part, kind, cause } => ErrorView::Unread {
                part: *part,
                kind: *kind,
                cause: cause@,
            },
            HeaderError::Refused(refusal) => ErrorView::Refused(refusal@),
        }
    }
}

/// The kind of an error in reading a header.
#[derive(Debug, PartialEq, Eq)]
pub enum ErrorKind<K> {
    /// The stream failed with an error of this kind.
    Stream(K),
    /// The stream held something else than an acceptable header.
    InvalidData,
}

impl<K> ErrorView<K> {
    /// The kind of the error.
    pub open spec fn kind(self) -> ErrorKind<K> {
        match self {
            ErrorView::Unread { kind, .. } => ErrorKind::Stream(kind),
            ErrorView::Refused(_) => ErrorKind::InvalidData,
        }
    }

    /// The message of the error.
    pub open spec fn message(self) -> Seq<char> {
        match self {
            ErrorView::Unread { part: HeaderPart::Fixed, cause, .. } => "Stream `read_exact` error: "@
                + cause
                + ". Not able to read enough bytes to find a V2 Proxy Protocol header."@,
            ErrorView::Unread { part: HeaderPart::Payload, cause, .. } => {
                "Stream `read_exact` error: "@ + cause
                    + ". Not able to read enough bytes to read the full V2 Proxy Protocol header."@
            },
            ErrorView::Refused(refusal) => crate::header::refusal_text(refusal),
        }
    }
}

impl<K> HeaderError<K> {
    /// The kind and the message of the error.
    pub fn into_parts(self) -> (parts: (ErrorKind<K>, String))
        ensures
            parts.0 == self@.kind(),
            parts.1@ == self@.message(),
    {
        match self {
            HeaderError::Unread { part, kind, cause } => {
                let mut message = "Stream `read_exact` error: ".to_owned();
                message.append(cause.as_str());
                match part {
                    HeaderPart::Fixed => message.append(
                        ". Not able to read enough bytes to find a V2 Proxy Protocol header.",
                    ),
                    HeaderPart::Payload => message.append(
                        ". Not able to read enough bytes to read the full V2 Proxy Protocol header.",
                    ),
                }
                (ErrorKind::Stream(kind), message)
            },
            HeaderError::Refused(refusal) => (ErrorKind::InvalidData, refusal.message()),
        }
    }
}

/// The state of reading a header: nothing read yet, or the fixed part read.
pub struct HeaderReader {
    received: Vec<u8>,
}

impl View for HeaderReader {
    type V = Seq<u8>;

    /// The octets read so far.
    closed spec fn view(&self) -> Seq<u8> {
        self.received@
    }
}

/// Whether reading can go on after these octets: either none, or a fixed part that is acceptable.
pub open spec fn is_progress(received: Seq<u8>) -> bool {
    received.len() == 0 || {
        &&& received.len() == 16
        &&& crate::header::fixed_part_verdict(received) is Ok
    }
}

/// The part of the header to read after these octets.
pub open spec fn part_after(received: Seq<u8>) -> HeaderPart {
    if received.len() == 0 {
        HeaderPart::Fixed
    } else {
        HeaderPart::Payload
    }
}

/// How many octets to read after these.
pub open spec fn wanted_after(received: Seq<u8>) -> nat {
    if received.len() == 0 {
        16
    } else {
        crate::header::payload_length(received)
    }
}

/// What to do after a read.
pub enum ReadStep<K> {
    /// Read on.
    Continue(HeaderReader),
    /// Stop: the header has been read, and gives a client address or none; or there was an error.
    Finish(Result<Option<ClientAddress>, HeaderError<K>>),
}

/// What a [`ReadStep`] says.
#[verifier::ext_equal]
pub enum StepView<K> {
    Continue(Seq<u8>),
    Finish(Result<Option<crate::address::AddressView>, ErrorView<K>>),
}

impl<K> View for ReadStep<K> {
    type V = StepView<K>;

    open spec fn view(&self) -> StepView<K> {
        match self {
            ReadStep::Continue(reader) => StepView::Continue(reader@),
            ReadStep::Finish(Ok(address)) => StepView::Finish(Ok(crate::address::view_of(*address))),
            ReadStep::Finish(Err(error)) => StepView::Finish(Err(error@)),
        }
    }
}

/// What to do when, after the octets received so far, a read had this outcome.
pub open spec fn step_after<K>(received: Seq<u8>, event: EventView<K>) -> StepView<K> {
    match event {
        EventView::Failed { kind, cause } => StepView::Finish(
            Err(ErrorView::Unread { part: part_after(received), kind, cause }),
        ),
        EventView::Filled(octets) => if received.len() == 0 {
            match crate::header::fixed_part_verdict(octets) {
                Ok(_) => StepView::Continue(octets),
                Err(refusal) => StepView::Finish(Err(ErrorView::Refused(refusal))),
            }
        } else {
            match crate::header::header_verdict(received + octets) {
                Ok(address) => StepView::Finish(Ok(address)),
                Err(refusal) => StepView::Finish(Err(ErrorView::Refused(refusal))),
            }
        },
    }
}

impl HeaderReader {
    #[verifier::type_invariant]
    spec fn well_formed(&self) -> bool {
        is_progress(self.received@)
    }

    /// Starts reading.
    pub fn new() -> (reader: HeaderReader)
        ensures
            reader@ == Seq::<u8>::empty(),
    {
        HeaderReader { received: Vec::new() }
    }

    /// How many octets to read next.
    pub fn wanted(&self) -> (count: usize)
        ensures
            is_progress(self@),
            count == wanted_after(self@),
            self@.len() + count <= MAX_LENGTH,
    {
        proof {
            use_type_invariant(&*self);
        }
        if self.received.len() == 0 {
            FIXED_LENGTH
        } else {
            self.received[14] as usize * 256 + self.received[15] as usize
        }
    }

    /// Takes the outcome of reading the wanted octets and says what to do next.
    pub fn step<K>(self, event: ReadEvent<K>) -> (step: ReadStep<K>)
        requires
            event matches ReadEvent::Filled(octets) ==> octets@.len() == wanted_after(self@),
        ensures
            step@ == step_after(self@, event@),
    {
        proof {
            use_type_invariant(&self);
        }
        match event {
            ReadEvent::Failed { kind, cause } => {
                let part = if self.received.len() == 0 {
                    HeaderPart::Fixed
                } else {
                    HeaderPart::Payload
                };
                ReadStep::Finish(Err(HeaderError::Unread { part, kind, cause }))
            },
            ReadEvent::Filled(octets) => {
                if self.received.len() == 0 {
                    match inspect_fixed_part(octets.as_slice()) {
                        Ok(_) => ReadStep::Continue(HeaderReader { received: octets }),
                        Err(refusal) => ReadStep::Finish(Err(HeaderError::Refused(refusal))),
                    }
                } else {
                    let mut header = self.received;
                    let mut rest = octets;
                    header.append(&mut rest);
                    proof {
                        let signature = crate::header::v2_signature();
                        assert(header@.subrange(0, signature.len() as int)
                            == self@.subrange(0, signature.len() as int));
                    }
                    match inspect_header(header.as_slice()) {
                        Ok(address) => ReadStep::Finish(Ok(address)),
                        Err(refusal) => ReadStep::Finish(Err(HeaderError::Refused(refusal))),
                    }
                }
            },
        }
    }
}

} // verus!
