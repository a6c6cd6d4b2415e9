//! Configuration of acceptors that read a PROXY protocol header.
use std::time::Duration;
use vstd::prelude::*;

verus! {

/// Acceptor wrapper for receiving Proxy Protocol headers.
pub struct ProxyProtocolAcceptor<A> {
    /// The acceptor that takes over once the header has been read.
    pub inner: A,
    /// How long to wait for the header.
    pub parsing_timeout: Duration,
}

impl<A: Clone> Clone for ProxyProtocolAcceptor<A> {
    fn clone(&self) -> (copy: Self)
        ensures
            cloned(self.inner, copy.inner),
            copy.parsing_timeout == self.parsing_timeout,
    {
        ProxyProtocolAcceptor {
            inner: self.inner.clone(),
            parsing_timeout: self.parsing_timeout,
        }
    }
}

/// How long to wait for the header by default.
pub open spec fn default_timeout() -> Duration {
    crate::outside::duration_from_secs(10)
}

impl<A> ProxyProtocolAcceptor<A> {
    /// Create a new proxy protocol acceptor from an initial acceptor.
    /// This is compatible with tls acceptors.
    pub fn new(inner: A) -> (acceptor: Self)
        ensures
            acceptor.inner == inner,
            acceptor.parsing_timeout == default_timeout(),
    {
        ProxyProtocolAcceptor { inner, parsing_timeout: Duration::from_secs(10) }
    }

    /// Override the default Proxy Header parsing timeout of 10 seconds.
    pub fn parsing_timeout(self, val: Duration) -> (acceptor: Self)
        ensures
            acceptor.inner == self.inner,
            acceptor.parsing_timeout == val,
    {
        ProxyProtocolAcceptor { inner: self.inner, parsing_timeout: val }
    }

    /// Overwrite inner acceptor.
    pub fn acceptor<Acceptor>(self, acceptor: Acceptor) -> (replaced: ProxyProtocolAcceptor<
        Acceptor,
    >)
        ensures
            replaced.inner == acceptor,
            replaced.parsing_timeout == self.parsing_timeout,
    {
        ProxyProtocolAcceptor { inner: acceptor, parsing_timeout: self.parsing_timeout }
    }
}

} // verus!
