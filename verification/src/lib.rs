//! Support for servers behind a layer 4 load balancer that preserves the client IP address and
//! port with the PROXY protocol.
//! See the PROXY protocol spec: <https://www.haproxy.org/download/1.8/doc/proxy-protocol.txt>.
//!
//! The load balancer puts a header before what the client sends. [`reader`] says how to read it from
//! the beginning of the stream and takes the client address from it. [`forward`] hands the address
//! on in the HTTP `Forwarded` header of requests. [`accept`] puts the two together for a connection,
//! and [`acceptor`] holds the configuration. Only version 2 of the header is supported.
//!
//! Everything here is plain computation, with contracts that are proved. The proofs rest on the
//! contracts in [`outside`], on functions of other crates. [`laws`] states what holds of the
//! functions taken together, and [`notation`] what the texts that they write mean.
pub mod accept;
pub mod acceptor;
pub mod address;
pub mod forward;
pub mod header;
pub mod laws;
pub mod notation;
pub mod outside;
pub mod reader;
pub mod text;

pub use acceptor::ProxyProtocolAcceptor;
pub use forward::ForwardClientIp;
