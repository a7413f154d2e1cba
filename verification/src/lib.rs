//! A client library for the Simple Service Discovery Protocol (SSDP), the
//! UDP-multicast discovery mechanism underlying UPnP.
//!
//! The library holds the protocol logic: the search-target / URN grammar with
//! its canonical encoding and strict parser, the header-line parser for
//! HTTP-like response datagrams, the assembly of `SearchResponse` records, the
//! formatting of the outgoing M-SEARCH request, and the per-event decisions of
//! the discovery stream. The sockets themselves are owned by the caller, who
//! feeds each received datagram (or receive failure, or the expiry of the
//! caller's timeout) into the stream-step function and performs the returned
//! action.

pub mod error;
pub mod header;
pub mod search;
pub mod search_target;
pub mod text;

pub use error::Error;
pub use error::ParseSearchTargetError;
pub use error::ParseURNError;
pub use header::parse_headers;
pub use search::decode_datagram;
pub use search::decode_response;
pub use search::format_search_request;
pub use search::stream_step;
pub use search::RecvEvent;
pub use search::SearchResponse;
pub use search::StreamStep;
pub use search::SSDP_BUFFER_LEN;
pub use search_target::SearchTarget;
pub use search_target::URN;
