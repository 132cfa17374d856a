//! Extraction of two application-layer identifiers from the TCP payloads of a
//! network flow: the value of an HTTP `PHPSESSID` cookie and the server name
//! that a TLS `ClientHello` announces.
//!
//! Every parser here works on a single, possibly truncated packet payload. A
//! payload that is too short or malformed yields no value; it never causes a
//! read outside the buffer.

pub mod cursor;
pub mod flow;
pub mod http;
pub mod text;
pub mod tls;
