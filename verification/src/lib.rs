//! An HTTP/1.x wire-format decoder and encoder.
//!
//! Raw bytes from a byte-stream transport are decoded into a structured
//! [`request::Request`]; a structured [`response::Response`] is encoded back
//! into wire bytes.  Request-line, query-string, header-block and version
//! parsing, the body-framing decision and response serialization all live
//! here, with contracts stating exactly which inputs are accepted and what
//! comes back.  Socket handling and connection scheduling are left to the
//! caller, which hands the decoder plain lines and bytes.

pub mod error;
pub mod framing;
pub mod headers;
pub mod method;
pub mod num;
pub mod query;
pub mod querystring;
pub mod request;
pub mod response;
pub mod router;
pub mod routes;
pub mod strmap;
pub mod svc;
pub mod text;
pub mod wire;

pub use router::FedoraRouter;
