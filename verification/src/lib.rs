//! An HTTP/1.1 forward proxy core: the message model with its parser and
//! serializer, the status registry, the header collection, and the
//! per-connection tunnel engine, all stated over mathematical models and
//! proved against them.

pub mod args;
pub mod headers;
pub mod proxy;
pub mod request;
pub mod response;
pub mod round_trip;
pub mod status;
pub mod streams;
pub mod text;
pub mod wire;
