//! Message catalog for a distributed file-storage service's request/response
//! protocol: a closed set of tagged request and response messages, constructor
//! helpers, and a verified self-describing wire codec for them.

pub mod codec;
pub mod messages;
pub mod wire;
