//! Contracts of the pluggable capability handlers a host wires in at session
//! construction time.
//!
//! Each trait is one capability family.  A handler is an independently
//! implemented collaborator: nothing is assumed about when it fails, so every
//! method returns a `Result` whose error is the handler's own message.  The
//! dispatch layer decides what each outcome means for the guest.
//!
//! The logging, messaging and configuration operations are these handler
//! calls themselves, one to one, and their failures are host-fatal; only
//! operations that touch the resource table have dispatch functions of
//! their own.

use vstd::prelude::*;

verus! {

/// Severity of a log record.
#[derive(Clone, Copy, PartialEq, Eq, Structural, Debug)]
pub enum LogLevel {
    Trace,
    Debug,
    Info,
    Warn,
    Error,
}

/// The unit exchanged by messaging operations.
pub struct BrokerMessage {
    pub subject: String,
    pub body: Option<Vec<u8>>,
    pub reply_to: Option<String>,
}

/// An outbound HTTP request with a buffered body and explicit timeouts, all
/// in milliseconds.
pub struct OutgoingHttpRequest {
    pub use_tls: bool,
    pub authority: String,
    pub method: String,
    pub path_with_query: String,
    pub headers: Vec<(String, Vec<u8>)>,
    pub body: Vec<u8>,
    pub connect_timeout_ms: u64,
    pub first_byte_timeout_ms: u64,
    pub between_bytes_timeout_ms: u64,
}

/// The response to an [`OutgoingHttpRequest`].
pub struct HttpResponse {
    pub status: u16,
    pub headers: Vec<(String, Vec<u8>)>,
    pub body: Vec<u8>,
}

/// Key-value atomic operations.
pub trait KeyValueAtomic {
    /// Add `delta` to the counter at `key`, treating an absent counter as 0,
    /// and return the new value.
    fn increment(&mut self, bucket: &String, key: String, delta: u64) -> Result<u64, String>;

    /// Replace the value at `key` with `new_value` only if it currently
    /// equals `old_value`; report whether the swap happened.
    fn compare_and_swap(
        &mut self,
        bucket: &String,
        key: String,
        old_value: u64,
        new_value: u64,
    ) -> Result<bool, String>;
}

/// Key-value read/write operations.  `get` returns the stored bytes together
/// with the size the backend declares for them.
pub trait KeyValueReadWrite {
    fn get(&mut self, bucket: &String, key: String) -> Result<(Vec<u8>, u64), String>;

    fn set(&mut self, bucket: &String, key: String, value: Vec<u8>) -> Result<(), String>;

    fn delete(&mut self, bucket: &String, key: String) -> Result<(), String>;

    fn contains(&mut self, bucket: &String, key: String) -> Result<bool, String>;
}

/// Logging.
pub trait Logging {
    fn log(&mut self, level: LogLevel, context: String, message: String) -> Result<(), String>;
}

/// Messaging over a broker.
pub trait Messaging {
    fn request(&mut self, msg: BrokerMessage, timeout_ms: u64) -> Result<BrokerMessage, String>;

    fn request_multi(
        &mut self,
        msg: BrokerMessage,
        timeout_ms: u64,
        max_results: u64,
    ) -> Result<Vec<BrokerMessage>, String>;

    fn publish(&mut self, msg: BrokerMessage) -> Result<(), String>;
}

/// Outbound HTTP.
pub trait OutboundHttp {
    fn handle(&mut self, request: OutgoingHttpRequest) -> Result<HttpResponse, String>;
}

/// Configuration lookup.
pub trait Config {
    fn get(&mut self, key: &String) -> Result<Option<Vec<u8>>, String>;

    fn get_all(&mut self) -> Result<Vec<(String, Vec<u8>)>, String>;
}

} // verus!
