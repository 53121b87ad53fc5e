use vstd::prelude::*;

verus! {

/// Main error type for the server.
///
/// Each variant carries a human-readable message. The variant itself is the
/// part that contracts speak about; the message text is informational.
#[derive(Debug)]
pub enum ServerError {
    /// OS-level socket or file-descriptor failure.
    Io(String),
    /// Malformed request head.
    HttpParse(String),
    /// Invalid cursor advance in a buffer.
    Buffer(String),
    /// Pool allocate/free failure.
    Memory(String),
    /// Invariant violation in the connection layer.
    Connection(String),
    /// Poller registration failure.
    EventLoop(String),
    /// Reserved for future protocol layers.
    Protocol(String),
    /// Configuration failure.
    Config(String),
    /// JSON serialisation failure.
    Json(String),
}

pub type ServerResult<T> = Result<T, ServerError>;

impl ServerError {
    /// The message carried by the error, whatever the variant.
    pub fn message(&self) -> (r: &String)
        ensures
            r@ == self.spec_message(),
    {
        match self {
            ServerError::Io(m) => m,
            ServerError::HttpParse(m) => m,
            ServerError::Buffer(m) => m,
            ServerError::Memory(m) => m,
            ServerError::Connection(m) => m,
            ServerError::EventLoop(m) => m,
            ServerError::Protocol(m) => m,
            ServerError::Config(m) => m,
            ServerError::Json(m) => m,
        }
    }

    pub open spec fn spec_message(&self) -> Seq<char> {
        match self {
            ServerError::Io(m) => m@,
            ServerError::HttpParse(m) => m@,
            ServerError::Buffer(m) => m@,
            ServerError::Memory(m) => m@,
            ServerError::Connection(m) => m@,
            ServerError::EventLoop(m) => m@,
            ServerError::Protocol(m) => m@,
            ServerError::Config(m) => m@,
            ServerError::Json(m) => m@,
        }
    }
}

} // verus!
