use vstd::prelude::*;

use crate::buffer::{growth_fits, Buffer};
use crate::connection::ConnectionState;
use crate::error::{ServerError, ServerResult};
use crate::http::{
    initial_model, spec_parse_step, spec_query_params, spec_serialize, HttpParser,
    HttpParserState, Request, Response,
};

verus! {

/// Readiness bit reported when a connection is readable.
pub const EVENT_READ: u32 = 0x001;

/// Readiness bit reported when a connection is writable.
pub const EVENT_WRITE: u32 = 0x004;

/// Readiness bit reported when the peer hung up.
pub const EVENT_HUP: u32 = 0x008;

/// Readiness bit reported on a socket error.
pub const EVENT_ERR: u32 = 0x010;

/// How many accepts a worker attempts per loop iteration.
pub const ACCEPT_BATCH: usize = 10;

/// How long one poll waits, in milliseconds.
pub const POLL_TIMEOUT_MS: u64 = 100;

/// The default per-connection timeout, in milliseconds.
pub const DEFAULT_TIMEOUT_MS: u64 = 30000;

/// How an event's bits are dispatched: an error or hang-up closes the
/// connection; otherwise readable and writable interest are handled in that
/// order.
pub fn classify_event(bits: u32) -> (r: (bool, bool, bool))
    ensures
        r.0 == ((bits & EVENT_READ) != 0),
        r.1 == ((bits & EVENT_WRITE) != 0),
        r.2 == ((bits & (EVENT_HUP | EVENT_ERR)) != 0),
{
    ((bits & EVENT_READ) != 0, (bits & EVENT_WRITE) != 0, (bits & (EVENT_HUP | EVENT_ERR)) != 0)
}

/// Drive the parser with freshly received bytes. When the request is not
/// yet complete, there is nothing to hand out; once it completes, the
/// parsed request is returned and the parser is reset for the next one.
pub fn drive_parser(parser: &mut HttpParser, data: &[u8]) -> (r: ServerResult<Option<Request>>)
    ensures
        ({
            let stepped = spec_parse_step(old(parser)@, data@);
            &&& (!stepped.1 ==> (r matches Err(e) && e is HttpParse) && final(parser)@
                == stepped.0)
            &&& (stepped.1 && stepped.0.state != HttpParserState::Complete ==> (r matches Ok(o)
                && o is None) && final(parser)@ == stepped.0)
            &&& (stepped.1 && stepped.0.state == HttpParserState::Complete
                && (stepped.0.method is None || stepped.0.uri is None) ==> (r matches Err(e)
                && e is HttpParse) && final(parser)@ == stepped.0)
            &&& (stepped.1 && stepped.0.state == HttpParserState::Complete
                && stepped.0.method is Some && stepped.0.uri is Some ==> (r matches Ok(o)
                && o matches Some(req) && {
                &&& req.method == stepped.0.method.unwrap()
                &&& req.uri@ == stepped.0.uri.unwrap()
                &&& req.headers@ == stepped.0.headers
                &&& req.body@ == stepped.0.body
                &&& req.query_params@ == spec_query_params(stepped.0.uri.unwrap())
            }) && final(parser)@ == initial_model())
        }),
{
    match parser.parse(data) {
        Ok(u) => {},
        Err(e) => {
            return Err(e);
        },
    }
    if !parser.is_complete() {
        return Ok(None);
    }
    let request = match parser.get_request() {
        Ok(req) => req,
        Err(e) => {
            return Err(e);
        },
    };
    parser.reset();
    Ok(Some(request))
}

/// Serialise a response into a connection's outgoing buffer; the buffer's
/// live bytes grow by exactly the wire form of the response.
pub fn queue_response(buffer: &mut Buffer, response: &Response) -> (r: ServerResult<()>)
    requires
        old(buffer).inv(),
        growth_fits(
            old(buffer)@,
            spec_serialize(response.status, response.headers@, response.body@).len() as int,
        ),
    ensures
        final(buffer).inv(),
        r matches Ok(u),
        final(buffer).live() == old(buffer).live() + spec_serialize(
            response.status,
            response.headers@,
            response.body@,
        ),
{
    let mut encoded: Vec<u8> = Vec::new();
    match response.serialize(&mut encoded) {
        Ok(u) => {},
        Err(e) => {
            return Err(e);
        },
    }
    match buffer.write(encoded.as_slice()) {
        Ok(n) => Ok(()),
        Err(e) => Err(e),
    }
}

/// Bookkeeping after a socket write of `bytes_written` bytes from the
/// buffer's live region: the read cursor advances, and the connection goes
/// back to reading once the buffer has drained, else keeps writing.
pub fn after_write(buffer: &mut Buffer, bytes_written: usize) -> (r: ServerResult<
    ConnectionState,
>)
    requires
        old(buffer).inv(),
    ensures
        final(buffer).inv(),
        bytes_written > old(buffer)@.available() ==> (r matches Err(e) && e is Buffer) && final(buffer)@ == old(buffer)@,
        bytes_written <= old(buffer)@.available() ==> (r matches Ok(st) && {
            &&& final(buffer).live() == old(buffer).live().skip(bytes_written as int)
            &&& (final(buffer)@.available() == 0 ==> st == ConnectionState::Reading)
            &&& (final(buffer)@.available() > 0 ==> st == ConnectionState::Writing)
        }),
{
    match buffer.advance_read(bytes_written) {
        Ok(u) => {},
        Err(e) => {
            return Err(e);
        },
    }
    if buffer.available_data() == 0 {
        Ok(ConnectionState::Reading)
    } else {
        Ok(ConnectionState::Writing)
    }
}

} // verus!
