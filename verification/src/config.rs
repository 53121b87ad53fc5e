use vstd::prelude::*;

use vstd::string::StringExecFns;

use crate::text::{dec_chars, usize_to_string};

verus! {

/// Relies on num_cpus::get: the number of logical CPUs, documented to always
/// be at least 1.
#[verifier::external_body]
fn cpu_count() -> (n: usize)
    ensures
        n >= 1,
{
    num_cpus::get()
}

/// Server configuration. Durations are carried as whole milliseconds.
#[derive(Clone, Debug)]
pub struct ServerConfig {
    pub listen_address: String,
    pub port: u16,
    pub backlog_size: u32,
    pub connection_timeout_ms: u64,
    pub initial_buffer_size: usize,
    pub worker_threads: usize,
    pub memory_pools_initial_size: usize,
    pub max_header_size: usize,
    pub max_request_size: usize,
    pub keep_alive: bool,
    pub keep_alive_timeout_ms: u64,
}

impl ServerConfig {
    /// What every freshly constructed configuration looks like; the worker
    /// thread count comes from the machine, so only its lower bound is
    /// fixed.
    pub open spec fn is_default(&self) -> bool {
        &&& self.listen_address@ == "127.0.0.1"@
        &&& self.port == 8080
        &&& self.backlog_size == 1024
        &&& self.connection_timeout_ms == 30000
        &&& self.initial_buffer_size == 16384
        &&& self.worker_threads >= 1
        &&& self.memory_pools_initial_size == 16
        &&& self.max_header_size == 16384
        &&& self.max_request_size == 1048576
        &&& self.keep_alive == true
        &&& self.keep_alive_timeout_ms == 5000
    }

    /// Create a new configuration with default values.
    pub fn new() -> (r: ServerConfig)
        ensures
            r.is_default(),
    {
        ServerConfig::default()
    }

    /// Set the address and port to listen on.
    pub fn with_address(self, address: &str, port: u16) -> (r: ServerConfig)
        ensures
            r.listen_address@ == address@,
            r.port == port,
            r.backlog_size == self.backlog_size,
            r.connection_timeout_ms == self.connection_timeout_ms,
            r.initial_buffer_size == self.initial_buffer_size,
            r.worker_threads == self.worker_threads,
            r.memory_pools_initial_size == self.memory_pools_initial_size,
            r.max_header_size == self.max_header_size,
            r.max_request_size == self.max_request_size,
            r.keep_alive == self.keep_alive,
            r.keep_alive_timeout_ms == self.keep_alive_timeout_ms,
    {
        ServerConfig { listen_address: address.to_owned(), port, ..self }
    }

    /// Set the connection timeout, in milliseconds.
    pub fn with_connection_timeout(self, timeout_ms: u64) -> (r: ServerConfig)
        ensures
            r == (ServerConfig { connection_timeout_ms: timeout_ms, ..self }),
    {
        ServerConfig { connection_timeout_ms: timeout_ms, ..self }
    }

    /// Set the number of worker threads.
    pub fn with_worker_threads(self, threads: usize) -> (r: ServerConfig)
        ensures
            r == (ServerConfig { worker_threads: threads, ..self }),
    {
        ServerConfig { worker_threads: threads, ..self }
    }

    /// Set the initial buffer size for connections.
    pub fn with_initial_buffer_size(self, size: usize) -> (r: ServerConfig)
        ensures
            r == (ServerConfig { initial_buffer_size: size, ..self }),
    {
        ServerConfig { initial_buffer_size: size, ..self }
    }

    /// The full address string, `address:port`.
    pub fn socket_address(&self) -> (r: String)
        ensures
            r@ == self.listen_address@ + seq![':'] + dec_chars(self.port as int),
    {
        proof {
            reveal_strlit(":");
        }
        let mut s = self.listen_address.clone();
        s.append(":");
        s.append(usize_to_string(self.port as usize).as_str());
        proof {
            assert(s@ =~= self.listen_address@ + seq![':'] + dec_chars(self.port as int));
        }
        s
    }
}

impl Default for ServerConfig {
    /// The default configuration: localhost on port 8080, 30 second
    /// connection timeout, 16 KB buffers, one worker per CPU.
    fn default() -> (r: ServerConfig)
        ensures
            r.is_default(),
    {
        ServerConfig {
            listen_address: "127.0.0.1".to_owned(),
            port: 8080,
            backlog_size: 1024,
            connection_timeout_ms: 30000,
            initial_buffer_size: 16384,
            worker_threads: cpu_count(),
            memory_pools_initial_size: 16,
            max_header_size: 16384,
            max_request_size: 1048576,
            keep_alive: true,
            keep_alive_timeout_ms: 5000,
        }
    }
}

} // verus!
