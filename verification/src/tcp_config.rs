//! Configuration of a connection: capacities, timeouts, the
//! retransmission limit, and an optional fixed initial sequence number.

use vstd::prelude::*;

verus! {

use crate::wrapping_integers::WrappingU32;

pub const DEFAULT_CAPACITY: usize = 64000;
pub const MAX_PAYLOAD_SIZE: usize = 1452;
pub const TIMEOUT_DFLT: u16 = 1000;
pub const MAX_RETX_ATTEMPTS: u32 = 8;

#[derive(Debug, Clone, Copy)]
pub struct TCPConfig {
    pub capacity: usize,
    pub max_payload_size: usize,
    pub timeout_default: u16,
    pub max_retx_attempts: u32,
    pub rt_timeout: u16,
    pub recv_capacity: usize,
    pub send_capacity: usize,
    pub fixed_isn: Option<WrappingU32>,
}

impl Default for TCPConfig {
    /// The defaults: 64000-byte capacities, 1000 ms initial timeout,
    /// 8 retransmission attempts, and a random initial sequence number.
    fn default() -> (r: Self)
        ensures
            r.capacity == DEFAULT_CAPACITY,
            r.max_payload_size == MAX_PAYLOAD_SIZE,
            r.timeout_default == TIMEOUT_DFLT,
            r.max_retx_attempts == MAX_RETX_ATTEMPTS,
            r.rt_timeout == TIMEOUT_DFLT,
            r.recv_capacity == DEFAULT_CAPACITY,
            r.send_capacity == DEFAULT_CAPACITY,
            r.fixed_isn is None,
    {
        TCPConfig {
            capacity: DEFAULT_CAPACITY,
            max_payload_size: MAX_PAYLOAD_SIZE,
            timeout_default: TIMEOUT_DFLT,
            max_retx_attempts: MAX_RETX_ATTEMPTS,
            rt_timeout: TIMEOUT_DFLT,
            recv_capacity: DEFAULT_CAPACITY,
            send_capacity: DEFAULT_CAPACITY,
            fixed_isn: None,
        }
    }
}

/// An IPv4 address and port as plain values, for the adapter that wraps
/// TCP segments in IP datagrams.
#[derive(Debug, Default, Clone, Copy, PartialEq, Eq, Structural)]
pub struct AddrV4 {
    pub ip: u32,
    pub port: u16,
}

#[derive(Debug, Default, Clone, Copy, PartialEq, Eq, Structural)]
pub struct FDAdapterConfig {
    pub source: AddrV4,
    pub destination: AddrV4,
    pub loss_rate_dn: u16,
    pub loss_rate_up: u16,
}

} // verus!
