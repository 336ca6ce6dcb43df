use vstd::prelude::*;

verus! {

/// The host part of a resolved socket address, as plain values: a v4
/// address as its four bytes packed big-endian into a `u32`, a v6 address
/// as its sixteen bytes packed big-endian into two `u64`s (high half
/// first).
#[derive(Debug, Copy, Clone, PartialEq, Eq, Structural)]
pub enum HostIp {
    V4(u32),
    V6(u64, u64),
}

/// One resolved socket address. Name resolution happens outside the core;
/// the core only compares and routes these values.
#[derive(Debug, Copy, Clone, PartialEq, Eq, Structural)]
pub struct Addr {
    pub ip: HostIp,
    pub port: u16,
}

impl Addr {
    pub fn v4(ip: u32, port: u16) -> (a: Addr)
        ensures
            a == (Addr { ip: HostIp::V4(ip), port }),
    {
        Addr { ip: HostIp::V4(ip), port }
    }

    pub fn v6(ip_high: u64, ip_low: u64, port: u16) -> (a: Addr)
        ensures
            a == (Addr { ip: HostIp::V6(ip_high, ip_low), port }),
    {
        Addr { ip: HostIp::V6(ip_high, ip_low), port }
    }
}

} // verus!
