//! Wraps TCP segments in IPv4 datagrams and back, matching addresses
//! and ports against the adapter's configuration; in listening mode the
//! first SYN fixes the peer.

use vstd::prelude::*;

verus! {

use crate::ipv4_datagram::IPv4Datagram;
use crate::ipv4_header::{IPv4Header, IPV4_PROTO_TCP};
use crate::tcp_config::{AddrV4, FDAdapterConfig};
use crate::tcp_segment::TCPSegment;

/// An IPv4 address as its 32-bit number.
#[derive(Debug, Default, Clone, Copy, PartialEq, Eq, Structural)]
pub struct IPv4NUM(pub u32);

pub struct TCPOverIPv4Adapter {
    cfg: FDAdapterConfig,
    listen: bool,
}

impl TCPOverIPv4Adapter {
    pub closed spec fn spec_cfg(&self) -> FDAdapterConfig {
        self.cfg
    }

    pub closed spec fn spec_listen(&self) -> bool {
        self.listen
    }

    pub fn new(cfg: FDAdapterConfig) -> (r: Self)
        ensures
            r.spec_cfg() == cfg,
            !r.spec_listen(),
    {
        TCPOverIPv4Adapter { cfg, listen: false }
    }

    pub fn cfg(&self) -> (r: &FDAdapterConfig)
        ensures
            *r == self.spec_cfg(),
    {
        &self.cfg
    }

    pub fn listen(&self) -> (r: bool)
        ensures
            r == self.spec_listen(),
    {
        self.listen
    }

    pub fn set_listening(&mut self, l: bool)
        ensures
            final(self).spec_listen() == l,
            final(self).spec_cfg() == old(self).spec_cfg(),
    {
        self.listen = l;
    }

    /// Pulls the TCP segment out of an IPv4 datagram: the datagram must
    /// be TCP, addressed per the configuration (in listening mode the
    /// first SYN adopts the peer instead), with an intact checksum and
    /// matching ports.
    pub fn unwrap_tcp_in_ip(&mut self, ip_dgram: &IPv4Datagram) -> (r: Option<TCPSegment>)
        requires
            ip_dgram.wf(),
            ip_dgram.header.len >= 4 * (ip_dgram.header.hlen as int),
        ensures
            r is Some ==> r->0.wf(),
            r is Some ==> ip_dgram.header.proto == IPV4_PROTO_TCP,
            r is Some ==> r->0.header.dst_port == final(self).spec_cfg().source.port,
            r is Some ==> r->0.header.src_port == final(self).spec_cfg().destination.port,
            r is Some ==> !final(self).spec_listen(),
            !old(self).spec_listen() ==> final(self).spec_cfg() == old(self).spec_cfg()
                && !final(self).spec_listen(),
            !old(self).spec_listen() && r is Some
                ==> ip_dgram.header.dst == old(self).spec_cfg().source.ip
                    && ip_dgram.header.src == old(self).spec_cfg().destination.ip,
            old(self).spec_listen() && final(self).spec_listen()
                ==> *final(self) == *old(self) && r is None,
    {
        let dgram_src = IPv4NUM(ip_dgram.header.src);
        let dgram_dst = IPv4NUM(ip_dgram.header.dst);
        if !self.listen
            && (dgram_dst.0 != self.cfg.source.ip || dgram_src.0 != self.cfg.destination.ip) {
            return None;
        }
        if ip_dgram.header.proto != IPV4_PROTO_TCP {
            return None;
        }
        let mut tcp_seg = TCPSegment::new_empty();
        let payload = ip_dgram.payload.clone();
        let parsed = tcp_seg.parse(payload, ip_dgram.header.pseudo_cksum());
        if parsed.is_err() {
            return None;
        }
        if self.listen {
            if tcp_seg.header.syn && !tcp_seg.header.rst {
                self.cfg.destination = AddrV4 {
                    ip: dgram_src.0,
                    port: tcp_seg.header.src_port,
                };
                self.cfg.source = AddrV4 { ip: dgram_dst.0, ..self.cfg.source };
                self.listen = false;
            } else {
                return None;
            }
        }
        if tcp_seg.header.dst_port != self.cfg.source.port {
            return None;
        }
        if tcp_seg.header.src_port != self.cfg.destination.port {
            return None;
        }
        Some(tcp_seg)
    }

    /// Wraps a TCP segment in an IPv4 datagram addressed per the
    /// configuration, stamping the segment's ports; a segment too large
    /// for the 16-bit total length is refused.
    pub fn wrap_tcp_in_ip(&mut self, tcp_seg: TCPSegment) -> (r: Option<IPv4Datagram>)
        requires
            tcp_seg.wf(),
        ensures
            final(self).spec_cfg() == old(self).spec_cfg(),
            final(self).spec_listen() == old(self).spec_listen(),
            r is Some ==> {
                &&& r->0.wf()
                &&& r->0.header.src == old(self).spec_cfg().source.ip
                &&& r->0.header.dst == old(self).spec_cfg().destination.ip
                &&& r->0.header.proto == IPV4_PROTO_TCP
                &&& r->0.header.len as int == 20 + r->0.payload@.len()
            },
    {
        let mut tcp_seg = tcp_seg;
        tcp_seg.header.src_port = self.cfg.source.port;
        tcp_seg.header.dst_port = self.cfg.destination.port;
        if tcp_seg.header.data_offset < 5 {
            return None;
        }
        let mut header = IPv4Header::default();
        header.src = self.cfg.source.ip;
        header.dst = self.cfg.destination.ip;
        let payload_size = tcp_seg.payload.size();
        if payload_size > 0xFFFF - 40 - 4 * (tcp_seg.header.data_offset as usize) {
            return None;
        }
        let seg_len: usize = 4 * (tcp_seg.header.data_offset as usize) + payload_size;
        header.len = 20 + (seg_len as u16);
        let wire = match tcp_seg.serialize(header.pseudo_cksum()) {
            Ok(v) => v,
            Err(_) => {
                return None;
            },
        };
        let dgram = IPv4Datagram {
            header,
            payload: crate::buffer::Buffer::new(wire),
        };
        if dgram.payload.size() != (header.len as usize) - 20 {
            return None;
        }
        Some(dgram)
    }
}

} // verus!
