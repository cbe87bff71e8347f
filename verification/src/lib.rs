//! A user-space TCP core: a bounded byte stream, a stream reassembler,
//! wrapping sequence-number arithmetic, a sender, a receiver, and a
//! connection state machine, together with the byte-level helpers that
//! parse and serialize the TCP, IPv4 and Ethernet headers they ride in.

pub mod byte_stream;
pub mod stream_reassembler;
pub mod wrapping_integers;
pub mod tcp_receiver;
pub mod tcp_sender;
pub mod tcp_connection;
pub mod tcp_state;
pub mod tcp_config;
pub mod tcp_header;
pub mod tcp_segment;
pub mod tcp_over_ip;
pub mod ipv4_header;
pub mod ipv4_datagram;
pub mod ethernet_header;
pub mod ethernet_frame;
pub mod buffer;
pub mod parser;
pub mod util;
