//! ICMP Echo ("ping") library: a verified packet codec for ICMPv4/ICMPv6 Echo
//! messages and a verified probe state machine that correlates one Echo Request
//! with its Echo Reply under a wall-clock deadline.

pub mod checksum;
pub mod packet;
pub mod probe;
