//! Netlink message layouts and the decisions around them: reading and
//! writing netlink headers, walking a buffer of messages, framing a byte
//! stream into messages, building requests and reading interface addresses
//! out of `RTM_NEWADDR` replies.
pub mod endian;
pub mod packet;
pub mod tokio;
