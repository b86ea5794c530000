//! Layouts of the messages exchanged over a netlink socket.
pub mod netlink;
pub mod route;
pub mod audit;
pub mod stream;
