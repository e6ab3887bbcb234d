//! Core of a transparent UDP proxy: SOCKSv5 UDP relay framing, QUIC Initial
//! inspection for server-name extraction, upstream health scoring, and the
//! flow-dispatch decisions, all with verified contracts.
pub mod checking;
pub mod crypto;
pub mod dispatch;
pub mod meter;
pub mod net;
pub mod ping;
pub mod quic;
pub mod server;
pub mod socks5;
pub mod tls;
pub mod upstream;
