//! The SFTP client: what is sent to the server, and what its answers mean.
//!
//! Nothing here touches a connection. An operation starts with the packets to
//! send; each packet that comes back is handed to the [`exchange::Exchange`] in
//! flight, which says what to do next.

pub mod call;
pub mod exchange;
pub mod packet;
pub mod pool;
pub mod remote;
pub mod session;
