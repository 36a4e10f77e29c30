//! Mounts a remote SSH directory: an SMB2 server whose files are reached over
//! SFTP.

use vstd::prelude::*;

pub mod bytes;
pub mod cli;
pub mod clock;
pub mod mounts;
pub mod server;
pub mod sftp;
pub mod smb2;
pub mod text;
pub mod utf16;
pub mod wire;

verus! {

} // verus!
