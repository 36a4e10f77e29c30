//! The SMB2 side: what a client of the share asks for and what it is answered.

use vstd::prelude::*;

pub mod asked;
pub mod cache;
pub mod compound;
pub mod create;
pub mod create_laws;
pub mod dispatch;
pub mod handles;
pub mod history;
pub mod info;
pub mod info_laws;
pub mod laws;
pub mod listing;
pub mod listing_laws;
pub mod pattern;
pub mod pipe;
pub mod pipe_laws;
pub mod read_laws;
pub mod refusal_laws;
pub mod setup;
pub mod setup_laws;
pub mod stat;
pub mod state;
pub mod step;
pub mod transfer;
pub mod write_laws;

verus! {

} // verus!
