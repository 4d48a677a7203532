//! Steam-facing logic: workshop downloads, item queries and the connection status.
pub mod download;
pub mod items;
pub mod state;

pub use state::get_state;
