//! Building rekordbox XML documents from a device's track and playlist
//! database, with the logic proved correct by Verus.

pub mod location;
pub mod document;
pub mod pdb;
pub mod order;
pub mod convert;
pub mod collection;
pub mod node;
