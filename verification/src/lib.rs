//! Codec for costume saves: screenshot files whose metadata block carries a
//! character's appearance data.
//!
//! [`CostumeSave::from_file`] takes a file's bytes apart, the accessors read
//! and edit the named fields, and [`CostumeSave::write_to_file`] gives the
//! bytes of the file to write back. [`to_simulated_save_name`] is the name
//! that the game shows for a save.

pub mod checksum;
pub mod cipher;
pub mod costume;
pub mod dataset;
pub mod error;
pub mod round_trip;
pub mod save_name;
pub mod schema;
pub mod segment;
pub mod text;

pub use costume::CostumeSave;
pub use error::CostumeError;
pub use save_name::to_simulated_save_name;
