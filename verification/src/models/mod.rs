//! The library's data model: parts, drivers, setups and inventories.

pub mod driver;
pub mod part;
pub mod setup;
