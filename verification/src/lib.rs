//! The rules of a shared city.

pub mod crafting_config;
pub mod market_config;
pub mod numerals;
pub mod persistence;
pub mod protocol;
pub mod table;
pub mod tally;
pub mod text;
pub mod tutorial_config;
pub mod tutorial_laws;
pub mod util;
pub mod world;
pub mod zone_config;
pub mod zone_laws;
