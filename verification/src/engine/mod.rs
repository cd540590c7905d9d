pub mod fuzzy;
pub mod matcher;
