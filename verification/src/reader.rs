pub mod attributes;
pub mod cpool;
pub mod decoding;
pub mod fields;
