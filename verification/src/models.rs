//! The data model: manifest shapes as the scanner consumes them, and the
//! structured version value derived from raw tokens.

pub mod cargo_toml;
pub mod package_json;
pub mod semantic_version;
pub mod workspace;
