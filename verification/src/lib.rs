//! Matching engine for NVD CVE records: decides whether a vulnerability
//! applies to a product at a given version, and normalizes CVSS impact data.

pub mod cpe;
pub mod error;
pub mod item;
pub mod node;
pub mod products;
pub mod search;
pub mod version;

pub use version::VersionOrder;
