//! Identity metadata for IP addresses and domain names.
//!
//! The crate builds two immutable, read-many tables — an autonomous-system
//! registry and an interval-indexed IP-to-ASN table — and aggregates their
//! answers together with DNS data into per-address and per-domain results.
//! File reading, the resolver and the HTTP surface live outside the library;
//! the library holds the parsing, the interval index and the aggregation
//! rules, each with a proved contract.

pub mod addr;
pub mod asn;
pub mod config;
pub mod dns;
pub mod files;
pub mod ip;
pub mod lookup;
pub mod text;
