//! Client library for the Airly air-quality REST API.
//!
//! The library validates request parameters (API key length, coordinate
//! bounds), composes endpoint URLs from typed parameters, issues HTTP GET
//! requests with fixed headers, and decodes the JSON response bodies into
//! typed records.

pub mod client;
pub mod codec;
pub mod digits;
pub mod error;
pub mod geo;
pub mod json;
pub mod strutil;
pub mod types;
pub mod url;
