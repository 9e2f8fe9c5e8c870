//! Credential record of an OAuth-style client, with a lossless named-field
//! encoding for persistence and a restricted projection for telemetry.

pub mod codec;
pub mod data;
pub mod fidelity;
pub mod text;
