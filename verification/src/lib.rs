//! Tailnet discovery, doctor reporting and invite-token source resolution
//! for MeshLLM, with their rules stated and proved in Verus.

pub mod text;
pub mod order;
pub mod tailnet;
pub mod addresses;
pub mod probe;
pub mod discovery;
pub mod doctor_report;
pub mod doctor_lines;
pub mod join_sources;
pub mod clock;
pub mod url;
pub mod split_doctor;
pub mod discover_output;
pub mod api;
pub mod stop;


