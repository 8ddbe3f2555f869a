//! Core logic of a workbench in which a boss hands instructions to a team of
//! AI employees: dispatch decisions, prompt and history assembly, reply
//! parsing, and the shaping of stored records.

pub mod commands;
pub mod db;
pub mod json;
pub mod llm;
pub mod orchestrator;
pub mod text;
pub mod voice;
pub mod stt;
