//! Voice-to-text pipeline logic: chunk planning, transcript merging,
//! request orchestration and the service state machine.

pub mod audio;
pub mod config;
pub mod encoder;
pub mod error;
pub mod ipc;
pub mod merge;
pub mod orchestrator;
pub mod service;
pub mod text;
pub mod transcribe;
