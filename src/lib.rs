//! Plugin synthesis and buffered batch processing for user-supplied audio
//! processing code: dependency inference over source text, the runtime
//! project's manifest and entry point, fixed-size sample windows, and the
//! plan of (file, backend) jobs.

pub mod text;
pub mod inference;
pub mod manifest;
pub mod buffering;
pub mod paths;
pub mod synthesis;
pub mod dispatch;
pub mod project;
