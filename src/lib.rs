pub mod paths;
pub mod queue;
pub mod transcribe;
