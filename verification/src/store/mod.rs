//! What is kept on disk: versioned JSON documents.
pub mod codec;
pub mod layout;
pub mod queue;
