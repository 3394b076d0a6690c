//! The bridge between chat platforms and agents.

pub mod attachments;
pub mod directives;
pub mod display;
pub mod mentions;
pub mod reply;
pub mod router;
pub mod session;
pub mod turn;
pub mod types;
