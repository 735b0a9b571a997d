//! A streaming filter for line-oriented diff text.
//!
//! Input lines are classified by a small state machine (commit headers, diff
//! metadata, hunk headers, hunk content); contiguous removed/added runs are
//! batched, handed to a syntax highlighter, and emitted wrapped in 24-bit
//! ANSI color escapes.

pub mod color;
pub mod paint;
pub mod services;
pub mod state_machine;
pub mod textutil;
