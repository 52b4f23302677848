//! What happens to a prompt and to the answer that streams back.

pub mod assemble;
pub mod compaction;
pub mod content;
pub mod error;
pub mod follow_up;
pub mod notify;
pub mod title;
pub mod turn;
