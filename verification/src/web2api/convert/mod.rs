//! From the formats of the protocols to the text of a prompt, and back.

pub mod common;
pub mod openai;
pub mod codex;
pub mod google;
