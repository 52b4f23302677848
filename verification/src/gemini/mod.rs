//! The Gemini web service: how requests are authorised, which models there
//! are, and how its answers are read.

pub mod auth;
pub mod clock;
pub mod cookies;
pub mod errors;
pub mod frames;
pub mod models;
pub mod tool_prompt;
