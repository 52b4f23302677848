//! The client of the Gemini web service: what is sent, and how what comes back
//! is read.

pub mod attempt;
pub mod config;
pub mod payload;
pub mod request;
pub mod upload;
