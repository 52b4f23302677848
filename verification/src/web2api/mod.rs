//! The server: the endpoints of three protocols in front of the same service.

pub mod chat;
pub mod config;
pub mod convert;
pub mod google;
pub mod http;
pub mod listing;
pub mod responses;
