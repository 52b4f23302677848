//! An agent and a server in front of the Gemini web service.
//!
//! The library holds what both decide and compute: the requests to the service
//! and how its replies are read ([`gemini`], [`client`]), the turns of a
//! conversation ([`prompt`], [`thought`], [`session`], [`lifecycle`],
//! [`elicitation`], [`options`], [`queue`]), the configuration
//! ([`agent_config`], [`settings`]), and the protocols of the server
//! ([`web2api`]). What is read, sent and shown stays with the caller.
//!
//! [`text`] and [`json`] are the models of texts and of JSON that the contracts
//! are stated over; [`record`] reads JSON texts part by part. [`outside`] and
//! [`json`] hold the calls into other crates.

pub mod agent_config;
pub mod client;
pub mod elicitation;
pub mod gemini;
pub mod json;
pub mod lifecycle;
pub mod options;
pub mod outside;
pub mod prompt;
pub mod queue;
pub mod record;
pub mod session;
pub mod settings;
pub mod text;
pub mod thought;
pub mod web2api;
