//! Request signing for the EdgeGrid HMAC-SHA256 authentication scheme.
//!
//! A client of an EdgeGrid API proves who it is with an `Authorization` header
//! that signs each request. The library derives that header from a credential
//! set and a description of the request: [`EdgeGridAuth::sign_request`] is the
//! entry point. Credential sets are made from literal values, from the text
//! of a credentials file, or from the values of environment variables; reading
//! files and the environment, and sending requests, is left to the caller.

pub mod address;
pub mod auth;
pub mod canonical;
pub mod client;
pub mod config;
pub mod context;
pub mod edgerc;
pub mod error;
pub mod primitives;
pub mod request;
pub mod table;
pub mod text;
pub mod written;

pub use auth::EdgeGridAuth;
pub use client::EdgeGridClient;
pub use config::{EdgeGridConfig, MAX_BODY};
pub use error::EdgeGridError;
pub use request::RequestDescriptor;
