//! Verified core of an object-storage command-line uploader: validation of
//! names and endpoints, content types, request signing, response parsing and
//! the planning of multipart uploads.

pub mod text;
pub mod validate;
pub mod multipart;
pub mod crypto;
pub mod mime;
pub mod config;
pub mod error;
pub mod query;
pub mod client;
pub mod signing;
pub mod xml;
pub mod response;
pub mod request;
pub mod common;
pub mod listing;
pub mod transfer;
pub mod canonical;
