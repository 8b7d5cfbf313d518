//! Verified core of the Gaze privacy sidecar: streaming token restoration,
//! snapshot envelopes, policy editing and merging, and the wire types.

pub mod text;
pub mod sessions;
pub mod streaming;
pub mod crypto;
pub mod policies;
pub mod auth;
pub mod model;
pub mod protocol;
pub mod api;
pub mod config;
