//! Verified core of `slate`: the rules behind format inference and conversion, systemd unit
//! generation, and the preparation of Podman quadlets.
pub mod text;
pub mod paths;
pub mod formats;
pub mod documents;
pub mod nesting;
pub mod outside;
pub mod variants;
pub mod plan;
pub mod systemd;
pub mod env;
pub mod tree;
pub mod substitution;
pub mod service;
pub mod compose;
pub mod quadlet;
pub mod output;
pub mod activation;
pub mod utils;
