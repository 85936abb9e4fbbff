//! Users and groups of an OIDC provider, resolved over SCIM 2.0 for NSS and PAM.
pub mod buffer;
pub mod cache;
pub mod config;
pub mod json;
pub mod jwt;
pub mod logging;
pub mod mapping;
pub mod model;
pub mod nss;
pub mod oidc;
pub mod pam;
pub mod scim;
pub mod service;
pub mod store;
pub mod text;
