//! Credential acquisition and lifecycle engine of a Git credential helper
//! that authenticates against OAuth2 providers: the token and its secret
//! record, the registry of credentials per host, provider configuration,
//! and the decisions of the authorization-code and device flows.

pub mod callback;
pub mod codec;
pub mod common;
pub mod error;
pub mod flow;
pub mod git_source;
pub mod hosts;
pub mod provider;
pub mod repo_url;
pub mod request;
pub mod secret_store;
pub mod text;
pub mod token;
pub mod weburl;
