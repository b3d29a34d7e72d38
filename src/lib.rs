//! Inventories the technology stack of repositories on a code-hosting service:
//! which Ruby versions they declare and which gems they hold.

pub mod app_error;
pub mod formatter;
pub mod github_repo;
pub mod github_repos;
pub mod json;
pub mod recognizer;
pub mod repo_path;
pub mod repos_info;
pub mod text;
