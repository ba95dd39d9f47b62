pub mod plans;
pub mod workspace;
pub mod auth;
pub mod jobs;
pub mod invites;
pub mod uploads;
pub mod billing;
pub mod experiments;
pub mod retention;
pub mod store;
pub mod admin;
