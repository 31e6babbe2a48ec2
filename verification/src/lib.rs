//! Routing, load balancing, rate limiting, health tracking and service
//! discovery for a reverse proxy, with their contracts.
pub mod balance;
pub mod cli;
pub mod config;
pub mod discovery;
pub mod errors;
pub mod origin_url;
pub mod procstat;
pub mod ratelimit;
pub mod report;
pub mod route;
pub mod state;
pub mod tables;
pub mod text;
