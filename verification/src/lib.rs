//! Card-upgrade arithmetic, part/driver statistics and the setup optimizer
//! for F1 Clash, with their contracts.

pub mod text;
pub mod find;
pub mod data;
pub mod binary64;
pub mod drivers_data;
pub mod models;
pub mod optimizer_core;
pub mod resolve;
pub mod setup_stats;
pub mod optimize;
pub mod session;
pub mod auth;
pub mod analytics;
pub mod catalog;
pub mod export;
pub mod display;
pub mod compare;
pub mod forms;
pub mod bulk;
pub mod upgrade_advisor;
pub mod share;
pub mod og_image;

