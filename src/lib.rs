pub mod text;
pub mod datetime;
pub mod codes;
pub mod session;
pub mod orchestrator;
pub mod cache;
pub mod registry;
pub mod providers;
