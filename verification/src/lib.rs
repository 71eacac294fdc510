pub mod text;
pub mod config;
pub mod boot;
pub mod instance_registry;
pub mod configured_state;
pub mod auto_discovery;
pub mod subprocess_dispatch;
pub mod env_config;
