//! Verified core of the GGO launcher: window layout, account and session
//! bookkeeping, broker session state, argument building, settings migration
//! and update planning.

pub mod text;
pub mod layout;
pub mod time;
pub mod profile;
pub mod settings;
pub mod sort;
pub mod broker;
pub mod windows;
pub mod multiclient;
pub mod session;
pub mod launcher;
pub mod multi_launch;
pub mod six_test;
pub mod updater;
pub mod apply;
pub mod self_updater;
pub mod crypto;
pub mod paths;
pub mod server_status;
pub mod notice;
pub mod sidebar;
pub mod cuo_profiles;
pub mod plugins;
pub mod links;
