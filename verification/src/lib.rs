pub mod text;
pub mod strmap;
pub mod modmanagement;
pub mod modpacks;
pub mod config;
pub mod language;
pub mod search;
pub mod pattern;
pub mod gamebanana;
pub mod divamodarchive;
pub mod gamebanana_async;
pub mod diva;
pub mod message;
pub mod firstlaunch;
pub mod vdf;
