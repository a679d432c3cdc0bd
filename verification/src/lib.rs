//! Centralized configuration storage: archives of named settings, groups of
//! properties that are kept in step with a shared storage, and the services
//! around them.
pub mod access;
pub mod archive;
pub mod archive_io;
pub mod backend;
pub mod category;
pub mod common;
pub mod config;
pub mod connection;
pub mod dashboard;
pub mod derive;
pub mod entity;
pub mod handshake;
pub mod features;
pub mod frames;
pub mod json;
pub mod monitor;
pub mod noti;
pub mod relay;
pub mod storage;
pub mod text;
pub mod web;
