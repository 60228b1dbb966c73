//! Verified core of the droidianOS desktop services: Android binary manifest
//! parsing, permission and application metadata, the JSON documents the
//! services exchange, and the decisions the daemons and applications take.

pub mod error;
pub mod text;
pub mod json;
pub mod sorted;
pub mod manifest;
pub mod apk;
pub mod permissions;
pub mod transactions;
pub mod installer;
pub mod integration;
pub mod notifications;
pub mod updates;
pub mod settings;
pub mod software;
pub mod dialog;
pub mod dbus;
pub mod services;
pub mod readback;
