//! Core logic of the Quo variable dumper: payload formatting, settings,
//! request routing, editor integration and the dump list view-model.

pub mod text;
pub mod snippet;
pub mod payloads;
pub mod formatter;
pub mod server;
pub mod config;
pub mod editors;
pub mod dumps;
pub mod display;
pub mod diff;
pub mod settings;
pub mod events;
pub mod toast;
pub mod version;
pub mod themes;
pub mod highlight;
pub mod timestamps;
