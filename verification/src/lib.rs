//! Control of the Ardour workstation over Open Sound Control.

pub mod action;
pub mod addresses;
pub mod automation;
pub mod commands;
pub mod dialogues;
pub mod fader;
pub mod feedback;
pub mod hearing;
pub mod json;
pub mod laws;
pub mod meters;
pub mod order;
pub mod osc;
pub mod pending;
pub mod plugins;
pub mod points;
pub mod progress;
pub mod readings;
pub mod reply;
pub mod resources;
pub mod selection;
pub mod sending;
pub mod server;
pub mod service;
pub mod showing;
pub mod single;
pub mod slots;
pub mod state;
pub mod table;
pub mod text;
pub mod tools;
pub mod transport;

pub use state::{PluginInfo, PluginParameter, TrackInfo};
