//! Rules, texts and state machines of a GeoGuessr bot for Matrix rooms.

pub mod binary64;
pub mod bits;
pub mod clock;
pub mod commands;
pub mod config;
pub mod countries;
pub mod format;
pub mod geocode;
pub mod guess;
pub mod imaging;
pub mod inbox;
pub mod lang;
pub mod map_page;
pub mod media;
pub mod prefetch;
pub mod random;
pub mod results;
pub mod round;
pub mod scheduling;
pub mod sort;
pub mod sources;
pub mod state;
pub mod stats;
pub mod str_map;
pub mod text;
pub mod urls;
pub mod web;
pub mod zoom;
