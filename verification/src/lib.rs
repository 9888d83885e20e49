//! Verified core of a terminal weather radar.

use vstd::prelude::*;

pub mod app;
pub mod arrivals;
pub mod backdrop;
pub mod border_cache;
pub mod borders;
pub mod budget;
pub mod calendar;
pub mod cities;
pub mod config;
pub mod controls;
pub mod dbz;
pub mod directory;
pub mod document;
pub mod double;
pub mod download;
pub mod eumetnet;
pub mod features;
pub mod flow;
pub mod frames;
pub mod frd;
pub mod geo;
pub mod geocode;
pub mod geotiff;
pub mod json;
pub mod keys;
pub mod layers;
pub mod lightning;
pub mod location;
pub mod maps;
pub mod meteoalarm;
pub mod modal;
pub mod observations;
pub mod order;
pub mod radar;
pub mod retry;
pub mod rhythm;
pub mod search;
pub mod settings;
pub mod slots;
pub mod state;
pub mod stations;
pub mod store;
pub mod tasks;
pub mod text;
pub mod timeline;
pub mod verify;
pub mod viewport;
pub mod viewport_obs;
pub mod warnings;

verus! {

} // verus!
