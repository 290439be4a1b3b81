//! omatide: tides and currents for Omahoy, predicted from NOAA's harmonic
//! constants, with a model of San Francisco Bay. This crate holds the
//! logic that needs no floating point: station keys and the catalog's
//! index, the constituent table, the turns of a tide, URLs, the request
//! protocol's decisions, times, and the command line.

pub mod strings;
pub mod station;
pub mod constituent;
pub mod coops;
pub mod order;
pub mod fetch;
pub mod engine;
pub mod predict;
pub mod tides;
pub mod subordinate;
pub mod bay;
pub mod cache;
pub mod json;
pub mod http;
pub mod cli;
pub mod time;
pub mod config;
