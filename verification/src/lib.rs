//! Verified core of a Kalshi market-data capture pipeline.

pub mod auth;
pub mod book;
pub mod capture;
pub mod clock;
pub mod display;
pub mod encode;
pub mod grid_history;
pub mod json;
pub mod levels;
pub mod notional;
pub mod parse;
pub mod probe;
pub mod px;
pub mod qty;
pub mod quarantine;
pub mod ranges;
pub mod rest;
pub mod schema;
mod sealed;
pub mod session;
pub mod sink;
pub mod table;
pub mod text;
pub mod ticker;
pub mod wire;
pub mod writer;
pub mod ws;
