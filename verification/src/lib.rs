//! Verified core of the `airq` air-quality toolkit.

pub mod calendar;
pub mod text;
pub mod aqi;
pub mod comfort;
pub mod event;
pub mod signals;
pub mod idx;
pub mod matrix;
pub mod push;
pub mod clock;
pub mod compass;
pub mod api;
pub mod weather;
pub mod order;
pub mod country;
pub mod html;
pub mod group;
pub mod csv;
pub mod merge;
pub mod provider;
pub mod rank;
pub mod label;
