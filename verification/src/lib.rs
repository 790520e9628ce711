//! Interaction and state core of a terminal dashboard for open work items.
//!
//! The library holds the pure, verified heart of the dashboard: the
//! work-item model, the aggregation and deduplication of fetched
//! collections, the navigation state machine, and the transition gate
//! that withholds input while a visual effect plays.  Fetching, key
//! decoding and drawing live outside the library and exchange plain
//! values with it.

pub mod aggregate;
pub mod gate;
pub mod model;
pub mod nav;
pub mod query;
pub mod text;
