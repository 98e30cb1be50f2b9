//! Core engine of a multi-tenant coworking-space booking platform.
//!
//! Companies own buildings; buildings hold coworking spaces, which are
//! rectangular grids of cells. Item types define shapes as offset lists;
//! item instances place those shapes on a grid. Users book item instances
//! for time intervals, and bookings can be proven at a front desk with a
//! short-lived signed token.

pub mod booking;
pub mod building;
pub mod codec;
pub mod coworking;
pub mod errors;
pub mod forms;
pub mod geometry;
pub mod items;
pub mod jwt;
pub mod middlewares;
pub mod models;
pub mod placement;
pub mod store;
pub mod users;

pub use errors::ProdError;
pub use geometry::Point;
