//! Monitor layout reconciliation: match the attached monitors to a stored layout and
//! plan, in a protocol-safe order, the display-controller changes that apply it.
//!
//! - [`identity`] reads a monitor's identity from its identity blob.
//! - [`matcher`] finds the layout keyed by exactly the attached monitors.
//! - [`resources`] holds a snapshot of the display server's state and groups its modes.
//! - [`reconcile`] allocates controllers and plans disables, enables and the screen size;
//!   [`reconcile_proofs`] proves what a pass guarantees.
//! - [`transaction`] applies a plan one request at a time: disables, resize, enables.
//! - [`document`] and [`config`] read the layout configuration.

pub mod config;
pub mod document;
pub mod identity;
pub mod matcher;
pub mod monitor;
pub mod reconcile;
pub mod reconcile_proofs;
pub mod resources;
pub mod search;
pub mod transaction;

pub use config::{Config, Mode, MonConfig, Position, SingleConfig};
pub use monitor::Monitor;
