//! The state model behind the corvus terminal dashboard: the fingerprint
//! stream, the aggregates the charts read, and the decisions the renderer
//! and the key handler take. Rendering itself lives outside this crate.

pub mod ja4;
pub mod model;
pub mod state;
pub mod time;
pub mod feed;
pub mod text;
pub mod view;
pub mod config;
