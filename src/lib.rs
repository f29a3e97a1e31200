use vstd::prelude::*;

pub mod api;
pub mod deps;
pub mod item_api;
pub mod model;
pub mod permission;
pub mod range;
pub mod serve;
pub mod store;
pub mod token_store;
pub mod util;
pub mod views;
