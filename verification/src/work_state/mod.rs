//! Work state is the single bridge from accepted identity to native execution and verified delivery.

pub mod model;
pub mod order;
pub mod table;
pub mod store;
pub mod steer;
pub mod repair;
pub mod listing;
pub mod protected;
pub mod restore;
pub mod drive;
pub mod binding;
pub mod outcome;
pub mod turn;
