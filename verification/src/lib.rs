//! An account ledger in stable memory: users hold a balance and reward
//! points, and transfers move balance between two users.

pub mod codec;
pub mod laws;
pub mod layout;
pub mod ledger;
pub mod message;
pub mod model;
pub mod operations;
pub mod rules;
pub mod store;
pub mod text;
