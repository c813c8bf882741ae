//! A transactional record store for a football transfer market: players,
//! completed transfers, and transfer bids, kept in persistent ordered
//! key-value stores with a shared, strictly increasing identifier allocator.
//!
//! The domain rules live in [`service::FootballApp`]; entities are laid out
//! as bounded byte records by [`codec`] and held in stable B-tree maps
//! wrapped by [`store`] and [`tables`].

pub mod codec;
pub mod model;
pub mod service;
pub mod store;
pub mod tables;
