//! Multi-venue limit-order-book state engine: per-venue price-level books with
//! cached best levels, a venue-weighted imbalance signal, an order-flow
//! imbalance tracker, a fixed binary frame for updates and a drop-oldest
//! fan-out to subscribers.
pub mod aggregate;
pub mod book;
pub mod distribution;
pub mod messages;
pub mod ofi;
pub mod types;
