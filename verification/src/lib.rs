//! Core pipeline of a live terminal dashboard for a publish/subscribe broker:
//! per-topic aggregation with occurrence counts, stable re-sorting by a chosen
//! key, layout arithmetic for the column grid, frame-cell computation for the
//! renderer, a bounded hand-off queue, and the subscriber's reconnect logic.
//! Terminal and network I/O live outside this crate; everything here works on
//! plain values and is verified.
pub mod channel;
pub mod control;
pub mod layout;
pub mod message;
pub mod render;
pub mod subscriber;
pub mod sort;
pub mod table;
