//! Per-block state diffs and stateless-execution witnesses extracted from
//! an Ethereum node's chain notifications.

pub mod model;
pub mod codec;
pub mod bundle;
pub mod dispatch;
pub mod store;
pub mod witness;
pub mod input;
