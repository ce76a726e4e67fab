//! Building blocks for bespoke networking protocols. Each block (component) is responsible for
//! doing only one thing, while imposing minimal runtime overhead and architecture constraints.
//!
//! - [reliable delivery](reliability)
//! - [connection management](connection)
use vstd::prelude::*;

pub mod connection;
pub mod reliability;

pub use connection::Connection;
pub use reliability::{DeliveryDetector, ResendCoordinator, ResendIf};

verus! {

} // verus!
