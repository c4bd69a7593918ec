//! Dining philosophers by message passing. Forks and philosophers are state
//! machines that never block: they take and put back forks through messages
//! alone. Each handler here is pure: it takes the current state and one
//! message, and returns the next state and the messages to send. The runtime
//! that delivers messages and fires timers lives outside this library.
//!
//! `protocol` models the whole table, with messages delivered in any order,
//! and proves that no fork is ever believed held by two philosophers, that an
//! eating philosopher holds both its forks, and that no handler is ever given
//! a message it rejects.

mod chance;
pub mod fork;
pub mod philosopher;
pub mod notifier;
pub mod driver;
pub mod protocol;
