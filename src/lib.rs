//! Transaction contexts layered over a state store, and the decision logic of a
//! scheduler that runs the transactions of batches one at a time.

pub mod context;
pub mod state;
pub mod manager;
pub mod scheduler;
