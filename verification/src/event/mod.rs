pub mod bus;
pub mod channel;
pub mod payload;
pub mod queue;
