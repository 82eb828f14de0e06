pub mod hub;
pub mod protocol;
pub mod room;
pub mod session;
