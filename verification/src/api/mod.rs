pub mod login;
pub mod me;
pub mod messages;
pub mod notice;
pub mod register;
pub mod rooms;
pub mod ws;
