pub mod auth;
pub mod room_auth;
