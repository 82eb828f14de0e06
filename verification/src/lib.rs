//! A chat server's verified core: the records it stores, the rules its HTTP
//! handlers and middleware follow, the paging of a room's history, the
//! membership of a live room and the identifiers it hands out.

pub mod api;
pub mod config;
pub mod db;
pub mod entity;
pub mod middleware;
pub mod ws;
