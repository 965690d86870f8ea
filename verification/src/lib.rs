//! Rooms of a shared-campaign netplay server.

pub mod action;
pub mod clock;
pub mod effects;
pub mod json;
pub mod laws;
pub mod request;
pub mod room;
pub mod server;
pub mod steps;
pub mod table;
pub mod text;
