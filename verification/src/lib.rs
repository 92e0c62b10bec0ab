pub mod text;
pub mod message;
pub mod security;
pub mod config;
pub mod random;
pub mod net;
pub mod pattern;
pub mod table;
pub mod vhost;
pub mod modules;
pub mod handlers;
pub mod logging;
