pub mod account;
pub mod codec;
pub mod crypto;
pub mod error;
pub mod features;
pub mod identity;
pub mod message;
pub mod rolemap;
pub mod roles;
pub mod server;
