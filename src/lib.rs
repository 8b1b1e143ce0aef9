pub mod cjk;
pub mod daemon;
pub mod grid;
pub mod messages;
pub mod registry;
pub mod session;
pub mod wire;
