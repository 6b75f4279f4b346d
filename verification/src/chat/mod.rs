//! The chat application, the backend and the client of a room, and what
//! they keep about it.

pub mod app;
pub mod backend;
pub mod client;
pub mod config;
pub mod room;
pub mod state;

pub use app::ChatApp;
pub use backend::ChatBackend;
pub use client::ChatClient;
pub use config::ChatConfig;
pub use room::ChatRoom;
