//! Networking: client controllers stand for one player each, the client
//! manager ties registering clients to their controllers, and endpoints accept
//! the clients' connections.
//!
//! A client registers by sending its key; the client manager maps the key to
//! the client controller of the player, which forwards the game's messages to
//! the client (buffering them while it is away) and the client's messages to
//! the game.
pub mod types;
pub mod client_controller;
pub mod client_manager;
pub mod controller;
