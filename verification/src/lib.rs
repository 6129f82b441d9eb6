//! MOZAIC: a platform for running AI game competitions.
//!
//! The library holds the decision logic of the platform's reactors (step locks,
//! aggregators, client controllers and managers, the game manager, the message
//! resolver, the broker registry) as verified state machines: each handler takes
//! the reactor's state and an event and returns the next state together with the
//! messages the reactor sends.
use vstd::prelude::*;

pub mod text;
pub mod assoc;
pub mod reactor;
pub mod types;
pub mod ids;
pub mod request;
pub mod steplock;
pub mod aggregator;
pub mod net;
pub mod game;
pub mod message_resolver;
pub mod planetwars;
pub mod runtime;
pub mod server_reactor;
pub mod connection_manager;
pub mod formats;
pub mod translator;
pub mod connection_handler;
pub mod bot_driver;
pub mod cmd_reactor;
pub mod logger;
pub mod endpoints;
pub mod server;


verus! {
}
