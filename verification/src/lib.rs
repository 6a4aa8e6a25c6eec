//! Game rules, grid world and bot logic of a grid-based bot skirmish game.
pub mod types;
pub mod gridworld;
pub mod bot;
pub mod known_map;
pub mod action_defs;
pub mod game;
pub mod world;
pub mod radar;
pub mod simple_bot;
pub mod text;
pub mod bot_logger;
pub mod econ_bot;
pub mod rng;
pub mod levels;
pub mod observe;
pub mod protocol;
pub mod crumb_follower;
pub mod server_radar;
pub mod harness;
pub mod replay;
pub mod interrupt_bot;
pub mod manual;
pub mod action_queue;
pub mod tiles;
