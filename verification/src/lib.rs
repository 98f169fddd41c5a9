//! Simulation of agents walking a directed graph of colonies: two agents
//! meeting at a colony destroy it together with every agent present.
//!
//! The crate provides the graph store, the agent store, the movement rule,
//! the generation-stamped collision detector and the simulation loop.

pub mod ant;
pub mod collision;
pub mod direction;
pub mod engine;
pub mod error;
pub mod node;
pub mod parser;
pub mod rng;
pub mod utils;
pub mod world;

pub use ant::Ant;
pub use collision::{CollisionDetector, DestructionEvent};
pub use direction::Direction;
pub use engine::SimulationEngine;
pub use error::ParseError;
pub use node::Node;
pub use parser::{parse_world, parse_world_from_str};
pub use world::World;
