//! A Monte Carlo tree search engine for Markov decision processes with
//! discrete actions and stochastic transitions.
//!
//! The engine grows a search tree rooted at an initial decision state,
//! descends it with an upper-confidence-bound tree policy, estimates leaf
//! values with bounded rollouts, and backpropagates returns into per-edge
//! statistics. Real-valued quantities (rewards, value sums, exploration
//! constants) are carried as fixed-point integers in micro-units, so every
//! numeric step of the engine is exact and verified.

pub mod arena;
pub mod builder;
pub mod compiled;
pub mod domain;
pub mod edges;
pub mod error;
pub mod fixed;
pub mod ids;
pub mod interner;
pub mod mcts;
pub mod mdp_error;
pub mod node;
pub mod outcomes;
pub mod rollout;
pub mod schema;
pub mod search_tree;
pub mod simulator;
pub mod snapshot;
pub mod stats;
pub mod text;

pub use error::TreeError;
pub use ids::{ActionId, NodeId, StateKey};
pub use mcts::{IterationMetrics, RunError, RunLogEvent, RunMetrics, SearchConfig, SearchConfigError};
pub use rollout::ReturnType;
pub use search_tree::{Tree, TreePolicyResult};
pub use snapshot::{ActionEdgeSnapshot, NodeSnapshot, OutcomeSnapshot, TreeSnapshot};
