//! Core of a multi-agent social simulator that turns profile-grounded agent
//! conversations into instruction-tuning data.
//!
//! Agents anchored to profiles take turns in round-robin order; each turn the
//! oracle (a language model) proposes an action, which the actor remembers
//! and, unless it is a private reflection, is recorded in the scenario and
//! routed by a modulator to other agents. Scenarios are then turned into
//! instruction-response pairs.

pub mod action;
pub mod agent;
pub mod backend;
pub mod cluster;
pub mod embedding;
pub mod instruction;
pub mod memory;
pub mod message;
pub mod modulator;
pub mod oracle;
pub mod profile;
pub mod prompt;
pub mod scenario;
pub mod simulation;
pub mod synthesis;
pub mod text;

pub use action::Action;
pub use agent::{Agent, AgentId, ClusterId};
pub use backend::{AnthropicConfigError, AnthropicOracle};
pub use embedding::{EmbedError, HashEmbedder};
pub use instruction::InstructionPair;
pub use memory::{Memory, MemoryEntry, MemorySource, Tick};
pub use message::Message;
pub use modulator::{BroadcastModulator, DropSelfModulator, Modulator};
pub use oracle::{EchoOracle, Oracle, OracleError, OracleRequest, ScriptedOracle};
pub use profile::{Goal, PlanStep, Profile};
pub use prompt::build_actor_request;
pub use scenario::Scenario;
pub use simulation::{Simulation, Termination};
pub use synthesis::{build_synthesis_request, strip_fence};
