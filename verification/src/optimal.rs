//! The interaction-net engine: a graph of agents joined by wires, rewritten
//! pair by pair where two agents face each other on their principal ports.
//!
//! The net and its parts are in [`agent`] and [`net`]; building the net of a
//! term is in [`construct`], the rewrite rules in [`rewrite`], normalising
//! in [`reduce`] and reading back in [`readback`]. The other modules hold
//! what is proved of these: that the net of a term is well formed
//! ([`wellformed`], [`growth`]), that every rewrite keeps it so
//! ([`upkeep`]), that the net of a term reads back as the term
//! ([`faithful`], [`course`], [`roundtrip`]), that the net of a term
//! without a redex needs no rewrite ([`quiet`]), and that a beta step which
//! the walk does not pass leaves what is read back as it was ([`aside`]).

pub mod agent;
pub mod net;
pub mod construct;
pub mod growth;
pub mod rewrite;
pub mod readback;
pub mod reduce;
pub mod wellformed;
pub mod upkeep;
pub mod faithful;
pub mod course;
pub mod roundtrip;
pub mod quiet;
pub mod aside;

pub use agent::{order, Agent, AgentKind, Wire};
pub use net::{Net, NetView};
pub use construct::Growth;
pub use rewrite::{Pair, Rule};
pub use readback::{Reading, GAS};
