//! A staged combat-evaluation harness: scenario generation, evaluation,
//! validation, lifecycle simulation and replay rendering, with the decisions of
//! every stage stated as contracts and proved.

use vstd::prelude::*;

pub mod auction;
pub mod caves;
pub mod churn;
pub mod colony;
pub mod corpus;
pub mod corpus_index;
pub mod declaim_flow;
pub mod defended;
pub mod evaluate;
pub mod extended;
pub mod fielding;
pub mod foreman_capture;
pub mod forming;
pub mod generate;
pub mod json;
pub mod lanchester;
pub mod lease;
pub mod lifecycle;
pub mod lists;
pub mod march;
pub mod merge;
pub mod mover_adjudication;
pub mod objective_queue;
pub mod offense_flow;
pub mod param_sweep;
pub mod player;
pub mod position;
pub mod profile;
pub mod raid;
pub mod replays;
pub mod report;
pub mod rng;
pub mod roster;
pub mod scenario;
pub mod siege;
pub mod spatial;
pub mod staging;
pub mod stronghold;
pub mod suite;
pub mod terrain_import;
pub mod text;
pub mod tower_fire;
pub mod travel;
pub mod v1_flow;
pub mod validate;
pub mod visualize;
pub mod world;

verus! {

} // verus!
