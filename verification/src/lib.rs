//! A trick-taking card game engine: the card and hand model, the
//! combination classifier, the bidding and trick state machine, and the
//! room coordinator with its chat log and per-viewer state snapshots.
#![verifier::loop_isolation(false)]

pub mod card;
pub mod game;
pub mod lobby;
pub mod text;

use vstd::prelude::*;

verus! {

/// Error wrapper handed back to the acting connection for every rejected
/// lobby or game action.
#[derive(Debug)]
pub struct AppError(pub String);

} // verus!
