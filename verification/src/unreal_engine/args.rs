//! What the engine commands are given.

use crate::unreal_engine::command::UnrealCommand;
use crate::utility::search::SearchOptions;
use vstd::prelude::*;

verus! {

/// The arguments of an engine command.
#[derive(Clone, Debug, PartialEq, Eq)]
pub struct UnrealArgs {
    pub command: UnrealCommand,
    pub search_options: SearchOptions,
}

} // verus!
