//! What a merge reports while it runs: the stage it is at, and whether to
//! ask about conflicts before merging.

use vstd::prelude::*;

verus! {

/// What a merge is busy with, for progress bars.
#[derive(Debug, Clone, Copy, PartialEq, Eq, Structural)]
pub enum Stage {
    /// Reading mods and working out folder mods' changes (`done` of `total`
    /// mods).
    Reading,
    /// Merging game files (`done` of `total` files).
    Merging,
    /// Writing packs and the resource size table.
    Writing,
    /// Comparing what the mods change (`done` of `total` files several mods
    /// touch), between reading and merging.
    Conflicts,
}

pub open spec fn stage_code(stage: Stage) -> i32 {
    match stage {
        Stage::Reading => 0,
        Stage::Merging => 1,
        Stage::Writing => 2,
        Stage::Conflicts => 3,
    }
}

impl Stage {
    /// The number hosts receive for the stage.
    pub fn code(self) -> (r: i32)
        ensures
            r == stage_code(self),
    {
        match self {
            Stage::Reading => 0,
            Stage::Merging => 1,
            Stage::Writing => 2,
            Stage::Conflicts => 3,
        }
    }

    /// The stage a host's number stands for.
    pub fn from_code(code: i32) -> (r: Option<Stage>)
        ensures
            match r {
                Some(s) => stage_code(s) == code,
                None => !(0 <= code <= 3),
            },
    {
        if code == 0 {
            Some(Stage::Reading)
        } else if code == 1 {
            Some(Stage::Merging)
        } else if code == 2 {
            Some(Stage::Writing)
        } else if code == 3 {
            Some(Stage::Conflicts)
        } else {
            None
        }
    }
}

/// Whether whoever runs a merge is asked about its conflicts before it goes
/// ahead: only when someone is there to ask (`has_sink`) and there are some.
/// Without that, merges always go ahead.
pub fn asks_about_conflicts(has_sink: bool, conflicts: usize) -> (r: bool)
    ensures
        r == (has_sink && conflicts > 0),
{
    has_sink && conflicts > 0
}

} // verus!
