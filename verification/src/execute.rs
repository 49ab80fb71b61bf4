//! The execution of one command, as a sequence of calls to the host.
//!
//! The engine never calls the host itself. It says which call comes next,
//! and is told what the host answered; the caller makes the call in between.

use vstd::prelude::*;
use crate::commands::{Caches, Command, CommandBuffer, EngineError};
use crate::coords::Coord;
use crate::host::WorldRef;
use crate::model::Prefab;

verus! {

/// One call that the host is to perform. Where a call names a prefab, it means
/// the type path of that prefab in the prefab table.
#[derive(Clone, Copy, Debug, PartialEq, Eq)]
pub enum HostCall {
    /// Create the area of the prefab's type, or get the one that exists.
    /// Answered with the area.
    CreateOrGetArea { prefab: usize },
    /// Let `area` contain `turf`.
    HandleAreaContain { turf: WorldRef, area: WorldRef },
    /// Add `turf` to `area`.
    AddTurfToArea { area: WorldRef, turf: WorldRef },
    /// Turn the prefab's variables into a host list. Answered with the list.
    MaterializeVars { prefab: usize },
    /// Make `turf` a turf of the prefab's type, with the variables in `vars`.
    CreateTurf { turf: WorldRef, prefab: usize, vars: WorldRef, place_on_top: bool, no_changeturf: bool },
    /// Resolve the prefab's type path. Answered with the type.
    TextToPath { prefab: usize },
    /// Stage the variables in `vars` for the next instance of type `path`.
    SetupPreloader { vars: WorldRef, path: WorldRef },
    /// Create an instance of type `path` on `turf`. Answered with the instance.
    New { path: WorldRef, turf: WorldRef },
    /// Apply what was staged to `instance`.
    ApplyPreloader { instance: WorldRef },
    /// Record that nothing could be created at `loc` because its tile is null.
    WarnNullTile { loc: Coord },
}

/// How far the execution of a command has come.
#[derive(Clone, Copy, Debug, PartialEq, Eq, Structural)]
pub enum Stage {
    /// Nothing has been asked of the host yet.
    Start,
    /// The area has been asked for.
    AwaitArea,
    /// The containment has been asked for; the tile is yet to join the area.
    AwaitContain { turf: WorldRef, area: WorldRef },
    /// The variables of a turf have been asked for.
    AwaitVars { turf: WorldRef },
    /// The type of an object has been asked for.
    AwaitType { turf: WorldRef },
    /// The variables of an object have been asked for.
    AwaitAtomVars { turf: WorldRef, path: WorldRef },
    /// The staging of an object's variables has been asked for.
    AwaitPreloader { turf: WorldRef, path: WorldRef },
    /// The instance has been asked for.
    AwaitInstance,
    /// The last call of the command is with the host.
    Last,
    /// The warning of a skipped command is with the host.
    Warned,
    /// The command has run to its end.
    Executed,
    /// The command was skipped with a warning.
    Skipped,
}

/// What one step of a command comes to: what the session knows afterwards,
/// and either the stage reached with the call to make next, if any, or the
/// error that ends the whole drain.
pub ghost struct Outcome {
    pub caches: Caches,
    pub result: Result<(Stage, Option<HostCall>), EngineError>,
}

/// A step on a command whose calls have all been made: the command is over,
/// skipped if its only call was a warning.
pub open spec fn finish(stage: Stage, caches: Caches) -> Outcome {
    Outcome {
        caches,
        result: Ok(
            (
                if stage == Stage::Warned || stage == Stage::Skipped {
                    Stage::Skipped
                } else {
                    Stage::Executed
                },
                None,
            ),
        ),
    }
}

/// The tile of `loc` joins `area`. A coordinate without a tile ends the
/// drain; a null tile is skipped with a warning; otherwise the area first
/// contains the tile, unless the level is new, and then the tile is added.
pub open spec fn area_on_tile(loc: Coord, new_z: bool, area: WorldRef, caches: Caches) -> Outcome {
    match caches.turfs.answer(loc) {
        Err(e) => Outcome { caches, result: Err(EngineError::Coordinate(e)) },
        Ok(turf) => Outcome {
            caches: Caches { turfs: caches.turfs.resolved(loc), ..caches },
            result: Ok(
                if turf.is_null() {
                    (Stage::Warned, Some(HostCall::WarnNullTile { loc }))
                } else if !new_z {
                    (
                        Stage::AwaitContain { turf, area },
                        Some(HostCall::HandleAreaContain { turf, area }),
                    )
                } else {
                    (Stage::Last, Some(HostCall::AddTurfToArea { area, turf }))
                },
            ),
        },
    }
}

/// One step of `CreateArea`: the area of the prefab's type path is taken
/// from what the session knows, or asked of the host once and remembered;
/// then the tile joins it.
pub open spec fn area_step(
    loc: Coord,
    prefab: usize,
    new_z: bool,
    stage: Stage,
    caches: Caches,
    prefabs: Seq<Prefab>,
    reply: WorldRef,
) -> Outcome {
    if prefab >= prefabs.len() {
        Outcome { caches, result: Err(EngineError::UnknownPrefab) }
    } else {
        let path = prefabs[prefab as int].path@;
        match stage {
            Stage::Start => if caches.areas.contains_key(path) {
                area_on_tile(loc, new_z, caches.areas[path], caches)
            } else {
                Outcome {
                    caches,
                    result: Ok((Stage::AwaitArea, Some(HostCall::CreateOrGetArea { prefab }))),
                }
            },
            Stage::AwaitArea => area_on_tile(
                loc,
                new_z,
                reply,
                Caches { areas: caches.areas.insert(path, reply), ..caches },
            ),
            Stage::AwaitContain { turf, area } => Outcome {
                caches,
                result: Ok((Stage::Last, Some(HostCall::AddTurfToArea { area, turf }))),
            },
            _ => finish(stage, caches),
        }
    }
}

/// One step of `CreateTurf`: the tile is resolved; a null tile is skipped
/// with a warning; otherwise the prefab's variables are materialized, if it
/// has any, and the turf is created with them and with the command's flags.
pub open spec fn turf_step(
    loc: Coord,
    prefab: usize,
    no_changeturf: bool,
    place_on_top: bool,
    stage: Stage,
    caches: Caches,
    prefabs: Seq<Prefab>,
    reply: WorldRef,
) -> Outcome {
    if prefab >= prefabs.len() {
        Outcome { caches, result: Err(EngineError::UnknownPrefab) }
    } else {
        match stage {
            Stage::Start => match caches.turfs.answer(loc) {
                Err(e) => Outcome { caches, result: Err(EngineError::Coordinate(e)) },
                Ok(turf) => Outcome {
                    caches: Caches { turfs: caches.turfs.resolved(loc), ..caches },
                    result: Ok(
                        if turf.is_null() {
                            (Stage::Warned, Some(HostCall::WarnNullTile { loc }))
                        } else if prefabs[prefab as int].vars is None {
                            (Stage::Last, Some(create_turf_call(turf, prefab, WorldRef { kind: 0, id: 0 }, place_on_top, no_changeturf)))
                        } else {
                            (Stage::AwaitVars { turf }, Some(HostCall::MaterializeVars { prefab }))
                        },
                    ),
                },
            },
            Stage::AwaitVars { turf } => Outcome {
                caches,
                result: Ok(
                    (Stage::Last, Some(create_turf_call(turf, prefab, reply, place_on_top, no_changeturf))),
                ),
            },
            _ => finish(stage, caches),
        }
    }
}

/// The call that creates a turf.
pub open spec fn create_turf_call(
    turf: WorldRef,
    prefab: usize,
    vars: WorldRef,
    place_on_top: bool,
    no_changeturf: bool,
) -> HostCall {
    HostCall::CreateTurf { turf, prefab, vars, place_on_top, no_changeturf }
}

/// An object of type `path` is created on `turf`: its variables are
/// materialized and staged first, if the prefab has any.
pub open spec fn atom_with_path(turf: WorldRef, path: WorldRef, prefab: usize, prefabs: Seq<Prefab>) -> (
    Stage,
    Option<HostCall>,
) {
    if prefabs[prefab as int].vars is Some {
        (Stage::AwaitAtomVars { turf, path }, Some(HostCall::MaterializeVars { prefab }))
    } else {
        (Stage::AwaitInstance, Some(HostCall::New { path, turf }))
    }
}

/// One step of `CreateAtom`: the tile is resolved; a null tile is skipped
/// with a warning; the type of the prefab's path is taken from what the
/// session knows, or asked of the host once and remembered; the variables
/// are staged, the instance is created on the tile, and what was staged is
/// applied to it.
pub open spec fn atom_step(
    loc: Coord,
    prefab: usize,
    stage: Stage,
    caches: Caches,
    prefabs: Seq<Prefab>,
    reply: WorldRef,
) -> Outcome {
    if prefab >= prefabs.len() {
        Outcome { caches, result: Err(EngineError::UnknownPrefab) }
    } else {
        let text = prefabs[prefab as int].path@;
        match stage {
            Stage::Start => match caches.turfs.answer(loc) {
                Err(e) => Outcome { caches, result: Err(EngineError::Coordinate(e)) },
                Ok(turf) => Outcome {
                    caches: Caches { turfs: caches.turfs.resolved(loc), ..caches },
                    result: Ok(
                        if turf.is_null() {
                            (Stage::Warned, Some(HostCall::WarnNullTile { loc }))
                        } else if caches.types.contains_key(text) {
                            atom_with_path(turf, caches.types[text], prefab, prefabs)
                        } else {
                            (Stage::AwaitType { turf }, Some(HostCall::TextToPath { prefab }))
                        },
                    ),
                },
            },
            Stage::AwaitType { turf } => Outcome {
                caches: Caches { types: caches.types.insert(text, reply), ..caches },
                result: Ok(atom_with_path(turf, reply, prefab, prefabs)),
            },
            Stage::AwaitAtomVars { turf, path } => Outcome {
                caches,
                result: Ok(
                    (
                        Stage::AwaitPreloader { turf, path },
                        Some(HostCall::SetupPreloader { vars: reply, path }),
                    ),
                ),
            },
            Stage::AwaitPreloader { turf, path } => Outcome {
                caches,
                result: Ok((Stage::AwaitInstance, Some(HostCall::New { path, turf }))),
            },
            Stage::AwaitInstance => Outcome {
                caches,
                result: Ok((Stage::Last, Some(HostCall::ApplyPreloader { instance: reply }))),
            },
            _ => finish(stage, caches),
        }
    }
}

/// One step of `command` from `stage`, when the host has answered the call
/// made last with `reply`.
pub open spec fn step_spec(
    command: Command,
    stage: Stage,
    caches: Caches,
    prefabs: Seq<Prefab>,
    reply: WorldRef,
) -> Outcome {
    match command {
        Command::CreateArea { loc, prefab, new_z } => area_step(
            loc,
            prefab,
            new_z,
            stage,
            caches,
            prefabs,
            reply,
        ),
        Command::CreateTurf { loc, prefab, no_changeturf, place_on_top } => turf_step(
            loc,
            prefab,
            no_changeturf,
            place_on_top,
            stage,
            caches,
            prefabs,
            reply,
        ),
        Command::CreateAtom { loc, prefab } => atom_step(loc, prefab, stage, caches, prefabs, reply),
    }
}

/// Whether what an exec step returned and left behind is `outcome`.
pub open spec fn agrees(
    outcome: Outcome,
    r: Result<(Stage, Option<HostCall>), EngineError>,
    caches: Caches,
) -> bool {
    &&& caches == outcome.caches
    &&& r == outcome.result
}

fn finish_stage(stage: Stage) -> (r: (Stage, Option<HostCall>))
    ensures
        forall|caches: Caches| #[trigger] finish(stage, caches).result == Ok::<(Stage, Option<HostCall>), EngineError>(r),
{
    match stage {
        Stage::Warned | Stage::Skipped => (Stage::Skipped, None),
        _ => (Stage::Executed, None),
    }
}

fn join_area(buffer: &mut CommandBuffer, loc: Coord, new_z: bool, area: WorldRef) -> (r: Result<
    (Stage, Option<HostCall>),
    EngineError,
>)
    requires
        old(buffer).wf(),
    ensures
        final(buffer).wf(),
        final(buffer).commands == old(buffer).commands,
        agrees(area_on_tile(loc, new_z, area, old(buffer).caches()), r, final(buffer).caches()),
{
    let turf = match buffer.cached_turfs.resolve_coord(loc) {
        Ok(turf) => turf,
        Err(e) => {
            return Err(EngineError::Coordinate(e));
        },
    };
    if turf.is_null() {
        Ok((Stage::Warned, Some(HostCall::WarnNullTile { loc })))
    } else if !new_z {
        Ok((Stage::AwaitContain { turf, area }, Some(HostCall::HandleAreaContain { turf, area })))
    } else {
        Ok((Stage::Last, Some(HostCall::AddTurfToArea { area, turf })))
    }
}

/// Makes one step of a `CreateArea` command.
pub fn create_area(
    buffer: &mut CommandBuffer,
    prefabs: &Vec<Prefab>,
    loc: Coord,
    prefab: usize,
    new_z: bool,
    stage: Stage,
    reply: WorldRef,
) -> (r: Result<(Stage, Option<HostCall>), EngineError>)
    requires
        old(buffer).wf(),
    ensures
        final(buffer).wf(),
        final(buffer).commands == old(buffer).commands,
        agrees(
            area_step(loc, prefab, new_z, stage, old(buffer).caches(), prefabs@, reply),
            r,
            final(buffer).caches(),
        ),
{
    if prefab >= prefabs.len() {
        return Err(EngineError::UnknownPrefab);
    }
    match stage {
        Stage::Start => match buffer.created_areas.get(&prefabs[prefab].path) {
            Some(area) => join_area(buffer, loc, new_z, area),
            None => Ok((Stage::AwaitArea, Some(HostCall::CreateOrGetArea { prefab }))),
        },
        Stage::AwaitArea => {
            buffer.created_areas.insert(&prefabs[prefab].path, reply);
            join_area(buffer, loc, new_z, reply)
        },
        Stage::AwaitContain { turf, area } => Ok(
            (Stage::Last, Some(HostCall::AddTurfToArea { area, turf })),
        ),
        _ => Ok(finish_stage(stage)),
    }
}

/// Makes one step of a `CreateTurf` command.
pub fn create_turf(
    buffer: &mut CommandBuffer,
    prefabs: &Vec<Prefab>,
    loc: Coord,
    prefab: usize,
    no_changeturf: bool,
    place_on_top: bool,
    stage: Stage,
    reply: WorldRef,
) -> (r: Result<(Stage, Option<HostCall>), EngineError>)
    requires
        old(buffer).wf(),
    ensures
        final(buffer).wf(),
        final(buffer).commands == old(buffer).commands,
        agrees(
            turf_step(loc, prefab, no_changeturf, place_on_top, stage, old(buffer).caches(), prefabs@, reply),
            r,
            final(buffer).caches(),
        ),
{
    if prefab >= prefabs.len() {
        return Err(EngineError::UnknownPrefab);
    }
    match stage {
        Stage::Start => {
            let turf = match buffer.cached_turfs.resolve_coord(loc) {
                Ok(turf) => turf,
                Err(e) => {
                    return Err(EngineError::Coordinate(e));
                },
            };
            if turf.is_null() {
                Ok((Stage::Warned, Some(HostCall::WarnNullTile { loc })))
            } else if prefabs[prefab].vars.is_none() {
                Ok(
                    (
                        Stage::Last,
                        Some(
                            HostCall::CreateTurf {
                                turf,
                                prefab,
                                vars: WorldRef::null(),
                                place_on_top,
                                no_changeturf,
                            },
                        ),
                    ),
                )
            } else {
                Ok((Stage::AwaitVars { turf }, Some(HostCall::MaterializeVars { prefab })))
            }
        },
        Stage::AwaitVars { turf } => Ok(
            (
                Stage::Last,
                Some(HostCall::CreateTurf { turf, prefab, vars: reply, place_on_top, no_changeturf }),
            ),
        ),
        _ => Ok(finish_stage(stage)),
    }
}

fn with_path(prefabs: &Vec<Prefab>, prefab: usize, turf: WorldRef, path: WorldRef) -> (r: (
    Stage,
    Option<HostCall>,
))
    requires
        prefab < prefabs.len(),
    ensures
        r == atom_with_path(turf, path, prefab, prefabs@),
{
    if prefabs[prefab].vars.is_some() {
        (Stage::AwaitAtomVars { turf, path }, Some(HostCall::MaterializeVars { prefab }))
    } else {
        (Stage::AwaitInstance, Some(HostCall::New { path, turf }))
    }
}

/// Makes one step of a `CreateAtom` command.
pub fn create_movable(
    buffer: &mut CommandBuffer,
    prefabs: &Vec<Prefab>,
    loc: Coord,
    prefab: usize,
    stage: Stage,
    reply: WorldRef,
) -> (r: Result<(Stage, Option<HostCall>), EngineError>)
    requires
        old(buffer).wf(),
    ensures
        final(buffer).wf(),
        final(buffer).commands == old(buffer).commands,
        agrees(
            atom_step(loc, prefab, stage, old(buffer).caches(), prefabs@, reply),
            r,
            final(buffer).caches(),
        ),
{
    if prefab >= prefabs.len() {
        return Err(EngineError::UnknownPrefab);
    }
    match stage {
        Stage::Start => {
            let turf = match buffer.cached_turfs.resolve_coord(loc) {
                Ok(turf) => turf,
                Err(e) => {
                    return Err(EngineError::Coordinate(e));
                },
            };
            if turf.is_null() {
                return Ok((Stage::Warned, Some(HostCall::WarnNullTile { loc })));
            }
            match buffer.known_types.get(&prefabs[prefab].path) {
                Some(path) => Ok(with_path(prefabs, prefab, turf, path)),
                None => Ok((Stage::AwaitType { turf }, Some(HostCall::TextToPath { prefab }))),
            }
        },
        Stage::AwaitType { turf } => {
            buffer.known_types.insert(&prefabs[prefab].path, reply);
            Ok(with_path(prefabs, prefab, turf, reply))
        },
        Stage::AwaitAtomVars { turf, path } => Ok(
            (
                Stage::AwaitPreloader { turf, path },
                Some(HostCall::SetupPreloader { vars: reply, path }),
            ),
        ),
        Stage::AwaitPreloader { turf, path } => Ok(
            (Stage::AwaitInstance, Some(HostCall::New { path, turf })),
        ),
        Stage::AwaitInstance => Ok(
            (Stage::Last, Some(HostCall::ApplyPreloader { instance: reply })),
        ),
        _ => Ok(finish_stage(stage)),
    }
}

/// A command that is being executed.
#[derive(Clone, Copy, Debug, PartialEq, Eq)]
pub struct Execution {
    pub command: Command,
    pub stage: Stage,
}

impl Execution {
    /// The execution of `command`, before its first step.
    pub fn new(command: Command) -> (e: Execution)
        ensures
            e.command == command,
            e.stage == Stage::Start,
    {
        Execution { command, stage: Stage::Start }
    }

    /// Whether the command is over.
    pub open spec fn spec_is_over(&self) -> bool {
        self.stage == Stage::Executed || self.stage == Stage::Skipped
    }

    /// Tells whether the command is over.
    #[verifier::when_used_as_spec(spec_is_over)]
    pub fn is_over(&self) -> (r: bool)
        ensures
            r == self.spec_is_over(),
    {
        match self.stage {
            Stage::Executed | Stage::Skipped => true,
            _ => false,
        }
    }

    /// Tells whether the command was skipped with a warning.
    pub fn was_skipped(&self) -> (r: bool)
        ensures
            r == (self.stage == Stage::Skipped),
    {
        match self.stage {
            Stage::Skipped => true,
            _ => false,
        }
    }

    /// Makes one step: takes note of `reply`, the host's answer to the call
    /// made last (any value before the first call, and after a call that is
    /// not answered), and says which call comes next. `None` means that the
    /// command is over. An error ends the whole drain, and leaves the stage
    /// where it was.
    pub fn step(&mut self, buffer: &mut CommandBuffer, prefabs: &Vec<Prefab>, reply: WorldRef) -> (r:
        Result<Option<HostCall>, EngineError>)
        requires
            old(buffer).wf(),
        ensures
            final(buffer).wf(),
            final(buffer).commands == old(buffer).commands,
            final(self).command == old(self).command,
            final(buffer).caches() == step_spec(
                old(self).command,
                old(self).stage,
                old(buffer).caches(),
                prefabs@,
                reply,
            ).caches,
            match step_spec(old(self).command, old(self).stage, old(buffer).caches(), prefabs@, reply).result {
                Ok((stage, call)) => r == Ok::<Option<HostCall>, EngineError>(call)
                    && final(self).stage == stage,
                Err(e) => r == Err::<Option<HostCall>, EngineError>(e) && final(self).stage == old(
                    self,
                ).stage,
            },
    {
        let stepped = match self.command {
            Command::CreateArea { loc, prefab, new_z } => create_area(
                buffer,
                prefabs,
                loc,
                prefab,
                new_z,
                self.stage,
                reply,
            ),
            Command::CreateTurf { loc, prefab, no_changeturf, place_on_top } => create_turf(
                buffer,
                prefabs,
                loc,
                prefab,
                no_changeturf,
                place_on_top,
                self.stage,
                reply,
            ),
            Command::CreateAtom { loc, prefab } => create_movable(
                buffer,
                prefabs,
                loc,
                prefab,
                self.stage,
                reply,
            ),
        };
        match stepped {
            Ok((stage, call)) => {
                self.stage = stage;
                Ok(call)
            },
            Err(e) => Err(e),
        }
    }
}

} // verus!
