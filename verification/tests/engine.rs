use bapi_dmm_reader::commands::{Command, CommandBuffer, EngineError, Sessions};
use bapi_dmm_reader::coords::ResolveError;
use bapi_dmm_reader::drain::{Drain, DrainStatus, Next, MIN_PAUSE};
use bapi_dmm_reader::execute::{Execution, HostCall, Stage};
use bapi_dmm_reader::host::WorldRef;
use bapi_dmm_reader::model::{Literal, Prefab};

const BOUNDS: (usize, usize, usize) = (255, 255, 1);

fn atoms(n: usize) -> Vec<Command> {
    (0..n).map(|i| Command::CreateAtom { loc: (1 + i % 255, 1 + i / 255, 1), prefab: i }).collect()
}

// One invocation: every command runs to its end, and the host answers every
// consultation of the budget with `exhausted`.
fn invoke(sessions: &mut Sessions, key: usize, exhausted: bool, ran: &mut Vec<Command>) -> (DrainStatus, usize) {
    let mut buffer = sessions.checkout(key).unwrap();
    let mut drain = Drain::begin(&mut buffer, BOUNDS);
    let mut consulted = 0;
    let status = loop {
        match drain.next(&mut buffer) {
            Next::Run(command) => {
                ran.push(command);
                drain.command_done(false);
            }
            Next::ConsultBudget => {
                consulted += 1;
                drain.budget(exhausted);
            }
            Next::Stop(status) => break status,
        }
    };
    sessions.checkin(key, buffer);
    (status, consulted)
}

fn invocations_until_done(n: usize) -> usize {
    let mut sessions = Sessions::new();
    let stack = atoms(n);
    sessions.open(7, CommandBuffer::with_commands(stack.clone()));
    let mut ran = vec![];
    let mut count = 0;
    loop {
        assert!(sessions.contains(7));
        let (status, _) = invoke(&mut sessions, 7, true, &mut ran);
        count += 1;
        if status == DrainStatus::Done {
            break;
        }
    }
    assert!(!sessions.contains(7));
    let mut expected = stack;
    expected.reverse();
    assert_eq!(ran, expected);
    count
}

#[test]
fn the_batch_is_a_hundred_commands() {
    assert_eq!(MIN_PAUSE, 100);
}

#[test]
fn a_drain_takes_the_ceiling_of_n_over_k_invocations() {
    assert_eq!(invocations_until_done(1), 1);
    assert_eq!(invocations_until_done(99), 1);
    assert_eq!(invocations_until_done(100), 1);
    assert_eq!(invocations_until_done(101), 2);
    assert_eq!(invocations_until_done(200), 2);
    assert_eq!(invocations_until_done(250), 3);
    assert_eq!(invocations_until_done(1000), 10);
}

#[test]
fn a_suspended_drain_keeps_its_buffer_and_the_rest_of_the_stack() {
    let mut sessions = Sessions::new();
    sessions.open(1, CommandBuffer::with_commands(atoms(250)));
    let mut ran = vec![];
    assert_eq!(invoke(&mut sessions, 1, true, &mut ran), (DrainStatus::MoreWorkPending, 1));
    assert_eq!(ran.len(), 100);
    assert_eq!(ran[0], Command::CreateAtom { loc: (250, 1, 1), prefab: 249 });
    assert!(sessions.contains(1));
    let buffer = sessions.checkout(1).unwrap();
    assert_eq!(buffer.commands, atoms(150));
    sessions.checkin(1, buffer);
    assert_eq!(invoke(&mut sessions, 1, true, &mut ran), (DrainStatus::MoreWorkPending, 1));
    assert_eq!(ran.len(), 200);
    assert!(sessions.contains(1));
    assert_eq!(invoke(&mut sessions, 1, true, &mut ran), (DrainStatus::Done, 0));
    assert_eq!(ran.len(), 250);
    assert!(!sessions.contains(1));
}

#[test]
fn a_budget_that_lasts_drains_in_one_invocation() {
    let mut sessions = Sessions::new();
    sessions.open(1, CommandBuffer::with_commands(atoms(250)));
    let mut ran = vec![];
    assert_eq!(invoke(&mut sessions, 1, false, &mut ran), (DrainStatus::Done, 2));
    assert_eq!(ran.len(), 250);
    assert!(!sessions.contains(1));
}

#[test]
fn an_empty_buffer_is_done_at_once() {
    let mut sessions = Sessions::new();
    sessions.open(1, CommandBuffer::new());
    let mut ran = vec![];
    assert_eq!(invoke(&mut sessions, 1, true, &mut ran), (DrainStatus::Done, 0));
    assert!(ran.is_empty());
    assert!(!sessions.contains(1));
}

#[test]
fn skipped_commands_do_not_count_towards_the_batch() {
    let mut buffer = CommandBuffer::with_commands(atoms(150));
    let mut drain = Drain::begin(&mut buffer, BOUNDS);
    let mut popped = 0;
    loop {
        match drain.next(&mut buffer) {
            Next::Run(_) => {
                popped += 1;
                drain.command_done(true);
            }
            Next::ConsultBudget => panic!("nothing was executed"),
            Next::Stop(status) => {
                assert_eq!(status, DrainStatus::Done);
                break;
            }
        }
    }
    assert_eq!(popped, 150);
}

#[test]
fn a_suspended_drain_stays_suspended() {
    let mut buffer = CommandBuffer::with_commands(atoms(3));
    let mut drain = Drain::begin(&mut buffer, BOUNDS);
    drain.budget(true);
    assert_eq!(drain.next(&mut buffer), Next::Stop(DrainStatus::MoreWorkPending));
    assert_eq!(drain.next(&mut buffer), Next::Stop(DrainStatus::MoreWorkPending));
    assert_eq!(buffer.commands.len(), 3);
}

#[test]
fn beginning_a_drain_takes_note_of_the_extent() {
    let mut buffer = CommandBuffer::new();
    Drain::begin(&mut buffer, (10, 10, 1));
    assert_eq!(buffer.cached_turfs.resolve_coord((3, 4, 1)), Ok(WorldRef::turf(32)));
    Drain::begin(&mut buffer, (10, 10, 1));
    assert!(buffer.cached_turfs.is_cached((3, 4, 1)));
    Drain::begin(&mut buffer, (20, 10, 1));
    assert!(!buffer.cached_turfs.is_cached((3, 4, 1)));
    assert_eq!(buffer.cached_turfs.world_bounds(), (20, 10, 1));
}

#[test]
fn an_unknown_resume_key_is_an_error() {
    let mut sessions = Sessions::new();
    assert_eq!(sessions.checkout(3).unwrap_err(), EngineError::UnknownSession);
    sessions.open(3, CommandBuffer::with_commands(atoms(1)));
    assert_eq!(sessions.checkout(4).unwrap_err(), EngineError::UnknownSession);
    assert!(sessions.checkout(3).is_ok());
    assert_eq!(sessions.checkout(3).unwrap_err(), EngineError::UnknownSession);
}

fn prefabs() -> Vec<Prefab> {
    vec![
        Prefab { path: b"/area/space".to_vec(), vars: None },
        Prefab { path: b"/turf/space".to_vec(), vars: None },
        Prefab {
            path: b"/turf/open".to_vec(),
            vars: Some(vec![(b"name".to_vec(), Literal::String(b"meow".to_vec()))]),
        },
        Prefab { path: b"/obj/item".to_vec(), vars: None },
        Prefab {
            path: b"/obj/item".to_vec(),
            vars: Some(vec![(b"dir".to_vec(), Literal::Number(b"4".to_vec()))]),
        },
        Prefab { path: b"/area/space".to_vec(), vars: None },
    ]
}

fn ready_buffer() -> CommandBuffer {
    let mut buffer = CommandBuffer::new();
    Drain::begin(&mut buffer, (10, 10, 1));
    buffer
}

const AREA: WorldRef = WorldRef { kind: 4, id: 70 };
const TYPE: WorldRef = WorldRef { kind: 9, id: 80 };
const LIST: WorldRef = WorldRef { kind: 15, id: 90 };
const INSTANCE: WorldRef = WorldRef { kind: 2, id: 95 };
const NOTHING: WorldRef = WorldRef { kind: 0, id: 0 };

#[test]
fn an_area_is_asked_for_once_and_then_remembered() {
    let table = prefabs();
    let mut buffer = ready_buffer();
    let turf = WorldRef::turf(32);
    let mut run = Execution::new(Command::CreateArea { loc: (3, 4, 1), prefab: 0, new_z: false });
    assert_eq!(run.step(&mut buffer, &table, NOTHING), Ok(Some(HostCall::CreateOrGetArea { prefab: 0 })));
    assert_eq!(run.stage, Stage::AwaitArea);
    assert_eq!(
        run.step(&mut buffer, &table, AREA),
        Ok(Some(HostCall::HandleAreaContain { turf, area: AREA }))
    );
    assert_eq!(run.step(&mut buffer, &table, NOTHING), Ok(Some(HostCall::AddTurfToArea { area: AREA, turf })));
    assert!(!run.is_over());
    assert_eq!(run.step(&mut buffer, &table, NOTHING), Ok(None));
    assert!(run.is_over());
    assert!(!run.was_skipped());
    assert_eq!(buffer.created_areas.get(&b"/area/space".to_vec()), Some(AREA));
    assert!(buffer.cached_turfs.is_cached((3, 4, 1)));

    // another prefab with the same type path, on a new level
    let mut run = Execution::new(Command::CreateArea { loc: (1, 1, 1), prefab: 5, new_z: true });
    assert_eq!(
        run.step(&mut buffer, &table, NOTHING),
        Ok(Some(HostCall::AddTurfToArea { area: AREA, turf: WorldRef::turf(0) }))
    );
    assert_eq!(run.step(&mut buffer, &table, NOTHING), Ok(None));
    assert_eq!(run.stage, Stage::Executed);
}

#[test]
fn a_turf_is_created_with_its_variables_and_flags() {
    let table = prefabs();
    let mut buffer = ready_buffer();
    let turf = WorldRef::turf(32);
    let mut run = Execution::new(Command::CreateTurf {
        loc: (3, 4, 1),
        prefab: 1,
        no_changeturf: true,
        place_on_top: false,
    });
    assert_eq!(
        run.step(&mut buffer, &table, NOTHING),
        Ok(Some(HostCall::CreateTurf {
            turf,
            prefab: 1,
            vars: WorldRef::null(),
            place_on_top: false,
            no_changeturf: true
        }))
    );
    assert_eq!(run.step(&mut buffer, &table, NOTHING), Ok(None));
    assert!(run.is_over());

    let mut run = Execution::new(Command::CreateTurf {
        loc: (3, 4, 1),
        prefab: 2,
        no_changeturf: false,
        place_on_top: true,
    });
    assert_eq!(run.step(&mut buffer, &table, NOTHING), Ok(Some(HostCall::MaterializeVars { prefab: 2 })));
    assert_eq!(
        run.step(&mut buffer, &table, LIST),
        Ok(Some(HostCall::CreateTurf {
            turf,
            prefab: 2,
            vars: LIST,
            place_on_top: true,
            no_changeturf: false
        }))
    );
    assert_eq!(run.step(&mut buffer, &table, NOTHING), Ok(None));
    assert_eq!(run.stage, Stage::Executed);
}

#[test]
fn an_object_is_staged_created_and_preloaded() {
    let table = prefabs();
    let mut buffer = ready_buffer();
    let turf = WorldRef::turf(32);
    let mut run = Execution::new(Command::CreateAtom { loc: (3, 4, 1), prefab: 4 });
    assert_eq!(run.step(&mut buffer, &table, NOTHING), Ok(Some(HostCall::TextToPath { prefab: 4 })));
    assert_eq!(run.step(&mut buffer, &table, TYPE), Ok(Some(HostCall::MaterializeVars { prefab: 4 })));
    assert_eq!(
        run.step(&mut buffer, &table, LIST),
        Ok(Some(HostCall::SetupPreloader { vars: LIST, path: TYPE }))
    );
    assert_eq!(run.step(&mut buffer, &table, NOTHING), Ok(Some(HostCall::New { path: TYPE, turf })));
    assert_eq!(
        run.step(&mut buffer, &table, INSTANCE),
        Ok(Some(HostCall::ApplyPreloader { instance: INSTANCE }))
    );
    assert_eq!(run.step(&mut buffer, &table, NOTHING), Ok(None));
    assert!(run.is_over());
    assert_eq!(buffer.known_types.get(&b"/obj/item".to_vec()), Some(TYPE));

    // the type is known now, and this prefab has no variables
    let mut run = Execution::new(Command::CreateAtom { loc: (1, 1, 1), prefab: 3 });
    assert_eq!(
        run.step(&mut buffer, &table, NOTHING),
        Ok(Some(HostCall::New { path: TYPE, turf: WorldRef::turf(0) }))
    );
    assert_eq!(
        run.step(&mut buffer, &table, INSTANCE),
        Ok(Some(HostCall::ApplyPreloader { instance: INSTANCE }))
    );
    assert_eq!(run.step(&mut buffer, &table, NOTHING), Ok(None));
    assert_eq!(run.step(&mut buffer, &table, NOTHING), Ok(None));
    assert_eq!(run.stage, Stage::Executed);
}

#[test]
fn a_coordinate_without_a_tile_ends_the_drain() {
    let table = prefabs();
    let mut buffer = ready_buffer();
    let out = Err(EngineError::Coordinate(ResolveError::OutOfRange));
    let mut run = Execution::new(Command::CreateTurf {
        loc: (11, 1, 1),
        prefab: 1,
        no_changeturf: false,
        place_on_top: false,
    });
    assert_eq!(run.step(&mut buffer, &table, NOTHING), out);
    assert_eq!(run.stage, Stage::Start);
    let mut run = Execution::new(Command::CreateAtom { loc: (1, 1, 2), prefab: 3 });
    assert_eq!(run.step(&mut buffer, &table, NOTHING), out);
    // the area is asked for before the tile is resolved
    let mut run = Execution::new(Command::CreateArea { loc: (0, 1, 1), prefab: 0, new_z: false });
    assert_eq!(run.step(&mut buffer, &table, NOTHING), Ok(Some(HostCall::CreateOrGetArea { prefab: 0 })));
    assert_eq!(run.step(&mut buffer, &table, AREA), out);
    assert_eq!(run.stage, Stage::AwaitArea);
    assert_eq!(buffer.created_areas.get(&b"/area/space".to_vec()), Some(AREA));
}

#[test]
fn a_prefab_outside_the_table_ends_the_drain() {
    let table = prefabs();
    let mut buffer = ready_buffer();
    let mut run = Execution::new(Command::CreateAtom { loc: (1, 1, 1), prefab: 6 });
    assert_eq!(run.step(&mut buffer, &table, NOTHING), Err(EngineError::UnknownPrefab));
    let mut run = Execution::new(Command::CreateArea { loc: (1, 1, 1), prefab: 60, new_z: true });
    assert_eq!(run.step(&mut buffer, &table, NOTHING), Err(EngineError::UnknownPrefab));
    let mut run = Execution::new(Command::CreateTurf {
        loc: (1, 1, 1),
        prefab: usize::MAX,
        no_changeturf: false,
        place_on_top: false,
    });
    assert_eq!(run.step(&mut buffer, &table, NOTHING), Err(EngineError::UnknownPrefab));
}

#[test]
fn a_command_whose_warning_is_out_ends_skipped() {
    let table = prefabs();
    let mut buffer = ready_buffer();
    let mut run = Execution { command: Command::CreateAtom { loc: (1, 1, 1), prefab: 3 }, stage: Stage::Warned };
    assert_eq!(run.step(&mut buffer, &table, NOTHING), Ok(None));
    assert!(run.is_over());
    assert!(run.was_skipped());
}

#[test]
fn a_session_can_be_given_up() {
    let mut sessions = Sessions::new();
    sessions.open(5, CommandBuffer::with_commands(atoms(10)));
    sessions.open(6, CommandBuffer::with_commands(atoms(10)));
    assert!(sessions.evict(5));
    assert!(!sessions.contains(5));
    assert!(sessions.contains(6));
    assert!(!sessions.evict(5));
    assert_eq!(sessions.checkout(5).unwrap_err(), EngineError::UnknownSession);
}
