//! Placement commands, the buffer that holds them for one load session, and
//! the store of the sessions that are under way.

use vstd::prelude::*;
use std::collections::HashMap;
use crate::coords::{Coord, ResolveError};
use crate::host::WorldRef;
use crate::paths::PathCache;
use crate::turfs::{CachedTurfs, TurfCache};

verus! {

broadcast use vstd::std_specs::hash::group_hash_axioms;

/// One placement. `prefab` is the position of the prefab in the parsed map's
/// prefab table, so that a command stays meaningful for as long as the table
/// it was made from.
#[derive(Clone, Copy, Debug, PartialEq, Eq)]
pub enum Command {
    CreateArea { loc: Coord, prefab: usize, new_z: bool },
    CreateTurf { loc: Coord, prefab: usize, no_changeturf: bool, place_on_top: bool },
    CreateAtom { loc: Coord, prefab: usize },
}

/// Why the engine gave up.
#[derive(Clone, Copy, Debug, PartialEq, Eq, Structural)]
pub enum EngineError {
    /// No buffer is resident under the resume key.
    UnknownSession,
    /// A command names a coordinate that has no tile.
    Coordinate(ResolveError),
    /// A command names a prefab that the prefab table does not hold.
    UnknownPrefab,
}

/// What a load session has learnt from the host, as a mathematical value.
pub ghost struct Caches {
    pub areas: Map<Seq<u8>, WorldRef>,
    pub types: Map<Seq<u8>, WorldRef>,
    pub turfs: TurfCache,
}

/// The state of one resumable load session: the commands still to run, last
/// to run first, and what the session has learnt from the host so far.
#[derive(Debug)]
pub struct CommandBuffer {
    /// The area created for each area type path.
    pub created_areas: PathCache,
    /// The host's type handle for each type path.
    pub known_types: PathCache,
    /// The tiles resolved under the current extent of the world.
    pub cached_turfs: CachedTurfs,
    /// The pending commands, as a stack: the last one runs first.
    pub commands: Vec<Command>,
}

impl CommandBuffer {
    /// The invariant of the buffer: each of its caches is well formed.
    pub open spec fn wf(&self) -> bool {
        &&& self.created_areas.wf()
        &&& self.known_types.wf()
        &&& self.cached_turfs.wf()
    }

    /// What the buffer has learnt from the host.
    pub open spec fn caches(&self) -> Caches {
        Caches {
            areas: self.created_areas@,
            types: self.known_types@,
            turfs: self.cached_turfs@,
        }
    }

    /// A buffer without commands that has learnt nothing yet: no area, no
    /// type, and no tile, under the extent of a world that is yet to be
    /// reported.
    pub fn new() -> (b: CommandBuffer)
        ensures
            b.wf(),
            b.commands@ == Seq::<Command>::empty(),
            b.created_areas@ == Map::<Seq<u8>, WorldRef>::empty(),
            b.known_types@ == Map::<Seq<u8>, WorldRef>::empty(),
            b.cached_turfs@.mapping == Map::<Coord, WorldRef>::empty(),
            b.cached_turfs@.bounds == (0usize, 0usize, 0usize),
    {
        CommandBuffer {
            created_areas: PathCache::new(),
            known_types: PathCache::new(),
            cached_turfs: CachedTurfs::new(),
            commands: Vec::new(),
        }
    }

    /// A buffer that will run `commands`, the last one first.
    pub fn with_commands(commands: Vec<Command>) -> (b: CommandBuffer)
        ensures
            b.wf(),
            b.commands@ == commands@,
            b.created_areas@ == Map::<Seq<u8>, WorldRef>::empty(),
            b.known_types@ == Map::<Seq<u8>, WorldRef>::empty(),
            b.cached_turfs@.mapping == Map::<Coord, WorldRef>::empty(),
    {
        CommandBuffer {
            created_areas: PathCache::new(),
            known_types: PathCache::new(),
            cached_turfs: CachedTurfs::new(),
            commands,
        }
    }
}

impl Default for CommandBuffer {
    fn default() -> (b: CommandBuffer)
        ensures
            b.wf(),
            b.commands@ == Seq::<Command>::empty(),
            b.created_areas@ == Map::<Seq<u8>, WorldRef>::empty(),
            b.known_types@ == Map::<Seq<u8>, WorldRef>::empty(),
            b.cached_turfs@.mapping == Map::<Coord, WorldRef>::empty(),
    {
        CommandBuffer::new()
    }
}

/// The load sessions that are under way, by resume key.
///
/// A buffer leaves the store while it is drained and comes back only if
/// commands are left in it: a session lives exactly as long as it has work.
pub struct Sessions {
    buffers: HashMap<usize, CommandBuffer>,
}

impl View for Sessions {
    type V = Map<usize, CommandBuffer>;

    closed spec fn view(&self) -> Map<usize, CommandBuffer> {
        self.buffers@
    }
}

impl Sessions {
    /// The invariant of the store: every resident buffer is well formed.
    pub open spec fn wf(&self) -> bool {
        forall|k: usize| #[trigger] self@.contains_key(k) ==> self@[k].wf()
    }

    /// A store without sessions.
    pub fn new() -> (s: Sessions)
        ensures
            s.wf(),
            s@ == Map::<usize, CommandBuffer>::empty(),
    {
        Sessions { buffers: HashMap::new() }
    }

    /// Tells whether a buffer is resident under `resume_key`.
    pub fn contains(&self, resume_key: usize) -> (r: bool)
        ensures
            r == self@.contains_key(resume_key),
    {
        self.buffers.contains_key(&resume_key)
    }

    /// Starts a session: `buffer` becomes resident under `resume_key`, in
    /// place of what was resident under it before, if anything.
    pub fn open(&mut self, resume_key: usize, buffer: CommandBuffer)
        requires
            old(self).wf(),
            buffer.wf(),
        ensures
            final(self).wf(),
            final(self)@ == old(self)@.insert(resume_key, buffer),
    {
        self.buffers.insert(resume_key, buffer);
        assert forall|k: usize| #[trigger] self@.contains_key(k) implies self@[k].wf() by {
            if k != resume_key {
                assert(old(self)@.contains_key(k));
            }
        }
    }

    /// Takes the buffer of `resume_key` out of the store to drain it. Fails,
    /// and leaves the store as it was, when none is resident under the key.
    pub fn checkout(&mut self, resume_key: usize) -> (r: Result<CommandBuffer, EngineError>)
        requires
            old(self).wf(),
        ensures
            final(self).wf(),
            match r {
                Ok(buffer) => old(self)@.contains_key(resume_key) && buffer == old(self)@[resume_key]
                    && buffer.wf() && final(self)@ == old(self)@.remove(resume_key),
                Err(e) => e == EngineError::UnknownSession && !old(self)@.contains_key(resume_key)
                    && final(self)@ == old(self)@,
            },
    {
        let taken = self.buffers.remove(&resume_key);
        assert forall|k: usize| #[trigger] self@.contains_key(k) implies self@[k].wf() by {
            assert(old(self)@.contains_key(k));
        }
        match taken {
            Some(buffer) => {
                assert(old(self)@.contains_key(resume_key));
                Ok(buffer)
            },
            None => {
                assert(self@ =~= old(self)@);
                Err(EngineError::UnknownSession)
            },
        }
    }

    /// Gives up the session of `resume_key`, with whatever commands are left
    /// in it. Tells whether there was one.
    pub fn evict(&mut self, resume_key: usize) -> (r: bool)
        requires
            old(self).wf(),
        ensures
            final(self).wf(),
            r == old(self)@.contains_key(resume_key),
            final(self)@ == old(self)@.remove(resume_key),
    {
        let taken = self.buffers.remove(&resume_key);
        assert forall|k: usize| #[trigger] self@.contains_key(k) implies self@[k].wf() by {
            assert(old(self)@.contains_key(k));
        }
        taken.is_some()
    }

    /// Ends a drain: the buffer goes back under `resume_key` when commands
    /// are left in it, and the session is gone from the store when none are.
    pub fn checkin(&mut self, resume_key: usize, buffer: CommandBuffer)
        requires
            old(self).wf(),
            buffer.wf(),
        ensures
            final(self).wf(),
            final(self)@ == after_checkin(old(self)@, resume_key, buffer),
    {
        if buffer.commands.len() == 0 {
            self.buffers.remove(&resume_key);
        } else {
            self.buffers.insert(resume_key, buffer);
        }
        assert forall|k: usize| #[trigger] self@.contains_key(k) implies self@[k].wf() by {
            if k != resume_key {
                assert(old(self)@.contains_key(k));
            }
        }
    }
}

/// The store after a drain of `buffer` has ended.
pub open spec fn after_checkin(
    store: Map<usize, CommandBuffer>,
    resume_key: usize,
    buffer: CommandBuffer,
) -> Map<usize, CommandBuffer> {
    if buffer.commands@.len() == 0 {
        store.remove(resume_key)
    } else {
        store.insert(resume_key, buffer)
    }
}

} // verus!
