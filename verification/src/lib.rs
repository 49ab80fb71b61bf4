//! Incremental loading of tile maps.
//!
//! The text of a map, in either of its two layouts, is parsed into a prefab
//! table and coordinate blocks (`scan`, `literal`, `prefabs`, `blocks`,
//! `map`); the parsed map is turned into placement commands (`load`); and
//! the commands are drained in bounded batches, so that one long load never
//! stalls the host (`commands`, `drain`, `execute`, `materialize`, with the
//! caches in `turfs` and `paths`).
//!
//! Nothing here calls the host. Where the host must act, a function says
//! which call comes next and is told what the host answered.
//!
//! `canonical` and `containment` hold what is proved of the literal grammar:
//! that the canonical text of a literal parses back to it, and that a bad
//! value costs one fallback value and nothing else.

pub mod blocks;
pub mod bytes;
pub mod canonical;
pub mod commands;
pub mod containment;
pub mod coords;
pub mod drain;
pub mod execute;
pub mod host;
pub mod literal;
pub mod load;
pub mod map;
pub mod materialize;
pub mod model;
pub mod paths;
pub mod prefabs;
pub mod scan;
pub mod turfs;
