//! Paths as the tools are given them, and the place where state is kept.

use vstd::prelude::*;
use vstd::slice::{slice_subrange, slice_to_vec};

use crate::text::{is_blank, is_blank_text};

verus! {

/// The variable that names the directory in which state is kept.
pub const STATE_DIR_VARIABLE: &'static str = "SERENA_STATE_DIR";

/// The directory, under the home directory, in which state is kept when
/// none is named.
pub const DEFAULT_STATE_DIR: &'static str = ".serena-mcp";

/// The file that holds the summaries of projects.
pub const WORKFLOW_STATE_FILE: &'static str = "workflow_state.json";

/// The file that holds the notes.
pub const MEMORY_FILE: &'static str = "memories.json";

/// The sign of the home directory.
pub const TILDE: u8 = 0x7E;

pub const SEPARATOR: u8 = 0x2F;

/// Why a path cannot be resolved.
#[derive(Clone, Copy, Debug, PartialEq, Eq, Structural)]
pub enum PathError {
    /// The path is empty, or holds nothing but white space.
    Empty,
    /// The path begins in the home directory, which is not known.
    HomeNotSet,
    /// The path is relative, and the working directory is not known.
    NoWorkingDirectory,
}

/// `path` begins in the home directory: with a tilde and a separator.
pub open spec fn is_home_path(path: Seq<u8>) -> bool {
    path.len() >= 2 && path[0] == TILDE && path[1] == SEPARATOR
}

/// `path` is absolute: it begins with a separator.
pub open spec fn is_absolute(path: Seq<u8>) -> bool {
    path.len() > 0 && path[0] == SEPARATOR
}

/// The path of `name` in the directory `dir`: `name` itself when it is
/// absolute, and else the two with a separator between them, unless the
/// directory is empty or ends with one.
pub open spec fn joined_path(dir: Seq<u8>, name: Seq<u8>) -> Seq<u8> {
    if is_absolute(name) {
        name
    } else if dir.len() == 0 || dir.last() == SEPARATOR {
        dir + name
    } else {
        dir + seq![SEPARATOR] + name
    }
}

/// The text that an optional byte string holds.
pub open spec fn optional_bytes(v: Option<&[u8]>) -> Option<Seq<u8>> {
    match v {
        Some(text) => Some(text@),
        None => None,
    }
}

/// What `path` resolves to, the home directory being `home` and the working
/// directory `cwd`. An empty path resolves to nothing. A path that begins
/// with a tilde and a separator lies in the home directory, where what
/// follows that one sign leads. An absolute path stands for itself. Any
/// other path leads on from the working directory.
pub open spec fn resolved(path: Seq<u8>, home: Option<Seq<u8>>, cwd: Option<Seq<u8>>) -> Result<
    Seq<u8>,
    PathError,
> {
    if is_blank(path) {
        Err(PathError::Empty)
    } else if is_home_path(path) {
        match home {
            Some(h) => Ok(joined_path(h, path.skip(2))),
            None => Err(PathError::HomeNotSet),
        }
    } else if is_absolute(path) {
        Ok(path)
    } else {
        match cwd {
            Some(d) => Ok(joined_path(d, path)),
            None => Err(PathError::NoWorkingDirectory),
        }
    }
}

/// Joins `name` to the directory `dir`.
pub fn join_path(dir: &[u8], name: &[u8]) -> (r: Vec<u8>)
    ensures
        r@ == joined_path(dir@, name@),
{
    if name.len() > 0 && name[0] == SEPARATOR {
        return slice_to_vec(name);
    }
    let mut path = slice_to_vec(dir);
    let n: usize = dir.len();
    if n > 0 && dir[n - 1] != SEPARATOR {
        path.push(SEPARATOR);
    }
    path.extend_from_slice(name);
    proof {
        assert(path@ =~= joined_path(dir@, name@));
    }
    path
}

/// Resolves `path`, the home directory being `home` and the working
/// directory `cwd`, where they are known.
pub fn resolve_path(path: &[u8], home: Option<&[u8]>, cwd: Option<&[u8]>) -> (r: Result<
    Vec<u8>,
    PathError,
>)
    ensures
        match r {
            Ok(full) => resolved(path@, optional_bytes(home), optional_bytes(cwd)) == Ok::<
                Seq<u8>,
                PathError,
            >(full@),
            Err(e) => resolved(path@, optional_bytes(home), optional_bytes(cwd)) == Err::<
                Seq<u8>,
                PathError,
            >(e),
        },
{
    if is_blank_text(path) {
        return Err(PathError::Empty);
    }
    if path.len() >= 2 && path[0] == TILDE && path[1] == SEPARATOR {
        return match home {
            Some(h) => {
                let rest = slice_subrange(path, 2, path.len());
                proof {
                    assert(rest@ =~= path@.skip(2));
                }
                Ok(join_path(h, rest))
            },
            None => Err(PathError::HomeNotSet),
        };
    }
    if path.len() > 0 && path[0] == SEPARATOR {
        return Ok(slice_to_vec(path));
    }
    match cwd {
        Some(d) => Ok(join_path(d, path)),
        None => Err(PathError::NoWorkingDirectory),
    }
}

/// Where state is kept, as a mathematical value.
pub enum StatePlace {
    /// In the directory that was named.
    Named { dir: Seq<u8> },
    /// In the default directory under this home directory.
    UnderHome { home: Seq<u8> },
}

/// Where state is kept.
pub enum StateDir {
    /// In the directory that was named.
    Named { dir: Vec<u8> },
    /// In the default directory under this home directory.
    UnderHome { home: Vec<u8> },
}

impl View for StateDir {
    type V = StatePlace;

    open spec fn view(&self) -> StatePlace {
        match self {
            StateDir::Named { dir } => StatePlace::Named { dir: dir@ },
            StateDir::UnderHome { home } => StatePlace::UnderHome { home: home@ },
        }
    }
}

/// Why there is no place for state.
#[derive(Clone, Copy, Debug, PartialEq, Eq, Structural)]
pub enum StateDirError {
    /// No directory was named, and the home directory is not known.
    HomeNotSet,
}

/// Tells where state is kept: in the directory named, or else under the
/// home directory.
pub fn state_dir(named: Option<&[u8]>, home: Option<&[u8]>) -> (r: Result<StateDir, StateDirError>)
    ensures
        match (named, home) {
            (Some(dir), _) => r matches Ok(place) && place@ == (StatePlace::Named { dir: dir@ }),
            (None, Some(h)) => r matches Ok(place) && place@ == (StatePlace::UnderHome {
                home: h@,
            }),
            (None, None) => r == Err::<StateDir, StateDirError>(StateDirError::HomeNotSet),
        },
{
    match named {
        Some(dir) => Ok(StateDir::Named { dir: slice_to_vec(dir) }),
        None => match home {
            Some(h) => Ok(StateDir::UnderHome { home: slice_to_vec(h) }),
            None => Err(StateDirError::HomeNotSet),
        },
    }
}

/// The path of the state file `name` in the state directory `dir`.
pub fn state_file(dir: &[u8], name: &[u8]) -> (r: Vec<u8>)
    ensures
        r@ == joined_path(dir@, name@),
{
    join_path(dir, name)
}

} // verus!
