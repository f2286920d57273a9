//! Snapshot persistence: which file holds the snapshot, and what the
//! outcome of reading it means for the store.

use crate::db::Database;
use crate::snapshot::restored;
use vstd::prelude::*;

verus! {

/// What an attempt to read the snapshot file gave.
pub enum FileRead {
    /// There is no such file.
    Missing,
    /// The file is there but could not be read.
    Unreadable,
    /// The whole content of the file.
    Contents(Vec<u8>),
}

/// Why a snapshot could not be loaded.
#[derive(Clone, Copy, Debug, PartialEq, Eq, Structural)]
pub enum PersistenceError {
    /// The snapshot file is there but could not be read.
    Unreadable,
}

impl PersistenceError {
    /// The error in words.
    pub fn message(&self) -> (text: String)
        ensures
            text@ == "snapshot file could not be read"@,
    {
        "snapshot file could not be read".to_owned()
    }
}

/// The place where snapshots of a store are kept.
pub struct Persistence {
    file_path: String,
}

impl Persistence {
    /// The path of the snapshot file.
    pub closed spec fn path(&self) -> Seq<char> {
        self.file_path@
    }

    /// Snapshots kept in the file at `path`.
    pub fn new(path: &str) -> (p: Self)
        ensures
            p.path() == path@,
    {
        Self { file_path: path.to_owned() }
    }

    /// The path of the snapshot file.
    pub fn file_path(&self) -> (path: &str)
        ensures
            path@ == self.path(),
    {
        self.file_path.as_str()
    }

    /// Brings what was read from the snapshot file into the store. A
    /// missing file leaves the store as it is and is no error; a file that
    /// could not be read is one; content that was read is loaded, and
    /// ignored where it does not decode.
    pub fn load_into(&self, read: FileRead, db: &mut Database) -> (r: Result<(), PersistenceError>)
        requires
            old(db).wf(),
        ensures
            final(db).wf(),
            r is Err <==> read is Unreadable,
            r is Err ==> r == Err::<(), PersistenceError>(PersistenceError::Unreadable),
            final(db).records() == match read {
                FileRead::Contents(bytes) => restored(old(db).records(), bytes@),
                _ => old(db).records(),
            },
    {
        match read {
            FileRead::Missing => Ok(()),
            FileRead::Unreadable => Err(PersistenceError::Unreadable),
            FileRead::Contents(bytes) => {
                db.load(bytes.as_slice());
                Ok(())
            },
        }
    }
}

} // verus!
