//! What to do with the database file at start, by its schema version.

use vstd::prelude::*;

verus! {

/// The schema version that this application writes.
pub const DB_VERSION: u8 = 7;

/// What starting the application does to the database file.
#[derive(Debug, PartialEq, Eq)]
pub enum DatabaseCheck {
    /// There is no file yet: create the tables and set the version to
    /// `DB_VERSION`.
    Create,
    /// The file has an older version: run the migrations with these numbers,
    /// in this order, each followed by setting the version to `DB_VERSION`.
    Migrate(Vec<u8>),
    /// The file has the current version: nothing to do.
    UpToDate,
    /// The file was written by a newer application, of this version: it
    /// cannot be opened.
    TooNew(u8),
}

/// The migrations that bring a file of version `version` to `DB_VERSION`:
/// those numbered `version`, `version + 1`, .., `DB_VERSION - 1`.
pub open spec fn migration_steps(version: u8) -> Seq<u8> {
    Seq::new((DB_VERSION - version) as nat, |i: int| (version + i) as u8)
}

/// Decides what to do with the database file: whether it exists, and the
/// schema version that it records where it does.
pub fn check_database(file_exists: bool, version: u8) -> (r: DatabaseCheck)
    ensures
        !file_exists ==> r == DatabaseCheck::Create,
        file_exists && version < DB_VERSION ==> (r matches DatabaseCheck::Migrate(steps) && steps@
            == migration_steps(version)),
        file_exists && version == DB_VERSION ==> r == DatabaseCheck::UpToDate,
        file_exists && version > DB_VERSION ==> r == DatabaseCheck::TooNew(version),
{
    if !file_exists {
        return DatabaseCheck::Create;
    }
    if version == DB_VERSION {
        DatabaseCheck::UpToDate
    } else if version > DB_VERSION {
        DatabaseCheck::TooNew(version)
    } else {
        let mut steps: Vec<u8> = Vec::new();
        let mut i: u8 = version;
        while i < DB_VERSION
            invariant
                version <= i <= DB_VERSION,
                steps@ == migration_steps(version).take(i - version),
            decreases DB_VERSION - i,
        {
            steps.push(i);
            i = i + 1;
        }
        assert(steps@ =~= migration_steps(version));
        DatabaseCheck::Migrate(steps)
    }
}

} // verus!
