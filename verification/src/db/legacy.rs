use vstd::prelude::*;

verus! {

/// Whether the database of the earlier install is copied into place: only
/// when the app's own database does not exist yet and the earlier one is a
/// regular file. The earlier file is only ever read.
pub fn should_copy_legacy_db(new_db_exists: bool, legacy_db_is_file: bool) -> (r: bool)
    ensures
        r == (!new_db_exists && legacy_db_is_file),
{
    if new_db_exists {
        return false;
    }
    legacy_db_is_file
}

} // verus!
