//! Seed scripts: `NNNN_name.sql` files applied once each, in version order,
//! named and numbered the way migrations are.

use vstd::prelude::*;

use crate::migrate::store::{sort_by_version, stem_for, stem_name, stems_with_suffix, suffix_stems};
use crate::schema::model::strings_view;
use crate::text::concat3;

verus! {

/// The stems of the `.sql` files among a directory's file names, stably
/// sorted by version.
pub fn seed_stems(file_names: &Vec<String>) -> (stems: Vec<String>)
    ensures
        strings_view(stems@) == sort_by_version(suffix_stems(strings_view(file_names@), ".sql"@)),
{
    stems_with_suffix(file_names, ".sql")
}

/// The file name of a new seed: its stem, then `.sql`.
pub fn seed_file_name(version: u32, name: &str) -> (file: String)
    ensures
        file@ == stem_for(version as nat, name@) + ".sql"@,
{
    let mut file = stem_name(version, name);
    file.append(".sql");
    file
}

/// What follows the name on the first line of a new seed script.
pub open spec fn seed_script_tail() -> Seq<char> {
    "\n-- Applied once and recorded in _orm_seeds. Keep the inserts idempotent\n-- anyway (ON CONFLICT DO NOTHING) so re-running is always safe.\n\n"@
}

/// The text a new seed script starts with.
pub fn seed_script(name: &str) -> (script: String)
    ensures
        script@ == "-- Seed: "@ + name@ + seed_script_tail(),
{
    concat3(
        "-- Seed: ",
        name,
        "\n-- Applied once and recorded in _orm_seeds. Keep the inserts idempotent\n-- anyway (ON CONFLICT DO NOTHING) so re-running is always safe.\n\n",
    )
}

} // verus!
