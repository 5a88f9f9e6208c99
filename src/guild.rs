//! Per-guild storage partitions: each guild's records of each kind live in a
//! table whose name is derived from the guild id alone.

use vstd::prelude::*;
use vstd::string::StringExecFns;

use crate::text::{decimal, u64_text};

verus! {

/// The kinds of record a guild owns.
#[derive(Clone, Copy, Debug, PartialEq, Eq)]
pub enum RecordKind {
    Memes,
    Perms,
    Roles,
}

pub open spec fn kind_suffix(kind: RecordKind) -> Seq<char> {
    match kind {
        RecordKind::Memes => "_memes"@,
        RecordKind::Perms => "_perms"@,
        RecordKind::Roles => "_roles"@,
    }
}

/// The name of the table that holds `kind` records of guild `guild`:
/// `x<guild><suffix>`.
pub fn table_name(guild: u64, kind: RecordKind) -> (r: String)
    ensures
        r@ == "x"@ + decimal(guild as nat) + kind_suffix(kind),
{
    let mut name = String::from_str("x");
    let id = u64_text(guild);
    name.append(id.as_str());
    match kind {
        RecordKind::Memes => name.append("_memes"),
        RecordKind::Perms => name.append("_perms"),
        RecordKind::Roles => name.append("_roles"),
    }
    name
}

} // verus!
