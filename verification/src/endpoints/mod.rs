//! One module per taginfo endpoint. Each builds its typed rows from what the
//! sidecar's query layer reports (handed over as plain values), and ranks
//! them as taginfo does.

use vstd::prelude::*;

pub mod key_combinations;
pub mod key_stats;
pub mod key_values;
pub mod keys;
pub mod tag_combinations;
pub mod tag_stats;

verus! {

/// The tables whose sort field can be chosen.
#[derive(Clone, Copy, Debug, PartialEq, Eq, Structural)]
pub enum SortTable {
    Keys,
    KeyValues,
    KeyCombinations,
    TagCombinations,
}

/// A `--sortname` that the table does not allow.
pub struct UnknownSortName {
    pub table: SortTable,
    pub name: String,
}

/// The characters of an optional string slice.
pub open spec fn opt_str_chars(s: Option<&str>) -> Option<Seq<char>> {
    match s {
        Some(t) => Some(t@),
        None => None,
    }
}

/// The error for a sort name the table does not allow.
pub fn unknown_sort_name(table: SortTable, name: &str) -> (e: UnknownSortName)
    ensures
        e.table == table,
        e.name@ == name@,
{
    UnknownSortName { table, name: name.to_owned() }
}

} // verus!
