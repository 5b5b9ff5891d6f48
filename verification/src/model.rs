//! The per-endpoint row shapes of taginfo's v4 API. Fractions are held as
//! whole ten-thousandths; field names follow the JSON ones (`type` becomes
//! `object_type`). Fields osmflat has no source for are `None` stubs.

use vstd::prelude::*;
use crate::counts::Fraction;
use crate::rank::Duplicate;

verus! {

/// The `type` column of the stats endpoints.
#[derive(Clone, Copy, Debug, PartialEq, Eq, Structural)]
pub enum ObjectType {
    All,
    Nodes,
    Ways,
    Relations,
}

impl ObjectType {
    /// The JSON name: `all` | `nodes` | `ways` | `relations`.
    pub fn name(&self) -> (s: &'static str)
        ensures
            *self == ObjectType::All ==> s@ == "all"@,
            *self == ObjectType::Nodes ==> s@ == "nodes"@,
            *self == ObjectType::Ways ==> s@ == "ways"@,
            *self == ObjectType::Relations ==> s@ == "relations"@,
    {
        match self {
            ObjectType::All => "all",
            ObjectType::Nodes => "nodes",
            ObjectType::Ways => "ways",
            ObjectType::Relations => "relations",
        }
    }
}

/// One row of `/api/4/keys/all`.
pub struct KeyRow {
    pub key: String,
    pub count_all: u64,
    pub count_all_fraction: Fraction,
    pub count_nodes: u64,
    pub count_nodes_fraction: Fraction,
    pub count_ways: u64,
    pub count_ways_fraction: Fraction,
    pub count_relations: u64,
    pub count_relations_fraction: Fraction,
    pub values_all: u64,
    pub users_all: Option<u64>,
    pub in_wiki: Option<bool>,
    pub projects: Option<u64>,
}

/// A [`KeyRow`] with its string as characters.
pub struct KeyRowView {
    pub key: Seq<char>,
    pub count_all: u64,
    pub count_all_fraction: Fraction,
    pub count_nodes: u64,
    pub count_nodes_fraction: Fraction,
    pub count_ways: u64,
    pub count_ways_fraction: Fraction,
    pub count_relations: u64,
    pub count_relations_fraction: Fraction,
    pub values_all: u64,
    pub users_all: Option<u64>,
    pub in_wiki: Option<bool>,
    pub projects: Option<u64>,
}

impl View for KeyRow {
    type V = KeyRowView;

    open spec fn view(&self) -> KeyRowView {
        KeyRowView {
            key: self.key@,
            count_all: self.count_all,
            count_all_fraction: self.count_all_fraction,
            count_nodes: self.count_nodes,
            count_nodes_fraction: self.count_nodes_fraction,
            count_ways: self.count_ways,
            count_ways_fraction: self.count_ways_fraction,
            count_relations: self.count_relations,
            count_relations_fraction: self.count_relations_fraction,
            values_all: self.values_all,
            users_all: self.users_all,
            in_wiki: self.in_wiki,
            projects: self.projects,
        }
    }
}

impl Duplicate for KeyRow {
    fn duplicate(&self) -> (r: Self) {
        KeyRow {
            key: self.key.clone(),
            count_all: self.count_all,
            count_all_fraction: self.count_all_fraction,
            count_nodes: self.count_nodes,
            count_nodes_fraction: self.count_nodes_fraction,
            count_ways: self.count_ways,
            count_ways_fraction: self.count_ways_fraction,
            count_relations: self.count_relations,
            count_relations_fraction: self.count_relations_fraction,
            values_all: self.values_all,
            users_all: self.users_all,
            in_wiki: self.in_wiki,
            projects: self.projects,
        }
    }
}

/// One row of `/api/4/key/stats`: four per key, one per type plus `all`.
#[derive(Clone, Copy, Debug, PartialEq, Eq, Structural)]
pub struct StatRow {
    pub object_type: ObjectType,
    pub count: u64,
    pub count_fraction: Fraction,
    /// Distinct values for this object type.
    pub values: u64,
}

/// One row of `/api/4/tag/stats`: like [`StatRow`] without `values`.
#[derive(Clone, Copy, Debug, PartialEq, Eq, Structural)]
pub struct TagStatRow {
    pub object_type: ObjectType,
    pub count: u64,
    pub count_fraction: Fraction,
}

/// One row of `/api/4/key/values`.
pub struct ValueRow {
    pub value: String,
    pub count: u64,
    pub fraction: Fraction,
    pub in_wiki: Option<bool>,
    pub description: Option<String>,
    pub desclang: Option<String>,
    pub descdir: Option<String>,
}

/// A [`ValueRow`] with its strings as characters.
pub struct ValueRowView {
    pub value: Seq<char>,
    pub count: u64,
    pub fraction: Fraction,
    pub in_wiki: Option<bool>,
    pub description: Option<Seq<char>>,
    pub desclang: Option<Seq<char>>,
    pub descdir: Option<Seq<char>>,
}

/// The characters of an optional string.
pub open spec fn opt_chars(s: Option<String>) -> Option<Seq<char>> {
    match s {
        Some(t) => Some(t@),
        None => None,
    }
}

fn duplicate_opt(s: &Option<String>) -> (r: Option<String>)
    ensures
        opt_chars(r) == opt_chars(*s),
{
    match s {
        Some(t) => Some(t.clone()),
        None => None,
    }
}

impl View for ValueRow {
    type V = ValueRowView;

    open spec fn view(&self) -> ValueRowView {
        ValueRowView {
            value: self.value@,
            count: self.count,
            fraction: self.fraction,
            in_wiki: self.in_wiki,
            description: opt_chars(self.description),
            desclang: opt_chars(self.desclang),
            descdir: opt_chars(self.descdir),
        }
    }
}

impl Duplicate for ValueRow {
    fn duplicate(&self) -> (r: Self) {
        ValueRow {
            value: self.value.clone(),
            count: self.count,
            fraction: self.fraction,
            in_wiki: self.in_wiki,
            description: duplicate_opt(&self.description),
            desclang: duplicate_opt(&self.desclang),
            descdir: duplicate_opt(&self.descdir),
        }
    }
}

/// One row of `/api/4/key/combinations`.
pub struct ComboRow {
    pub other_key: String,
    pub together_count: u64,
    pub to_fraction: Fraction,
    pub from_fraction: Fraction,
}

/// A [`ComboRow`] with its string as characters.
pub struct ComboRowView {
    pub other_key: Seq<char>,
    pub together_count: u64,
    pub to_fraction: Fraction,
    pub from_fraction: Fraction,
}

impl View for ComboRow {
    type V = ComboRowView;

    open spec fn view(&self) -> ComboRowView {
        ComboRowView {
            other_key: self.other_key@,
            together_count: self.together_count,
            to_fraction: self.to_fraction,
            from_fraction: self.from_fraction,
        }
    }
}

impl Duplicate for ComboRow {
    fn duplicate(&self) -> (r: Self) {
        ComboRow {
            other_key: self.other_key.clone(),
            together_count: self.together_count,
            to_fraction: self.to_fraction,
            from_fraction: self.from_fraction,
        }
    }
}

/// One row of `/api/4/tag/combinations`.
pub struct TagComboRow {
    pub other_key: String,
    pub other_value: String,
    pub together_count: u64,
    pub to_fraction: Fraction,
    pub from_fraction: Fraction,
}

/// A [`TagComboRow`] with its strings as characters.
pub struct TagComboRowView {
    pub other_key: Seq<char>,
    pub other_value: Seq<char>,
    pub together_count: u64,
    pub to_fraction: Fraction,
    pub from_fraction: Fraction,
}

impl View for TagComboRow {
    type V = TagComboRowView;

    open spec fn view(&self) -> TagComboRowView {
        TagComboRowView {
            other_key: self.other_key@,
            other_value: self.other_value@,
            together_count: self.together_count,
            to_fraction: self.to_fraction,
            from_fraction: self.from_fraction,
        }
    }
}

impl Duplicate for TagComboRow {
    fn duplicate(&self) -> (r: Self) {
        TagComboRow {
            other_key: self.other_key.clone(),
            other_value: self.other_value.clone(),
            together_count: self.together_count,
            to_fraction: self.to_fraction,
            from_fraction: self.from_fraction,
        }
    }
}

} // verus!
