//! The command surface as plain values: the noun/verb commands, output
//! format and sort direction, and how a command resolves to one of the six
//! endpoints. Parsing the command line is the caller's.

use vstd::prelude::*;
use vstd::string::*;
use crate::util::{first_of, lemma_first_of, lemma_first_of_at};

verus! {

/// Sort direction.
#[derive(Clone, Copy, Debug, PartialEq, Eq, Structural)]
pub enum Order {
    Asc,
    Desc,
}

/// Output format.
#[derive(Clone, Copy, Debug, PartialEq, Eq, Structural)]
pub enum Format {
    /// Compact single-line JSON (the wire-faithful form).
    Json,
    /// Indented JSON.
    Pretty,
    /// Human-aligned table (not a stable interface).
    Table,
}

/// `keys` arguments.
pub struct KeysArgs {
    /// Restrict to keys sharing this string prefix (taginfo's key search).
    pub search: Option<String>,
}

/// `key` verbs.
#[derive(Clone, Copy, Debug, PartialEq, Eq, Structural)]
pub enum KeyVerb {
    /// Per-type counts and distinct-value totals.
    Stats,
    /// Distinct values of the key with counts.
    Values,
    /// Other keys co-occurring with this key.
    Combinations,
}

/// `key` arguments.
pub struct KeyArgs {
    /// The key to inspect.
    pub key: String,
    pub verb: Option<KeyVerb>,
}

/// `tag` verbs.
#[derive(Clone, Copy, Debug, PartialEq, Eq, Structural)]
pub enum TagVerb {
    /// Per-type counts for the tag.
    Stats,
    /// Other tags co-occurring with this tag.
    Combinations,
}

/// `tag` arguments.
pub struct TagArgs {
    /// The tag key, or the whole `KEY=VALUE` as one token (then no value).
    pub key: String,
    /// The tag value (absent if the key was given as `KEY=VALUE`).
    pub value: Option<String>,
    pub verb: Option<TagVerb>,
}

/// `serve` arguments.
pub struct ServeArgs {
    /// Address to listen on.
    pub bind_addr: String,
}

/// The subcommands.
pub enum Command {
    /// The keys table.
    Keys(KeysArgs),
    /// Inspect a single key.
    Key(KeyArgs),
    /// Inspect a single `key=value` tag.
    Tag(TagArgs),
    /// Serve the six endpoints over HTTP.
    Serve(ServeArgs),
}

/// A `tag` given as a single token without `=`, and no value.
pub struct MissingTagValue {
    pub token: String,
}

/// The key and value a `tag` names: the two arguments, or the one
/// `KEY=VALUE` token split at its first `=`; `None` for a token without `=`
/// and no value.
pub open spec fn tag_parts(key: Seq<char>, value: Option<Seq<char>>) -> Option<(Seq<char>, Seq<char>)> {
    match value {
        Some(v) => Some((key, v)),
        None => {
            let i = first_of(key, '=', 0);
            if i < key.len() {
                Some((key.subrange(0, i), key.subrange(i + 1, key.len() as int)))
            } else {
                None
            }
        },
    }
}

/// The `(key, value)` a `tag` names: the two arguments, or the one
/// `KEY=VALUE` token split at its first `=`.
pub fn split_tag(key: &str, value: Option<&str>) -> (r: Result<(String, String), MissingTagValue>)
    ensures
        tag_parts(key@, opt_chars(value)) matches Some(kv) ==> (r matches Ok(p) && p.0@ == kv.0
            && p.1@ == kv.1),
        tag_parts(key@, opt_chars(value)) is None ==> (r matches Err(e) && e.token@ == key@),
{
    if let Some(v) = value {
        return Ok((key.to_owned(), v.to_owned()));
    }
    let n = key.unicode_len();
    let mut i: usize = 0;
    while i < n
        invariant
            n == key@.len(),
            value is None,
            i <= n,
            forall|j: int| 0 <= j < i ==> key@[j] != '=',
        decreases n - i,
    {
        if key.get_char(i) == '=' {
            proof {
                lemma_first_of(key@, '=', 0);
                lemma_first_of_at(key@, '=', 0, i as int);
            }
            let k = key.substring_char(0, i);
            let v = key.substring_char(i + 1, n);
            return Ok((k.to_owned(), v.to_owned()));
        }
        i = i + 1;
    }
    proof {
        lemma_first_of(key@, '=', 0);
        if first_of(key@, '=', 0) < key@.len() {
            assert(key@[first_of(key@, '=', 0)] == '=');
        }
    }
    Err(MissingTagValue { token: key.to_owned() })
}

/// The characters of an optional string slice.
pub open spec fn opt_chars(s: Option<&str>) -> Option<Seq<char>> {
    match s {
        Some(t) => Some(t@),
        None => None,
    }
}

/// The characters of an optional string.
pub open spec fn opt_string_chars(s: Option<String>) -> Option<Seq<char>> {
    match s {
        Some(t) => Some(t@),
        None => None,
    }
}

/// One of the six endpoints, or the server, with its arguments resolved.
pub enum Endpoint {
    Keys { search: Option<String> },
    KeyStats { key: String },
    KeyValues { key: String },
    KeyCombinations { key: String },
    TagStats { key: String, value: String },
    TagCombinations { key: String, value: String },
    Serve { bind_addr: String },
}

/// The endpoint a command asks for. A `key` or `tag` with no verb means
/// `stats`, mirroring the website's landing pages; a tag's key and value
/// come from [`split_tag`].
pub fn endpoint(command: Command) -> (r: Result<Endpoint, MissingTagValue>)
    ensures
        command matches Command::Keys(a) ==> (r matches Ok(Endpoint::Keys { search })
            && search == a.search),
        command matches Command::Key(a) ==> match a.verb {
            None | Some(KeyVerb::Stats) => r matches Ok(Endpoint::KeyStats { key }) && key == a.key,
            Some(KeyVerb::Values) => r matches Ok(Endpoint::KeyValues { key }) && key == a.key,
            Some(KeyVerb::Combinations) => r matches Ok(Endpoint::KeyCombinations { key })
                && key == a.key,
        },
        command matches Command::Tag(a) ==> match tag_parts(a.key@, opt_string_chars(a.value)) {
            None => r matches Err(e) && e.token@ == a.key@,
            Some(kv) => if a.verb == Some(TagVerb::Combinations) {
                r matches Ok(Endpoint::TagCombinations { key, value }) && key@ == kv.0 && value@
                    == kv.1
            } else {
                r matches Ok(Endpoint::TagStats { key, value }) && key@ == kv.0 && value@ == kv.1
            },
        },
        command matches Command::Serve(a) ==> (r matches Ok(Endpoint::Serve { bind_addr })
            && bind_addr == a.bind_addr),
{
    match command {
        Command::Keys(a) => Ok(Endpoint::Keys { search: a.search }),
        Command::Key(a) => match a.verb {
            None | Some(KeyVerb::Stats) => Ok(Endpoint::KeyStats { key: a.key }),
            Some(KeyVerb::Values) => Ok(Endpoint::KeyValues { key: a.key }),
            Some(KeyVerb::Combinations) => Ok(Endpoint::KeyCombinations { key: a.key }),
        },
        Command::Tag(a) => {
            let value = match &a.value {
                Some(v) => Some(v.as_str()),
                None => None,
            };
            let (key, value) = match split_tag(a.key.as_str(), value) {
                Ok(kv) => kv,
                Err(e) => return Err(e),
            };
            match a.verb {
                Some(TagVerb::Combinations) => Ok(Endpoint::TagCombinations { key, value }),
                _ => Ok(Endpoint::TagStats { key, value }),
            }
        },
        Command::Serve(a) => Ok(Endpoint::Serve { bind_addr: a.bind_addr }),
    }
}

} // verus!
