//! The HTTP side of `serve` mode as plain values: each route's query
//! parameters with taginfo's defaults, and how an error becomes a status
//! code and message. Routing, extraction and the JSON body are the server's.

use vstd::prelude::*;
use vstd::string::*;
use crate::cli::Order;
use crate::util::{first_of, lemma_first_of, lemma_first_of_at, lemma_first_of_none};

verus! {

#[verifier::external_type_specification]
#[verifier::external_body]
pub struct ExAnyhowError(anyhow::Error);

/// Why a request failed.
pub enum ApiError {
    /// A malformed parameter (answered 400).
    BadRequest(String),
    /// The sidecar was built without the taginfo index (answered 503).
    NoTaginfoIndex,
    /// Anything else (answered 500).
    Internal(anyhow::Error),
}

/// `anyhow::Error`'s display text: its outermost message. What the text
/// says is the error's own, so nothing is assumed of it.
#[verifier::external_body]
fn error_text(err: &anyhow::Error) -> (s: String) {
    err.to_string()
}

/// The message answered when the sidecar has no taginfo index.
pub open spec fn no_taginfo_message() -> Seq<char> {
    "sidecar has no taginfo index (rebuild with `osmflat-extc --taginfo`)"@
}

impl ApiError {
    /// The HTTP status code and `error` message the request is answered
    /// with.
    pub fn status_and_message(self) -> (r: (u16, String))
        ensures
            self matches ApiError::BadRequest(m) ==> r.0 == 400 && r.1@ == m@,
            self is NoTaginfoIndex ==> r.0 == 503 && r.1@ == no_taginfo_message(),
            self is Internal ==> r.0 == 500,
    {
        match self {
            ApiError::BadRequest(msg) => (400, msg),
            ApiError::NoTaginfoIndex => (
                503,
                String::from_str(
                    "sidecar has no taginfo index (rebuild with `osmflat-extc --taginfo`)",
                ),
            ),
            ApiError::Internal(err) => (500, error_text(&err)),
        }
    }
}

impl From<anyhow::Error> for ApiError {
    fn from(err: anyhow::Error) -> (r: Self) {
        ApiError::Internal(err)
    }
}

impl vstd::std_specs::convert::FromSpecImpl<anyhow::Error> for ApiError {
    open spec fn obeys_from_spec() -> bool {
        true
    }

    open spec fn from_spec(err: anyhow::Error) -> Self {
        ApiError::Internal(err)
    }
}

/// `GET /api/4/keys/all` parameters.
pub struct KeysAllQuery {
    pub query: Option<String>,
    pub page: Option<usize>,
    pub rp: Option<usize>,
    pub sortname: Option<String>,
    pub sortorder: Option<Order>,
    pub no_envelope: Option<bool>,
    pub bbox: Option<String>,
}

/// `GET /api/4/key/stats` parameters.
pub struct KeyStatsQuery {
    pub key: String,
    pub no_envelope: Option<bool>,
    pub bbox: Option<String>,
}

/// `GET /api/4/key/values` and `GET /api/4/key/combinations` parameters.
pub struct KeyPagedQuery {
    pub key: String,
    pub page: Option<usize>,
    pub rp: Option<usize>,
    pub sortname: Option<String>,
    pub sortorder: Option<Order>,
    pub no_envelope: Option<bool>,
    pub bbox: Option<String>,
}

/// `GET /api/4/tag/stats` parameters.
pub struct TagStatsQuery {
    pub key: String,
    pub value: String,
    pub no_envelope: Option<bool>,
    pub bbox: Option<String>,
}

/// `GET /api/4/tag/combinations` parameters.
pub struct TagCombinationsQuery {
    pub key: String,
    pub value: String,
    pub page: Option<usize>,
    pub rp: Option<usize>,
    pub sortname: Option<String>,
    pub sortorder: Option<Order>,
    pub no_envelope: Option<bool>,
    pub bbox: Option<String>,
}

/// The comma-separated fields of `s` from position `from` on: the text
/// before the first comma, then the fields after it.
pub open spec fn comma_fields(s: Seq<char>, from: int) -> Seq<Seq<char>>
    decreases s.len() - from,
{
    if from < 0 || from > s.len() {
        Seq::empty()
    } else {
        let i = first_of(s, ',', from);
        if i >= s.len() {
            seq![s.subrange(from, s.len() as int)]
        } else {
            proof {
                lemma_first_of(s, ',', from);
            }
            seq![s.subrange(from, i)] + comma_fields(s, i + 1)
        }
    }
}

/// The characters of each string in `v`.
pub open spec fn string_views(v: Seq<String>) -> Seq<Seq<char>> {
    v.map_values(|f: String| f@)
}

/// The four fields of a `?bbox=MINX,MINY,MAXX,MAXY` value, split at its
/// commas and left untrimmed; `None` unless there are exactly four.
pub fn bbox_fields(raw: &str) -> (r: Option<Vec<String>>)
    ensures
        r is Some <==> comma_fields(raw@, 0).len() == 4,
        r matches Some(v) ==> string_views(v@) == comma_fields(raw@, 0),
{
    let n = raw.unicode_len();
    let mut fields: Vec<String> = Vec::new();
    let mut start: usize = 0;
    let mut i: usize = 0;
    assert(string_views(fields@) + comma_fields(raw@, 0) =~= comma_fields(raw@, 0));
    while i < n
        invariant
            n == raw@.len(),
            start <= i <= n,
            forall|j: int| start <= j < i ==> raw@[j] != ',',
            string_views(fields@) + comma_fields(raw@, start as int) == comma_fields(raw@, 0),
        decreases n - i,
    {
        if raw.get_char(i) == ',' {
            proof {
                lemma_first_of_at(raw@, ',', start as int, i as int);
            }
            let piece = raw.substring_char(start, i).to_owned();
            let ghost before = fields@;
            fields.push(piece);
            proof {
                assert(string_views(fields@) =~= string_views(before).push(piece@));
                assert(string_views(fields@) + comma_fields(raw@, i + 1) =~= string_views(before)
                    + comma_fields(raw@, start as int));
            }
            start = i + 1;
        }
        i = i + 1;
    }
    proof {
        lemma_first_of_none(raw@, ',', start as int);
    }
    let last = raw.substring_char(start, n).to_owned();
    let ghost before = fields@;
    fields.push(last);
    proof {
        assert(string_views(fields@) =~= string_views(before) + comma_fields(raw@, start as int));
    }
    if fields.len() == 4 {
        Some(fields)
    } else {
        None
    }
}

/// How a request is paged and framed once its defaults are filled in.
#[derive(Clone, Copy, Debug, PartialEq, Eq, Structural)]
pub struct Paging {
    pub page: usize,
    pub rp: usize,
    pub sortorder: Order,
    pub no_envelope: bool,
}

/// The defaults taginfo's routes use: page 1, all rows, descending, with
/// the envelope.
pub fn paging(
    page: Option<usize>,
    rp: Option<usize>,
    sortorder: Option<Order>,
    no_envelope: Option<bool>,
) -> (p: Paging)
    ensures
        p.page == (match page { Some(n) => n, None => 1 }),
        p.rp == (match rp { Some(n) => n, None => 0 }),
        p.sortorder == (match sortorder { Some(o) => o, None => Order::Desc }),
        p.no_envelope == (match no_envelope { Some(b) => b, None => false }),
{
    Paging {
        page: match page { Some(n) => n, None => 1 },
        rp: match rp { Some(n) => n, None => 0 },
        sortorder: match sortorder { Some(o) => o, None => Order::Desc },
        no_envelope: match no_envelope { Some(b) => b, None => false },
    }
}

/// The fixed-shape stats routes are not paged: page 1, all rows.
pub fn unpaged(no_envelope: Option<bool>) -> (p: Paging)
    ensures
        p.page == 1 && p.rp == 0 && p.sortorder == Order::Desc,
        p.no_envelope == (match no_envelope { Some(b) => b, None => false }),
{
    paging(None, None, None, no_envelope)
}

} // verus!
