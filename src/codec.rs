//! The JSON text of the stored columns: the grid, the list of dates and the
//! list of weekdays, written and read with `serde_json`.
use vstd::prelude::*;

use crate::grid::{grid_view, GridView};

verus! {

/// The JSON text that `serde_json` writes for a grid.
pub uninterp spec fn grid_json(g: GridView) -> Seq<char>;

/// The grid that `serde_json` reads from a text, if it reads one.
pub uninterp spec fn grid_from_json(s: Seq<char>) -> Option<GridView>;

/// The JSON text that `serde_json` writes for a list of strings.
pub uninterp spec fn texts_json(v: Seq<Seq<char>>) -> Seq<char>;

/// The list of strings that `serde_json` reads from a text, if it reads one.
pub uninterp spec fn texts_from_json(s: Seq<char>) -> Option<Seq<Seq<char>>>;

/// The JSON text that `serde_json` writes for a list of small numbers.
pub uninterp spec fn bytes_json(v: Seq<u8>) -> Seq<char>;

/// The list of small numbers that `serde_json` reads from a text, if it reads one.
pub uninterp spec fn bytes_from_json(s: Seq<char>) -> Option<Seq<u8>>;

pub open spec fn texts_view(v: Vec<String>) -> Seq<Seq<char>> {
    v@.map_values(|t: String| t@)
}

/// Relies on `serde_json::to_string`, which cannot fail on nested lists of strings.
#[verifier::external_body]
pub(crate) fn write_grid(g: &Vec<Vec<Vec<String>>>) -> (r: String)
    ensures
        r@ == grid_json(grid_view(*g)),
{
    serde_json::to_string(g).unwrap_or_default()
}

/// Relies on `serde_json::from_str`: the result depends on the text alone.
#[verifier::external_body]
pub(crate) fn read_grid(s: &str) -> (r: Option<Vec<Vec<Vec<String>>>>)
    ensures
        r is Some <==> grid_from_json(s@) is Some,
        r matches Some(g) ==> grid_from_json(s@) == Some(grid_view(g)),
{
    serde_json::from_str(s).ok()
}

/// Relies on `serde_json::to_string`, which cannot fail on a list of strings.
#[verifier::external_body]
pub(crate) fn write_texts(v: &Vec<String>) -> (r: String)
    ensures
        r@ == texts_json(texts_view(*v)),
{
    serde_json::to_string(v).unwrap_or_default()
}

/// Relies on `serde_json::from_str`: the result depends on the text alone.
#[verifier::external_body]
pub(crate) fn read_texts(s: &str) -> (r: Option<Vec<String>>)
    ensures
        r is Some <==> texts_from_json(s@) is Some,
        r matches Some(v) ==> texts_from_json(s@) == Some(texts_view(v)),
{
    serde_json::from_str(s).ok()
}

/// Relies on `serde_json::to_string`, which cannot fail on a list of numbers.
#[verifier::external_body]
pub(crate) fn write_bytes(v: &Vec<u8>) -> (r: String)
    ensures
        r@ == bytes_json(v@),
{
    serde_json::to_string(v).unwrap_or_default()
}

/// Relies on `serde_json::from_str`: the result depends on the text alone.
#[verifier::external_body]
pub(crate) fn read_bytes(s: &str) -> (r: Option<Vec<u8>>)
    ensures
        r is Some <==> bytes_from_json(s@) is Some,
        r matches Some(v) ==> bytes_from_json(s@) == Some(v@),
{
    serde_json::from_str(s).ok()
}

} // verus!
