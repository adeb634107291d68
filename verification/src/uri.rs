//! URI texts.

use vstd::prelude::*;

use crate::query_map::{pair_views, pairs_map, QueryMap};
use crate::text::option_view;

verus! {

/// A path followed by `?` and the query, if there is a query.
pub open spec fn spec_path_with_query(path: Seq<char>, query: Option<Seq<char>>) -> Seq<char> {
    match query {
        Some(query) => path + seq!['?'] + query,
        None => path,
    }
}

/// The path-and-query text of a path and an optional query.
pub fn path_with_query(path: &str, query: Option<&str>) -> (r: String)
    ensures
        r@ == spec_path_with_query(
            path@,
            match query {
                Some(q) => Some(q@),
                None => None,
            },
        ),
{
    let path_and_query = String::from_str(path);
    match query {
        Some(query) => {
            proof {
                reveal_strlit("?");
            }
            path_and_query.concat("?").concat(query)
        },
        None => path_and_query,
    }
}

/// Names what `urlencoding::decode` gives back for a text: the text with each `%XX` escape
/// replaced by the byte it stands for, when those bytes are UTF-8.
pub uninterp spec fn percent_decoded(text: Seq<char>) -> Option<Seq<char>>;

/// Names what `form_urlencoded::parse` yields for a query: its `&`-separated (name, value) pairs,
/// each split at the first `=`, with `+` read as a space and `%XX` escapes decoded.
pub uninterp spec fn form_decoded(query: Seq<char>) -> Seq<(Seq<char>, Seq<char>)>;

/// `urlencoding::decode`, its `Cow` result taken as an owned `String` and its UTF-8 error as
/// `None`. Beside the name, the contract states what the crate's source shows: a text without `%`
/// comes back unchanged.
#[verifier::external_body]
fn urlencoding_decode(text: &str) -> (r: Option<String>)
    ensures
        option_view(r) == percent_decoded(text@),
        (forall|i: int| 0 <= i < text@.len() ==> text@[i] != '%') ==> option_view(r) == Some(
            text@,
        ),
{
    urlencoding::decode(text).ok().map(|decoded| decoded.into_owned())
}

/// `url::form_urlencoded::parse` on the query's bytes, each pair's texts taken as owned strings.
/// Beside the name, the contract states what the crate's source shows: an empty query yields no
/// pair.
#[verifier::external_body]
fn form_urlencoded_parse(query: &str) -> (pairs: Vec<(String, String)>)
    ensures
        pair_views(pairs@) == form_decoded(query@),
        query@.len() == 0 ==> pairs@.len() == 0,
{
    url::form_urlencoded::parse(query.as_bytes()).map(|(name, value)| (name.into_owned(), value.into_owned())).collect()
}

/// The percent-decoded path, if it decodes to UTF-8.
pub fn decoded_path(path: &str) -> (r: Option<String>)
    ensures
        option_view(r) == percent_decoded(path@),
{
    urlencoding_decode(path)
}

/// The decoded (name, value) pairs of a query, in order.
pub fn decoded_query(query: &str) -> (r: Vec<(String, String)>)
    ensures
        pair_views(r@) == form_decoded(query@),
{
    form_urlencoded_parse(query)
}

/// The decoded query as a map from each name to the set of its values, if there is a query.
pub fn decoded_query_map(query: Option<&str>) -> (r: Option<QueryMap>)
    ensures
        match query {
            Some(query) => r matches Some(map) && map@ == pairs_map(form_decoded(query@)),
            None => r is None,
        },
{
    match query {
        Some(query) => Some(QueryMap::from_pairs(decoded_query(query))),
        None => None,
    }
}

} // verus!
