//! Decisions on a request: whether to use the cache and which encoding to answer in.

use vstd::prelude::*;

use http::{HeaderMap, Method};

use crate::encoding::Encoding;
use crate::headers::{all_texts, header_values, HeaderValues};
use crate::preferences::{
    is_best, is_stable_weight_sort_of_views, parsed_preferences, selects_nothing, Preference,
};
use crate::text::views;

verus! {

/// [Method] as Verus sees it: opaque.
#[verifier::external_type_specification]
#[verifier::external_body]
pub struct ExMethod(Method);

/// The name of a method, such as `GET`.
pub uninterp spec fn method_text(method: Method) -> Seq<char>;

/// Whether a method name is that of an idempotent method: the safe `GET`, `HEAD`, `OPTIONS`,
/// `TRACE` and `QUERY`, and `PUT` and `DELETE`.
pub open spec fn is_idempotent_method(name: Seq<char>) -> bool {
    ||| name == "GET"@
    ||| name == "HEAD"@
    ||| name == "OPTIONS"@
    ||| name == "TRACE"@
    ||| name == "QUERY"@
    ||| name == "PUT"@
    ||| name == "DELETE"@
}

/// `Method::is_idempotent`: whether the request has the same result if executed multiple times.
#[verifier::external_body]
fn method_is_idempotent(method: &Method) -> (r: bool)
    ensures
        r == is_idempotent_method(method_text(*method)),
{
    method.is_idempotent()
}

/// Check if we should skip the cache for a request: skip when there is no cache or the method
/// is not idempotent; else the `cacheable_by_request` hook, if any, decides.
pub fn should_skip_cache<F: Fn() -> bool>(
    has_cache: bool,
    method: &Method,
    cacheable_by_request: Option<F>,
) -> (r: bool)
    requires
        cacheable_by_request matches Some(hook) ==> call_requires(hook, ()),
    ensures
        !has_cache || !is_idempotent_method(method_text(*method)) ==> r,
        has_cache && is_idempotent_method(method_text(*method)) ==> match cacheable_by_request {
            Some(hook) => exists|cacheable: bool| call_ensures(hook, (), cacheable) && r == !cacheable,
            None => !r,
        },
{
    let skip_cache = if has_cache {
        !method_is_idempotent(method)
    } else {
        true
    };
    if !skip_cache {
        if let Some(cacheable) = cacheable_by_request {
            return !cacheable();
        }
    }
    skip_cache
}

/// Whether `encoding` is what `Accept-Encoding` negotiates among the enabled encodings: the
/// best of the sorted preferences, or the identity when none is acceptable or none is enabled.
pub open spec fn negotiated_encoding(
    values: Map<Seq<char>, Seq<Seq<u8>>>,
    enabled: Option<Seq<Encoding>>,
    encoding: Encoding,
) -> bool {
    match enabled {
        Some(list) => if list.len() > 0 {
            exists|sorted: Seq<Preference<Encoding>>|
                #[trigger] is_stable_weight_sort_of_views(
                    parsed_preferences::<Encoding>(all_texts(values, "accept-encoding"@)),
                    views(sorted),
                ) && (is_best(sorted, list, encoding) || (selects_nothing(sorted, list) && encoding
                    == Encoding::Identity))
        } else {
            encoding == Encoding::Identity
        },
        None => encoding == Encoding::Identity,
    }
}

/// The enabled encodings, in order, if there is a list.
pub open spec fn enabled_list(enabled: Option<Vec<Encoding>>) -> Option<Seq<Encoding>> {
    match enabled {
        Some(list) => Some(list@),
        None => None,
    }
}

/// Select the encoding for a response to a request: negotiate it with `Accept-Encoding` among
/// the enabled encodings, then let the `encodable_by_request` hook, if any, veto a
/// non-identity encoding.
pub fn select_encoding<F: Fn(Encoding) -> bool>(
    headers: &HeaderMap,
    enabled_encodings_by_preference: &Option<Vec<Encoding>>,
    encodable_by_request: Option<F>,
) -> (r: Encoding)
    requires
        encodable_by_request matches Some(hook) ==> forall|e: Encoding| call_requires(hook, (e,)),
    ensures
        exists|negotiated: Encoding|
            #[trigger] negotiated_encoding(
                header_values(*headers),
                enabled_list(*enabled_encodings_by_preference),
                negotiated,
            ) && (negotiated == Encoding::Identity ==> r == Encoding::Identity) && (negotiated
                != Encoding::Identity ==> match encodable_by_request {
                Some(hook) => exists|encodable: bool|
                    call_ensures(hook, (negotiated,), encodable) && r == (if encodable {
                        negotiated
                    } else {
                        Encoding::Identity
                    }),
                None => r == negotiated,
            }),
{
    let ghost enabled = enabled_list(*enabled_encodings_by_preference);
    let encoding = match enabled_encodings_by_preference {
        Some(enabled_encodings) => {
            if enabled_encodings.len() > 0 {
                let preferences = headers.accept_encoding();
                let ghost sorted = preferences.0@;
                assert(views(enabled_encodings@) =~= enabled_encodings@);
                let best = preferences.best(enabled_encodings.as_slice());
                let chosen = match best {
                    Some(encoding) => *encoding,
                    None => Encoding::Identity,
                };
                assert(is_stable_weight_sort_of_views(
                    parsed_preferences::<Encoding>(all_texts(header_values(*headers), "accept-encoding"@)),
                    views(sorted),
                ));
                assert(negotiated_encoding(header_values(*headers), enabled, chosen));
                chosen
            } else {
                Encoding::Identity
            }
        },
        None => Encoding::Identity,
    };
    assert(negotiated_encoding(header_values(*headers), enabled, encoding));
    if encoding != Encoding::Identity {
        if let Some(encodable) = encodable_by_request {
            if !encodable(encoding) {
                return Encoding::Identity;
            }
        }
    }
    encoding
}

} // verus!
