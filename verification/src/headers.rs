//! Reading and writing HTTP header values.

use vstd::prelude::*;

use http::header::{HeaderName, InvalidHeaderValue};
use http::{HeaderMap, HeaderValue};
use httpdate::HttpDate;
use vstd::string::StringSliceAdditionalSpecFns;

use crate::encoding::{spec_parse_encoding, Encoding};
use crate::etag::{spec_parse_etag, ETag, ETagMatcher};
use crate::language::{languages_of, Language};
use crate::media_type::{spec_parse_media_type, MediaType, MediaTypeSelector};
use crate::preferences::{parsed_preferences, is_stable_weight_sort_of_views, Preferences};
use crate::selector::{spec_parse_selector, Selection};
use crate::etag::ETagList;
use crate::text::{
    decimal,
    ascii_lowercase, chars_of, lowercase, option_view, split_once, split_once_str, spec_parse_usize, to_lowercase, views,
    parse_usize,
};

verus! {

/// [HeaderMap] as Verus sees it: opaque.
#[verifier::external_type_specification]
#[verifier::external_body]
#[verifier::reject_recursive_types(T)]
pub struct ExHeaderMap<T>(HeaderMap<T>);

/// [HeaderValue] as Verus sees it: opaque.
#[verifier::external_type_specification]
#[verifier::external_body]
pub struct ExHeaderValue(HeaderValue);

/// [HeaderName] as Verus sees it: opaque.
#[verifier::external_type_specification]
#[verifier::external_body]
pub struct ExHeaderName(HeaderName);

/// [InvalidHeaderValue] as Verus sees it: opaque.
#[verifier::external_type_specification]
#[verifier::external_body]
pub struct ExInvalidHeaderValue(InvalidHeaderValue);

/// [HttpDate] as Verus sees it: opaque.
#[verifier::external_type_specification]
#[verifier::external_body]
pub struct ExHttpDate(HttpDate);

/// What a header map holds: for each header name (its lowercase text) that has values, its
/// values' bytes in insertion order.
pub uninterp spec fn header_values(map: HeaderMap) -> Map<Seq<char>, Seq<Seq<u8>>>;

/// The bytes of a header value.
pub uninterp spec fn header_value_bytes(value: HeaderValue) -> Seq<u8>;

/// The (lowercase) text of a header name.
pub uninterp spec fn header_name_text(name: HeaderName) -> Seq<char>;

/// The seconds since the Unix epoch of an HTTP date.
pub uninterp spec fn http_date_seconds(date: HttpDate) -> int;

/// The seconds since the Unix epoch of the HTTP date that a text denotes, if any.
pub uninterp spec fn http_date_text_seconds(text: Seq<char>) -> Option<int>;

/// The IMF-fixdate text of the HTTP date at the given seconds since the Unix epoch.
pub uninterp spec fn http_date_text(seconds: int) -> Seq<char>;

/// Whether `name` is a lowercase header name made of letters, digits and `-`.
pub open spec fn is_header_name(name: Seq<char>) -> bool {
    0 < name.len() < 64 && forall|i: int|
        0 <= i < name.len() ==> ('a' <= #[trigger] name[i] && name[i] <= 'z') || ('0' <= name[i]
            && name[i] <= '9') || name[i] == '-'
}

/// Whether a byte can be read as part of a header string (visible ASCII or tab).
pub open spec fn is_visible_ascii(b: u8) -> bool {
    (32 <= b && b < 127) || b == 9
}

/// Whether a byte can be written in a header value (anything but controls other than tab,
/// and DEL).
pub open spec fn is_value_byte(b: u8) -> bool {
    (b >= 32 && b != 127) || b == 9
}

/// The bytes of an ASCII text: each character as a byte.
pub open spec fn ascii_bytes(text: Seq<char>) -> Seq<u8> {
    text.map_values(|c: char| c as u8)
}

/// The text of header value bytes, if they are all visible ASCII.
pub open spec fn header_text(bytes: Seq<u8>) -> Option<Seq<char>> {
    if forall|i: int| 0 <= i < bytes.len() ==> is_visible_ascii(#[trigger] bytes[i]) {
        Some(bytes.map_values(|b: u8| b as char))
    } else {
        None
    }
}

/// [header_text] as a function value.
pub open spec fn header_text_of() -> spec_fn(Seq<u8>) -> Option<Seq<char>> {
    |bytes: Seq<u8>| header_text(bytes)
}

/// The text of the first value of `name`, if there is one and it is visible ASCII.
pub open spec fn first_text(values: Map<Seq<char>, Seq<Seq<u8>>>, name: Seq<char>) -> Option<
    Seq<char>,
> {
    if values.contains_key(name) && values[name].len() > 0 {
        header_text(values[name][0])
    } else {
        None
    }
}

/// The texts of the values of `name` that are visible ASCII, in order.
pub open spec fn all_texts(values: Map<Seq<char>, Seq<Seq<u8>>>, name: Seq<char>) -> Seq<
    Seq<char>,
> {
    if values.contains_key(name) {
        values[name].filter_map(header_text_of())
    } else {
        Seq::empty()
    }
}

/// The UTF-8 text of bytes, if they are valid UTF-8.
pub open spec fn utf8_text(bytes: Seq<u8>) -> Option<Seq<char>> {
    if vstd::utf8::valid_utf8(bytes) {
        Some(vstd::utf8::decode_utf8(bytes))
    } else {
        None
    }
}

/// [utf8_text] as a function value.
pub open spec fn utf8_text_of() -> spec_fn(Seq<u8>) -> Option<Seq<char>> {
    |bytes: Seq<u8>| utf8_text(bytes)
}

/// The UTF-8 text of the first value of `name`, if there is one and it is valid UTF-8.
pub open spec fn first_utf8(values: Map<Seq<char>, Seq<Seq<u8>>>, name: Seq<char>) -> Option<Seq<char>> {
    if values.contains_key(name) && values[name].len() > 0 {
        utf8_text(values[name][0])
    } else {
        None
    }
}

/// The UTF-8 texts of the values of `name` that are valid UTF-8, in order.
pub open spec fn all_utf8(values: Map<Seq<char>, Seq<Seq<u8>>>, name: Seq<char>) -> Seq<Seq<char>> {
    if values.contains_key(name) {
        values[name].filter_map(utf8_text_of())
    } else {
        Seq::empty()
    }
}

/// What setting one name and value does to header values, and whether it succeeded: a name
/// that is no header name once lowercased is skipped; a value that cannot be a header value
/// removes the name and fails.
pub open spec fn apply_string_value(
    values: Map<Seq<char>, Seq<Seq<u8>>>,
    pair: (Seq<char>, Seq<char>),
) -> (Map<Seq<char>, Seq<Seq<u8>>>, bool) {
    let name = lowercase(pair.0);
    let bytes = vstd::utf8::encode_utf8(pair.1);
    if !is_lowercase_header_name(name) {
        (values, true)
    } else if forall|i: int| 0 <= i < bytes.len() ==> is_value_byte(#[trigger] bytes[i]) {
        (values.insert(name, seq![bytes]), true)
    } else {
        (values.remove(name), false)
    }
}

/// What setting names and values in order does to header values, stopping at the first
/// failure, and whether all succeeded.
pub open spec fn apply_string_values(
    values: Map<Seq<char>, Seq<Seq<u8>>>,
    pairs: Seq<(Seq<char>, Seq<char>)>,
) -> (Map<Seq<char>, Seq<Seq<u8>>>, bool)
    decreases pairs.len(),
{
    if pairs.len() == 0 {
        (values, true)
    } else {
        let before = apply_string_values(values, pairs.drop_last());
        if !before.1 {
            before
        } else {
            apply_string_value(before.0, pairs.last())
        }
    }
}

/// Once setting fails, further names and values change nothing.
proof fn lemma_apply_after_failure(
    values: Map<Seq<char>, Seq<Seq<u8>>>,
    pairs: Seq<(Seq<char>, Seq<char>)>,
    k: int,
)
    requires
        0 <= k <= pairs.len(),
        !apply_string_values(values, pairs.take(k)).1,
    ensures
        apply_string_values(values, pairs) == apply_string_values(values, pairs.take(k)),
    decreases pairs.len() - k,
{
    if k < pairs.len() {
        assert(pairs.take(k + 1).drop_last() =~= pairs.take(k));
        lemma_apply_after_failure(values, pairs, k + 1);
    } else {
        assert(pairs.take(k) =~= pairs);
    }
}

/// The names and values of string pairs.
pub open spec fn string_pairs(pairs: Seq<(String, String)>) -> Seq<(Seq<char>, Seq<char>)> {
    pairs.map_values(|pair: (String, String)| (pair.0@, pair.1@))
}

/// `HeaderName::from_static`: the header name of a static lowercase text.
#[verifier::external_body]
fn header_name_static(name: &'static str) -> (r: HeaderName)
    requires
        is_header_name(name@),
    ensures
        header_name_text(r) == name@,
{
    HeaderName::from_static(name)
}

/// Whether a character may stand in a lowercase header name: a lowercase letter, a digit, or
/// one of ``!"#$%&'*+-.^_`|~``.
pub open spec fn is_name_char(c: char) -> bool {
    ||| ('a' <= c && c <= 'z')
    ||| ('0' <= c && c <= '9')
    ||| c == '!' || c == '"' || c == '#' || c == '$' || c == '%' || c == '&' || c == '\''
    ||| c == '*' || c == '+' || c == '-' || c == '.' || c == '^' || c == '_' || c == '`'
    ||| c == '|' || c == '~'
}

/// Whether a text is a lowercase header name: 1 to 65535 name characters.
pub open spec fn is_lowercase_header_name(name: Seq<char>) -> bool {
    1 <= name.len() <= 65535 && forall|i: int| 0 <= i < name.len() ==> is_name_char(#[trigger] name[i])
}

/// `HeaderName::from_lowercase`: the header name of a lowercase text; it succeeds exactly for
/// lowercase header names.
#[verifier::external_body]
fn header_name_from_lowercase(name: &str) -> (r: Option<HeaderName>)
    ensures
        r is Some <==> is_lowercase_header_name(name@),
        r matches Some(n) ==> header_name_text(n) == name@,
{
    HeaderName::from_lowercase(name.as_bytes()).ok()
}

/// `HeaderValue::as_bytes`: the bytes of a value.
#[verifier::external_body]
fn header_value_as_bytes(value: &HeaderValue) -> (r: &[u8])
    ensures
        r@ == header_value_bytes(*value),
{
    value.as_bytes()
}

/// `HeaderMap::get`: the first value of a name, if any.
#[verifier::external_body]
fn header_get<'a>(map: &'a HeaderMap, name: &HeaderName) -> (r: Option<&'a HeaderValue>)
    ensures
        r is Some <==> header_values(*map).contains_key(header_name_text(*name)),
        r matches Some(value) ==> header_values(*map)[header_name_text(*name)].len() > 0
            && header_value_bytes(*value) == header_values(*map)[header_name_text(*name)][0],
{
    map.get(name)
}

/// `HeaderMap::get_all`: all values of a name, in insertion order.
#[verifier::external_body]
fn header_get_all<'a>(map: &'a HeaderMap, name: &HeaderName) -> (r: Vec<&'a HeaderValue>)
    ensures
        r@.len() == (if header_values(*map).contains_key(header_name_text(*name)) {
            header_values(*map)[header_name_text(*name)].len()
        } else {
            0
        }),
        forall|i: int|
            0 <= i < r@.len() ==> header_value_bytes(*#[trigger] r@[i]) == header_values(
                *map,
            )[header_name_text(*name)][i],
{
    map.get_all(name).iter().collect()
}

/// `HeaderMap::contains_key`: whether a name has a value.
#[verifier::external_body]
pub(crate) fn header_contains(map: &HeaderMap, name: &HeaderName) -> (r: bool)
    ensures
        r == header_values(*map).contains_key(header_name_text(*name)),
{
    map.contains_key(name)
}

/// `HeaderMap::remove`: removes all values of a name. A map holds finitely many names.
#[verifier::external_body]
pub(crate) fn header_remove(map: &mut HeaderMap, name: &HeaderName)
    ensures
        header_values(*final(map)) == header_values(*old(map)).remove(header_name_text(*name)),
        header_values(*final(map)).dom().finite(),
{
    map.remove(name);
}

/// How many names a header map may hold before an insert into it may panic. `HeaderMap::insert`
/// first reserves room, and that fails (and `insert` panics) only where the table would have to
/// grow past its limit of 32768 slots. A map that its hashing has flagged as crowded grows once
/// it holds a fifth of its slots, so a full-size table can refuse to grow from 6554 names on
/// (its names can be chosen to cause that); below that, every reserve succeeds.
pub const MAX_HEADER_NAMES: usize = 6554;

/// `HeaderMap::keys_len`: the number of names that have a value (the map's entries).
#[verifier::external_body]
fn header_names_len(map: &HeaderMap) -> (r: usize)
    ensures
        r == header_values(*map).dom().len(),
{
    map.keys_len()
}

/// Whether `extra` more names fit into the map below [MAX_HEADER_NAMES], as the header setters
/// and the preparations of cached, transcoded and byte responses ask.
pub fn has_room_for_names(map: &HeaderMap, extra: usize) -> (r: bool)
    ensures
        r == (header_values(*map).dom().len() + extra < MAX_HEADER_NAMES),
{
    let names = header_names_len(map);
    names < MAX_HEADER_NAMES && extra < MAX_HEADER_NAMES - names
}

/// `HeaderMap::insert`: makes a value the only value of a name. A map holds finitely many
/// names. The `requires` leaves out the maps on which it may panic (see [MAX_HEADER_NAMES]).
#[verifier::external_body]
fn header_insert(map: &mut HeaderMap, name: HeaderName, value: HeaderValue)
    requires
        header_values(*old(map)).dom().len() < MAX_HEADER_NAMES,
    ensures
        header_values(*final(map)) == header_values(*old(map)).insert(
            header_name_text(name),
            seq![header_value_bytes(value)],
        ),
        header_values(*final(map)).dom().finite(),
{
    map.insert(name, value);
}

/// `HeaderValue::to_str`: the text of a value, if all its bytes are visible ASCII.
#[verifier::external_body]
fn header_value_to_str(value: &HeaderValue) -> (r: Option<&str>)
    ensures
        match r {
            Some(s) => header_text(header_value_bytes(*value)) == Some(s@),
            None => header_text(header_value_bytes(*value)) is None,
        },
{
    value.to_str().ok()
}

/// `HeaderValue::from_str`: a value of the UTF-8 bytes of a text, if they are all allowed.
#[verifier::external_body]
fn header_value_from_str(s: &str) -> (r: Result<HeaderValue, InvalidHeaderValue>)
    ensures
        r is Ok <==> forall|i: int| 0 <= i < s.spec_bytes().len() ==> is_value_byte(
            #[trigger] s.spec_bytes()[i],
        ),
        r matches Ok(value) ==> header_value_bytes(value) == s.spec_bytes(),
{
    HeaderValue::from_str(s)
}

/// `HttpDate::from_str`: the HTTP date that a text denotes, named [http_date_text_seconds].
#[verifier::external_body]
fn parse_http_date(s: &str) -> (r: Option<HttpDate>)
    ensures
        match r {
            Some(date) => http_date_text_seconds(s@) == Some(http_date_seconds(date)),
            None => http_date_text_seconds(s@) is None,
        },
{
    s.parse().ok()
}

/// `HttpDate`'s `<=`, which compares the instants.
#[verifier::external_body]
pub(crate) fn http_date_le(a: &HttpDate, b: &HttpDate) -> (r: bool)
    ensures
        r == (http_date_seconds(*a) <= http_date_seconds(*b)),
{
    *a <= *b
}

/// `HttpDate`'s `Display`: the IMF-fixdate text (such as `Sun, 06 Nov 1994 08:49:37 GMT`),
/// which is printable ASCII and which `HttpDate::from_str` reads back as the same date.
#[verifier::external_body]
fn http_date_to_string(date: &HttpDate) -> (r: String)
    ensures
        r@ == http_date_text(http_date_seconds(*date)),
        forall|i: int| 0 <= i < r@.len() ==> ' ' <= #[trigger] r@[i] && r@[i] <= '~',
        http_date_text_seconds(r@) == Some(http_date_seconds(*date)),
{
    date.to_string()
}


/// What `base64_simd::STANDARD.decode_to_vec` gives for a text's bytes, if it decodes.
pub uninterp spec fn base64_decoded(text: Seq<char>) -> Option<Seq<u8>>;

/// The duration that `duration_str::parse` reads from a text, if any.
pub uninterp spec fn parsed_duration(text: Seq<char>) -> Option<std::time::Duration>;

/// `base64_simd::STANDARD.decode_to_vec`: the bytes that standard (padded) base64 text encodes.
#[verifier::external_body]
fn base64_decode(text: &str) -> (r: Option<Vec<u8>>)
    ensures
        match r {
            Some(bytes) => base64_decoded(text@) == Some(bytes@),
            None => base64_decoded(text@) is None,
        },
{
    base64_simd::STANDARD.decode_to_vec(text).ok()
}

/// `std::str::from_utf8`: the text that UTF-8 bytes encode, if they are valid UTF-8.
#[verifier::external_body]
fn utf8_str(bytes: &[u8]) -> (r: Option<&str>)
    ensures
        match r {
            Some(s) => vstd::utf8::valid_utf8(bytes@) && s@ == vstd::utf8::decode_utf8(bytes@),
            None => !vstd::utf8::valid_utf8(bytes@),
        },
{
    std::str::from_utf8(bytes).ok()
}

/// `duration_str::parse`: the duration that a text such as `1h30m` denotes, named
/// [parsed_duration].
#[verifier::external_body]
fn parse_duration(text: &str) -> (r: Option<std::time::Duration>)
    ensures
        r == parsed_duration(text@),
{
    duration_str::parse(text).ok()
}

/// The `XX-Cache` response header: whether to cache the response.
pub fn xx_cache_name() -> (r: HeaderName)
    ensures
        header_name_text(r) == "xx-cache"@,
{
    proof {
        reveal_strlit("xx-cache");
    }
    header_name_static("xx-cache")
}

/// The `XX-Cache-Duration` response header: the cache duration.
pub fn xx_cache_duration_name() -> (r: HeaderName)
    ensures
        header_name_text(r) == "xx-cache-duration"@,
{
    proof {
        reveal_strlit("xx-cache-duration");
    }
    header_name_static("xx-cache-duration")
}

/// The `XX-Encode` response header: whether to encode the response.
pub fn xx_encode_name() -> (r: HeaderName)
    ensures
        header_name_text(r) == "xx-encode"@,
{
    proof {
        reveal_strlit("xx-encode");
    }
    header_name_static("xx-encode")
}

/// The `Content-Digest` response header.
pub fn content_digest_name() -> (r: HeaderName)
    ensures
        header_name_text(r) == "content-digest"@,
{
    proof {
        reveal_strlit("content-digest");
    }
    header_name_static("content-digest")
}

/// A standard header name.
pub fn standard_name(name: &'static str) -> (r: HeaderName)
    requires
        is_header_name(name@),
    ensures
        header_name_text(r) == name@,
{
    header_name_static(name)
}

/// The date of the first value of `name`, if it is a valid HTTP date.
pub open spec fn header_date_seconds(values: Map<Seq<char>, Seq<Seq<u8>>>, name: Seq<char>) -> Option<
    int,
> {
    match first_text(values, name) {
        Some(text) => http_date_text_seconds(text),
        None => None,
    }
}

/// The duration of the first value of `name`, if it is a valid duration.
pub open spec fn header_duration(values: Map<Seq<char>, Seq<Seq<u8>>>, name: Seq<char>) -> Option<
    std::time::Duration,
> {
    match first_text(values, name) {
        Some(text) => parsed_duration(text),
        None => None,
    }
}

/// A boolean header value: `true` or `false` in any case, otherwise `default`.
pub open spec fn spec_bool_value(text: Option<Seq<char>>, default: bool) -> bool {
    match text {
        Some(t) => if ascii_lowercase(t) == "true"@ {
            true
        } else if ascii_lowercase(t) == "false"@ {
            false
        } else {
            default
        },
        None => default,
    }
}

/// The user name and password of a `Basic` authorization: the UTF-8 text that the base64
/// after `Basic ` encodes, split at its first `:`.
pub open spec fn spec_authorization_basic(text: Option<Seq<char>>) -> Option<(Seq<char>, Seq<char>)> {
    match text {
        Some(t) => if t.len() >= 6 && t.take(6) == seq!['B', 'a', 's', 'i', 'c', ' '] {
            match base64_decoded(t.skip(6)) {
                Some(bytes) => if vstd::utf8::valid_utf8(bytes) {
                    split_once(vstd::utf8::decode_utf8(bytes), ':')
                } else {
                    None
                },
                None => None,
            }
        } else {
            None
        },
        None => None,
    }
}

/// Access header values.
pub trait HeaderValues {
    /// For each header name, the bytes of its values in order.
    spec fn values(&self) -> Map<Seq<char>, Seq<Seq<u8>>>;

    /// A header value as an ASCII string.
    ///
    /// [None] could mean that there is no such header *or* that it is not a valid ASCII string.
    fn string_value(&self, name: HeaderName) -> (r: Option<&str>)
        ensures
            match r {
                Some(s) => first_text(self.values(), header_name_text(name)) == Some(s@),
                None => first_text(self.values(), header_name_text(name)) is None,
            },
    ;

    /// All header values as ASCII strings, skipping non-ASCII values.
    fn string_values(&self, name: HeaderName) -> (r: Vec<&str>)
        ensures
            views(r@) == all_texts(self.values(), header_name_text(name)),
    ;

    /// A header value as a UTF-8 string.
    ///
    /// [None] could mean that there is no such header *or* that it is not valid UTF-8.
    fn byte_string_value(&self, name: HeaderName) -> (r: Option<String>)
        ensures
            option_view(r) == first_utf8(self.values(), header_name_text(name)),
    ;

    /// All header values as UTF-8 strings, skipping values that are not valid UTF-8.
    fn byte_string_values(&self, name: HeaderName) -> (r: Vec<String>)
        ensures
            views(r@) == all_utf8(self.values(), header_name_text(name)),
    ;

    /// Set a header string value, removing existing values first.
    ///
    /// Fails (leaving the header removed) if the value holds control characters.
    fn set_string_value(&mut self, name: HeaderName, value: &str) -> (r: Result<
        (),
        InvalidHeaderValue,
    >)
        requires
            old(self).values().dom().len() < MAX_HEADER_NAMES,
        ensures
            final(self).values().dom().finite(),
            r is Ok <==> forall|i: int|
                0 <= i < value.spec_bytes().len() ==> is_value_byte(#[trigger] value.spec_bytes()[i]),
            r is Ok ==> final(self).values() == old(self).values().insert(
                header_name_text(name),
                seq![value.spec_bytes()],
            ),
            r is Err ==> final(self).values() == old(self).values().remove(header_name_text(name)),
    ;

    /// Set header string values, in order; names are lowercased, and names that are then no
    /// header names are skipped.
    ///
    /// Removes existing values first for each header. Fails at the first value that cannot be
    /// a header value, leaving that header removed and the rest unset.
    fn set_string_values(&mut self, pairs: &Vec<(String, String)>) -> (r: Result<(), InvalidHeaderValue>)
        requires
            old(self).values().dom().len() + pairs@.len() < MAX_HEADER_NAMES,
        ensures
            final(self).values() == apply_string_values(old(self).values(), string_pairs(pairs@)).0,
            r is Ok <==> apply_string_values(old(self).values(), string_pairs(pairs@)).1,
    {
        let ghost original = self.values();
        let ghost all = string_pairs(pairs@);
        let mut i: usize = 0;
        let ghost mut touched = false;
        while i < pairs.len()
            invariant
                i <= pairs@.len(),
                all == string_pairs(pairs@),
                original == old(self).values(),
                original.dom().len() + pairs@.len() < MAX_HEADER_NAMES,
                apply_string_values(original, all.take(i as int)) == (self.values(), true),
                !touched ==> self.values() == original,
                touched ==> original.dom().finite() && self.values().dom().finite()
                    && self.values().dom().len() <= original.dom().len() + i,
            decreases pairs@.len() - i,
        {
            let name = &pairs[i].0;
            let value = &pairs[i].1;
            let ghost before = self.values();
            assert(all.take(i + 1).drop_last() =~= all.take(i as int));
            assert(all.take(i + 1).last() == (name@, value@));
            let lowered = to_lowercase(name.as_str());
            match header_name_from_lowercase(lowered.as_str()) {
                Some(header_name) => {
                    let result = self.set_string_value(header_name, value.as_str());
                    let ghost key = lowercase(name@);
                    let ghost after = self.values();
                    proof {
                        assert(before.dom().subset_of(after.dom().insert(key)));
                        vstd::set_lib::lemma_len_subset(before.dom(), after.dom().insert(key));
                        assert(after.dom().subset_of(before.dom().insert(key)));
                        vstd::set_lib::lemma_len_subset(after.dom(), before.dom().insert(key));
                        if i == 0 {
                            assert(all.take(0) =~= Seq::<(Seq<char>, Seq<char>)>::empty());
                        }
                        touched = true;
                    }
                    match result {
                        Ok(()) => {},
                        Err(error) => {
                            proof {
                                assert(apply_string_value(before, (name@, value@)) == (after, false));
                                assert(apply_string_values(original, all.take(i + 1)) == (after, false));
                                lemma_apply_after_failure(original, all, i + 1);
                                assert(all.take(all.len() as int) =~= all);
                            }
                            return Err(error);
                        },
                    }
                },
                None => {
                    proof {
                        if i == 0 {
                            assert(all.take(0) =~= Seq::<(Seq<char>, Seq<char>)>::empty());
                        }
                    }
                },
            }
            i = i + 1;
        }
        assert(all.take(pairs@.len() as int) =~= all);
        Ok(())
    }

    /// A header value as a boolean (`true` or `false`, in any case), or `default`.
    fn bool_value(&self, name: HeaderName, default: bool) -> (r: bool)
        ensures
            r == spec_bool_value(first_text(self.values(), header_name_text(name)), default),
    {
        match self.string_value(name) {
            Some(value) => {
                proof {
                    lemma_header_text_ascii(self.values(), header_name_text(name));
                }
                let lowered = to_lowercase(value);
                proof {
                    reveal_strlit("true");
                    reveal_strlit("false");
                }
                if lowered == String::from_str("true") {
                    true
                } else if lowered == String::from_str("false") {
                    false
                } else {
                    default
                }
            },
            None => default,
        }
    }

    /// Parse, combine, and sort all header values as [Preferences], skipping malformed ones.
    fn preferences<SelectionT: Selection>(&self, name: HeaderName) -> (r: Preferences<SelectionT>)
        ensures
            is_stable_weight_sort_of_views(
                parsed_preferences::<SelectionT>(all_texts(self.values(), header_name_text(name))),
                views(r.0@),
            ),
    {
        let values = self.string_values(name);
        Preferences::parse(&values)
    }

    /// A header value as an [HttpDate].
    ///
    /// [None] could mean that there is no such header *or* that it is malformed.
    fn date_value(&self, name: HeaderName) -> (r: Option<HttpDate>)
        ensures
            match r {
                Some(date) => header_date_seconds(self.values(), header_name_text(name)) == Some(
                    http_date_seconds(date),
                ),
                None => header_date_seconds(self.values(), header_name_text(name)) is None,
            },
    {
        match self.string_value(name) {
            Some(value) => parse_http_date(value),
            None => None,
        }
    }

    /// A header value as a duration (see `duration_str`).
    ///
    /// [None] could mean that there is no such header *or* that it is malformed.
    fn duration_value(&self, name: HeaderName) -> (r: Option<std::time::Duration>)
        ensures
            r == header_duration(self.values(), header_name_text(name)),
    {
        match self.string_value(name) {
            Some(value) => parse_duration(value),
            None => None,
        }
    }

    /// Set a boolean header value (`true` or `false`), removing existing values first.
    fn set_bool_value(&mut self, name: HeaderName, value: bool)
        requires
            old(self).values().dom().len() < MAX_HEADER_NAMES,
        ensures
            final(self).values().dom().finite(),
            final(self).values() == old(self).values().insert(
                header_name_text(name),
                seq![ascii_bytes(if value { "true"@ } else { "false"@ })],
            ),
    {
        proof {
            reveal_strlit("true");
            reveal_strlit("false");
        }
        let text = if value {
            "true"
        } else {
            "false"
        };
        proof {
            lemma_ascii_bytes(text);
        }
        let r = self.set_string_value(name, text);
    }

    /// Set an HTTP date header value, removing existing values first; it reads back as the
    /// same date.
    fn set_date_value(&mut self, name: HeaderName, date: HttpDate)
        requires
            old(self).values().dom().len() < MAX_HEADER_NAMES,
        ensures
            final(self).values().dom().finite(),
            final(self).values() == old(self).values().insert(
                header_name_text(name),
                seq![ascii_bytes(http_date_text(http_date_seconds(date)))],
            ),
            header_date_seconds(final(self).values(), header_name_text(name)) == Some(
                http_date_seconds(date),
            ),
    {
        let text = http_date_to_string(&date);
        let text = text.as_str();
        proof {
            lemma_ascii_bytes(text);
            lemma_string_value_round_trip(self.values(), header_name_text(name), text@);
        }
        let r = self.set_string_value(name, text);
    }

    /// Set a decimal header value, removing existing values first.
    fn set_usize_value(&mut self, name: HeaderName, value: usize)
        requires
            old(self).values().dom().len() < MAX_HEADER_NAMES,
        ensures
            final(self).values().dom().finite(),
            final(self).values() == old(self).values().insert(
                header_name_text(name),
                seq![ascii_bytes(crate::text::decimal(value as nat))],
            ),
    {
        let digits = crate::text::decimal_chars(value as u64);
        let text = crate::text::string_from_chars(digits.as_slice());
        let text = text.as_str();
        proof {
            crate::text::lemma_decimal_digits(value as nat);
            lemma_ascii_bytes(text);
        }
        let r = self.set_string_value(name, text);
    }

    /// Set an encoding header value (its token), removing existing values first.
    fn set_encoding_value(&mut self, name: HeaderName, encoding: Encoding)
        requires
            old(self).values().dom().len() < MAX_HEADER_NAMES,
        ensures
            final(self).values().dom().finite(),
            final(self).values() == old(self).values().insert(
                header_name_text(name),
                seq![ascii_bytes(crate::encoding::encoding_token(encoding))],
            ),
    {
        let text = encoding.to_string();
        let text = text.as_str();
        proof {
            lemma_ascii_bytes(text);
        }
        let r = self.set_string_value(name, text);
    }

    /// The `Content-Length` header value.
    ///
    /// [None] could mean that there is no such header *or* that it is malformed.
    fn content_length(&self) -> (r: Option<usize>)
        ensures
            r == (match first_text(self.values(), "content-length"@) {
                Some(text) => spec_parse_usize(text),
                None => None,
            }),
    {
        proof {
            reveal_strlit("content-length");
        }
        match self.string_value(standard_name("content-length")) {
            Some(value) => parse_usize(value),
            None => None,
        }
    }

    /// The `Content-Type` header value.
    ///
    /// [None] could mean that there is no such header *or* that it is malformed.
    fn content_type(&self) -> (r: Option<MediaType>)
        ensures
            match r {
                Some(media_type) => first_text(self.values(), "content-type"@) matches Some(text)
                    && spec_parse_media_type(text) == Some(media_type@),
                None => first_text(self.values(), "content-type"@) matches Some(text)
                    ==> spec_parse_media_type(text) is None,
            },
    {
        proof {
            reveal_strlit("content-type");
        }
        match self.string_value(standard_name("content-type")) {
            Some(value) => match MediaType::parse(value) {
                Ok(media_type) => Some(media_type),
                Err(_) => None,
            },
            None => None,
        }
    }

    /// Parse, combine, and sort all `Accept` request header values.
    fn accept(&self) -> (r: Preferences<MediaTypeSelector>)
        ensures
            is_stable_weight_sort_of_views(
                parsed_preferences::<MediaTypeSelector>(all_texts(self.values(), "accept"@)),
                views(r.0@),
            ),
    {
        proof {
            reveal_strlit("accept");
        }
        self.preferences(standard_name("accept"))
    }

    /// Parse, combine, and sort all `Accept-Encoding` request header values.
    fn accept_encoding(&self) -> (r: Preferences<Encoding>)
        ensures
            is_stable_weight_sort_of_views(
                parsed_preferences::<Encoding>(all_texts(self.values(), "accept-encoding"@)),
                views(r.0@),
            ),
    {
        proof {
            reveal_strlit("accept-encoding");
        }
        self.preferences(standard_name("accept-encoding"))
    }

    /// Parse, combine, and sort all `Accept-Language` request header values (subtags are
    /// lowercased).
    fn accept_language(&self) -> (r: Preferences<Language>)
        ensures
            is_stable_weight_sort_of_views(
                parsed_preferences::<Language>(all_texts(self.values(), "accept-language"@)),
                views(r.0@),
            ),
    {
        proof {
            reveal_strlit("accept-language");
        }
        self.preferences(standard_name("accept-language"))
    }

    /// The `If-Modified-Since` request header value.
    fn if_modified_since(&self) -> (r: Option<HttpDate>)
        ensures
            match r {
                Some(date) => header_date_seconds(self.values(), "if-modified-since"@) == Some(
                    http_date_seconds(date),
                ),
                None => header_date_seconds(self.values(), "if-modified-since"@) is None,
            },
    {
        proof {
            reveal_strlit("if-modified-since");
        }
        self.date_value(standard_name("if-modified-since"))
    }

    /// The `If-Unmodified-Since` request header value.
    fn if_unmodified_since(&self) -> (r: Option<HttpDate>)
        ensures
            match r {
                Some(date) => header_date_seconds(self.values(), "if-unmodified-since"@) == Some(
                    http_date_seconds(date),
                ),
                None => header_date_seconds(self.values(), "if-unmodified-since"@) is None,
            },
    {
        proof {
            reveal_strlit("if-unmodified-since");
        }
        self.date_value(standard_name("if-unmodified-since"))
    }

    /// The `Last-Modified` response header value.
    fn last_modified(&self) -> (r: Option<HttpDate>)
        ensures
            match r {
                Some(date) => header_date_seconds(self.values(), "last-modified"@) == Some(
                    http_date_seconds(date),
                ),
                None => header_date_seconds(self.values(), "last-modified"@) is None,
            },
    {
        proof {
            reveal_strlit("last-modified");
        }
        self.date_value(standard_name("last-modified"))
    }

    /// The `If-None-Match` request header value.
    fn if_none_match(&self) -> (r: Option<ETagMatcher>)
        ensures
            option_view(r) == match first_text(self.values(), "if-none-match"@) {
                Some(text) => spec_parse_selector::<ETagList>(text),
                None => None,
            },
    {
        proof {
            reveal_strlit("if-none-match");
        }
        self.matcher_value(standard_name("if-none-match"))
    }

    /// The `If-Match` request header value.
    fn if_match(&self) -> (r: Option<ETagMatcher>)
        ensures
            option_view(r) == match first_text(self.values(), "if-match"@) {
                Some(text) => spec_parse_selector::<ETagList>(text),
                None => None,
            },
    {
        proof {
            reveal_strlit("if-match");
        }
        self.matcher_value(standard_name("if-match"))
    }

    /// A header value as an [ETagMatcher].
    fn matcher_value(&self, name: HeaderName) -> (r: Option<ETagMatcher>)
        ensures
            option_view(r) == match first_text(self.values(), header_name_text(name)) {
                Some(text) => spec_parse_selector::<ETagList>(text),
                None => None,
            },
    {
        match self.string_value(name) {
            Some(value) => match ETagMatcher::parse(value) {
                Ok(matcher) => Some(matcher),
                Err(_) => None,
            },
            None => None,
        }
    }

    /// The `ETag` response header value.
    fn etag(&self) -> (r: Option<ETag>)
        ensures
            option_view(r) == match first_text(self.values(), "etag"@) {
                Some(text) => spec_parse_etag(text),
                None => None,
            },
    {
        proof {
            reveal_strlit("etag");
        }
        match self.string_value(standard_name("etag")) {
            Some(value) => match ETag::parse(value) {
                Ok(etag) => Some(etag),
                Err(_) => None,
            },
            None => None,
        }
    }

    /// The `Content-Encoding` response header value; [Identity](Encoding::Identity) if there
    /// is no such header or it is malformed.
    fn content_encoding(&self) -> (r: Encoding)
        ensures
            r == match first_text(self.values(), "content-encoding"@) {
                Some(text) => match spec_parse_encoding(text) {
                    Some(encoding) => encoding,
                    None => Encoding::Identity,
                },
                None => Encoding::Identity,
            },
    {
        proof {
            reveal_strlit("content-encoding");
        }
        match self.string_value(standard_name("content-encoding")) {
            Some(value) => match Encoding::parse(value) {
                Some(encoding) => encoding,
                None => Encoding::Identity,
            },
            None => Encoding::Identity,
        }
    }

    /// The languages of the `Content-Language` response header, each once (subtags are
    /// lowercased).
    fn content_language(&self) -> (r: Option<Vec<Language>>)
        ensures
            r is Some <==> first_text(self.values(), "content-language"@) is Some,
            r matches Some(list) ==> views(list@).no_duplicates() && forall|language: Seq<Seq<char>>|
                #[trigger] views(list@).contains(language) <==> languages_of(
                    first_text(self.values(), "content-language"@)->0,
                ).contains(language),
    {
        proof {
            reveal_strlit("content-language");
        }
        match self.string_value(standard_name("content-language")) {
            Some(value) => Language::parse_list(value),
            None => None,
        }
    }

    /// The user name and password of the `Authorization` request header for the `Basic`
    /// scheme (UTF-8).
    ///
    /// [None] could mean that there is no such header *or* that it is malformed.
    fn authorization_basic(&self) -> (r: Option<(String, String)>)
        ensures
            option_view(r) == spec_authorization_basic(
                first_text(self.values(), "authorization"@),
            ),
    {
        proof {
            reveal_strlit("authorization");
        }
        let value = match self.string_value(standard_name("authorization")) {
            Some(value) => value,
            None => return None,
        };
        let chars = chars_of(value);
        if chars.len() < 6 || !(chars[0] == 'B' && chars[1] == 'a' && chars[2] == 's' && chars[3]
            == 'i' && chars[4] == 'c' && chars[5] == ' ') {
            proof {
                if value@.len() >= 6 {
                    assert(value@.take(6)[0] == value@[0]);
                    assert(value@.take(6)[1] == value@[1]);
                    assert(value@.take(6)[2] == value@[2]);
                    assert(value@.take(6)[3] == value@[3]);
                    assert(value@.take(6)[4] == value@[4]);
                    assert(value@.take(6)[5] == value@[5]);
                }
            }
            return None;
        }
        assert(value@.take(6) =~= seq!['B', 'a', 's', 'i', 'c', ' ']);
        let encoded = value.substring_char(6, chars.len());
        let bytes = match base64_decode(encoded) {
            Some(bytes) => bytes,
            None => return None,
        };
        let text = match utf8_str(bytes.as_slice()) {
            Some(text) => text,
            None => return None,
        };
        match split_once_str(text, ':') {
            Some((username, password)) => Some(
                (String::from_str(username), String::from_str(password)),
            ),
            None => None,
        }
    }
}

/// Access custom header values.
pub trait CustomHeaderValues: HeaderValues {
    /// The `XX-Cache` response header value, or `default`.
    fn xx_cache(&self, default: bool) -> (r: bool)
        ensures
            r == spec_bool_value(first_text(self.values(), "xx-cache"@), default),
    {
        self.bool_value(xx_cache_name(), default)
    }

    /// The `XX-Cache-Duration` response header value.
    fn xx_cache_duration(&self) -> (r: Option<std::time::Duration>)
        ensures
            r == header_duration(self.values(), "xx-cache-duration"@),
    {
        self.duration_value(xx_cache_duration_name())
    }

    /// The `XX-Encode` response header value, or `default`.
    fn xx_encode(&self, default: bool) -> (r: bool)
        ensures
            r == spec_bool_value(first_text(self.values(), "xx-encode"@), default),
    {
        self.bool_value(xx_encode_name(), default)
    }
}

/// The text of a header value is ASCII.
proof fn lemma_header_text_ascii(values: Map<Seq<char>, Seq<Seq<u8>>>, name: Seq<char>)
    ensures
        first_text(values, name) matches Some(text) ==> forall|i: int|
            0 <= i < text.len() ==> (#[trigger] text[i] as int) < 128,
{
    if first_text(values, name) is Some {
        let bytes = values[name][0];
        let text = first_text(values, name)->0;
        assert forall|i: int| 0 <= i < text.len() implies (#[trigger] text[i] as int) < 128 by {
            assert(is_visible_ascii(bytes[i]));
            assert(text[i] == bytes[i] as char);
        }
    }
}

/// A header value written as visible-ASCII text reads back as the same text.
pub proof fn lemma_string_value_round_trip(
    values: Map<Seq<char>, Seq<Seq<u8>>>,
    name: Seq<char>,
    text: Seq<char>,
)
    requires
        forall|i: int| 0 <= i < text.len() ==> ' ' <= #[trigger] text[i] && text[i] <= '~',
    ensures
        first_text(values.insert(name, seq![ascii_bytes(text)]), name) == Some(text),
{
    let bytes = ascii_bytes(text);
    assert forall|i: int| 0 <= i < bytes.len() implies is_visible_ascii(#[trigger] bytes[i]) by {
        assert(bytes[i] == text[i] as u8);
        assert(32 <= text[i] as int <= 126);
    }
    assert forall|i: int| 0 <= i < bytes.len() implies (#[trigger] bytes[i]) as char == text[i] by {
        assert(bytes[i] == text[i] as u8);
        assert(32 <= text[i] as int <= 126);
    }
    assert(bytes.map_values(|b: u8| b as char) =~= text);
    assert(values.insert(name, seq![bytes])[name][0] == bytes);
}

/// A boolean header value reads back as what was written, whatever the default.
pub proof fn lemma_bool_value_round_trip(
    values: Map<Seq<char>, Seq<Seq<u8>>>,
    name: Seq<char>,
    value: bool,
    default: bool,
)
    ensures
        spec_bool_value(
            first_text(
                values.insert(name, seq![ascii_bytes(if value { "true"@ } else { "false"@ })]),
                name,
            ),
            default,
        ) == value,
{
    reveal_strlit("true");
    reveal_strlit("false");
    let text = if value {
        "true"@
    } else {
        "false"@
    };
    lemma_string_value_round_trip(values, name, text);
    assert(ascii_lowercase(text) =~= text);
    assert(text != "false"@ || !value);
    if value {
        assert("true"@[0] != "false"@[0]);
    }
}

/// A decimal `Content-Length` reads back as the number written.
pub proof fn lemma_content_length_round_trip(values: Map<Seq<char>, Seq<Seq<u8>>>, length: usize)
    ensures
        ({
            let written = values.insert("content-length"@, seq![ascii_bytes(decimal(length as nat))]);
            (match first_text(written, "content-length"@) {
                Some(text) => spec_parse_usize(text),
                None => None,
            }) == Some(length)
        }),
{
    crate::text::lemma_decimal_digits(length as nat);
    lemma_string_value_round_trip(values, "content-length"@, decimal(length as nat));
    crate::text::lemma_parse_decimal(length as nat);
}

/// The UTF-8 bytes of an ASCII text are its characters as bytes, and are allowed in header
/// values when they are printable.
proof fn lemma_ascii_bytes(s: &str)
    requires
        forall|i: int| 0 <= i < s@.len() ==> ' ' <= #[trigger] s@[i] && s@[i] <= '~',
    ensures
        s.spec_bytes() == ascii_bytes(s@),
        forall|i: int| 0 <= i < s.spec_bytes().len() ==> is_value_byte(#[trigger] s.spec_bytes()[i]),
{
    assert(vstd::string::is_ascii(s));
    vstd::string::is_ascii_spec_bytes(s);
    assert(s.spec_bytes() =~= ascii_bytes(s@));
}

impl HeaderValues for HeaderMap {
    open spec fn values(&self) -> Map<Seq<char>, Seq<Seq<u8>>> {
        header_values(*self)
    }

    fn string_value(&self, name: HeaderName) -> (r: Option<&str>) {
        match header_get(self, &name) {
            Some(value) => header_value_to_str(value),
            None => None,
        }
    }

    fn string_values(&self, name: HeaderName) -> (r: Vec<&str>) {
        let all = header_get_all(self, &name);
        let ghost bytes = if header_values(*self).contains_key(header_name_text(name)) {
            header_values(*self)[header_name_text(name)]
        } else {
            Seq::empty()
        };
        let mut texts: Vec<&str> = Vec::new();
        let mut i: usize = 0;
        while i < all.len()
            invariant
                i <= all@.len(),
                all@.len() == bytes.len(),
                forall|j: int|
                    0 <= j < all@.len() ==> header_value_bytes(*#[trigger] all@[j]) == bytes[j],
                views(texts@) == bytes.take(i as int).filter_map(header_text_of()),
            decreases all@.len() - i,
        {
            proof {
                bytes.lemma_filter_map_take_succ(header_text_of(), i as int);
            }
            let ghost before = texts@;
            match header_value_to_str(all[i]) {
                Some(text) => {
                    texts.push(text);
                    assert(views(texts@) =~= views(before) + seq![text@]);
                },
                None => {},
            }
            i = i + 1;
        }
        assert(bytes.take(bytes.len() as int) =~= bytes);
        texts
    }

    fn byte_string_value(&self, name: HeaderName) -> (r: Option<String>) {
        match header_get(self, &name) {
            Some(value) => match utf8_str(header_value_as_bytes(value)) {
                Some(text) => Some(String::from_str(text)),
                None => None,
            },
            None => None,
        }
    }

    fn byte_string_values(&self, name: HeaderName) -> (r: Vec<String>) {
        let all = header_get_all(self, &name);
        let ghost bytes = if header_values(*self).contains_key(header_name_text(name)) {
            header_values(*self)[header_name_text(name)]
        } else {
            Seq::empty()
        };
        let mut texts: Vec<String> = Vec::new();
        let mut i: usize = 0;
        while i < all.len()
            invariant
                i <= all@.len(),
                all@.len() == bytes.len(),
                forall|j: int|
                    0 <= j < all@.len() ==> header_value_bytes(*#[trigger] all@[j]) == bytes[j],
                views(texts@) == bytes.take(i as int).filter_map(utf8_text_of()),
            decreases all@.len() - i,
        {
            proof {
                bytes.lemma_filter_map_take_succ(utf8_text_of(), i as int);
            }
            let ghost before = texts@;
            match utf8_str(header_value_as_bytes(all[i])) {
                Some(text) => {
                    texts.push(String::from_str(text));
                    assert(views(texts@) =~= views(before) + seq![text@]);
                },
                None => {},
            }
            i = i + 1;
        }
        assert(bytes.take(bytes.len() as int) =~= bytes);
        texts
    }

    fn set_string_value(&mut self, name: HeaderName, value: &str) -> (r: Result<
        (),
        InvalidHeaderValue,
    >) {
        match header_value_from_str(value) {
            Ok(header_value) => {
                header_insert(self, name, header_value);
                Ok(())
            },
            Err(error) => {
                header_remove(self, &name);
                Err(error)
            },
        }
    }
}

impl CustomHeaderValues for HeaderMap {}

/// The current time as an [HttpDate] (`HttpDate::from(SystemTime::now())`).
#[verifier::external_body]
pub fn now() -> HttpDate {
    HttpDate::from(std::time::SystemTime::now())
}

} // verus!
