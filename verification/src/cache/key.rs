//! The text of a common cache key.

use vstd::prelude::*;

use crate::language::{join_subtags, Language};
use crate::media_type::{slash_join, MediaType};
use crate::cache::weight::{add_weights, saturated, text_length, text_weight, texts_length, texts_weight, CacheWeight};
use crate::language::subtags_length;
use crate::media_type::segment_weight;
use crate::text::{decimal, decimal_chars, option_view, string_from_chars, views};

verus! {

/// The pieces joined with the separator between each two.
pub open spec fn joined(pieces: Seq<Seq<char>>, separator: Seq<char>) -> Seq<char>
    decreases pieces.len(),
{
    if pieces.len() == 0 {
        Seq::empty()
    } else if pieces.len() == 1 {
        pieces[0]
    } else {
        joined(pieces.drop_last(), separator) + separator + pieces.last()
    }
}

/// Join texts with a separator.
pub fn join_strings(pieces: &Vec<String>, separator: &str) -> (r: String)
    ensures
        r@ == joined(views(pieces@), separator@),
{
    if pieces.len() == 0 {
        return String::new();
    }
    let ghost all = views(pieces@);
    let mut result = pieces[0].clone();
    let mut i: usize = 1;
    assert(all.take(1) =~= seq![all[0]]);
    while i < pieces.len()
        invariant
            1 <= i <= pieces@.len(),
            all == views(pieces@),
            result@ == joined(all.take(i as int), separator@),
        decreases pieces@.len() - i,
    {
        assert(all.take(i + 1).drop_last() =~= all.take(i as int));
        result = result.concat(separator).concat(pieces[i].as_str());
        i = i + 1;
    }
    assert(all.take(pieces@.len() as int) =~= all);
    result
}

/// `key=value` for each value of each key, in order.
pub open spec fn query_pairs(query: Seq<(Seq<char>, Seq<Seq<char>>)>) -> Seq<Seq<char>>
    decreases query.len(),
{
    if query.len() == 0 {
        Seq::empty()
    } else {
        query_pairs(query.drop_last()) + query.last().1.map_values(
            |value: Seq<char>| query.last().0 + seq!['='] + value,
        )
    }
}

/// The keys and values of a query.
pub open spec fn query_view(query: Seq<(String, Vec<String>)>) -> Seq<(Seq<char>, Seq<Seq<char>>)> {
    query.map_values(|entry: (String, Vec<String>)| (entry.0@, views(entry.1@)))
}

/// `key length=value length` for each extension.
pub open spec fn extension_text(extension: (usize, usize)) -> Seq<char> {
    decimal(extension.0 as nat) + seq!['='] + decimal(extension.1 as nat)
}

/// The parts of a common cache key: method, scheme, host, port, path, query, media type,
/// languages and extensions; a missing part is empty, the query is `&`-joined `key=value`
/// pairs, the languages are `,`-joined and the extensions `&`-joined lengths.
pub open spec fn cache_key_parts(
    method: Seq<char>,
    scheme: Seq<char>,
    host: Seq<char>,
    port: Option<u16>,
    path: Seq<char>,
    query: Seq<(Seq<char>, Seq<Seq<char>>)>,
    media_type: Option<(Seq<char>, Seq<char>)>,
    languages: Seq<Seq<Seq<char>>>,
    extensions: Seq<(usize, usize)>,
) -> Seq<Seq<char>> {
    seq![
        method,
        scheme,
        host,
        match port {
            Some(port) => decimal(port as nat),
            None => Seq::empty(),
        },
        path,
        joined(query_pairs(query), seq!['&']),
        match media_type {
            Some(media_type) => slash_join(media_type.0, media_type.1),
            None => Seq::empty(),
        },
        joined(languages.map_values(|language: Seq<Seq<char>>| join_subtags(language)), seq![',']),
        joined(extensions.map_values(|extension: (usize, usize)| extension_text(extension)), seq!['&']),
    ]
}

/// The text of a common cache key: its parts ([cache_key_parts]) separated by `|`.
pub open spec fn spec_cache_key_text(
    method: Seq<char>,
    scheme: Seq<char>,
    host: Seq<char>,
    port: Option<u16>,
    path: Seq<char>,
    query: Seq<(Seq<char>, Seq<Seq<char>>)>,
    media_type: Option<(Seq<char>, Seq<char>)>,
    languages: Seq<Seq<Seq<char>>>,
    extensions: Seq<(usize, usize)>,
) -> Seq<char> {
    joined(
        cache_key_parts(method, scheme, host, port, path, query, media_type, languages, extensions),
        seq!['|'],
    )
}

/// The decimal text of a number.
fn decimal_string(n: u64) -> (r: String)
    ensures
        r@ == decimal(n as nat),
{
    let digits = decimal_chars(n);
    string_from_chars(digits.as_slice())
}

/// `key=value` texts of a query.
fn query_pair_strings(query: &Vec<(String, Vec<String>)>) -> (r: Vec<String>)
    ensures
        views(r@) == query_pairs(query_view(query@)),
{
    let ghost q = query_view(query@);
    let mut pairs: Vec<String> = Vec::new();
    let mut i: usize = 0;
    while i < query.len()
        invariant
            i <= query@.len(),
            q == query_view(query@),
            views(pairs@) == query_pairs(q.take(i as int)),
        decreases query@.len() - i,
    {
        let key = &query[i].0;
        let values = &query[i].1;
        let ghost before = views(pairs@);
        let ghost entry = q[i as int];
        assert(q.take(i + 1).drop_last() =~= q.take(i as int));
        assert(q.take(i + 1).last() == entry);
        let mut j: usize = 0;
        while j < values.len()
            invariant
                i < query@.len(),
                q == query_view(query@),
                j <= values@.len(),
                entry == q[i as int],
                entry == (key@, views(values@)),
                views(pairs@) == before + entry.1.take(j as int).map_values(
                    |value: Seq<char>| entry.0 + seq!['='] + value,
                ),
            decreases values@.len() - j,
        {
            let pair = key.clone().concat("=").concat(values[j].as_str());
            proof {
                reveal_strlit("=");
            }
            let ghost previous = views(pairs@);
            pairs.push(pair);
            assert(views(pairs@) =~= previous.push(pair@));
            assert(entry.1.take(j + 1).map_values(|value: Seq<char>| entry.0 + seq!['='] + value)
                =~= entry.1.take(j as int).map_values(
                |value: Seq<char>| entry.0 + seq!['='] + value,
            ).push(entry.0 + seq!['='] + entry.1[j as int]));
            assert(pair@ == entry.0 + seq!['='] + entry.1[j as int]);
            assert(views(pairs@) =~= before + entry.1.take(j + 1).map_values(
                |value: Seq<char>| entry.0 + seq!['='] + value,
            ));
            j = j + 1;
        }
        assert(entry.1.take(values@.len() as int) =~= entry.1);
        i = i + 1;
    }
    assert(q.take(query@.len() as int) =~= q);
    pairs
}

/// The text of a common cache key (see [spec_cache_key_text]).
pub fn cache_key_text(
    method: &str,
    scheme: &str,
    host: &str,
    port: Option<u16>,
    path: &str,
    query: &Vec<(String, Vec<String>)>,
    media_type: &Option<MediaType>,
    languages: &Vec<Language>,
    extensions: &Vec<(usize, usize)>,
) -> (r: String)
    ensures
        r@ == spec_cache_key_text(
            method@,
            scheme@,
            host@,
            port,
            path@,
            query_view(query@),
            match media_type {
                Some(m) => Some(m@),
                None => None,
            },
            views(languages@),
            extensions@,
        ),
{
    let mut parts: Vec<String> = Vec::new();
    parts.push(String::from_str(method));
    parts.push(String::from_str(scheme));
    parts.push(String::from_str(host));
    parts.push(
        match port {
            Some(port) => {
                assert((port as u64) as nat == port as nat);
                decimal_string(port as u64)
            },
            None => String::new(),
        },
    );
    parts.push(String::from_str(path));
    let pairs = query_pair_strings(query);
    proof {
        reveal_strlit("&");
        reveal_strlit(",");
        reveal_strlit("|");
        assert("&"@ =~= seq!['&']);
        assert(","@ =~= seq![',']);
        assert("|"@ =~= seq!['|']);
    }
    parts.push(join_strings(&pairs, "&"));
    parts.push(
        match media_type {
            Some(media_type) => media_type.to_string(),
            None => String::new(),
        },
    );
    let mut language_texts: Vec<String> = Vec::new();
    let mut i: usize = 0;
    while i < languages.len()
        invariant
            i <= languages@.len(),
            views(language_texts@) == views(languages@).take(i as int).map_values(
                |language: Seq<Seq<char>>| join_subtags(language),
            ),
        decreases languages@.len() - i,
    {
        let ghost previous = views(language_texts@);
        language_texts.push(languages[i].to_string());
        assert(views(language_texts@) =~= previous.push(join_subtags(languages@[i as int]@)));
        assert(views(languages@).take(i + 1).map_values(
            |language: Seq<Seq<char>>| join_subtags(language),
        ) =~= views(languages@).take(i as int).map_values(
            |language: Seq<Seq<char>>| join_subtags(language),
        ).push(join_subtags(languages@[i as int]@)));
        i = i + 1;
    }
    assert(views(languages@).take(languages@.len() as int) =~= views(languages@));
    parts.push(join_strings(&language_texts, ","));
    let mut extension_texts: Vec<String> = Vec::new();
    let mut k: usize = 0;
    while k < extensions.len()
        invariant
            k <= extensions@.len(),
            views(extension_texts@) == extensions@.take(k as int).map_values(
                |extension: (usize, usize)| extension_text(extension),
            ),
        decreases extensions@.len() - k,
    {
        let (key_length, value_length) = extensions[k];
        assert((key_length as u64) as nat == key_length as nat);
        assert((value_length as u64) as nat == value_length as nat);
        let text = decimal_string(key_length as u64).concat("=").concat(
            decimal_string(value_length as u64).as_str(),
        );
        proof {
            reveal_strlit("=");
        }
        assert(text@ == extension_text(extensions@[k as int]));
        let ghost previous = views(extension_texts@);
        extension_texts.push(text);
        assert(views(extension_texts@) =~= previous.push(extension_text(extensions@[k as int])));
        assert(extensions@.take(k + 1).map_values(|extension: (usize, usize)| extension_text(extension))
            =~= extensions@.take(k as int).map_values(
            |extension: (usize, usize)| extension_text(extension),
        ).push(extension_text(extensions@[k as int])));
        k = k + 1;
    }
    assert(extensions@.take(extensions@.len() as int) =~= extensions@);
    parts.push(join_strings(&extension_texts, "&"));
    let r = join_strings(&parts, "|");
    proof {
        let expected = cache_key_parts(
            method@,
            scheme@,
            host@,
            port,
            path@,
            query_view(query@),
            match media_type {
                Some(m) => Some(m@),
                None => None,
            },
            views(languages@),
            extensions@,
        );
        assert(views(parts@) =~= expected);
    }
    r
}

/// The weight of a query's entries: the bytes of each name and of each of its values.
pub open spec fn query_weight(query: Seq<(Seq<char>, Seq<Seq<char>>)>) -> int
    decreases query.len(),
{
    if query.len() == 0 {
        0
    } else {
        query_weight(query.drop_last()) + text_length(query.last().0) + texts_length(query.last().1)
    }
}

/// The weight of languages: each language's weight (its size and its subtags' bytes,
/// saturating).
pub open spec fn languages_weight(languages: Seq<Seq<Seq<char>>>) -> int
    decreases languages.len(),
{
    if languages.len() == 0 {
        0
    } else {
        languages_weight(languages.drop_last()) + saturated(
            vstd::layout::size_of::<Language>() as int + subtags_length(languages.last()),
        )
    }
}

/// The weight of extensions: each extension's key and value lengths.
pub open spec fn extensions_weight(extensions: Seq<(usize, usize)>) -> int
    decreases extensions.len(),
{
    if extensions.len() == 0 {
        0
    } else {
        extensions_weight(extensions.drop_last()) + extensions.last().0 + extensions.last().1
    }
}

/// The bytes of an optional text, 0 where there is none.
pub open spec fn optional_text_length(text: Option<Seq<char>>) -> int {
    match text {
        Some(text) => text_length(text),
        None => 0,
    }
}

/// The weight of an optional media type, 0 where there is none.
pub open spec fn optional_media_type_weight(media_type: Option<(Seq<char>, Seq<char>)>) -> int {
    match media_type {
        Some(m) => saturated(
            vstd::layout::size_of::<MediaType>() as int + segment_weight(m.0) + segment_weight(m.1),
        ),
        None => 0,
    }
}

/// The cache weight of a common cache key, from its own size and what it holds: the bytes of its
/// host and path, the bytes of each query name and value, its media type's weight,
/// each language's weight, and each extension's key and value lengths; saturating at
/// `usize::MAX`.
pub fn common_key_weight(
    key_size: usize,
    host: Option<&String>,
    path: Option<&String>,
    query: &Vec<(String, Vec<String>)>,
    media_type: Option<&MediaType>,
    languages: &Vec<Language>,
    extensions: &Vec<(usize, usize)>,
) -> (r: usize)
    ensures
        r == saturated(
            key_size + optional_text_length(option_view(host)) + optional_text_length(
                option_view(path),
            ) + query_weight(query_view(query@)) + optional_media_type_weight(
                option_view(media_type),
            ) + languages_weight(views(languages@)) + extensions_weight(extensions@),
        ),
{
    let mut size = key_size;
    if let Some(host) = host {
        size = add_weights(size, text_weight(host));
    }
    if let Some(path) = path {
        size = add_weights(size, text_weight(path));
    }
    let ghost base = key_size + optional_text_length(option_view(host)) + optional_text_length(
        option_view(path),
    );
    let ghost q = query_view(query@);
    let mut i: usize = 0;
    while i < query.len()
        invariant
            i <= query@.len(),
            q == query_view(query@),
            size == saturated(base + query_weight(q.take(i as int))),
        decreases query@.len() - i,
    {
        assert(q.take(i + 1).drop_last() =~= q.take(i as int));
        assert(q.take(i + 1).last() == q[i as int]);
        let entry = add_weights(text_weight(&query[i].0), texts_weight(&query[i].1));
        size = add_weights(size, entry);
        i = i + 1;
    }
    assert(q.take(query@.len() as int) =~= q);
    let ghost base2 = base + query_weight(q) + optional_media_type_weight(option_view(media_type));
    if let Some(media_type) = media_type {
        size = add_weights(size, media_type.cache_weight());
    }
    let ghost ls = views(languages@);
    let mut j: usize = 0;
    while j < languages.len()
        invariant
            j <= languages@.len(),
            ls == views(languages@),
            size == saturated(base2 + languages_weight(ls.take(j as int))),
        decreases languages@.len() - j,
    {
        assert(ls.take(j + 1).drop_last() =~= ls.take(j as int));
        assert(ls.take(j + 1).last() == ls[j as int]);
        size = add_weights(size, languages[j].cache_weight());
        j = j + 1;
    }
    assert(ls.take(languages@.len() as int) =~= ls);
    let ghost base3 = base2 + languages_weight(ls);
    let mut k: usize = 0;
    while k < extensions.len()
        invariant
            k <= extensions@.len(),
            size == saturated(base3 + extensions_weight(extensions@.take(k as int))),
        decreases extensions@.len() - k,
    {
        assert(extensions@.take(k + 1).drop_last() =~= extensions@.take(k as int));
        let entry = add_weights(extensions[k].0, extensions[k].1);
        size = add_weights(size, entry);
        k = k + 1;
    }
    assert(extensions@.take(extensions@.len() as int) =~= extensions@);
    size
}

} // verus!
