//! Content encodings (`Accept-Encoding`, `Content-Encoding`).

use vstd::prelude::*;

use crate::selector::{Selection, SelectionText};
use crate::text::{ascii_lower, chars_of, eq_ignore_ascii_case, equals_ignore_ascii_case};

verus! {

/// Content encoding.
#[derive(Clone, Copy, Debug, PartialEq, Eq, Structural, Hash)]
pub enum Encoding {
    /// No encoding.
    Identity,
    /// Brotli.
    Brotli,
    /// Deflate.
    Deflate,
    /// GZip.
    GZip,
    /// Zstandard.
    Zstandard,
}

impl View for Encoding {
    type V = Encoding;

    open spec fn view(&self) -> Encoding {
        *self
    }
}

/// The content-coding token of an encoding.
pub open spec fn encoding_token(encoding: Encoding) -> Seq<char> {
    match encoding {
        Encoding::Identity => seq!['i', 'd', 'e', 'n', 't', 'i', 't', 'y'],
        Encoding::Brotli => seq!['b', 'r'],
        Encoding::Deflate => seq!['d', 'e', 'f', 'l', 'a', 't', 'e'],
        Encoding::GZip => seq!['g', 'z', 'i', 'p'],
        Encoding::Zstandard => seq!['z', 's', 't', 'd'],
    }
}

/// The encoding whose token `representation` is, ignoring ASCII case.
pub open spec fn spec_parse_encoding(representation: Seq<char>) -> Option<Encoding> {
    if eq_ignore_ascii_case(representation, encoding_token(Encoding::Identity)) {
        Some(Encoding::Identity)
    } else if eq_ignore_ascii_case(representation, encoding_token(Encoding::Brotli)) {
        Some(Encoding::Brotli)
    } else if eq_ignore_ascii_case(representation, encoding_token(Encoding::Deflate)) {
        Some(Encoding::Deflate)
    } else if eq_ignore_ascii_case(representation, encoding_token(Encoding::GZip)) {
        Some(Encoding::GZip)
    } else if eq_ignore_ascii_case(representation, encoding_token(Encoding::Zstandard)) {
        Some(Encoding::Zstandard)
    } else {
        None
    }
}

impl Encoding {
    /// Parse a content-coding token (`identity`, `br`, `deflate`, `gzip`, `zstd`), ignoring
    /// ASCII case.
    pub fn parse(representation: &str) -> (r: Option<Self>)
        ensures
            r == spec_parse_encoding(representation@),
    {
        proof {
            reveal_strlit("identity");
            reveal_strlit("br");
            reveal_strlit("deflate");
            reveal_strlit("gzip");
            reveal_strlit("zstd");
        }
        let chars = chars_of(representation);
        if equals_ignore_ascii_case(chars.as_slice(), "identity") {
            Some(Encoding::Identity)
        } else if equals_ignore_ascii_case(chars.as_slice(), "br") {
            Some(Encoding::Brotli)
        } else if equals_ignore_ascii_case(chars.as_slice(), "deflate") {
            Some(Encoding::Deflate)
        } else if equals_ignore_ascii_case(chars.as_slice(), "gzip") {
            Some(Encoding::GZip)
        } else if equals_ignore_ascii_case(chars.as_slice(), "zstd") {
            Some(Encoding::Zstandard)
        } else {
            None
        }
    }

    /// The content-coding token.
    pub fn to_string(&self) -> (r: String)
        ensures
            r@ == encoding_token(*self),
    {
        proof {
            reveal_strlit("identity");
            reveal_strlit("br");
            reveal_strlit("deflate");
            reveal_strlit("gzip");
            reveal_strlit("zstd");
        }
        match self {
            Encoding::Identity => String::from_str("identity"),
            Encoding::Brotli => String::from_str("br"),
            Encoding::Deflate => String::from_str("deflate"),
            Encoding::GZip => String::from_str("gzip"),
            Encoding::Zstandard => String::from_str("zstd"),
        }
    }
}

impl Selection for Encoding {
    open spec fn spec_parse(representation: Seq<char>) -> Option<Encoding> {
        spec_parse_encoding(representation)
    }

    fn parse_selection(representation: &str) -> (r: Option<Self>) {
        Encoding::parse(representation)
    }

    fn same_as(&self, other: &Self) -> (r: bool) {
        *self == *other
    }
}

impl SelectionText for Encoding {
    open spec fn spec_text(selection: Encoding) -> Seq<char> {
        encoding_token(selection)
    }

    fn text(&self) -> (r: String) {
        self.to_string()
    }
}

/// Encodings in order from most preferred to least: Brotli, GZip, Deflate, Zstandard.
///
/// GZip and Deflate are almost identical, but GZip lets clients check for errors.
pub fn encodings_by_preference() -> (r: Vec<Encoding>)
    ensures
        r@ == seq![Encoding::Brotli, Encoding::GZip, Encoding::Deflate, Encoding::Zstandard],
{
    let mut r: Vec<Encoding> = Vec::new();
    r.push(Encoding::Brotli);
    r.push(Encoding::GZip);
    r.push(Encoding::Deflate);
    r.push(Encoding::Zstandard);
    assert(r@ =~= seq![Encoding::Brotli, Encoding::GZip, Encoding::Deflate, Encoding::Zstandard]);
    r
}

/// The token of an encoding parses back as the encoding, and it is made of lowercase ASCII
/// letters.
pub proof fn lemma_parse_token(encoding: Encoding)
    ensures
        spec_parse_encoding(encoding_token(encoding)) == Some(encoding),
        forall|i: int|
            0 <= i < encoding_token(encoding).len() ==> 'a' <= #[trigger] encoding_token(encoding)[i]
                && encoding_token(encoding)[i] <= 'z',
{
    let token = encoding_token(encoding);
    assert(eq_ignore_ascii_case(token, token));
    assert(!eq_ignore_ascii_case(encoding_token(Encoding::GZip), encoding_token(Encoding::Zstandard))) by {
        assert(ascii_lower(encoding_token(Encoding::GZip)[0]) != encoding_token(Encoding::Zstandard)[0]);
    }
}

/// Encodings in the order in which we prefer to decode from them: Zstandard, Brotli, Deflate,
/// GZip.
pub open spec fn decoding_cost_order() -> Seq<Encoding> {
    seq![Encoding::Zstandard, Encoding::Brotli, Encoding::Deflate, Encoding::GZip]
}

/// Encodings in the order in which we prefer to decode from them (see [decoding_cost_order]).
pub fn encodings_by_decoding_cost() -> (r: Vec<Encoding>)
    ensures
        r@ == decoding_cost_order(),
{
    let mut r: Vec<Encoding> = Vec::new();
    r.push(Encoding::Zstandard);
    r.push(Encoding::Brotli);
    r.push(Encoding::Deflate);
    r.push(Encoding::GZip);
    assert(r@ =~= decoding_cost_order());
    r
}

} // verus!
