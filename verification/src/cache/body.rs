//! Cached response bodies: one representation per encoding.
//!
//! Transcoding (compressing and decompressing) is done by the caller; this module decides which
//! transcoding a request needs and what the body holds afterwards.

use vstd::prelude::*;

use bytes::Bytes;

use crate::cache::configuration::EncodingConfiguration;
use crate::cache::weight::CacheWeight;
use crate::encoding::{decoding_cost_order, encodings_by_decoding_cost, Encoding};
use crate::immutable::{bytes_empty, bytes_len, bytes_view, optional_bytes_view};

verus! {

/// Whether some representation has encoding `e`.
pub open spec fn has_encoding(representations: Seq<(Encoding, Bytes)>, e: Encoding) -> bool {
    exists|i: int| 0 <= i < representations.len() && #[trigger] representations[i].0 == e
}

/// Whether no two representations have the same encoding.
pub open spec fn distinct_encodings(representations: Seq<(Encoding, Bytes)>) -> bool {
    forall|i: int, j: int|
        0 <= i < j < representations.len() ==> #[trigger] representations[i].0
            != #[trigger] representations[j].0
}

/// The representations as a map from encoding to bytes.
pub open spec fn representation_map(representations: Seq<(Encoding, Bytes)>) -> Map<
    Encoding,
    Seq<u8>,
> {
    Map::new(
        |e: Encoding| has_encoding(representations, e),
        |e: Encoding|
            bytes_view(
                representations[choose|i: int|
                    0 <= i < representations.len() && #[trigger] representations[i].0 == e].1,
            ),
    )
}

/// Cached HTTP response body.
#[derive(Debug)]
pub struct CachedBody {
    /// Representations, at most one per encoding.
    representations: Vec<(Encoding, Bytes)>,
}

impl CachedBody {
    /// The stored representations, in the order they were stored.
    pub closed spec fn entries(&self) -> Seq<(Encoding, Bytes)> {
        self.representations@
    }

    #[verifier::type_invariant]
    spec fn well_formed(self) -> bool {
        distinct_encodings(self.representations@)
    }
}

impl View for CachedBody {
    type V = Map<Encoding, Seq<u8>>;

    open spec fn view(&self) -> Map<Encoding, Seq<u8>> {
        representation_map(self.entries())
    }
}

/// The position of the representation of `encoding`.
fn find_encoding(representations: &Vec<(Encoding, Bytes)>, encoding: Encoding) -> (r: Option<usize>)
    ensures
        match r {
            Some(i) => i < representations@.len() && representations@[i as int].0 == encoding,
            None => !has_encoding(representations@, encoding),
        },
{
    let mut i: usize = 0;
    while i < representations.len()
        invariant
            i <= representations@.len(),
            forall|j: int| 0 <= j < i ==> #[trigger] representations@[j].0 != encoding,
        decreases representations@.len() - i,
    {
        if representations[i].0 == encoding {
            return Some(i);
        }
        i = i + 1;
    }
    None
}

/// The first encoding in [decoding_cost_order] that `m` holds.
pub open spec fn first_decodable(m: Map<Encoding, Seq<u8>>) -> Option<Encoding> {
    if m.contains_key(Encoding::Zstandard) {
        Some(Encoding::Zstandard)
    } else if m.contains_key(Encoding::Brotli) {
        Some(Encoding::Brotli)
    } else if m.contains_key(Encoding::Deflate) {
        Some(Encoding::Deflate)
    } else if m.contains_key(Encoding::GZip) {
        Some(Encoding::GZip)
    } else {
        None
    }
}

/// The transcoding that getting a representation needs.
#[derive(Clone, Copy, Debug, PartialEq, Eq, Structural)]
pub enum BodyTranscoding {
    /// The representation is stored.
    Stored,
    /// Decode the representation of this encoding into the identity.
    Decode(Encoding),
    /// Encode the identity representation.
    Encode,
    /// Decode the representation of this encoding, then encode the result.
    Reencode(Encoding),
    /// There is no representation at all.
    Missing,
}

/// The transcoding that getting `encoding` out of `m` needs: none if it is stored; else for the
/// identity, decoding the cheapest stored encoding; else encoding the identity if it is
/// stored, or reencoding the cheapest stored encoding.
pub open spec fn spec_get_transcoding(m: Map<Encoding, Seq<u8>>, encoding: Encoding) -> BodyTranscoding {
    if m.contains_key(encoding) {
        BodyTranscoding::Stored
    } else if encoding == Encoding::Identity {
        match first_decodable(m) {
            Some(from) => BodyTranscoding::Decode(from),
            None => BodyTranscoding::Missing,
        }
    } else if m.contains_key(Encoding::Identity) {
        BodyTranscoding::Encode
    } else {
        match first_decodable(m) {
            Some(from) => BodyTranscoding::Reencode(from),
            None => BodyTranscoding::Missing,
        }
    }
}

/// The bytes that getting `encoding` out of `m` gives, and the new representations if any were
/// added, given the results of the transcoding ([spec_get_transcoding]): `identity` is what
/// decoding gave, `encoded` what encoding gave.
pub open spec fn spec_get(
    m: Map<Encoding, Seq<u8>>,
    encoding: Encoding,
    identity: Seq<u8>,
    encoded: Seq<u8>,
    keep_identity_encoding: bool,
) -> (Seq<u8>, Option<Map<Encoding, Seq<u8>>>) {
    match spec_get_transcoding(m, encoding) {
        BodyTranscoding::Stored => (m[encoding], None),
        BodyTranscoding::Decode(_) => (identity, Some(m.insert(Encoding::Identity, identity))),
        BodyTranscoding::Encode => (encoded, Some(m.insert(encoding, encoded))),
        BodyTranscoding::Reencode(_) => (
            encoded,
            Some(
                (if keep_identity_encoding {
                    m.insert(Encoding::Identity, identity)
                } else {
                    m
                }).insert(encoding, encoded),
            ),
        ),
        BodyTranscoding::Missing => (Seq::empty(), None),
    }
}

/// The encoding to decode from and the encoding to encode to when storing a body of
/// `encoding` in `preferred_encoding`.
pub open spec fn spec_new_with_transcoding(encoding: Encoding, preferred_encoding: Encoding) -> (
    Option<Encoding>,
    Option<Encoding>,
) {
    if preferred_encoding == encoding {
        (None, None)
    } else {
        (
            if encoding == Encoding::Identity {
                None
            } else {
                Some(encoding)
            },
            if preferred_encoding == Encoding::Identity {
                None
            } else {
                Some(preferred_encoding)
            },
        )
    }
}

/// The representations of a new body: `bytes` as they are when they are already in the
/// preferred encoding; else the preferred encoding, and the identity too when it is preferred
/// or `keep_identity_encoding` holds. `identity` is what decoding gave (the bytes themselves
/// when they are not encoded), `encoded` what encoding gave.
pub open spec fn spec_new_with(
    bytes: Seq<u8>,
    encoding: Encoding,
    preferred_encoding: Encoding,
    decoded: Seq<u8>,
    encoded: Seq<u8>,
    keep_identity_encoding: bool,
) -> Map<Encoding, Seq<u8>> {
    let identity = if encoding == Encoding::Identity {
        bytes
    } else {
        decoded
    };
    if preferred_encoding == encoding {
        map![encoding => bytes]
    } else if preferred_encoding == Encoding::Identity {
        map![Encoding::Identity => identity]
    } else if keep_identity_encoding {
        map![preferred_encoding => encoded, Encoding::Identity => identity]
    } else {
        map![preferred_encoding => encoded]
    }
}

/// The weight of the representations: per entry its size and its bytes.
pub open spec fn representations_weight(representations: Seq<(Encoding, Bytes)>) -> nat
    decreases representations.len(),
{
    if representations.len() == 0 {
        0
    } else {
        representations_weight(representations.drop_last()) + vstd::layout::size_of::<Encoding>()
            + vstd::layout::size_of::<Bytes>() + bytes_view(representations.last().1).len()
    }
}

/// Getting a representation that had to be made stores it: getting the same encoding from the
/// modified body needs no transcoding and gives the same bytes, and no representation is lost.
pub proof fn lemma_get_stores(
    m: Map<Encoding, Seq<u8>>,
    encoding: Encoding,
    identity: Seq<u8>,
    encoded: Seq<u8>,
    keep_identity_encoding: bool,
)
    requires
        spec_get(m, encoding, identity, encoded, keep_identity_encoding).1 is Some,
    ensures
        ({
            let (bytes, modified) = spec_get(m, encoding, identity, encoded, keep_identity_encoding);
            &&& spec_get_transcoding(modified->0, encoding) == BodyTranscoding::Stored
            &&& spec_get(modified->0, encoding, identity, encoded, keep_identity_encoding) == (
                bytes,
                None::<Map<Encoding, Seq<u8>>>,
            )
            &&& m.dom().subset_of(modified->0.dom())
        }),
{
}

/// A stored representation is given as it is, with nothing to store.
pub proof fn lemma_get_stored(
    m: Map<Encoding, Seq<u8>>,
    encoding: Encoding,
    identity: Seq<u8>,
    encoded: Seq<u8>,
    keep_identity_encoding: bool,
)
    requires
        m.contains_key(encoding),
    ensures
        spec_get(m, encoding, identity, encoded, keep_identity_encoding) == (
            m[encoding],
            None::<Map<Encoding, Seq<u8>>>,
        ),
{
}

/// A new body holds its preferred encoding, so getting it needs no transcoding.
pub proof fn lemma_new_with_holds_preferred(
    bytes: Seq<u8>,
    encoding: Encoding,
    preferred_encoding: Encoding,
    decoded: Seq<u8>,
    encoded: Seq<u8>,
    keep_identity_encoding: bool,
)
    ensures
        spec_get_transcoding(
            spec_new_with(bytes, encoding, preferred_encoding, decoded, encoded, keep_identity_encoding),
            preferred_encoding,
        ) == BodyTranscoding::Stored,
{
}

/// What a new body holds, in terms of its inputs: the preferred encoding always, with the bytes
/// themselves when they are already in it, the decoded bytes when the identity is preferred,
/// and the encoded bytes otherwise; besides it only the identity, which is always the decoded
/// bytes when the input was encoded (the input itself when it was not), and which is there when
/// reencoding with `keep_identity_encoding`, and not when nothing was transcoded or the identity
/// is not kept.
pub proof fn lemma_new_with_contents(
    bytes: Seq<u8>,
    encoding: Encoding,
    preferred_encoding: Encoding,
    decoded: Seq<u8>,
    encoded: Seq<u8>,
    keep_identity_encoding: bool,
)
    ensures
        ({
            let m = spec_new_with(
                bytes,
                encoding,
                preferred_encoding,
                decoded,
                encoded,
                keep_identity_encoding,
            );
            &&& m.contains_key(preferred_encoding)
            &&& m[preferred_encoding] == (if preferred_encoding == encoding {
                bytes
            } else if preferred_encoding == Encoding::Identity {
                decoded
            } else {
                encoded
            })
            &&& forall|e: Encoding|
                #[trigger] m.contains_key(e) ==> e == preferred_encoding || e == Encoding::Identity
            &&& m.contains_key(Encoding::Identity) && encoding != Encoding::Identity
                ==> m[Encoding::Identity] == decoded
            &&& m.contains_key(Encoding::Identity) && encoding == Encoding::Identity
                ==> m[Encoding::Identity] == bytes
            &&& preferred_encoding != encoding && keep_identity_encoding ==> m.contains_key(
                Encoding::Identity,
            )
            &&& preferred_encoding == encoding && preferred_encoding != Encoding::Identity
                ==> !m.contains_key(Encoding::Identity)
            &&& !keep_identity_encoding && preferred_encoding != Encoding::Identity
                ==> !m.contains_key(Encoding::Identity)
        }),
{
}

/// What getting an encoding out of representations needs, in terms of what they hold: nothing
/// exactly when it is stored; otherwise a stored identity is always the source for another
/// encoding; decoding is only for the identity, from a stored non-identity encoding; reencoding
/// only for another encoding when no identity is stored, from a stored non-identity encoding;
/// and nothing can be had only when no encoded representation is stored and, for another
/// encoding, no identity either.
pub proof fn lemma_get_transcoding_sources(m: Map<Encoding, Seq<u8>>, e: Encoding)
    ensures
        ({
            let t = spec_get_transcoding(m, e);
            &&& (t == BodyTranscoding::Stored) <==> m.contains_key(e)
            &&& !m.contains_key(e) && e != Encoding::Identity && m.contains_key(Encoding::Identity)
                ==> t == BodyTranscoding::Encode
            &&& t == BodyTranscoding::Encode ==> !m.contains_key(e) && e != Encoding::Identity
                && m.contains_key(Encoding::Identity)
            &&& t matches BodyTranscoding::Decode(from) ==> e == Encoding::Identity
                && !m.contains_key(e) && from != Encoding::Identity && m.contains_key(from)
            &&& t matches BodyTranscoding::Reencode(from) ==> e != Encoding::Identity
                && !m.contains_key(e) && !m.contains_key(Encoding::Identity) && from
                != Encoding::Identity && m.contains_key(from)
            &&& t == BodyTranscoding::Missing ==> !m.contains_key(e) && (forall|f: Encoding|
                f != Encoding::Identity ==> !#[trigger] m.contains_key(f)) && (e
                == Encoding::Identity || !m.contains_key(Encoding::Identity))
        }),
{
    let t = spec_get_transcoding(m, e);
    if t == BodyTranscoding::Missing {
        assert forall|f: Encoding| f != Encoding::Identity implies !#[trigger] m.contains_key(f) by {
            match f {
                Encoding::Identity => {},
                Encoding::Brotli => {},
                Encoding::Deflate => {},
                Encoding::GZip => {},
                Encoding::Zstandard => {},
            }
        }
    }
}

/// A distinct representation is what the map holds for its encoding.
proof fn lemma_representation_at(representations: Seq<(Encoding, Bytes)>, i: int)
    requires
        distinct_encodings(representations),
        0 <= i < representations.len(),
    ensures
        representation_map(representations).contains_key(representations[i].0),
        representation_map(representations)[representations[i].0] == bytes_view(
            representations[i].1,
        ),
{
    let e = representations[i].0;
    assert(has_encoding(representations, e));
    let j = choose|j: int| 0 <= j < representations.len() && #[trigger] representations[j].0 == e;
    if j != i {
        if j < i {
            assert(representations[j].0 != representations[i].0);
        } else {
            assert(representations[i].0 != representations[j].0);
        }
    }
}

impl CachedBody {
    /// A body without representations.
    pub fn new() -> (r: Self)
        ensures
            r@ == Map::<Encoding, Seq<u8>>::empty(),
    {
        let r = CachedBody { representations: Vec::new() };
        assert(r@ =~= Map::<Encoding, Seq<u8>>::empty());
        r
    }

    /// The index of the representation of `encoding`.
    fn find(&self, encoding: Encoding) -> (r: Option<usize>)
        ensures
            match r {
                Some(i) => i < self.representations@.len() && self.representations@[i as int].0
                    == encoding,
                None => !has_encoding(self.representations@, encoding),
            },
    {
        find_encoding(&self.representations, encoding)
    }

    /// The representation of `encoding`, if we have it.
    pub fn representation(&self, encoding: Encoding) -> (r: Option<Bytes>)
        ensures
            r is Some <==> self@.contains_key(encoding),
            r matches Some(bytes) ==> bytes_view(bytes) == self@[encoding],
    {
        proof {
            use_type_invariant(self);
        }
        match self.find(encoding) {
            Some(i) => {
                proof {
                    lemma_representation_at(self.representations@, i as int);
                }
                Some(self.representations[i].1.clone())
            },
            None => None,
        }
    }

    /// Store a representation, replacing the one of the same encoding.
    pub fn insert(&mut self, encoding: Encoding, bytes: Bytes)
        ensures
            final(self)@ == old(self)@.insert(encoding, bytes_view(bytes)),
    {
        proof {
            use_type_invariant(&*self);
        }
        let mut representations: Vec<(Encoding, Bytes)> = Vec::new();
        std::mem::swap(&mut representations, &mut self.representations);
        let ghost before = representations@;
        let ghost value = bytes_view(bytes);
        match find_encoding(&representations, encoding) {
            Some(i) => {
                representations.set(i, (encoding, bytes));
                let ghost after = representations@;
                assert(distinct_encodings(after)) by {
                    assert forall|a: int, b: int| 0 <= a < b < after.len() implies #[trigger] after[a].0
                        != #[trigger] after[b].0 by {
                        assert(before[a].0 != before[b].0);
                    }
                }
                assert forall|e: Encoding| has_encoding(after, e) <==> has_encoding(before, e)
                    || e == encoding by {
                    if has_encoding(before, e) {
                        let j = choose|j: int| 0 <= j < before.len() && #[trigger] before[j].0 == e;
                        assert(after[j].0 == e);
                    }
                    if has_encoding(after, e) {
                        let j = choose|j: int| 0 <= j < after.len() && #[trigger] after[j].0 == e;
                        assert(before[j].0 == e);
                    }
                }
                assert forall|e: Encoding| has_encoding(after, e) implies representation_map(
                    after,
                )[e] == representation_map(before).insert(encoding, value)[e] by {
                    let j = choose|j: int| 0 <= j < after.len() && #[trigger] after[j].0 == e;
                    lemma_representation_at(after, j);
                    if e != encoding {
                        lemma_representation_at(before, j);
                    }
                }
                assert(representation_map(after) =~= representation_map(before).insert(encoding, value));
            },
            None => {
                representations.push((encoding, bytes));
                let ghost after = representations@;
                assert(distinct_encodings(after)) by {
                    assert forall|a: int, b: int| 0 <= a < b < after.len() implies #[trigger] after[a].0
                        != #[trigger] after[b].0 by {
                        if b == before.len() {
                            assert(before[a].0 == after[a].0);
                        } else {
                            assert(before[a].0 != before[b].0);
                        }
                    }
                }
                assert forall|e: Encoding| has_encoding(after, e) <==> has_encoding(before, e)
                    || e == encoding by {
                    if has_encoding(before, e) {
                        let j = choose|j: int| 0 <= j < before.len() && #[trigger] before[j].0 == e;
                        assert(after[j].0 == e);
                    }
                    if e == encoding {
                        assert(after[before.len() as int].0 == e);
                    }
                    if has_encoding(after, e) && e != encoding {
                        let j = choose|j: int| 0 <= j < after.len() && #[trigger] after[j].0 == e;
                        assert(j < before.len());
                        assert(before[j].0 == e);
                    }
                }
                assert forall|e: Encoding| has_encoding(after, e) implies representation_map(
                    after,
                )[e] == representation_map(before).insert(encoding, value)[e] by {
                    let j = choose|j: int| 0 <= j < after.len() && #[trigger] after[j].0 == e;
                    lemma_representation_at(after, j);
                    if e != encoding {
                        assert(j < before.len());
                        lemma_representation_at(before, j);
                    }
                }
                assert(representation_map(after) =~= representation_map(before).insert(encoding, value));
            },
        }
        self.representations = representations;
    }

    /// A copy of this body (the bytes are shared).
    pub fn duplicate(&self) -> (r: Self)
        ensures
            r@ == self@,
    {
        proof {
            use_type_invariant(self);
        }
        let mut representations: Vec<(Encoding, Bytes)> = Vec::new();
        let mut i: usize = 0;
        while i < self.representations.len()
            invariant
                i <= self.representations@.len(),
                representations@.len() == i,
                forall|j: int|
                    0 <= j < i ==> #[trigger] representations@[j].0 == self.representations@[j].0
                        && bytes_view(representations@[j].1) == bytes_view(
                        self.representations@[j].1,
                    ),
            decreases self.representations@.len() - i,
        {
            let entry = &self.representations[i];
            representations.push((entry.0, entry.1.clone()));
            i = i + 1;
        }
        let ghost a = representations@;
        let ghost b = self.representations@;
        assert(distinct_encodings(a)) by {
            assert forall|x: int, y: int| 0 <= x < y < a.len() implies #[trigger] a[x].0
                != #[trigger] a[y].0 by {
                assert(b[x].0 != b[y].0);
            }
        }
        assert forall|e: Encoding| has_encoding(a, e) <==> has_encoding(b, e) by {
            if has_encoding(a, e) {
                let j = choose|j: int| 0 <= j < a.len() && #[trigger] a[j].0 == e;
                assert(b[j].0 == e);
            }
            if has_encoding(b, e) {
                let j = choose|j: int| 0 <= j < b.len() && #[trigger] b[j].0 == e;
                assert(a[j].0 == e);
            }
        }
        assert forall|e: Encoding| has_encoding(a, e) implies representation_map(a)[e]
            == representation_map(b)[e] by {
            let j = choose|j: int| 0 <= j < a.len() && #[trigger] a[j].0 == e;
            lemma_representation_at(a, j);
            lemma_representation_at(b, j);
        }
        let r = CachedBody { representations };
        assert(r@ =~= self@);
        r
    }

    /// The decoding and the encoding that storing a body of `encoding` in
    /// `preferred_encoding` needs: decode unless it is the identity, encode unless the
    /// identity is preferred, and nothing when it is already in the preferred encoding.
    pub fn new_with_transcoding(encoding: Encoding, preferred_encoding: Encoding) -> (r: (
        Option<Encoding>,
        Option<Encoding>,
    ))
        ensures
            r == spec_new_with_transcoding(encoding, preferred_encoding),
    {
        if preferred_encoding == encoding {
            (None, None)
        } else {
            let decode = if encoding == Encoding::Identity {
                None
            } else {
                Some(encoding)
            };
            let encode = if preferred_encoding == Encoding::Identity {
                None
            } else {
                Some(preferred_encoding)
            };
            (decode, encode)
        }
    }

    /// A body with an initial representation.
    ///
    /// `bytes` are in `encoding`; if `preferred_encoding` differs, `decoded` holds what decoding
    /// them gave (when they are encoded) and `encoded` what encoding the identity in the
    /// preferred encoding gave (when that is not the identity), as
    /// [new_with_transcoding](Self::new_with_transcoding) says. An identity created by
    /// reencoding is stored too if `keep_identity_encoding` is true.
    pub fn new_with(
        bytes: Bytes,
        encoding: Encoding,
        preferred_encoding: Encoding,
        decoded: Option<Bytes>,
        encoded: Option<Bytes>,
        configuration: &EncodingConfiguration,
    ) -> (r: Self)
        requires
            spec_new_with_transcoding(encoding, preferred_encoding).0 is Some ==> decoded is Some,
            spec_new_with_transcoding(encoding, preferred_encoding).1 is Some ==> encoded is Some,
        ensures
            r@ == spec_new_with(
                bytes_view(bytes),
                encoding,
                preferred_encoding,
                optional_bytes_view(decoded),
                optional_bytes_view(encoded),
                configuration.keep_identity_encoding,
            ),
            r@.contains_key(Encoding::Identity) && encoding != Encoding::Identity
                ==> r@[Encoding::Identity] == optional_bytes_view(decoded),
    {
        let ghost identity = if encoding == Encoding::Identity {
            bytes_view(bytes)
        } else {
            optional_bytes_view(decoded)
        };
        let mut body = CachedBody::new();
        if preferred_encoding == encoding {
            body.insert(encoding, bytes);
            assert(body@ =~= map![encoding => bytes_view(bytes)]);
        } else {
            let identity_bytes = if encoding == Encoding::Identity {
                bytes
            } else {
                match decoded {
                    Some(d) => d,
                    None => bytes_empty(),
                }
            };
            if preferred_encoding == Encoding::Identity {
                body.insert(Encoding::Identity, identity_bytes);
                assert(body@ =~= map![Encoding::Identity => identity]);
            } else {
                let encoded_bytes = match encoded {
                    Some(e) => e,
                    None => bytes_empty(),
                };
                let ghost encoded_view = bytes_view(encoded_bytes);
                body.insert(preferred_encoding, encoded_bytes);
                if configuration.keep_identity_encoding {
                    body.insert(Encoding::Identity, identity_bytes);
                    assert(body@ =~= map![preferred_encoding => encoded_view, Encoding::Identity => identity]);
                } else {
                    assert(body@ =~= map![preferred_encoding => encoded_view]);
                }
            }
        }
        body
    }

    /// The first stored encoding in the order of decoding cost.
    fn first_decodable(&self) -> (r: Option<Encoding>)
        ensures
            r == first_decodable(self@),
    {
        proof {
            use_type_invariant(self);
        }
        let order = encodings_by_decoding_cost();
        let mut i: usize = 0;
        while i < order.len()
            invariant
                distinct_encodings(self.representations@),
                order@ == decoding_cost_order(),
                i <= order@.len(),
                forall|j: int| 0 <= j < i ==> !self@.contains_key(#[trigger] order@[j]),
            decreases order@.len() - i,
        {
            let e = order[i];
            match self.find(e) {
                Some(k) => {
                    proof {
                        lemma_representation_at(self.representations@, k as int);
                    }
                    assert(self@.contains_key(e));
                    return Some(e);
                },
                None => {
                    assert(!self@.contains_key(e));
                },
            }
            i = i + 1;
        }
        None
    }

    /// The transcoding that getting the representation of `encoding` needs (see
    /// [spec_get_transcoding]).
    pub fn get_transcoding(&self, encoding: Encoding) -> (r: BodyTranscoding)
        ensures
            r == spec_get_transcoding(self@, encoding),
            !self@.contains_key(encoding) && encoding != Encoding::Identity && self@.contains_key(
                Encoding::Identity,
            ) ==> r == BodyTranscoding::Encode,
    {
        if self.representation(encoding).is_some() {
            BodyTranscoding::Stored
        } else if encoding == Encoding::Identity {
            match self.first_decodable() {
                Some(from) => BodyTranscoding::Decode(from),
                None => BodyTranscoding::Missing,
            }
        } else if self.representation(Encoding::Identity).is_some() {
            BodyTranscoding::Encode
        } else {
            match self.first_decodable() {
                Some(from) => BodyTranscoding::Reencode(from),
                None => BodyTranscoding::Missing,
            }
        }
    }

    /// The body bytes in `encoding`, and a modified copy if transcoding made a new
    /// representation to store.
    ///
    /// `identity` holds what decoding gave and `encoded` what encoding gave, as
    /// [get_transcoding](Self::get_transcoding) says. An identity created by reencoding is
    /// stored too if `keep_identity_encoding` is true.
    pub fn get(
        &self,
        encoding: Encoding,
        identity: Option<Bytes>,
        encoded: Option<Bytes>,
        configuration: &EncodingConfiguration,
    ) -> (r: (Bytes, Option<Self>))
        requires
            match spec_get_transcoding(self@, encoding) {
                BodyTranscoding::Decode(_) => identity is Some,
                BodyTranscoding::Encode => encoded is Some,
                BodyTranscoding::Reencode(_) => identity is Some && encoded is Some,
                _ => true,
            },
        ensures
            ({
                let expected = spec_get(
                    self@,
                    encoding,
                    optional_bytes_view(identity),
                    optional_bytes_view(encoded),
                    configuration.keep_identity_encoding,
                );
                &&& bytes_view(r.0) == expected.0
                &&& match r.1 {
                    Some(body) => expected.1 == Some(body@),
                    None => expected.1 is None,
                }
            }),
    {
        let transcoding = self.get_transcoding(encoding);
        match transcoding {
            BodyTranscoding::Stored => {
                match self.representation(encoding) {
                    Some(bytes) => (bytes, None),
                    None => (bytes_empty(), None),
                }
            },
            BodyTranscoding::Decode(_) => {
                let identity_bytes = match identity {
                    Some(b) => b,
                    None => bytes_empty(),
                };
                let mut modified = self.duplicate();
                modified.insert(Encoding::Identity, identity_bytes.clone());
                (identity_bytes, Some(modified))
            },
            BodyTranscoding::Encode => {
                let encoded_bytes = match encoded {
                    Some(b) => b,
                    None => bytes_empty(),
                };
                let mut modified = self.duplicate();
                modified.insert(encoding, encoded_bytes.clone());
                (encoded_bytes, Some(modified))
            },
            BodyTranscoding::Reencode(_) => {
                let identity_bytes = match identity {
                    Some(b) => b,
                    None => bytes_empty(),
                };
                let encoded_bytes = match encoded {
                    Some(b) => b,
                    None => bytes_empty(),
                };
                let mut modified = self.duplicate();
                if configuration.keep_identity_encoding {
                    modified.insert(Encoding::Identity, identity_bytes);
                }
                modified.insert(encoding, encoded_bytes.clone());
                (encoded_bytes, Some(modified))
            },
            BodyTranscoding::Missing => (bytes_empty(), None),
        }
    }
}

/// The weight of a cached body: its own size, and per representation its entry's size and its
/// bytes.
pub open spec fn cached_body_weight(body: CachedBody) -> nat {
    vstd::layout::size_of::<CachedBody>() + representations_weight(body.entries())
}

impl CacheWeight for CachedBody {
    /// The weight ([cached_body_weight]), saturating at `usize::MAX`.
    fn cache_weight(&self) -> (r: usize)
        ensures
            r == (if cached_body_weight(*self) <= usize::MAX {
                cached_body_weight(*self)
            } else {
                usize::MAX as nat
            }),
    {
        let entry_size = std::mem::size_of::<Encoding>().saturating_add(std::mem::size_of::<Bytes>());
        let mut size = std::mem::size_of::<CachedBody>();
        let ghost reps = self.representations@;
        let ghost base = vstd::layout::size_of::<CachedBody>();
        let mut i: usize = 0;
        while i < self.representations.len()
            invariant
                reps == self.representations@,
                i <= reps.len(),
                entry_size == (if vstd::layout::size_of::<Encoding>() + vstd::layout::size_of::<
                    Bytes,
                >() <= usize::MAX {
                    vstd::layout::size_of::<Encoding>() + vstd::layout::size_of::<Bytes>()
                } else {
                    usize::MAX as nat
                }),
                size == (if base + representations_weight(reps.take(i as int)) <= usize::MAX {
                    base + representations_weight(reps.take(i as int))
                } else {
                    usize::MAX as nat
                }),
            decreases reps.len() - i,
        {
            assert(reps.take(i as int + 1).drop_last() =~= reps.take(i as int));
            let length = bytes_len(&self.representations[i].1);
            size = size.saturating_add(entry_size.saturating_add(length));
            i = i + 1;
        }
        assert(reps.take(reps.len() as int) =~= reps);
        size
    }
}

impl Clone for CachedBody {
    /// A copy with the same representations (the bytes are shared).
    fn clone(&self) -> (r: Self)
        ensures
            r@ == self@,
    {
        self.duplicate()
    }
}

impl Default for CachedBody {
    /// A body without representations.
    fn default() -> (r: Self)
        ensures
            r@ == Map::<Encoding, Seq<u8>>::empty(),
    {
        CachedBody::new()
    }
}

} // verus!
