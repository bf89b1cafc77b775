//! The type-erased `Any` container: a type-URL string naming a concrete
//! message type, paired with that type's wire encoding.
//!
//! The container itself knows nothing of the types it carries; the type-URL
//! comparison is the sole safety gate protecting callers from interpreting
//! payload bytes as the wrong structural type. Two URLs match when both are
//! well formed and their fully qualified names — what follows the last
//! slash — are equal, exactly and case-sensitively; a malformed URL on
//! either side never matches anything and is reported as a mismatch, not as
//! a parse failure.

use vstd::prelude::*;
use vstd::string::StrSliceExecFns;

use crate::error::DecodeError;
use crate::error::EncodeError;

verus! {

/// The capability of naming a message type: a stable, globally unique
/// URL-shaped identifier for any type that wants to take part in
/// `Any`-wrapping.
pub trait Name {
    /// The type URL as a mathematical sequence of characters.
    spec fn spec_type_url() -> Seq<char>;

    /// Returns the type URL of this message type.
    fn type_url() -> (r: String)
        ensures
            r@ == Self::spec_type_url(),
    ;
}

/// The capability of encoding a structured value into bytes and decoding it
/// back, supplied by the concrete message type.
pub trait Message: Sized {
    /// The wire encoding of this value.
    spec fn spec_encoding(&self) -> Seq<u8>;

    /// Encodes this value into a fresh byte vector, which cannot lack
    /// capacity.
    fn encode_to_vec(&self) -> (r: Vec<u8>)
        ensures
            r@ == self.spec_encoding(),
    ;

    /// Decodes a value from its wire encoding, failing on malformed bytes.
    fn decode_from(bytes: &[u8]) -> (r: Result<Self, DecodeError>);
}

/// The failure of a typed extraction from an [`Any`].
#[derive(Clone, Debug, PartialEq, Eq)]
pub enum DecodeAnyError {
    /// The stored bytes do not decode as the requested type.
    Decode(DecodeError),
    /// The stored type URL does not name the requested type. Carries both
    /// URLs for diagnostics.
    UnexpectedTypeUrl { actual: String, expected: String },
}

impl From<DecodeError> for DecodeAnyError {
    fn from(err: DecodeError) -> Self {
        DecodeAnyError::Decode(err)
    }
}

impl vstd::std_specs::convert::FromSpecImpl<DecodeError> for DecodeAnyError {
    open spec fn obeys_from_spec() -> bool {
        true
    }

    open spec fn from_spec(err: DecodeError) -> DecodeAnyError {
        DecodeAnyError::Decode(err)
    }
}

/// The position of the last '/' in `s`, or -1 if there is none.
pub open spec fn last_slash_index(s: Seq<char>) -> int
    decreases s.len(),
{
    if s.len() == 0 {
        -1
    } else if s[s.len() - 1] == '/' {
        s.len() - 1
    } else {
        last_slash_index(s.drop_last())
    }
}

/// The fully qualified type name of a type URL: what follows the last '/'.
/// A string without a '/', or with nothing after its last '/', is not a
/// well-formed type URL and names nothing.
pub open spec fn type_url_name(s: Seq<char>) -> Option<Seq<char>> {
    let i = last_slash_index(s);
    if 0 <= i < s.len() - 1 {
        Some(s.skip(i + 1))
    } else {
        None
    }
}

/// Two type URLs match when both are well formed and their fully qualified
/// names are equal, compared exactly and case-sensitively.
pub open spec fn type_urls_match(a: Seq<char>, b: Seq<char>) -> bool {
    &&& type_url_name(a) is Some
    &&& type_url_name(b) is Some
    &&& type_url_name(a) == type_url_name(b)
}

proof fn lemma_last_slash_at(s: Seq<char>, k: int)
    requires
        0 <= k < s.len(),
        s[k] == '/',
        forall|j: int| k < j < s.len() ==> s[j] != '/',
    ensures
        last_slash_index(s) == k,
    decreases s.len(),
{
    if k == s.len() - 1 {
    } else {
        assert(s[s.len() - 1] != '/');
        assert forall|j: int| k < j < s.drop_last().len() implies s.drop_last()[j] != '/' by {
            assert(s.drop_last()[j] == s[j]);
        }
        assert(s.drop_last()[k] == s[k]);
        lemma_last_slash_at(s.drop_last(), k);
    }
}

proof fn lemma_no_slash(s: Seq<char>)
    requires
        forall|j: int| 0 <= j < s.len() ==> s[j] != '/',
    ensures
        last_slash_index(s) == -1,
    decreases s.len(),
{
    if s.len() == 0 {
    } else {
        assert forall|j: int| 0 <= j < s.drop_last().len() implies s.drop_last()[j] != '/' by {
            assert(s.drop_last()[j] == s[j]);
        }
        lemma_no_slash(s.drop_last());
    }
}

/// Finds the position just past the last '/' of a well-formed type URL, or
/// nothing when the string is not one.
#[verifier::loop_isolation(false)]
fn find_name_start(s: &str) -> (r: Option<usize>)
    ensures
        match r {
            Some(i) => {
                &&& type_url_name(s@) is Some
                &&& i == last_slash_index(s@) + 1
                &&& 0 < i < s@.len()
                &&& type_url_name(s@) == Some(s@.skip(i as int))
            },
            None => type_url_name(s@) is None,
        },
{
    let n = s.unicode_len();
    let mut i: usize = n;
    while i > 0
        invariant
            i <= n,
            n == s@.len(),
            forall|j: int| i <= j < n ==> s@[j] != '/',
        decreases i,
    {
        let c = s.get_char(i - 1);
        if c == '/' {
            proof {
                lemma_last_slash_at(s@, i - 1);
            }
            if i < n {
                return Some(i);
            } else {
                return None;
            }
        }
        i = i - 1;
    }
    proof {
        lemma_no_slash(s@);
    }
    None
}

/// Compares the fully qualified names of two type URLs, exactly and
/// case-sensitively; a malformed URL on either side compares as a
/// non-match.
#[verifier::loop_isolation(false)]
fn type_url_names_equal(a: &str, b: &str) -> (r: bool)
    ensures
        r == type_urls_match(a@, b@),
{
    let sa = match find_name_start(a) {
        Some(i) => i,
        None => {
            return false;
        },
    };
    let sb = match find_name_start(b) {
        Some(i) => i,
        None => {
            return false;
        },
    };
    let la = a.unicode_len();
    let lb = b.unicode_len();
    if la - sa != lb - sb {
        proof {
            assert(a@.skip(sa as int).len() != b@.skip(sb as int).len());
        }
        return false;
    }
    let len = la - sa;
    let mut k: usize = 0;
    while k < len
        invariant
            0 <= k <= len,
            la == a@.len(),
            lb == b@.len(),
            0 < sa < la,
            0 < sb < lb,
            len == la - sa,
            len == lb - sb,
            forall|j: int| 0 <= j < k ==> a@[sa + j] == #[trigger] b@[sb + j],
        decreases len - k,
    {
        if a.get_char(sa + k) != b.get_char(sb + k) {
            proof {
                assert(a@.skip(sa as int)[k as int] != b@.skip(sb as int)[k as int]);
            }
            return false;
        }
        k = k + 1;
    }
    proof {
        assert forall|j: int| 0 <= j < len implies a@.skip(sa as int)[j] == b@.skip(sb as int)[j] by {
            assert(a@[sa + j] == b@[sb + j]);
        }
        assert(a@.skip(sa as int) =~= b@.skip(sb as int));
    }
    true
}

/// A type-erased message: a type URL naming the concrete type, paired with
/// that type's wire encoding.
#[derive(Clone, Debug)]
pub struct Any {
    /// The type URL of the wrapped value.
    pub type_url: String,
    /// The wire encoding of the wrapped value.
    pub value: Vec<u8>,
}

impl Any {
    /// Serializes the given message type `M` as [`Any`], stamping its type
    /// URL next to its encoding. Cannot fail, since the encoding targets a
    /// fresh growable buffer.
    pub fn from_msg<M: Name + Message>(msg: &M) -> (r: Result<Any, EncodeError>)
        ensures
            match r {
                Ok(any) => {
                    &&& any.type_url@ == M::spec_type_url()
                    &&& any.value@ == msg.spec_encoding()
                },
                Err(_) => false,
            },
    {
        let type_url = M::type_url();
        let value = msg.encode_to_vec();
        Ok(Any { type_url, value })
    }

    /// Decodes the message type `M` from this [`Any`], validating that the
    /// stored type URL names `M`.
    ///
    /// On a URL mismatch — including a malformed URL on either side — the
    /// error carries both the stored and the expected URL; when the URLs
    /// match but the stored bytes do not decode as `M`, the underlying
    /// decode error is passed through.
    pub fn to_msg<M: Name + Message>(&self) -> (r: Result<M, DecodeAnyError>)
        ensures
            match r {
                Ok(_) => type_urls_match(M::spec_type_url(), self.type_url@),
                Err(e) => match e {
                    DecodeAnyError::Decode(_) => type_urls_match(
                        M::spec_type_url(),
                        self.type_url@,
                    ),
                    DecodeAnyError::UnexpectedTypeUrl { actual, expected } => {
                        &&& !type_urls_match(M::spec_type_url(), self.type_url@)
                        &&& actual@ == self.type_url@
                        &&& expected@ == M::spec_type_url()
                    },
                },
            },
    {
        let expected_type_url = M::type_url();
        if type_url_names_equal(expected_type_url.as_str(), self.type_url.as_str()) {
            match M::decode_from(self.value.as_slice()) {
                Ok(m) => Ok(m),
                Err(e) => Err(DecodeAnyError::Decode(e)),
            }
        } else {
            Err(
                DecodeAnyError::UnexpectedTypeUrl {
                    actual: self.type_url.clone(),
                    expected: expected_type_url,
                },
            )
        }
    }
}

impl Name for Any {
    open spec fn spec_type_url() -> Seq<char> {
        "type.googleapis.com/google.protobuf.Any"@
    }

    fn type_url() -> (r: String) {
        "type.googleapis.com/google.protobuf.Any".to_owned()
    }
}

} // verus!
