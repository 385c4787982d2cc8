//! Clipboard records and their content identity.
//!
//! A [`Clip`] is one captured clipboard text together with the label of the
//! application it came from, the capture time in milliseconds, and a content
//! identity: the MD5 digest of the text rendered as lowercase hex.  The
//! identity is a pure function of the text, so equal texts always map to the
//! same identity; the store uses it as its dedup key.

use vstd::prelude::*;

use md5::{Digest, Md5};

use crate::text::is_blank;

verus! {

/// The MD5 digest (16 bytes) of a text.  The digest is a function of the
/// characters alone, stable across runs and platforms; its definition is
/// left to the hashing crate.
pub uninterp spec fn md5_of(text: Seq<char>) -> Seq<u8>;

/// The lowercase hex digit for a value below 16.
pub open spec fn hex_digit(v: u8) -> char
    recommends
        v < 16,
{
    if v < 10 {
        (v + 48) as char
    } else {
        (v + 87) as char
    }
}

/// Lowercase hex rendering of a byte sequence: two digits per byte, high
/// nibble first.
pub open spec fn hex_of(bytes: Seq<u8>) -> Seq<char>
    decreases bytes.len(),
{
    if bytes.len() == 0 {
        Seq::empty()
    } else {
        seq![hex_digit(bytes[0] / 16), hex_digit(bytes[0] % 16)] + hex_of(bytes.drop_first())
    }
}

/// The content identity of a clipboard text: its MD5 digest rendered as
/// lowercase hex.
pub open spec fn identity_of(value: Seq<char>) -> Seq<char> {
    hex_of(md5_of(value))
}

/// Hex rendering always yields two digits per byte.
pub proof fn lemma_hex_of_len(bytes: Seq<u8>)
    ensures
        hex_of(bytes).len() == 2 * bytes.len(),
    decreases bytes.len(),
{
    if bytes.len() > 0 {
        lemma_hex_of_len(bytes.drop_first());
    }
}

/// Relies on `md5::Md5::digest` (through the `Digest` trait): the digest of
/// the text's bytes, 128 bits long, depending on the text alone.
#[verifier::external_body]
fn md5_digest(text: &str) -> (r: Vec<u8>)
    ensures
        r@ == md5_of(text@),
        r@.len() == 16,
{
    Md5::digest(text.as_bytes()).to_vec()
}

/// Relies on `hex::encode`: each input byte becomes two lowercase hex
/// digits, high nibble first.
#[verifier::external_body]
fn hex_encode(bytes: &Vec<u8>) -> (r: String)
    ensures
        r@ == hex_of(bytes@),
{
    hex::encode(bytes.as_slice())
}

/// The mathematical value of a [`Clip`]: its fields as sequences and an
/// unbounded integer timestamp.
#[verifier::ext_equal]
pub struct Rec {
    /// The captured text.
    pub value: Seq<char>,
    /// Capture time, milliseconds since the epoch.
    pub timestamp: int,
    /// Content identity of `value`.
    pub hash: Seq<char>,
    /// Label of the application that owned the clipboard.
    pub source: Seq<char>,
}

/// The record that building a clip from `value`, at `timestamp`, with label
/// `source` produces: the identity is derived from the value.
pub open spec fn rec_of(value: Seq<char>, timestamp: int, source: Seq<char>) -> Rec {
    Rec { value, timestamp, hash: identity_of(value), source }
}

/// One captured clipboard entry.
pub struct Clip {
    /// The captured text; never blank.
    pub value: String,
    /// Capture time, milliseconds since the epoch.
    pub timestamp: i64,
    /// Content identity: lowercase-hex MD5 of `value`.
    pub hash: String,
    /// Label of the application that owned the clipboard at capture time;
    /// empty when the resolver failed or was unavailable.
    pub source: String,
}

impl View for Clip {
    type V = Rec;

    open spec fn view(&self) -> Rec {
        Rec {
            value: self.value@,
            timestamp: self.timestamp as int,
            hash: self.hash@,
            source: self.source@,
        }
    }
}

impl Clip {
    /// Builds a record from a captured text: the identity is computed from
    /// the text, the timestamp is the caller's reading of the wall clock in
    /// milliseconds.  Callers reject blank text before building; the builder
    /// does not re-validate.
    pub fn new(value: String, source: String, captured_at: i64) -> (c: Clip)
        requires
            !is_blank(value@),
        ensures
            c@ == rec_of(value@, captured_at as int, source@),
            c@.hash.len() == 32,
    {
        proof {
            lemma_hex_of_len(md5_of(value@));
        }
        let digest = md5_digest(value.as_str());
        let hash = hex_encode(&digest);
        Clip { value, timestamp: captured_at, hash, source }
    }

    /// An exact copy of the record.
    pub fn duplicate(&self) -> (c: Clip)
        ensures
            c == *self,
    {
        Clip {
            value: self.value.clone(),
            timestamp: self.timestamp,
            hash: self.hash.clone(),
            source: self.source.clone(),
        }
    }
}

/// Law: the content identity is deterministic.  Two well-formed records
/// whose values are equal carry the same identity, whichever process built
/// them and at whatever time: the identity depends on the value alone.
pub proof fn lemma_identity_of_value(r1: Rec, r2: Rec)
    requires
        r1.hash == identity_of(r1.value),
        r2.hash == identity_of(r2.value),
        r1.value == r2.value,
    ensures
        r1.hash == r2.hash,
{
}

} // verus!
