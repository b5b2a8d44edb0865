use vstd::prelude::*;
use vstd::slice::{slice_subrange, slice_to_vec};

use crate::compact_size::{
    compact_size_bytes, lemma_compact_size_parse_prefix, lemma_compact_size_parse_truncated,
    parse_compact_size, CompactSize,
};
use crate::error::{decoded, BitcoinError};
use crate::prefix::{lemma_concat_prefix, lemma_prefix_of_concat};

verus! {

/// An opaque byte payload, length-prefixed on the wire.
#[derive(Debug, Clone, PartialEq, Eq)]
pub struct Script {
    pub bytes: Vec<u8>,
}

impl View for Script {
    type V = Seq<u8>;

    open spec fn view(&self) -> Seq<u8> {
        self.bytes@
    }
}

/// A payload whose length a CompactSize can state.
pub open spec fn script_wf(b: Seq<u8>) -> bool {
    b.len() <= u64::MAX
}

/// The wire form of a script: its length as a CompactSize, then its bytes.
pub open spec fn script_bytes(b: Seq<u8>) -> Seq<u8> {
    compact_size_bytes(b.len() as u64) + b
}

/// What decoding a script from the start of `s` yields: the length prefix
/// is read first, then exactly that many payload bytes must follow.
pub open spec fn parse_script(s: Seq<u8>) -> Result<(Seq<u8>, int), BitcoinError> {
    match parse_compact_size(s) {
        Err(e) => Err(e),
        Ok((n, w)) => if s.len() - w < n {
            Err(BitcoinError::InsufficientBytes)
        } else {
            Ok((s.subrange(w, w + n), w + n))
        },
    }
}

/// A buffer that starts with the wire form of `b` decodes to `b`, consuming
/// exactly that wire form.
pub proof fn lemma_script_parse_prefix(b: Seq<u8>, s: Seq<u8>)
    requires
        script_wf(b),
        script_bytes(b).is_prefix_of(s),
    ensures
        parse_script(s) == Ok::<(Seq<u8>, int), BitcoinError>((b, script_bytes(b).len() as int)),
{
    let p = compact_size_bytes(b.len() as u64);
    lemma_concat_prefix(p, b, s);
    lemma_compact_size_parse_prefix(b.len() as u64, s);
    let w = p.len() as int;
    assert(s.subrange(w, w + b.len()) =~= s.subrange(w, s.len() as int).subrange(
        0,
        b.len() as int,
    ));
}

/// A buffer that holds only part of the wire form of `b` fails to decode for
/// want of bytes.
pub proof fn lemma_script_parse_truncated(b: Seq<u8>, s: Seq<u8>)
    requires
        script_wf(b),
        s.len() < script_bytes(b).len(),
        s.is_prefix_of(script_bytes(b)),
    ensures
        parse_script(s) == Err::<(Seq<u8>, int), BitcoinError>(BitcoinError::InsufficientBytes),
{
    let p = compact_size_bytes(b.len() as u64);
    lemma_prefix_of_concat(p, b, s);
    if s.len() < p.len() {
        lemma_compact_size_parse_truncated(b.len() as u64, s);
    } else {
        lemma_compact_size_parse_prefix(b.len() as u64, s);
    }
}

impl Script {
    pub fn new(bytes: Vec<u8>) -> (r: Self)
        ensures
            r@ == bytes@,
    {
        Self { bytes }
    }

    /// The wire form: length prefix, then payload.
    pub fn to_bytes(&self) -> (r: Vec<u8>)
        ensures
            r@ == script_bytes(self@),
    {
        let mut v = CompactSize::new(self.bytes.len() as u64).to_bytes();
        let mut payload = slice_to_vec(self.bytes.as_slice());
        v.append(&mut payload);
        v
    }

    /// Decodes a script from the start of `bytes`, returning it with the
    /// number of bytes read: prefix width plus payload length.
    pub fn from_bytes(bytes: &[u8]) -> (r: Result<(Self, usize), BitcoinError>)
        ensures
            decoded(r) == parse_script(bytes@),
    {
        let (prefix, width) = match CompactSize::from_bytes(bytes) {
            Ok(p) => p,
            Err(e) => return Err(e),
        };
        if ((bytes.len() - width) as u64) < prefix.value {
            return Err(BitcoinError::InsufficientBytes);
        }
        let end = width + prefix.value as usize;
        let data = slice_to_vec(slice_subrange(bytes, width, end));
        Ok((Self::new(data), end))
    }
}

impl core::ops::Deref for Script {
    type Target = Vec<u8>;

    /// The payload, read-only.
    fn deref(&self) -> (r: &Vec<u8>)
        ensures
            r@ == self.bytes@,
    {
        &self.bytes
    }
}

} // verus!
