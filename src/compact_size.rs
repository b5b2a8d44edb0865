use vstd::bytes::{
    lemma_auto_spec_u16_to_from_le_bytes, lemma_auto_spec_u32_to_from_le_bytes,
    lemma_auto_spec_u64_to_from_le_bytes, spec_u16_from_le_bytes, spec_u16_to_le_bytes,
    spec_u32_from_le_bytes, spec_u32_to_le_bytes, spec_u64_from_le_bytes, spec_u64_to_le_bytes,
    u16_from_le_bytes, u16_to_le_bytes, u32_from_le_bytes, u32_to_le_bytes, u64_from_le_bytes,
    u64_to_le_bytes,
};
use vstd::prelude::*;
use vstd::slice::slice_subrange;

use crate::error::{decoded, BitcoinError};

verus! {

/// An unsigned 64-bit integer in Bitcoin's variable-length encoding.
#[derive(Debug, Clone, Copy, PartialEq, Eq, Structural)]
pub struct CompactSize {
    pub value: u64,
}

impl View for CompactSize {
    type V = u64;

    open spec fn view(&self) -> u64 {
        self.value
    }
}

/// The number of bytes that the shortest encoding of `n` takes.
pub open spec fn compact_size_width(n: u64) -> int {
    if n <= 0xFC {
        1
    } else if n <= 0xFFFF {
        3
    } else if n <= 0xFFFF_FFFF {
        5
    } else {
        9
    }
}

/// The encoding of `n`: the value itself below 0xFD, else a marker byte and
/// the value in two, four or eight little-endian bytes, whichever tier is
/// the smallest that holds it.
pub open spec fn compact_size_bytes(n: u64) -> Seq<u8> {
    if n <= 0xFC {
        seq![n as u8]
    } else if n <= 0xFFFF {
        seq![0xFDu8] + spec_u16_to_le_bytes(n as u16)
    } else if n <= 0xFFFF_FFFF {
        seq![0xFEu8] + spec_u32_to_le_bytes(n as u32)
    } else {
        seq![0xFFu8] + spec_u64_to_le_bytes(n)
    }
}

/// What decoding a CompactSize from the start of `s` yields: the value and
/// the number of bytes read. The first byte picks the tier; a marker is
/// followed by its payload whether or not a shorter tier would have held
/// the value.
pub open spec fn parse_compact_size(s: Seq<u8>) -> Result<(u64, int), BitcoinError> {
    if s.len() == 0 {
        Err(BitcoinError::InsufficientBytes)
    } else if s[0] <= 0xFC {
        Ok((s[0] as u64, 1))
    } else if s[0] == 0xFD {
        if s.len() < 3 {
            Err(BitcoinError::InsufficientBytes)
        } else {
            Ok((spec_u16_from_le_bytes(s.subrange(1, 3)) as u64, 3))
        }
    } else if s[0] == 0xFE {
        if s.len() < 5 {
            Err(BitcoinError::InsufficientBytes)
        } else {
            Ok((spec_u32_from_le_bytes(s.subrange(1, 5)) as u64, 5))
        }
    } else {
        if s.len() < 9 {
            Err(BitcoinError::InsufficientBytes)
        } else {
            Ok((spec_u64_from_le_bytes(s.subrange(1, 9)), 9))
        }
    }
}

/// The encoding of `n` has the length of its tier.
pub proof fn lemma_compact_size_len(n: u64)
    ensures
        compact_size_bytes(n).len() == compact_size_width(n),
{
    lemma_auto_spec_u16_to_from_le_bytes();
    lemma_auto_spec_u32_to_from_le_bytes();
    lemma_auto_spec_u64_to_from_le_bytes();
}

/// A buffer that starts with the encoding of `n` decodes to `n`, consuming
/// exactly that encoding.
pub proof fn lemma_compact_size_parse_prefix(n: u64, s: Seq<u8>)
    requires
        compact_size_bytes(n).is_prefix_of(s),
    ensures
        parse_compact_size(s) == Ok::<(u64, int), BitcoinError>(
            (n, compact_size_bytes(n).len() as int),
        ),
{
    lemma_auto_spec_u16_to_from_le_bytes();
    lemma_auto_spec_u32_to_from_le_bytes();
    lemma_auto_spec_u64_to_from_le_bytes();
    let e = compact_size_bytes(n);
    assert forall|i: int| 0 <= i < e.len() implies s[i] == e[i] by {
        assert(s.subrange(0, e.len() as int)[i] == s[i]);
    }
    if n <= 0xFC {
    } else if n <= 0xFFFF {
        assert(s.subrange(1, 3) =~= e.subrange(1, 3));
        assert(e.subrange(1, 3) =~= spec_u16_to_le_bytes(n as u16));
    } else if n <= 0xFFFF_FFFF {
        assert(s.subrange(1, 5) =~= e.subrange(1, 5));
        assert(e.subrange(1, 5) =~= spec_u32_to_le_bytes(n as u32));
    } else {
        assert(s.subrange(1, 9) =~= e.subrange(1, 9));
        assert(e.subrange(1, 9) =~= spec_u64_to_le_bytes(n));
    }
}

/// A buffer that holds only part of the encoding of `n` fails to decode for
/// want of bytes.
pub proof fn lemma_compact_size_parse_truncated(n: u64, s: Seq<u8>)
    requires
        s.len() < compact_size_bytes(n).len(),
        s.is_prefix_of(compact_size_bytes(n)),
    ensures
        parse_compact_size(s) == Err::<(u64, int), BitcoinError>(BitcoinError::InsufficientBytes),
{
    lemma_compact_size_len(n);
    if s.len() > 0 {
        assert(s[0] == compact_size_bytes(n)[0]);
    }
}

impl CompactSize {
    pub fn new(value: u64) -> (r: Self)
        ensures
            r.value == value,
    {
        Self { value }
    }

    /// The shortest encoding of the value.
    pub fn to_bytes(&self) -> (r: Vec<u8>)
        ensures
            r@ == compact_size_bytes(self.value),
            r@.len() == compact_size_width(self.value),
    {
        proof {
            lemma_compact_size_len(self.value);
        }
        let n = self.value;
        if n <= 0xFC {
            vec![n as u8]
        } else if n <= 0xFFFF {
            let mut v = vec![0xFDu8];
            let mut payload = u16_to_le_bytes(n as u16);
            v.append(&mut payload);
            v
        } else if n <= 0xFFFF_FFFF {
            let mut v = vec![0xFEu8];
            let mut payload = u32_to_le_bytes(n as u32);
            v.append(&mut payload);
            v
        } else {
            let mut v = vec![0xFFu8];
            let mut payload = u64_to_le_bytes(n);
            v.append(&mut payload);
            v
        }
    }

    /// Decodes a CompactSize from the start of `bytes`, returning it with the
    /// number of bytes read (1, 3, 5 or 9).
    pub fn from_bytes(bytes: &[u8]) -> (r: Result<(Self, usize), BitcoinError>)
        ensures
            decoded(r) == parse_compact_size(bytes@),
    {
        if bytes.len() == 0 {
            return Err(BitcoinError::InsufficientBytes);
        }
        let first = bytes[0];
        if first <= 0xFC {
            Ok((Self::new(first as u64), 1))
        } else if first == 0xFD {
            if bytes.len() < 3 {
                return Err(BitcoinError::InsufficientBytes);
            }
            let v = u16_from_le_bytes(slice_subrange(bytes, 1, 3));
            Ok((Self::new(v as u64), 3))
        } else if first == 0xFE {
            if bytes.len() < 5 {
                return Err(BitcoinError::InsufficientBytes);
            }
            let v = u32_from_le_bytes(slice_subrange(bytes, 1, 5));
            Ok((Self::new(v as u64), 5))
        } else {
            if bytes.len() < 9 {
                return Err(BitcoinError::InsufficientBytes);
            }
            let v = u64_from_le_bytes(slice_subrange(bytes, 1, 9));
            Ok((Self::new(v), 9))
        }
    }
}

} // verus!
