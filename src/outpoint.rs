use vstd::bytes::{
    lemma_auto_spec_u32_to_from_le_bytes, spec_u32_from_le_bytes, spec_u32_to_le_bytes,
    u32_from_le_bytes, u32_to_le_bytes,
};
use vstd::prelude::*;
use vstd::slice::{slice_subrange, slice_to_vec};

use crate::error::{decoded, BitcoinError};
use crate::prefix::lemma_concat_prefix;
use crate::txid::Txid;

verus! {

/// A reference to an output of an earlier transaction.
#[derive(Debug, Clone, PartialEq, Eq)]
pub struct OutPoint {
    pub txid: Txid,
    pub vout: u32,
}

/// The model of an outpoint: the id's bytes and the output index.
pub struct OutPointModel {
    pub txid: Seq<u8>,
    pub vout: u32,
}

impl OutPointModel {
    /// The id holds exactly 32 bytes.
    pub open spec fn wf(self) -> bool {
        self.txid.len() == 32
    }
}

impl View for OutPoint {
    type V = OutPointModel;

    open spec fn view(&self) -> OutPointModel {
        OutPointModel { txid: self.txid@, vout: self.vout }
    }
}

/// The wire form of an outpoint: the 32 id bytes, then the index in four
/// little-endian bytes.
pub open spec fn outpoint_bytes(o: OutPointModel) -> Seq<u8> {
    o.txid + spec_u32_to_le_bytes(o.vout)
}

/// What decoding an outpoint from the start of `s` yields: it always takes
/// 36 bytes.
pub open spec fn parse_outpoint(s: Seq<u8>) -> Result<(OutPointModel, int), BitcoinError> {
    if s.len() < 36 {
        Err(BitcoinError::InsufficientBytes)
    } else {
        Ok(
            (
                OutPointModel {
                    txid: s.subrange(0, 32),
                    vout: spec_u32_from_le_bytes(s.subrange(32, 36)),
                },
                36,
            ),
        )
    }
}

/// An outpoint takes 36 bytes on the wire.
pub proof fn lemma_outpoint_len(o: OutPointModel)
    requires
        o.wf(),
    ensures
        outpoint_bytes(o).len() == 36,
{
    lemma_auto_spec_u32_to_from_le_bytes();
}

/// A buffer that starts with the wire form of `o` decodes to `o`.
pub proof fn lemma_outpoint_parse_prefix(o: OutPointModel, s: Seq<u8>)
    requires
        o.wf(),
        outpoint_bytes(o).is_prefix_of(s),
    ensures
        parse_outpoint(s) == Ok::<(OutPointModel, int), BitcoinError>((o, 36)),
{
    lemma_auto_spec_u32_to_from_le_bytes();
    let le = spec_u32_to_le_bytes(o.vout);
    lemma_concat_prefix(o.txid, le, s);
    assert(s.subrange(32, 36) =~= s.subrange(32, s.len() as int).subrange(0, 4));
    assert(s.subrange(0, 32) =~= o.txid);
}

/// A buffer that holds only part of the wire form of `o` fails to decode for
/// want of bytes.
pub proof fn lemma_outpoint_parse_truncated(o: OutPointModel, s: Seq<u8>)
    requires
        o.wf(),
        s.len() < outpoint_bytes(o).len(),
    ensures
        parse_outpoint(s) == Err::<(OutPointModel, int), BitcoinError>(
            BitcoinError::InsufficientBytes,
        ),
{
    lemma_outpoint_len(o);
}

impl OutPoint {
    pub fn new(txid: [u8; 32], vout: u32) -> (r: Self)
        ensures
            r.txid == Txid(txid),
            r.vout == vout,
    {
        Self { txid: Txid(txid), vout }
    }

    /// The 36-byte wire form.
    pub fn to_bytes(&self) -> (r: Vec<u8>)
        ensures
            r@ == outpoint_bytes(self@),
    {
        let mut v = slice_to_vec(self.txid.0.as_slice());
        let mut index = u32_to_le_bytes(self.vout);
        v.append(&mut index);
        v
    }

    /// Decodes an outpoint from the start of `bytes`, returning it with the
    /// number of bytes read (always 36).
    pub fn from_bytes(bytes: &[u8]) -> (r: Result<(Self, usize), BitcoinError>)
        ensures
            decoded(r) == parse_outpoint(bytes@),
    {
        if bytes.len() < 36 {
            return Err(BitcoinError::InsufficientBytes);
        }
        let txid = Txid::from_slice(slice_subrange(bytes, 0, 32));
        let vout = u32_from_le_bytes(slice_subrange(bytes, 32, 36));
        Ok((Self { txid, vout }, 36))
    }
}

} // verus!
