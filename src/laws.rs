//! The laws of the wire format, stated of every value of each type.
use vstd::prelude::*;

use crate::compact_size::{
    compact_size_bytes, lemma_compact_size_parse_prefix, lemma_compact_size_parse_truncated,
    parse_compact_size, CompactSize,
};
use crate::error::BitcoinError;
use crate::input::{
    input_bytes, lemma_input_parse_prefix, lemma_input_parse_truncated, parse_input, InputModel,
    TransactionInput,
};
use crate::outpoint::{
    lemma_outpoint_len, lemma_outpoint_parse_prefix, lemma_outpoint_parse_truncated, outpoint_bytes,
    parse_outpoint,
    OutPoint, OutPointModel,
};
use crate::script::{
    lemma_script_parse_prefix, lemma_script_parse_truncated, parse_script, script_bytes, Script,
};
use crate::transaction::{
    lemma_transaction_parse_prefix, lemma_transaction_parse_truncated, parse_transaction,
    transaction_bytes, BitcoinTransaction, TransactionModel,
};

verus! {

/// The model of an input value is well formed.
proof fn lemma_input_value_wf(x: TransactionInput)
    ensures
        x@.wf(),
{
    assert(x.script_sig.bytes.len() == x.script_sig.bytes@.len());
}

/// The model of a transaction value is well formed.
proof fn lemma_transaction_value_wf(t: BitcoinTransaction)
    ensures
        t@.wf(),
{
    assert(t.inputs.len() == t.inputs@.len());
    assert forall|i: int| 0 <= i < t@.inputs.len() implies (#[trigger] t@.inputs[i]).wf() by {
        lemma_input_value_wf(t.inputs@[i]);
    }
}

/// Decoding the encoding of a CompactSize gives back its value and consumes
/// the whole encoding.
pub proof fn round_trip_compact_size(c: CompactSize)
    ensures
        parse_compact_size(compact_size_bytes(c@)) == Ok::<(u64, int), BitcoinError>(
            (c@, compact_size_bytes(c@).len() as int),
        ),
{
    lemma_compact_size_parse_prefix(c@, compact_size_bytes(c@));
}

/// Decoding the encoding of an outpoint gives it back and consumes the whole
/// encoding.
pub proof fn round_trip_outpoint(o: OutPoint)
    ensures
        parse_outpoint(outpoint_bytes(o@)) == Ok::<(OutPointModel, int), BitcoinError>(
            (o@, outpoint_bytes(o@).len() as int),
        ),
{
    lemma_outpoint_len(o@);
    lemma_outpoint_parse_prefix(o@, outpoint_bytes(o@));
}

/// Decoding the encoding of a script gives it back and consumes the whole
/// encoding.
pub proof fn round_trip_script(sc: Script)
    ensures
        parse_script(script_bytes(sc@)) == Ok::<(Seq<u8>, int), BitcoinError>(
            (sc@, script_bytes(sc@).len() as int),
        ),
{
    assert(sc.bytes.len() == sc.bytes@.len());
    lemma_script_parse_prefix(sc@, script_bytes(sc@));
}

/// Decoding the encoding of an input gives it back and consumes the whole
/// encoding.
pub proof fn round_trip_input(x: TransactionInput)
    ensures
        parse_input(input_bytes(x@)) == Ok::<(InputModel, int), BitcoinError>(
            (x@, input_bytes(x@).len() as int),
        ),
{
    lemma_input_value_wf(x);
    lemma_input_parse_prefix(x@, input_bytes(x@));
}

/// Decoding the encoding of a transaction gives it back and consumes the
/// whole encoding.
pub proof fn round_trip_transaction(t: BitcoinTransaction)
    ensures
        parse_transaction(transaction_bytes(t@)) == Ok::<(TransactionModel, int), BitcoinError>(
            (t@, transaction_bytes(t@).len() as int),
        ),
{
    lemma_transaction_value_wf(t);
    lemma_transaction_parse_prefix(t@, transaction_bytes(t@));
}

/// Decoding any strict prefix of the encoding of a CompactSize fails for
/// want of bytes.
pub proof fn truncated_compact_size(c: CompactSize, k: int)
    requires
        0 <= k < compact_size_bytes(c@).len(),
    ensures
        parse_compact_size(compact_size_bytes(c@).take(k)) == Err::<(u64, int), BitcoinError>(
            BitcoinError::InsufficientBytes,
        ),
{
    let e = compact_size_bytes(c@);
    assert(e.take(k) =~= e.subrange(0, k));
    lemma_compact_size_parse_truncated(c@, e.take(k));
}

/// Decoding any strict prefix of the encoding of an outpoint fails for want
/// of bytes.
pub proof fn truncated_outpoint(o: OutPoint, k: int)
    requires
        0 <= k < outpoint_bytes(o@).len(),
    ensures
        parse_outpoint(outpoint_bytes(o@).take(k)) == Err::<(OutPointModel, int), BitcoinError>(
            BitcoinError::InsufficientBytes,
        ),
{
    lemma_outpoint_parse_truncated(o@, outpoint_bytes(o@).take(k));
}

/// Decoding any strict prefix of the encoding of a script fails for want of
/// bytes.
pub proof fn truncated_script(sc: Script, k: int)
    requires
        0 <= k < script_bytes(sc@).len(),
    ensures
        parse_script(script_bytes(sc@).take(k)) == Err::<(Seq<u8>, int), BitcoinError>(
            BitcoinError::InsufficientBytes,
        ),
{
    assert(sc.bytes.len() == sc.bytes@.len());
    let e = script_bytes(sc@);
    assert(e.take(k) =~= e.subrange(0, k));
    lemma_script_parse_truncated(sc@, e.take(k));
}

/// Decoding any strict prefix of the encoding of an input fails for want of
/// bytes.
pub proof fn truncated_input(x: TransactionInput, k: int)
    requires
        0 <= k < input_bytes(x@).len(),
    ensures
        parse_input(input_bytes(x@).take(k)) == Err::<(InputModel, int), BitcoinError>(
            BitcoinError::InsufficientBytes,
        ),
{
    lemma_input_value_wf(x);
    let e = input_bytes(x@);
    assert(e.take(k) =~= e.subrange(0, k));
    lemma_input_parse_truncated(x@, e.take(k));
}

/// Decoding any strict prefix of the encoding of a transaction fails for
/// want of bytes.
pub proof fn truncated_transaction(t: BitcoinTransaction, k: int)
    requires
        0 <= k < transaction_bytes(t@).len(),
    ensures
        parse_transaction(transaction_bytes(t@).take(k)) == Err::<
            (TransactionModel, int),
            BitcoinError,
        >(BitcoinError::InsufficientBytes),
{
    lemma_transaction_value_wf(t);
    let e = transaction_bytes(t@);
    assert(e.take(k) =~= e.subrange(0, k));
    lemma_transaction_parse_truncated(t@, e.take(k));
}

/// An empty buffer fails every binary decode for want of bytes.
pub proof fn empty_buffer_is_insufficient()
    ensures
        parse_compact_size(Seq::empty()) == Err::<(u64, int), BitcoinError>(
            BitcoinError::InsufficientBytes,
        ),
        parse_outpoint(Seq::empty()) == Err::<(OutPointModel, int), BitcoinError>(
            BitcoinError::InsufficientBytes,
        ),
        parse_script(Seq::empty()) == Err::<(Seq<u8>, int), BitcoinError>(
            BitcoinError::InsufficientBytes,
        ),
        parse_input(Seq::empty()) == Err::<(InputModel, int), BitcoinError>(
            BitcoinError::InsufficientBytes,
        ),
        parse_transaction(Seq::empty()) == Err::<(TransactionModel, int), BitcoinError>(
            BitcoinError::InsufficientBytes,
        ),
{
}

} // verus!
