use vstd::bytes::{
    lemma_auto_spec_u32_to_from_le_bytes, spec_u32_from_le_bytes, spec_u32_to_le_bytes,
    u32_from_le_bytes, u32_to_le_bytes,
};
use vstd::prelude::*;
use vstd::slice::slice_subrange;

use crate::error::{decoded, BitcoinError};
use crate::outpoint::{
    lemma_outpoint_len, lemma_outpoint_parse_prefix, lemma_outpoint_parse_truncated,
    outpoint_bytes, parse_outpoint, OutPoint, OutPointModel,
};
use crate::prefix::{lemma_concat_prefix, lemma_prefix_of_concat};
use crate::script::{
    lemma_script_parse_prefix, lemma_script_parse_truncated, parse_script, script_bytes, script_wf,
    Script,
};

verus! {

/// One input of a transaction.
#[derive(Debug, Clone, PartialEq, Eq)]
pub struct TransactionInput {
    pub previous_output: OutPoint,
    pub script_sig: Script,
    pub sequence: u32,
}

/// The model of an input: its outpoint, its script's payload and its
/// sequence number.
pub struct InputModel {
    pub previous_output: OutPointModel,
    pub script_sig: Seq<u8>,
    pub sequence: u32,
}

impl InputModel {
    pub open spec fn wf(self) -> bool {
        self.previous_output.wf() && script_wf(self.script_sig)
    }
}

impl View for TransactionInput {
    type V = InputModel;

    open spec fn view(&self) -> InputModel {
        InputModel {
            previous_output: self.previous_output@,
            script_sig: self.script_sig@,
            sequence: self.sequence,
        }
    }
}

/// The wire form of an input: outpoint, script, then the sequence number in
/// four little-endian bytes, with nothing between them.
pub open spec fn input_bytes(i: InputModel) -> Seq<u8> {
    outpoint_bytes(i.previous_output) + script_bytes(i.script_sig) + spec_u32_to_le_bytes(
        i.sequence,
    )
}

/// What decoding an input from the start of `s` yields: the outpoint, then
/// the script from what follows it, then four bytes of sequence number.
pub open spec fn parse_input(s: Seq<u8>) -> Result<(InputModel, int), BitcoinError> {
    match parse_outpoint(s) {
        Err(e) => Err(e),
        Ok((o, a)) => match parse_script(s.subrange(a, s.len() as int)) {
            Err(e) => Err(e),
            Ok((sc, b)) => if s.len() < a + b + 4 {
                Err(BitcoinError::InsufficientBytes)
            } else {
                Ok(
                    (
                        InputModel {
                            previous_output: o,
                            script_sig: sc,
                            sequence: spec_u32_from_le_bytes(s.subrange(a + b, a + b + 4)),
                        },
                        a + b + 4,
                    ),
                )
            },
        },
    }
}

/// A buffer that starts with the wire form of `i` decodes to `i`, consuming
/// exactly that wire form.
pub proof fn lemma_input_parse_prefix(i: InputModel, s: Seq<u8>)
    requires
        i.wf(),
        input_bytes(i).is_prefix_of(s),
    ensures
        parse_input(s) == Ok::<(InputModel, int), BitcoinError>((i, input_bytes(i).len() as int)),
{
    lemma_auto_spec_u32_to_from_le_bytes();
    let ob = outpoint_bytes(i.previous_output);
    let sb = script_bytes(i.script_sig);
    let qb = spec_u32_to_le_bytes(i.sequence);
    assert(input_bytes(i) =~= ob + (sb + qb));
    lemma_concat_prefix(ob, sb + qb, s);
    lemma_outpoint_parse_prefix(i.previous_output, s);
    lemma_outpoint_len(i.previous_output);
    let rest = s.subrange(36, s.len() as int);
    lemma_concat_prefix(sb, qb, rest);
    lemma_script_parse_prefix(i.script_sig, rest);
    let b = sb.len() as int;
    let tail = rest.subrange(b, rest.len() as int);
    assert(s.subrange(36 + b, 36 + b + 4) =~= tail.subrange(0, 4));
}

/// A buffer that holds only part of the wire form of `i` fails to decode for
/// want of bytes.
pub proof fn lemma_input_parse_truncated(i: InputModel, s: Seq<u8>)
    requires
        i.wf(),
        s.len() < input_bytes(i).len(),
        s.is_prefix_of(input_bytes(i)),
    ensures
        parse_input(s) == Err::<(InputModel, int), BitcoinError>(BitcoinError::InsufficientBytes),
{
    lemma_auto_spec_u32_to_from_le_bytes();
    let ob = outpoint_bytes(i.previous_output);
    let sb = script_bytes(i.script_sig);
    let qb = spec_u32_to_le_bytes(i.sequence);
    assert(input_bytes(i) =~= ob + (sb + qb));
    lemma_outpoint_len(i.previous_output);
    lemma_prefix_of_concat(ob, sb + qb, s);
    if s.len() < ob.len() {
        lemma_outpoint_parse_truncated(i.previous_output, s);
    } else {
        lemma_outpoint_parse_prefix(i.previous_output, s);
        let rest = s.subrange(36, s.len() as int);
        lemma_prefix_of_concat(sb, qb, rest);
        if rest.len() < sb.len() {
            lemma_script_parse_truncated(i.script_sig, rest);
        } else {
            lemma_script_parse_prefix(i.script_sig, rest);
        }
    }
}

impl TransactionInput {
    pub fn new(previous_output: OutPoint, script_sig: Script, sequence: u32) -> (r: Self)
        ensures
            r.previous_output == previous_output,
            r.script_sig == script_sig,
            r.sequence == sequence,
    {
        Self { previous_output, script_sig, sequence }
    }

    /// The wire form: outpoint, script, sequence.
    pub fn to_bytes(&self) -> (r: Vec<u8>)
        ensures
            r@ == input_bytes(self@),
    {
        let mut v = self.previous_output.to_bytes();
        let mut script = self.script_sig.to_bytes();
        v.append(&mut script);
        let mut sequence = u32_to_le_bytes(self.sequence);
        v.append(&mut sequence);
        v
    }

    /// Decodes an input from the start of `bytes`, returning it with the
    /// number of bytes read: 36 for the outpoint, the script's own count, and 4.
    pub fn from_bytes(bytes: &[u8]) -> (r: Result<(Self, usize), BitcoinError>)
        ensures
            decoded(r) == parse_input(bytes@),
    {
        let (outpoint, oconsumed) = match OutPoint::from_bytes(bytes) {
            Ok(p) => p,
            Err(e) => return Err(e),
        };
        let rest = slice_subrange(bytes, oconsumed, bytes.len());
        let (script_sig, sconsumed) = match Script::from_bytes(rest) {
            Ok(p) => p,
            Err(e) => return Err(e),
        };
        let total = oconsumed + sconsumed;
        if bytes.len() - total < 4 {
            return Err(BitcoinError::InsufficientBytes);
        }
        let sequence = u32_from_le_bytes(slice_subrange(bytes, total, total + 4));
        Ok((Self::new(outpoint, script_sig, sequence), total + 4))
    }
}

} // verus!
