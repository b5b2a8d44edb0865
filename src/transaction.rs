use vstd::bytes::{
    lemma_auto_spec_u32_to_from_le_bytes, spec_u32_from_le_bytes, spec_u32_to_le_bytes,
    u32_from_le_bytes, u32_to_le_bytes,
};
use vstd::prelude::*;
use vstd::slice::slice_subrange;

use crate::compact_size::{
    compact_size_bytes, lemma_compact_size_parse_prefix, lemma_compact_size_parse_truncated,
    parse_compact_size, CompactSize,
};
use crate::error::{decoded, BitcoinError};
use crate::input::{
    input_bytes, lemma_input_parse_prefix, lemma_input_parse_truncated, parse_input, InputModel,
    TransactionInput,
};
use crate::prefix::{lemma_concat_prefix, lemma_prefix_of_concat};

verus! {

/// A transaction: version, inputs, lock time.
#[derive(Debug, Clone, PartialEq, Eq)]
pub struct BitcoinTransaction {
    pub version: u32,
    pub inputs: Vec<TransactionInput>,
    pub lock_time: u32,
}

/// The model of a transaction.
pub struct TransactionModel {
    pub version: u32,
    pub inputs: Seq<InputModel>,
    pub lock_time: u32,
}

/// Every input of `xs` is well formed.
pub open spec fn inputs_wf(xs: Seq<InputModel>) -> bool {
    forall|i: int| 0 <= i < xs.len() ==> (#[trigger] xs[i]).wf()
}

impl TransactionModel {
    /// The input count fits a CompactSize and every input is well formed.
    pub open spec fn wf(self) -> bool {
        self.inputs.len() <= u64::MAX && inputs_wf(self.inputs)
    }
}

/// The models of a list of inputs.
pub open spec fn inputs_view(v: Seq<TransactionInput>) -> Seq<InputModel> {
    v.map_values(|x: TransactionInput| x@)
}

impl View for BitcoinTransaction {
    type V = TransactionModel;

    open spec fn view(&self) -> TransactionModel {
        TransactionModel {
            version: self.version,
            inputs: inputs_view(self.inputs@),
            lock_time: self.lock_time,
        }
    }
}

/// The wire forms of the inputs of `xs`, one after the other.
pub open spec fn inputs_bytes(xs: Seq<InputModel>) -> Seq<u8>
    decreases xs.len(),
{
    if xs.len() == 0 {
        Seq::empty()
    } else {
        inputs_bytes(xs.drop_last()) + input_bytes(xs.last())
    }
}

/// The wire form of a transaction: version in four little-endian bytes, the
/// input count as a CompactSize, the inputs, and the lock time in four
/// little-endian bytes.
pub open spec fn transaction_bytes(t: TransactionModel) -> Seq<u8> {
    spec_u32_to_le_bytes(t.version) + compact_size_bytes(t.inputs.len() as u64) + inputs_bytes(
        t.inputs,
    ) + spec_u32_to_le_bytes(t.lock_time)
}

/// What decoding `count` inputs one after another from offset `start` of `s`
/// yields: the inputs and the offset after the last one. The first failure
/// is the result.
pub open spec fn parse_inputs(s: Seq<u8>, start: int, count: nat) -> Result<
    (Seq<InputModel>, int),
    BitcoinError,
>
    decreases count,
{
    if count == 0 {
        Ok((Seq::empty(), start))
    } else {
        match parse_inputs(s, start, (count - 1) as nat) {
            Err(e) => Err(e),
            Ok((xs, p)) => match parse_input(s.subrange(p, s.len() as int)) {
                Err(e) => Err(e),
                Ok((x, n)) => Ok((xs.push(x), p + n)),
            },
        }
    }
}

/// What decoding a transaction from the start of `s` yields: version, input
/// count, that many inputs, then lock time, with the number of bytes read.
pub open spec fn parse_transaction(s: Seq<u8>) -> Result<(TransactionModel, int), BitcoinError> {
    if s.len() < 4 {
        Err(BitcoinError::InsufficientBytes)
    } else {
        match parse_compact_size(s.subrange(4, s.len() as int)) {
            Err(e) => Err(e),
            Ok((c, w)) => match parse_inputs(s, 4 + w, c as nat) {
                Err(e) => Err(e),
                Ok((xs, p)) => if s.len() < p + 4 {
                    Err(BitcoinError::InsufficientBytes)
                } else {
                    Ok(
                        (
                            TransactionModel {
                                version: spec_u32_from_le_bytes(s.subrange(0, 4)),
                                inputs: xs,
                                lock_time: spec_u32_from_le_bytes(s.subrange(p, p + 4)),
                            },
                            p + 4,
                        ),
                    )
                },
            },
        }
    }
}

/// Once decoding the inputs has failed, decoding more of them fails the
/// same way.
proof fn lemma_parse_inputs_failure_persists(s: Seq<u8>, start: int, k: nat, m: nat)
    requires
        k <= m,
        parse_inputs(s, start, k) is Err,
    ensures
        parse_inputs(s, start, m) == parse_inputs(s, start, k),
    decreases m - k,
{
    if m > k {
        lemma_parse_inputs_failure_persists(s, start, k, (m - 1) as nat);
    }
}

/// Successfully decoded inputs end within the buffer.
proof fn lemma_parse_inputs_in_bounds(s: Seq<u8>, start: int, count: nat)
    requires
        0 <= start <= s.len(),
        parse_inputs(s, start, count) is Ok,
    ensures
        start <= parse_inputs(s, start, count)->Ok_0.1 <= s.len(),
    decreases count,
{
    if count > 0 {
        lemma_parse_inputs_in_bounds(s, start, (count - 1) as nat);
    }
}

/// A buffer whose part from `start` begins with the wire forms of `xs`
/// decodes to `xs` there, ending right after them.
pub proof fn lemma_inputs_parse_prefix(xs: Seq<InputModel>, s: Seq<u8>, start: int)
    requires
        inputs_wf(xs),
        0 <= start <= s.len(),
        inputs_bytes(xs).is_prefix_of(s.subrange(start, s.len() as int)),
    ensures
        parse_inputs(s, start, xs.len()) == Ok::<(Seq<InputModel>, int), BitcoinError>(
            (xs, start + inputs_bytes(xs).len()),
        ),
    decreases xs.len(),
{
    if xs.len() == 0 {
        assert(xs =~= Seq::<InputModel>::empty());
    } else {
        let ys = xs.drop_last();
        let x = xs.last();
        let sub = s.subrange(start, s.len() as int);
        let l = inputs_bytes(ys).len() as int;
        assert(x.wf());
        assert(inputs_wf(ys)) by {
            assert forall|i: int| 0 <= i < ys.len() implies (#[trigger] ys[i]).wf() by {
                assert(ys[i] == xs[i]);
            }
        }
        lemma_concat_prefix(inputs_bytes(ys), input_bytes(x), sub);
        lemma_inputs_parse_prefix(ys, s, start);
        assert(sub.subrange(l, sub.len() as int) =~= s.subrange(start + l, s.len() as int));
        lemma_input_parse_prefix(x, s.subrange(start + l, s.len() as int));
        assert(ys.push(x) =~= xs);
    }
}

/// A buffer whose part from `start` holds only part of the wire forms of
/// `xs` fails to decode them for want of bytes.
pub proof fn lemma_inputs_parse_truncated(xs: Seq<InputModel>, s: Seq<u8>, start: int)
    requires
        inputs_wf(xs),
        0 <= start <= s.len(),
        s.len() < start + inputs_bytes(xs).len(),
        s.subrange(start, s.len() as int).is_prefix_of(inputs_bytes(xs)),
    ensures
        parse_inputs(s, start, xs.len()) == Err::<(Seq<InputModel>, int), BitcoinError>(
            BitcoinError::InsufficientBytes,
        ),
    decreases xs.len(),
{
    let ys = xs.drop_last();
    let x = xs.last();
    let sub = s.subrange(start, s.len() as int);
    let l = inputs_bytes(ys).len() as int;
    assert(x.wf());
    assert(inputs_wf(ys)) by {
        assert forall|i: int| 0 <= i < ys.len() implies (#[trigger] ys[i]).wf() by {
            assert(ys[i] == xs[i]);
        }
    }
    lemma_prefix_of_concat(inputs_bytes(ys), input_bytes(x), sub);
    if sub.len() < l {
        lemma_inputs_parse_truncated(ys, s, start);
    } else {
        lemma_inputs_parse_prefix(ys, s, start);
        assert(sub.subrange(l, sub.len() as int) =~= s.subrange(start + l, s.len() as int));
        lemma_input_parse_truncated(x, s.subrange(start + l, s.len() as int));
    }
}

/// A buffer that starts with the wire form of `t` decodes to `t`, consuming
/// exactly that wire form.
pub proof fn lemma_transaction_parse_prefix(t: TransactionModel, s: Seq<u8>)
    requires
        t.wf(),
        transaction_bytes(t).is_prefix_of(s),
    ensures
        parse_transaction(s) == Ok::<(TransactionModel, int), BitcoinError>(
            (t, transaction_bytes(t).len() as int),
        ),
{
    lemma_auto_spec_u32_to_from_le_bytes();
    let vb = spec_u32_to_le_bytes(t.version);
    let cb = compact_size_bytes(t.inputs.len() as u64);
    let ib = inputs_bytes(t.inputs);
    let lb = spec_u32_to_le_bytes(t.lock_time);
    assert(transaction_bytes(t) =~= vb + (cb + (ib + lb)));
    lemma_concat_prefix(vb, cb + (ib + lb), s);
    let rest = s.subrange(4, s.len() as int);
    lemma_concat_prefix(cb, ib + lb, rest);
    lemma_compact_size_parse_prefix(t.inputs.len() as u64, rest);
    let w = cb.len() as int;
    let after = s.subrange(4 + w, s.len() as int);
    assert(rest.subrange(w, rest.len() as int) =~= after);
    lemma_concat_prefix(ib, lb, after);
    lemma_inputs_parse_prefix(t.inputs, s, 4 + w);
    let p = 4 + w + ib.len();
    assert(after.subrange(ib.len() as int, after.len() as int).subrange(0, 4) =~= s.subrange(
        p,
        p + 4,
    ));
    assert(s.subrange(0, 4) =~= vb);
}

/// A buffer that holds only part of the wire form of `t` fails to decode for
/// want of bytes.
pub proof fn lemma_transaction_parse_truncated(t: TransactionModel, s: Seq<u8>)
    requires
        t.wf(),
        s.len() < transaction_bytes(t).len(),
        s.is_prefix_of(transaction_bytes(t)),
    ensures
        parse_transaction(s) == Err::<(TransactionModel, int), BitcoinError>(
            BitcoinError::InsufficientBytes,
        ),
{
    lemma_auto_spec_u32_to_from_le_bytes();
    let vb = spec_u32_to_le_bytes(t.version);
    let cb = compact_size_bytes(t.inputs.len() as u64);
    let ib = inputs_bytes(t.inputs);
    let lb = spec_u32_to_le_bytes(t.lock_time);
    assert(transaction_bytes(t) =~= vb + (cb + (ib + lb)));
    lemma_prefix_of_concat(vb, cb + (ib + lb), s);
    if s.len() >= 4 {
        let rest = s.subrange(4, s.len() as int);
        lemma_prefix_of_concat(cb, ib + lb, rest);
        if rest.len() < cb.len() {
            lemma_compact_size_parse_truncated(t.inputs.len() as u64, rest);
        } else {
            lemma_compact_size_parse_prefix(t.inputs.len() as u64, rest);
            let w = cb.len() as int;
            let after = s.subrange(4 + w, s.len() as int);
            assert(rest.subrange(w, rest.len() as int) =~= after);
            lemma_prefix_of_concat(ib, lb, after);
            if after.len() < ib.len() {
                lemma_inputs_parse_truncated(t.inputs, s, 4 + w);
            } else {
                lemma_inputs_parse_prefix(t.inputs, s, 4 + w);
            }
        }
    }
}

impl BitcoinTransaction {
    pub fn new(version: u32, inputs: Vec<TransactionInput>, lock_time: u32) -> (r: Self)
        ensures
            r.version == version,
            r.inputs@ == inputs@,
            r.lock_time == lock_time,
    {
        Self { version, inputs, lock_time }
    }

    /// The wire form: version, input count, inputs, lock time.
    pub fn to_bytes(&self) -> (r: Vec<u8>)
        ensures
            r@ == transaction_bytes(self@),
    {
        let ghost models = inputs_view(self.inputs@);
        let mut v = u32_to_le_bytes(self.version);
        let mut count = CompactSize::new(self.inputs.len() as u64).to_bytes();
        v.append(&mut count);
        let ghost head = v@;
        let mut i: usize = 0;
        while i < self.inputs.len()
            invariant
                i <= self.inputs@.len(),
                models == inputs_view(self.inputs@),
                v@ == head + inputs_bytes(models.take(i as int)),
            decreases self.inputs@.len() - i,
        {
            let mut input = self.inputs[i].to_bytes();
            proof {
                assert(models.take(i + 1).drop_last() =~= models.take(i as int));
                assert(head + inputs_bytes(models.take(i + 1)) =~= v@ + input@);
            }
            v.append(&mut input);
            i += 1;
        }
        proof {
            assert(models.take(i as int) =~= models);
        }
        let mut lock = u32_to_le_bytes(self.lock_time);
        v.append(&mut lock);
        v
    }

    /// Decodes a transaction from the start of `bytes`, returning it with the
    /// number of bytes read. The declared input count is not checked against
    /// the buffer's length beforehand: an input that runs out of bytes fails
    /// the whole decode.
    pub fn from_bytes(bytes: &[u8]) -> (r: Result<(Self, usize), BitcoinError>)
        ensures
            decoded(r) == parse_transaction(bytes@),
    {
        if bytes.len() < 4 {
            return Err(BitcoinError::InsufficientBytes);
        }
        let version = u32_from_le_bytes(slice_subrange(bytes, 0, 4));
        let (count, cconsumed) = match CompactSize::from_bytes(
            slice_subrange(bytes, 4, bytes.len()),
        ) {
            Ok(p) => p,
            Err(e) => return Err(e),
        };
        let mut inputs: Vec<TransactionInput> = Vec::new();
        let mut offset: usize = 4 + cconsumed;
        let ghost start = offset as int;
        assert(inputs_view(inputs@) =~= Seq::<InputModel>::empty());
        let mut i: u64 = 0;
        while i < count.value
            invariant
                bytes@.len() >= 4,
                parse_compact_size(bytes@.subrange(4, bytes@.len() as int)) == Ok::<
                    (u64, int),
                    BitcoinError,
                >((count.value, cconsumed as int)),
                start == 4 + cconsumed,
                start <= bytes@.len(),
                i <= count.value,
                offset <= bytes@.len(),
                parse_inputs(bytes@, start, i as nat) == Ok::<(Seq<InputModel>, int), BitcoinError>(
                    (inputs_view(inputs@), offset as int),
                ),
            decreases count.value - i,
        {
            match TransactionInput::from_bytes(slice_subrange(bytes, offset, bytes.len())) {
                Err(e) => {
                    proof {
                        assert(parse_inputs(bytes@, start, (i + 1) as nat) == Err::<
                            (Seq<InputModel>, int),
                            BitcoinError,
                        >(e));
                        lemma_parse_inputs_failure_persists(
                            bytes@,
                            start,
                            (i + 1) as nat,
                            count.value as nat,
                        );
                    }
                    return Err(e);
                },
                Ok((input, consumed)) => {
                    proof {
                        assert(inputs_view(inputs@.push(input)) =~= inputs_view(inputs@).push(
                            input@,
                        ));
                    }
                    inputs.push(input);
                    offset = offset + consumed;
                },
            }
            i = i + 1;
        }
        if bytes.len() - offset < 4 {
            return Err(BitcoinError::InsufficientBytes);
        }
        let lock_time = u32_from_le_bytes(slice_subrange(bytes, offset, offset + 4));
        Ok((Self::new(version, inputs, lock_time), offset + 4))
    }
}

} // verus!
