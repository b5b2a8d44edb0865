use vstd::prelude::*;

use crate::error::BitcoinError;

verus! {

/// A 32-byte transaction identifier, opaque to numeric interpretation.
#[derive(Debug, Clone, Copy, PartialEq, Eq)]
pub struct Txid(pub [u8; 32]);

impl View for Txid {
    type V = Seq<u8>;

    open spec fn view(&self) -> Seq<u8> {
        self.0@
    }
}

/// The lowercase hexadecimal digit for `d`, which is below 16.
pub open spec fn hex_digit(d: u8) -> char {
    if d < 10 {
        (d + 48) as u8 as char
    } else {
        (d + 87) as u8 as char
    }
}

/// Whether `c` is a hexadecimal digit, in either case.
pub open spec fn is_hex_char(c: char) -> bool {
    ('0' <= c && c <= '9') || ('a' <= c && c <= 'f') || ('A' <= c && c <= 'F')
}

/// The value of the hexadecimal digit `c`.
pub open spec fn hex_val(c: char) -> int {
    if '0' <= c && c <= '9' {
        c as int - 48
    } else if 'a' <= c && c <= 'f' {
        c as int - 87
    } else {
        c as int - 55
    }
}

/// Whether every character of `s` is a hexadecimal digit.
pub open spec fn all_hex(s: Seq<char>) -> bool {
    forall|i: int| 0 <= i < s.len() ==> is_hex_char(#[trigger] s[i])
}

/// The lowercase hexadecimal text of `b`: two digits per byte, high nibble
/// first.
pub open spec fn hex_of(b: Seq<u8>) -> Seq<char> {
    Seq::new(
        2 * b.len(),
        |i: int|
            if i % 2 == 0 {
                hex_digit(b[i / 2] / 16)
            } else {
                hex_digit(b[i / 2] % 16)
            },
    )
}

/// The bytes that the hexadecimal text `s` spells, one per pair of digits.
pub open spec fn unhex(s: Seq<char>) -> Seq<u8> {
    Seq::new(s.len() / 2, |i: int| (hex_val(s[2 * i]) * 16 + hex_val(s[2 * i + 1])) as u8)
}

/// What reading a transaction id from its text form yields: the 32 bytes
/// spelled by exactly 64 hexadecimal digits, else a format error.
pub open spec fn parse_txid_hex(s: Seq<char>) -> Result<Seq<u8>, BitcoinError> {
    if s.len() == 64 && all_hex(s) {
        Ok(unhex(s))
    } else {
        Err(BitcoinError::InvalidFormat)
    }
}

/// Relies on hex::encode: each byte becomes two lowercase hexadecimal digits,
/// high nibble first.
#[verifier::external_body]
fn encode_hex(b: &[u8]) -> (r: String)
    ensures
        r@ == hex_of(b@),
{
    hex::encode(b)
}

/// Relies on hex::decode: it succeeds exactly on text of even length made of
/// hexadecimal digits of either case, and then yields one byte per pair of
/// digits.
#[verifier::external_body]
fn decode_hex(s: &str) -> (r: Option<Vec<u8>>)
    ensures
        r is Some <==> (s@.len() % 2 == 0 && all_hex(s@)),
        r matches Some(v) ==> v@ == unhex(s@),
{
    hex::decode(s).ok()
}

/// A digit that `hex_digit` writes reads back as its value.
proof fn lemma_hex_digit_value(d: u8)
    requires
        d < 16,
    ensures
        is_hex_char(hex_digit(d)),
        hex_val(hex_digit(d)) == d,
{
}

/// Reading back the hexadecimal text of 32 bytes gives those bytes; text of
/// any other length, or holding a character that is not a hexadecimal digit,
/// is a format error.
pub proof fn lemma_txid_hex_round_trip(b: Seq<u8>, s: Seq<char>)
    requires
        b.len() == 32,
    ensures
        parse_txid_hex(hex_of(b)) == Ok::<Seq<u8>, BitcoinError>(b),
        s.len() != 64 ==> parse_txid_hex(s) == Err::<Seq<u8>, BitcoinError>(
            BitcoinError::InvalidFormat,
        ),
        (exists|i: int| 0 <= i < s.len() && !is_hex_char(#[trigger] s[i])) ==> parse_txid_hex(s)
            == Err::<Seq<u8>, BitcoinError>(BitcoinError::InvalidFormat),
{
    let h = hex_of(b);
    assert forall|i: int| 0 <= i < h.len() implies is_hex_char(#[trigger] h[i]) by {
        lemma_hex_digit_value(b[i / 2] / 16);
        lemma_hex_digit_value(b[i / 2] % 16);
    }
    assert forall|i: int| 0 <= i < 32 implies #[trigger] unhex(h)[i] == b[i] by {
        lemma_hex_digit_value(b[i] / 16);
        lemma_hex_digit_value(b[i] % 16);
        assert(h[2 * i] == hex_digit(b[i] / 16));
        assert(h[2 * i + 1] == hex_digit(b[i] % 16));
    }
    assert(unhex(h) =~= b);
}

impl Txid {
    /// The id made of the 32 bytes of `b`.
    pub(crate) fn from_slice(b: &[u8]) -> (r: Txid)
        requires
            b@.len() == 32,
        ensures
            r@ == b@,
    {
        let mut arr = [0u8; 32];
        let mut i: usize = 0;
        while i < 32
            invariant
                b@.len() == 32,
                arr@.len() == 32,
                i <= 32,
                forall|j: int| 0 <= j < i ==> arr@[j] == b@[j],
            decreases 32 - i,
        {
            arr[i] = b[i];
            i += 1;
        }
        assert(arr@ =~= b@);
        Txid(arr)
    }

    /// The id as 64 lowercase hexadecimal digits.
    pub fn to_hex(&self) -> (r: String)
        ensures
            r@ == hex_of(self@),
    {
        encode_hex(self.0.as_slice())
    }

    /// Reads an id from its text form: 64 hexadecimal digits of either case.
    pub fn from_hex(s: &str) -> (r: Result<Txid, BitcoinError>)
        ensures
            match r {
                Ok(t) => parse_txid_hex(s@) == Ok::<Seq<u8>, BitcoinError>(t@),
                Err(e) => parse_txid_hex(s@) == Err::<Seq<u8>, BitcoinError>(e),
            },
    {
        match decode_hex(s) {
            None => Err(BitcoinError::InvalidFormat),
            Some(v) => {
                if v.len() != 32 {
                    return Err(BitcoinError::InvalidFormat);
                }
                Ok(Txid::from_slice(v.as_slice()))
            },
        }
    }
}

} // verus!
