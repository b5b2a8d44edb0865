use bitcoin_tx::{
    BitcoinError, BitcoinTransaction, CompactSize, OutPoint, Script, TransactionInput, Txid,
};

fn sample_input(fill: u8, vout: u32, script: Vec<u8>, sequence: u32) -> TransactionInput {
    TransactionInput::new(OutPoint::new([fill; 32], vout), Script::new(script), sequence)
}

#[test]
fn compact_size_tier_boundaries() {
    assert_eq!(CompactSize::new(0).to_bytes(), vec![0x00]);
    assert_eq!(CompactSize::new(252).to_bytes(), vec![0xFC]);
    assert_eq!(CompactSize::new(253).to_bytes(), vec![0xFD, 0xFD, 0x00]);
    assert_eq!(CompactSize::new(0xFFFF).to_bytes(), vec![0xFD, 0xFF, 0xFF]);
    assert_eq!(CompactSize::new(0x10000).to_bytes(), vec![0xFE, 0x00, 0x00, 0x01, 0x00]);
    assert_eq!(CompactSize::new(0xFFFF_FFFF).to_bytes(), vec![0xFE, 0xFF, 0xFF, 0xFF, 0xFF]);
    assert_eq!(
        CompactSize::new(0x1_0000_0000).to_bytes(),
        vec![0xFF, 0x00, 0x00, 0x00, 0x00, 0x01, 0x00, 0x00, 0x00]
    );
    assert_eq!(
        CompactSize::new(u64::MAX).to_bytes(),
        vec![0xFF, 0xFF, 0xFF, 0xFF, 0xFF, 0xFF, 0xFF, 0xFF, 0xFF]
    );
}

#[test]
fn compact_size_round_trip() {
    for n in [0u64, 1, 252, 253, 254, 0xFFFF, 0x10000, 0x12345678, 0xFFFF_FFFF, 0x1_0000_0000, u64::MAX] {
        let bytes = CompactSize::new(n).to_bytes();
        assert_eq!(CompactSize::from_bytes(&bytes), Ok((CompactSize::new(n), bytes.len())));
    }
}

#[test]
fn compact_size_accepts_non_minimal_encoding() {
    assert_eq!(CompactSize::from_bytes(&[0xFD, 0x05, 0x00]), Ok((CompactSize::new(5), 3)));
    assert_eq!(
        CompactSize::from_bytes(&[0xFE, 0x05, 0x00, 0x00, 0x00]),
        Ok((CompactSize::new(5), 5))
    );
    assert_eq!(
        CompactSize::from_bytes(&[0xFF, 0x05, 0, 0, 0, 0, 0, 0, 0]),
        Ok((CompactSize::new(5), 9))
    );
}

#[test]
fn compact_size_ignores_trailing_bytes() {
    assert_eq!(CompactSize::from_bytes(&[0x07, 0xAA, 0xBB]), Ok((CompactSize::new(7), 1)));
    assert_eq!(
        CompactSize::from_bytes(&[0xFD, 0x34, 0x12, 0x99]),
        Ok((CompactSize::new(0x1234), 3))
    );
}

#[test]
fn compact_size_truncated() {
    assert_eq!(CompactSize::from_bytes(&[]), Err(BitcoinError::InsufficientBytes));
    assert_eq!(CompactSize::from_bytes(&[0xFD, 0x01]), Err(BitcoinError::InsufficientBytes));
    assert_eq!(
        CompactSize::from_bytes(&[0xFE, 0x01, 0x02, 0x03]),
        Err(BitcoinError::InsufficientBytes)
    );
    assert_eq!(
        CompactSize::from_bytes(&[0xFF, 1, 2, 3, 4, 5, 6, 7]),
        Err(BitcoinError::InsufficientBytes)
    );
}

#[test]
fn txid_hex_round_trip() {
    let mut bytes = [0u8; 32];
    for (i, b) in bytes.iter_mut().enumerate() {
        *b = (i as u8).wrapping_mul(37).wrapping_add(11);
    }
    let txid = Txid(bytes);
    let text = txid.to_hex();
    assert_eq!(text.len(), 64);
    assert_eq!(Txid::from_hex(&text), Ok(txid));
}

#[test]
fn txid_hex_is_lowercase_high_nibble_first() {
    let mut bytes = [0u8; 32];
    bytes[0] = 0xAB;
    bytes[31] = 0x0F;
    let text = Txid(bytes).to_hex();
    let expected = format!("ab{}0f", "00".repeat(30));
    assert_eq!(text, expected);
}

#[test]
fn txid_from_hex_accepts_uppercase() {
    let text = format!("AB{}", "cd".repeat(31));
    let mut bytes = [0xCDu8; 32];
    bytes[0] = 0xAB;
    assert_eq!(Txid::from_hex(&text), Ok(Txid(bytes)));
}

#[test]
fn txid_from_hex_rejects_bad_text() {
    let good = "11".repeat(32);
    assert_eq!(Txid::from_hex(&good[..63]), Err(BitcoinError::InvalidFormat));
    assert_eq!(Txid::from_hex(&format!("{}1", good)), Err(BitcoinError::InvalidFormat));
    assert_eq!(Txid::from_hex(&"11".repeat(31)), Err(BitcoinError::InvalidFormat));
    assert_eq!(Txid::from_hex(&"11".repeat(33)), Err(BitcoinError::InvalidFormat));
    let with_g = format!("g{}", &good[1..]);
    assert_eq!(Txid::from_hex(&with_g), Err(BitcoinError::InvalidFormat));
    assert_eq!(Txid::from_hex(""), Err(BitcoinError::InvalidFormat));
}

#[test]
fn outpoint_layout() {
    let op = OutPoint::new([0x22; 32], 0x0102_0304);
    let bytes = op.to_bytes();
    assert_eq!(bytes.len(), 36);
    assert_eq!(&bytes[..32], &[0x22u8; 32][..]);
    assert_eq!(&bytes[32..], &[0x04, 0x03, 0x02, 0x01][..]);
    assert_eq!(OutPoint::from_bytes(&bytes), Ok((op, 36)));
}

#[test]
fn outpoint_needs_36_bytes() {
    let bytes = OutPoint::new([1; 32], 9).to_bytes();
    assert_eq!(OutPoint::from_bytes(&bytes[..35]), Err(BitcoinError::InsufficientBytes));
    assert_eq!(OutPoint::from_bytes(&[]), Err(BitcoinError::InsufficientBytes));
}

#[test]
fn script_layout_and_round_trip() {
    let script = Script::new(vec![0x76, 0xA9, 0x14]);
    let bytes = script.to_bytes();
    assert_eq!(bytes, vec![0x03, 0x76, 0xA9, 0x14]);
    assert_eq!(Script::from_bytes(&bytes), Ok((script.clone(), 4)));
    assert_eq!(script.len(), 3);
    assert_eq!(script[1], 0xA9);
}

#[test]
fn script_with_long_payload_uses_three_byte_prefix() {
    let payload = vec![0x5A; 300];
    let bytes = Script::new(payload.clone()).to_bytes();
    assert_eq!(&bytes[..3], &[0xFD, 0x2C, 0x01][..]);
    assert_eq!(bytes.len(), 303);
    assert_eq!(Script::from_bytes(&bytes), Ok((Script::new(payload), 303)));
}

#[test]
fn script_payload_shorter_than_prefix() {
    assert_eq!(Script::from_bytes(&[0x03, 0x01, 0x02]), Err(BitcoinError::InsufficientBytes));
    assert_eq!(Script::from_bytes(&[0xFD, 0x01]), Err(BitcoinError::InsufficientBytes));
    assert_eq!(
        Script::from_bytes(&[0xFF, 0xFF, 0xFF, 0xFF, 0xFF, 0xFF, 0xFF, 0xFF, 0xFF, 0x00]),
        Err(BitcoinError::InsufficientBytes)
    );
    assert_eq!(Script::from_bytes(&[]), Err(BitcoinError::InsufficientBytes));
}

#[test]
fn input_layout_and_round_trip() {
    let input = sample_input(0x33, 7, vec![0xAA, 0xBB], 0xFFFF_FFFE);
    let bytes = input.to_bytes();
    assert_eq!(bytes.len(), 36 + 3 + 4);
    assert_eq!(&bytes[36..39], &[0x02, 0xAA, 0xBB][..]);
    assert_eq!(&bytes[39..], &[0xFE, 0xFF, 0xFF, 0xFF][..]);
    assert_eq!(TransactionInput::from_bytes(&bytes), Ok((input, 43)));
}

#[test]
fn input_every_strict_prefix_is_insufficient() {
    let bytes = sample_input(0x44, 1, vec![1, 2, 3, 4, 5], 3).to_bytes();
    for k in 0..bytes.len() {
        assert_eq!(
            TransactionInput::from_bytes(&bytes[..k]),
            Err(BitcoinError::InsufficientBytes)
        );
    }
}

#[test]
fn transaction_without_inputs_is_nine_bytes() {
    let tx = BitcoinTransaction::new(1, vec![], 0);
    let bytes = tx.to_bytes();
    assert_eq!(bytes, vec![0x01, 0x00, 0x00, 0x00, 0x00, 0x00, 0x00, 0x00, 0x00]);
    assert_eq!(BitcoinTransaction::from_bytes(&bytes), Ok((tx, 9)));
}

#[test]
fn transaction_with_one_input_example() {
    let input = TransactionInput::new(OutPoint::new([0; 32], 0), Script::new(vec![]), 0xFFFF_FFFF);
    let tx = BitcoinTransaction::new(2, vec![input], 500_000);
    let mut expected = vec![0x02, 0x00, 0x00, 0x00, 0x01];
    expected.extend_from_slice(&[0u8; 32]);
    expected.extend_from_slice(&[0x00, 0x00, 0x00, 0x00]);
    expected.push(0x00);
    expected.extend_from_slice(&[0xFF, 0xFF, 0xFF, 0xFF]);
    expected.extend_from_slice(&[0x20, 0xA1, 0x07, 0x00]);
    let bytes = tx.to_bytes();
    assert_eq!(bytes, expected);
    assert_eq!(bytes.len(), 50);
    assert_eq!(BitcoinTransaction::from_bytes(&expected), Ok((tx, 50)));
}

#[test]
fn transaction_round_trip_with_several_inputs() {
    let tx = BitcoinTransaction::new(
        0x7000_0001,
        vec![
            sample_input(1, 0, vec![], 0),
            sample_input(2, 5, vec![9; 260], 0xFFFF_FFFF),
            sample_input(3, u32::MAX, vec![0x51], 17),
        ],
        0x0102_0304,
    );
    let bytes = tx.to_bytes();
    assert_eq!(BitcoinTransaction::from_bytes(&bytes), Ok((tx.clone(), bytes.len())));
    let mut longer = bytes.clone();
    longer.extend_from_slice(&[0xEE, 0xEE]);
    assert_eq!(BitcoinTransaction::from_bytes(&longer), Ok((tx, bytes.len())));
}

#[test]
fn transaction_every_strict_prefix_is_insufficient() {
    let tx = BitcoinTransaction::new(
        3,
        vec![sample_input(7, 1, vec![1, 2], 5), sample_input(8, 2, vec![], 6)],
        99,
    );
    let bytes = tx.to_bytes();
    for k in 0..bytes.len() {
        assert_eq!(
            BitcoinTransaction::from_bytes(&bytes[..k]),
            Err(BitcoinError::InsufficientBytes)
        );
    }
}

#[test]
fn transaction_huge_declared_count_fails_on_first_short_input() {
    let bytes = vec![0x01, 0x00, 0x00, 0x00, 0xFF, 0xFF, 0xFF, 0xFF, 0xFF, 0xFF, 0xFF, 0xFF, 0xFF, 0x00];
    assert_eq!(BitcoinTransaction::from_bytes(&bytes), Err(BitcoinError::InsufficientBytes));
}

#[test]
fn empty_buffer_fails_every_decode() {
    assert_eq!(CompactSize::from_bytes(&[]), Err(BitcoinError::InsufficientBytes));
    assert_eq!(OutPoint::from_bytes(&[]), Err(BitcoinError::InsufficientBytes));
    assert_eq!(Script::from_bytes(&[]), Err(BitcoinError::InsufficientBytes));
    assert_eq!(TransactionInput::from_bytes(&[]), Err(BitcoinError::InsufficientBytes));
    assert_eq!(BitcoinTransaction::from_bytes(&[]), Err(BitcoinError::InsufficientBytes));
}
