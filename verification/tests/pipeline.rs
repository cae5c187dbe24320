//! Tests for the header parser, the transaction parser, the block framer
//! and the whole decoding pipeline.

use btlib::blkparser::block::{SerialBlock, SerialHeader};
use btlib::blkparser::cursor::Cursor;
use btlib::blkparser::{BitcoinParser, MAGIC_BYTES, SerialTransaction};
use btlib::blockchain::script::BitcoinScript;
use btlib::blockchain::transactions::{Input, Transaction, Utxo, Witness};
use btlib::parser::{
    BlockErrorKind, HeaderErrorKind, ParseErrorKind, ParseErrorSource, TransactionErrorKind,
};
use btlib::types::BitcoinHash;
use sha2::Digest;

fn double_sha_reversed(data: &[u8]) -> Vec<u8> {
    let first = sha2::Sha256::digest(data);
    let second = sha2::Sha256::digest(&first[..]);
    let mut out = second.to_vec();
    out.reverse();
    out
}

/// The body of a minimal one-input, one-output transaction, marker to
/// locktime excluded: count prefixes, the input and the output.
fn tx_middle() -> Vec<u8> {
    let mut bytes = Vec::new();
    bytes.push(0x01); // one input
    bytes.extend(std::iter::repeat(0x11).take(32)); // previous txid
    bytes.extend([0x02, 0x00, 0x00, 0x00]); // previous output index 2
    bytes.push(0x02); // unlock script length
    bytes.extend([0xab, 0xcd]); // unlock script
    bytes.extend([0xff, 0xff, 0xff, 0xff]); // sequence
    bytes.push(0x01); // one output
    bytes.extend([0x39, 0x30, 0x00, 0x00, 0x00, 0x00, 0x00, 0x00]); // 12345 base units
    bytes.push(0x01); // lock script length
    bytes.push(0xac); // lock script
    bytes
}

fn legacy_tx() -> Vec<u8> {
    let mut bytes = Vec::new();
    bytes.extend([0x01, 0x00, 0x00, 0x00]); // version 1
    bytes.extend(tx_middle());
    bytes.extend([0x05, 0x00, 0x00, 0x00]); // locktime 5
    bytes
}

fn segwit_tx(witness_counts: &[u8]) -> Vec<u8> {
    let mut bytes = Vec::new();
    bytes.extend([0x01, 0x00, 0x00, 0x00]); // version 1
    bytes.extend([0x00, 0x01]); // segwit marker and flag
    bytes.extend(tx_middle());
    for count in witness_counts {
        bytes.push(*count);
        for i in 0..*count {
            bytes.push(0x02); // item length
            bytes.extend([0x77, i]); // item bytes
        }
    }
    bytes.extend([0x05, 0x00, 0x00, 0x00]); // locktime 5
    bytes
}

#[test]
fn legacy_transaction_fields() {
    let bytes = legacy_tx();
    let mut cursor = Cursor::new(&bytes);
    let tx = SerialTransaction::from_raw_data(&mut cursor).unwrap();
    assert_eq!(tx.txin().value(), 1);
    assert_eq!(tx.txout().value(), 1);
    assert_eq!(tx.contents().version(), 1);
    assert_eq!(tx.contents().locktime(), 5);
    assert!(!tx.contents().segwit());
    let input = &tx.contents().inputs()[0];
    assert_eq!(input.utxo().txid().bytes().as_slice(), vec![0x11u8; 32].as_slice());
    assert_eq!(input.utxo().vout(), 2);
    assert_eq!(input.signature().bytes().as_slice(), &[0xab, 0xcd]);
    assert_eq!(input.sequence(), 0xffffffff);
    assert!(input.witness().is_none());
    let output = &tx.contents().outputs()[0];
    assert_eq!(output.value(), 12345);
    assert_eq!(output.pubkey().bytes().as_slice(), &[0xac]);
}

#[test]
fn legacy_transaction_hash_covers_all_bytes() {
    let bytes = legacy_tx();
    let mut cursor = Cursor::new(&bytes);
    let tx = SerialTransaction::from_raw_data(&mut cursor).unwrap();
    assert_eq!(tx.hash().bytes().as_slice(), double_sha_reversed(&bytes).as_slice());
}

#[test]
fn segwit_transaction_hash_excludes_marker_flag_and_witness() {
    let bytes = segwit_tx(&[1]);
    let mut cursor = Cursor::new(&bytes);
    let tx = SerialTransaction::from_raw_data(&mut cursor).unwrap();
    // The hash digests the legacy serialization: the same transaction with
    // marker, flag and witness bytes stripped out.
    assert_eq!(tx.hash().bytes().as_slice(), double_sha_reversed(&legacy_tx()).as_slice());
    assert!(tx.contents().segwit());
    let witness = tx.contents().inputs()[0].witness().as_ref().unwrap();
    assert_eq!(witness.count(), 1);
    assert_eq!(witness.items()[0].as_slice(), &[0x77, 0x00]);
}

#[test]
fn segwit_with_zero_witnesses_hashes_like_legacy() {
    let bytes = segwit_tx(&[0]);
    let mut cursor = Cursor::new(&bytes);
    let tx = SerialTransaction::from_raw_data(&mut cursor).unwrap();
    assert_eq!(tx.hash().bytes().as_slice(), double_sha_reversed(&legacy_tx()).as_slice());
}

#[test]
fn zero_witness_count_leaves_witness_unset() {
    let bytes = segwit_tx(&[0]);
    let mut cursor = Cursor::new(&bytes);
    let tx = SerialTransaction::from_raw_data(&mut cursor).unwrap();
    // A declared stack of zero items attaches nothing at all.
    assert!(tx.contents().inputs()[0].witness().is_none());
    assert!(!tx.contents().segwit());
}

#[test]
fn empty_witness_item_is_distinct_from_unset() {
    // One stack with a single zero-length item: the witness is attached.
    let mut bytes = Vec::new();
    bytes.extend([0x01, 0x00, 0x00, 0x00]);
    bytes.extend([0x00, 0x01]);
    bytes.extend(tx_middle());
    bytes.push(0x01); // one witness item
    bytes.push(0x00); // of zero length
    bytes.extend([0x05, 0x00, 0x00, 0x00]);
    let mut cursor = Cursor::new(&bytes);
    let tx = SerialTransaction::from_raw_data(&mut cursor).unwrap();
    let witness = tx.contents().inputs()[0].witness().as_ref().unwrap();
    assert_eq!(witness.count(), 1);
    assert!(witness.items()[0].is_empty());
    assert!(tx.contents().segwit());
}

#[test]
fn wrong_flag_value_is_a_flag_error() {
    let mut bytes = Vec::new();
    bytes.extend([0x01, 0x00, 0x00, 0x00]);
    bytes.extend([0x00, 0x02]); // marker, then a flag that is not 0x01
    bytes.extend(tx_middle());
    bytes.extend([0x05, 0x00, 0x00, 0x00]);
    let mut cursor = Cursor::new(&bytes);
    let err = SerialTransaction::from_raw_data(&mut cursor).unwrap_err();
    assert_eq!(err.kind, TransactionErrorKind::FlagError(2));
}

#[test]
fn truncated_transaction_is_a_read_error() {
    let bytes = [0x01u8, 0x00, 0x00, 0x00, 0x01, 0x11];
    let mut cursor = Cursor::new(&bytes);
    let err = SerialTransaction::from_raw_data(&mut cursor).unwrap_err();
    assert_eq!(err.kind, TransactionErrorKind::ReadError);
    assert!(err.source.is_some());
}

fn header_bytes() -> Vec<u8> {
    let mut bytes = Vec::new();
    bytes.extend([0x01, 0x00, 0x00, 0x00]); // version 1
    bytes.extend(std::iter::repeat(0x22).take(32)); // previous block hash
    bytes.extend(std::iter::repeat(0x33).take(32)); // merkle root
    bytes.extend([0x0a, 0x00, 0x00, 0x00]); // time 10
    bytes.extend([0xff, 0xff, 0x00, 0x1d]); // target bits
    bytes.extend([0x07, 0x00, 0x00, 0x00]); // nonce 7
    bytes
}

#[test]
fn header_fields_come_out_as_written() {
    let bytes = header_bytes();
    let header = SerialHeader::build_header(Cursor::new(&bytes)).unwrap();
    assert_eq!(header.version(), 1);
    assert_eq!(header.previous().bytes().as_slice(), vec![0x22u8; 32].as_slice());
    assert_eq!(header.txroot().bytes().as_slice(), vec![0x33u8; 32].as_slice());
    assert_eq!(header.consensus().time(), 10);
    assert_eq!(header.consensus().bits().bytes().as_slice(), &[0xff, 0xff, 0x00, 0x1d]);
    assert_eq!(header.consensus().nonce(), 7);
}

#[test]
fn header_errors_name_the_failing_field() {
    let bytes = header_bytes();
    let cases = [
        (0, HeaderErrorKind::VersionError),
        (4, HeaderErrorKind::HashError),
        (36, HeaderErrorKind::RootError),
        (68, HeaderErrorKind::TimeError),
        (72, HeaderErrorKind::BitsError),
        (76, HeaderErrorKind::NonceError),
    ];
    for (len, kind) in cases {
        let err = SerialHeader::build_header(Cursor::new(&bytes[..len])).unwrap_err();
        assert_eq!(err.kind, kind);
    }
}

#[test]
fn genesis_block_header_hashes_to_its_known_id() {
    // The first block of the public chain pins the byte-order convention:
    // double SHA-256 of the raw 80 bytes, reversed for display.
    let header = hex::decode(
        "0100000000000000000000000000000000000000000000000000000000000000\
         000000003ba3edfd7a7b12b27ac72c3e67768f617fc81bc3888a51323a9fb8aa\
         4b1e5e4a29ab5f49ffff001d1dac2b7c",
    )
    .unwrap();
    assert_eq!(header.len(), 80);
    let hash = BitcoinHash::hash_header(&header);
    assert_eq!(
        hex::encode(hash.bytes()),
        "000000000019d6689c085ae165831e934ff763ae46a2a6c172b3f1b60a8ce26f"
    );
}

fn block_bytes() -> Vec<u8> {
    let mut bytes = header_bytes();
    bytes.push(0x01); // one transaction
    bytes.extend(legacy_tx());
    bytes
}

fn framed(payload: &[u8]) -> Vec<u8> {
    let mut bytes = vec![0xf9, 0xbe, 0xb4, 0xd9];
    bytes.extend((payload.len() as u32).to_le_bytes());
    bytes.extend(payload);
    bytes
}

#[test]
fn block_decodes_header_hash_and_transactions() {
    let bytes = block_bytes();
    let block = SerialBlock::from_raw_data(Cursor::new(&bytes)).unwrap();
    assert_eq!(block.size() as usize, bytes.len());
    assert_eq!(block.hash().bytes().as_slice(), double_sha_reversed(&bytes[..80]).as_slice());
    assert_eq!(block.contents().header().version(), 1);
    assert_eq!(block.contents().transactions().len(), 1);
    let tx = &block.contents().transactions()[0];
    assert_eq!(tx.hash().bytes().as_slice(), double_sha_reversed(&legacy_tx()).as_slice());
}

#[test]
fn short_block_is_a_read_error() {
    let bytes = [0u8; 10];
    let err = SerialBlock::from_raw_data(Cursor::new(&bytes)).unwrap_err();
    assert_eq!(err.kind, BlockErrorKind::ReadError);
}

#[test]
fn bad_transaction_in_block_is_a_transaction_error() {
    let mut bytes = header_bytes();
    bytes.push(0x01); // one transaction announced
    bytes.extend([0x01, 0x00]); // but its bytes run out
    let err = SerialBlock::from_raw_data(Cursor::new(&bytes)).unwrap_err();
    assert_eq!(err.kind, BlockErrorKind::TransactionError);
}

#[test]
fn framer_yields_one_frame_then_clean_end() {
    // A frame of length 4 followed by exactly 4 bytes: one frame cursor
    // over those bytes, then end of stream with no error.
    let mut bytes = vec![0xf9, 0xbe, 0xb4, 0xd9, 0x04, 0x00, 0x00, 0x00];
    bytes.extend([0xde, 0xad, 0xbe, 0xef]);
    let mut cursor = Cursor::new(&bytes);
    let frame = BitcoinParser::next_frame(&mut cursor).unwrap().unwrap();
    assert_eq!(frame.get_ref(), &[0xde, 0xad, 0xbe, 0xef]);
    assert!(BitcoinParser::next_frame(&mut cursor).unwrap().is_none());
}

#[test]
fn framer_fails_on_truncated_frame_body() {
    // The frame announces 10 bytes but only 5 follow: a read error, and no
    // frame comes out.
    let mut bytes = vec![0xf9, 0xbe, 0xb4, 0xd9, 0x0a, 0x00, 0x00, 0x00];
    bytes.extend([1, 2, 3, 4, 5]);
    let mut cursor = Cursor::new(&bytes);
    let err = BitcoinParser::next_frame(&mut cursor).unwrap_err();
    assert_eq!(err.kind, ParseErrorKind::ReadError);
    assert!(matches!(err.source, Some(ParseErrorSource::Read(_))));
}

#[test]
fn framer_reports_wrong_magic() {
    let bytes = [0x11u8, 0x22, 0x33, 0x44, 0x00, 0x00, 0x00, 0x00];
    let mut cursor = Cursor::new(&bytes);
    let err = BitcoinParser::next_frame(&mut cursor).unwrap_err();
    assert_eq!(err.kind, ParseErrorKind::ReadError);
    assert_eq!(err.source, Some(ParseErrorSource::Magic(0x11223344)));
}

#[test]
fn magic_constant_matches_the_wire_delimiter() {
    assert_eq!(MAGIC_BYTES, 0xf9beb4d9);
}

#[test]
fn empty_buffer_yields_empty_chain() {
    let mut parser = BitcoinParser::new();
    let chain = parser.parse_buffer(&[]).unwrap();
    assert_eq!(chain.len(), 0);
}

#[test]
fn whole_buffer_parses_to_a_chain_in_file_order() {
    let mut buffer = framed(&block_bytes());
    buffer.extend(framed(&block_bytes()));
    let mut parser = BitcoinParser::new();
    let chain = parser.parse_buffer(&buffer).unwrap();
    assert_eq!(chain.len(), 2);
    assert_eq!(
        chain.blocks()[0].hash().bytes().as_slice(),
        double_sha_reversed(&block_bytes()[..80]).as_slice()
    );
}

#[test]
fn parse_aborts_on_first_bad_block() {
    let mut buffer = framed(&[0u8; 10]); // too short to be a block
    buffer.extend(framed(&block_bytes()));
    let mut parser = BitcoinParser::new();
    let err = parser.parse_buffer(&buffer).unwrap_err();
    assert_eq!(err.kind, ParseErrorKind::BlockError);
    match err.source {
        Some(ParseErrorSource::Block(be)) => assert_eq!(be.kind, BlockErrorKind::ReadError),
        other => panic!("unexpected source: {:?}", other),
    }
}

#[test]
fn parse_reports_wrong_magic_mid_stream() {
    let mut buffer = framed(&block_bytes());
    buffer.extend([0xaau8, 0xbb, 0xcc, 0xdd]); // garbage where magic belongs
    buffer.extend([0u8; 8]);
    let mut parser = BitcoinParser::new();
    let err = parser.parse_buffer(&buffer).unwrap_err();
    assert_eq!(err.kind, ParseErrorKind::ReadError);
    assert_eq!(err.source, Some(ParseErrorSource::Magic(0xaabbccdd)));
}

#[test]
fn transaction_segwit_flag_reflects_witnesses() {
    let utxo = Utxo::new(BitcoinHash::new(vec![0u8; 32]), 0);
    let plain = Input::new(utxo, BitcoinScript::new(vec![]), 0, None);
    let tx = Transaction::new(1, vec![plain], vec![], 0);
    assert!(!tx.segwit());

    let utxo = Utxo::new(BitcoinHash::new(vec![0u8; 32]), 0);
    let with_witness = Input::new(
        utxo,
        BitcoinScript::new(vec![]),
        0,
        Some(Witness::new(vec![vec![1, 2]])),
    );
    let tx = Transaction::new(1, vec![with_witness], vec![], 0);
    assert!(tx.segwit());
}
