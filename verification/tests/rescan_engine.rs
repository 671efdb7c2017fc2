//! Rescan engine behaviour: start height, matching, checkpointing and
//! idempotence; plus the dongle capability codecs.

use icboc::dongle::{encode_path, get_random_request, get_wallet_public_key_request,
    parse_firmware_version, parse_random, parse_signature, parse_wallet_public_key,
    sign_message_request, wallet_key_path};
use icboc::error::Error;
use icboc::getnewaddress::{GetNewAddress, Options as AddressOptions};
use icboc::rescan::{Options as RescanOptions, Rescan};
use icboc::scan::{BlockData, BlockInput, BlockOutput, TxoSet, scan_block, script_pubkey_cache};
use icboc::wallet::Wallet;

const DESC: &str = "pk(0279be667ef9dcbbac55a06295ce870b07029bfcdb2dce28d959f2815b16f81798)";

fn timestamp() -> Vec<u8> {
    b"2024-01-01 00:00:00+0000".to_vec()
}

fn funded_wallet() -> (Wallet, Vec<u8>) {
    let mut w = Wallet::new();
    w.add_descriptor(DESC.to_string());
    let a = w.add_address(0, None, timestamp(), vec![]).unwrap();
    (w, a.script_pubkey)
}

fn block_paying(spk: &[u8], txid_byte: u8) -> BlockData {
    BlockData {
        outputs: vec![
            BlockOutput { txid: vec![txid_byte; 32], vout: 0, script_pubkey: vec![0x51] },
            BlockOutput { txid: vec![txid_byte; 32], vout: 1, script_pubkey: spk.to_vec() },
        ],
        inputs: vec![],
    }
}

#[test]
fn unspecified_rescan_starts_at_lookback_margin() {
    // wallet checkpoint at height 100000
    let r = Rescan::begin(RescanOptions { start_from: None }, 100000, 100100);
    assert_eq!(r.height, 99900);
    let r2 = Rescan::begin(RescanOptions { start_from: None }, 50, 100);
    assert_eq!(r2.height, 0);
    // an explicit start below the lookback floor is clamped up to it
    let r3 = Rescan::begin(RescanOptions { start_from: Some(7) }, 100000, 100100);
    assert_eq!(r3.height, 99900);
    // one at or above the floor is used as given
    let r4 = Rescan::begin(RescanOptions { start_from: Some(99950) }, 100000, 100100);
    assert_eq!(r4.height, 99950);
}

#[test]
fn known_script_pubkey_produces_one_received_event() {
    let (w, spk) = funded_wallet();
    let cache = script_pubkey_cache(&w).unwrap();
    let mut txos = TxoSet::new();
    // a block at height 100050 paying the known script pubkey
    let block = block_paying(&spk, 0xaa);
    let (received, spent) = scan_block(&cache, &mut txos, &block);
    assert_eq!(received.len(), 1);
    assert_eq!(received[0].descriptor_index, 0);
    assert_eq!(received[0].derivation_index, 0);
    assert_eq!(received[0].txid, vec![0xaa; 32]);
    assert_eq!(received[0].vout, 1);
    assert!(spent.is_empty());
}

#[test]
fn spending_a_received_output_is_detected() {
    let (w, spk) = funded_wallet();
    let cache = script_pubkey_cache(&w).unwrap();
    let mut txos = TxoSet::new();
    let funding = block_paying(&spk, 0xbb);
    scan_block(&cache, &mut txos, &funding);
    let spend = BlockData {
        outputs: vec![],
        inputs: vec![
            BlockInput { txid: vec![0x77; 32], vout: 0 },
            BlockInput { txid: vec![0xbb; 32], vout: 1 },
        ],
    };
    let (received, spent) = scan_block(&cache, &mut txos, &spend);
    assert!(received.is_empty());
    assert_eq!(spent.len(), 1);
    assert_eq!(spent[0].txid, vec![0xbb; 32]);
    assert_eq!(spent[0].vout, 1);
    assert_eq!(spent[0].descriptor_index, 0);
    assert_eq!(spent[0].derivation_index, 0);
}

#[test]
fn rescanning_a_range_twice_yields_the_same_events() {
    let (w, spk) = funded_wallet();
    let cache = script_pubkey_cache(&w).unwrap();
    let blocks = [block_paying(&spk, 0x01), block_paying(&spk, 0x02)];

    let mut first: Vec<(Vec<u8>, u32, u32, u32)> = vec![];
    let mut txos1 = TxoSet::new();
    for b in &blocks {
        let (rec, sp) = scan_block(&cache, &mut txos1, b);
        for t in rec.iter().chain(sp.iter()) {
            first.push((t.txid.clone(), t.vout, t.descriptor_index, t.derivation_index));
        }
    }
    // same wallet state, same blocks: identical event runs
    let mut second: Vec<(Vec<u8>, u32, u32, u32)> = vec![];
    let mut txos2 = TxoSet::new();
    for b in &blocks {
        let (rec, sp) = scan_block(&cache, &mut txos2, b);
        for t in rec.iter().chain(sp.iter()) {
            second.push((t.txid.clone(), t.vout, t.descriptor_index, t.derivation_index));
        }
    }
    assert_eq!(first, second);
    assert_eq!(first.len(), 2);
}

#[test]
fn checkpoint_is_monotone_and_bounded_by_tip() {
    let mut r = Rescan::begin(RescanOptions { start_from: None }, 100000, 100100);
    // scan forward a little
    while let Some(_h) = r.next_block() {
        r.advance();
        if r.height == 100000 {
            break;
        }
    }
    let persisted = r.checkpoint_height(100000);
    assert!(persisted >= 100000);
    assert!(persisted <= 100100);
    // a rescan that started below the checkpoint never moves it back
    let low = Rescan::begin(RescanOptions { start_from: Some(10) }, 100000, 100100);
    assert_eq!(low.checkpoint_height(100000), 100000);
}

#[test]
fn checkpoint_cadence_and_tip_refresh() {
    let mut r = Rescan::begin(RescanOptions { start_from: Some(999) }, 0, 1500);
    assert!(!r.checkpoint_due());
    r.advance();
    assert_eq!(r.height, 1000);
    assert!(r.checkpoint_due());
    assert!(!r.at_tip());
    while r.next_block().is_some() {
        r.advance();
    }
    assert!(r.at_tip());
    // blocks mined during the scan extend the loop
    r.observe_tip(1501);
    assert!(!r.at_tip());
    assert_eq!(r.next_block(), Some(1500));
}

#[test]
fn rescan_from_checkpoint_finds_payment_past_it() {
    // wallet checkpoint at height 100000; a block at height 100050 pays a
    // known script pubkey
    let (mut w, spk) = funded_wallet();
    w.block_height = 100000;
    let cache = script_pubkey_cache(&w).unwrap();
    let mut txos = TxoSet::new();
    let mut engine = Rescan::begin(RescanOptions { start_from: None }, w.block_height, 100100);
    assert_eq!(engine.height, 99900);
    let mut events: Vec<(u64, u32, u32)> = vec![];
    while let Some(height) = engine.next_block() {
        let block = if height == 100050 {
            block_paying(&spk, 0xcc)
        } else {
            BlockData { outputs: vec![], inputs: vec![] }
        };
        let (received, _spent) = scan_block(&cache, &mut txos, &block);
        for t in received {
            events.push((height, t.descriptor_index, t.derivation_index));
        }
        engine.advance();
    }
    // exactly one received event, tagged with the owning pair
    assert_eq!(events, vec![(100050, 0, 0)]);
    let persisted = engine.checkpoint_height(w.block_height);
    assert_eq!(persisted, 100100);
}

#[test]
fn address_command_core_validates_and_derives() {
    let mut w = Wallet::new();
    w.add_descriptor(DESC.to_string());
    let a = GetNewAddress::execute(
        AddressOptions { descriptor: 0, index: None, note: b"note".to_vec() },
        &mut w,
        timestamp(),
    )
    .unwrap();
    assert_eq!(a.descriptor_index, 0);
    assert_eq!(a.derivation_index, 0);
    let err = GetNewAddress::execute(
        AddressOptions { descriptor: 9, index: None, note: vec![] },
        &mut w,
        timestamp(),
    )
    .unwrap_err();
    assert_eq!(err, Error::DescriptorIndexOutOfRange { index: 9, n_descriptors: 1 });
}

#[test]
fn derivation_path_encoding() {
    let path = vec![0x8001CB0Cu32, 0x80000000];
    let enc = encode_path(&path);
    assert_eq!(enc, vec![2, 0x80, 0x01, 0xcb, 0x0c, 0x80, 0x00, 0x00, 0x00]);
    assert_eq!(wallet_key_path(), vec![0x8001CB0C]);
    let frame = get_wallet_public_key_request(&wallet_key_path());
    assert_eq!(frame.instruction, 0x40);
    assert_eq!(frame.data, vec![1, 0x80, 0x01, 0xcb, 0x0c]);
}

#[test]
fn firmware_version_reply_shape() {
    let v = parse_firmware_version(&vec![0x01, 0x30, 2, 1, 0]).unwrap();
    assert_eq!((v.major, v.minor, v.patch), (2, 1, 0));
    let err = parse_firmware_version(&vec![1, 2]).unwrap_err();
    assert_eq!(
        err,
        Error::ResponseWrongLength { instruction: 0xc4, min_expected: 5, max_expected: 8, found: 2 }
    );
}

#[test]
fn wallet_public_key_reply_shape() {
    let mut data = vec![3u8, 0xaa, 0xbb, 0xcc];
    data.push(2);
    data.extend_from_slice(b"mx");
    data.extend_from_slice(&[0x11; 32]);
    let k = parse_wallet_public_key(&data).unwrap();
    assert_eq!(k.public_key, vec![0xaa, 0xbb, 0xcc]);
    assert_eq!(k.address, b"mx".to_vec());
    assert_eq!(k.chain_code, vec![0x11; 32]);
    assert_eq!(parse_wallet_public_key(&vec![5, 1]), Err(Error::UnexpectedEof));
    let mut long = data.clone();
    long.push(0);
    assert!(matches!(
        parse_wallet_public_key(&long),
        Err(Error::ResponseWrongLength { .. })
    ));
}

#[test]
fn random_and_signature_replies() {
    let frame = get_random_request(12);
    assert_eq!(frame.data, vec![12]);
    assert_eq!(parse_random(&vec![9; 12], 12), Ok(vec![9; 12]));
    assert!(parse_random(&vec![9; 11], 12).is_err());
    let sig = vec![0x30; 70];
    assert_eq!(parse_signature(&sig), Ok(sig.clone()));
    assert!(parse_signature(&vec![1, 2]).is_err());
    let msg_frame = sign_message_request(&wallet_key_path(), &b"hello".to_vec());
    assert_eq!(msg_frame.instruction, 0x4e);
    assert_eq!(&msg_frame.data[..5], &[1, 0x80, 0x01, 0xcb, 0x0c]);
    assert_eq!(&msg_frame.data[5..], b"hello");
}
